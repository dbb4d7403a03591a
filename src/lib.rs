//! A stream codec for the daemon control channel of a Soulseek-style
//! peer-to-peer protocol: length-prefixed, tagged frames in, typed messages
//! out, and back.
pub mod buffer;
pub mod codec;
pub mod laws;
pub mod message;
pub mod replies;
pub mod stream;
pub mod wire;
