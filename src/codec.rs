//! The frame codec: a resumable decoder for inbound frames and a stateless
//! encoder for outbound ones.
use crate::buffer::{append, bytes_held, held_len, take_front};
use crate::message::{
    read_file_entries, take_file_entries,
    algorithm_of_token, is_outbound, kind_of, outbound_body, pack_body, frame_bytes,
    search_kind_of_code, CLoginAlgorithm, CSearchKind, DaemonMsg, DaemonMsgView, LOGIN, PING,
    SEARCH,
};
use crate::wire::{
    get_u32_le, put_bytes, put_u32_le, read_raw_string, read_string, take_raw_string, take_string,
    take_u32, u32_at,
};
use vstd::prelude::*;

verus! {

/// Why a frame could not be decoded.
#[derive(Clone, Copy, Debug, PartialEq, Eq, Structural)]
pub enum CodecError {
    /// The total length is below 4, so it cannot even hold the kind tag.
    FrameTooShort,
    /// A field runs past the end of the body.
    Truncated,
    /// A login names an algorithm token that is not known.
    UnknownAlgorithm,
    /// A search names a scope code past the known ones.
    UnknownSearchKind,
    /// An outbound body too long for the length field, or a frame that the
    /// output buffer cannot grow to hold.
    FrameTooLarge,
}

/// Where the decoder stands within the current frame.
#[derive(Clone, Copy, Debug, PartialEq, Eq, Structural)]
pub enum DecodeState {
    /// Nothing of the frame has been read.
    AwaitingLength,
    /// The total length has been read; `body_len` is it less the tag.
    AwaitingKind { body_len: u32 },
    /// The length and the tag have been read.
    AwaitingBody { body_len: u32, kind: u32 },
}

/// What one decoding step yields.
pub type Decoded = Result<Option<DaemonMsgView>, CodecError>;

/// The view of a decoder's result.
pub open spec fn decoded_view(r: Result<Option<DaemonMsg>, CodecError>) -> Decoded {
    match r {
        Ok(Some(m)) => Ok(Some(m@)),
        Ok(None) => Ok(None),
        Err(e) => Err(e),
    }
}

/// Parses the body of an inbound frame of kind `kind`. Fields are read in
/// wire order and bytes past the last field are ignored. Tags that are not
/// inbound here, outbound-only ones included, give no message.
pub open spec fn parse_inbound(kind: u32, body: Seq<u8>) -> Decoded {
    if kind == PING {
        match take_u32(body, 0) {
            Some((id, _)) => Ok(Some(DaemonMsgView::CPing { id })),
            None => Err(CodecError::Truncated),
        }
    } else if kind == LOGIN {
        match take_raw_string(body, 0) {
            None => Err(CodecError::Truncated),
            Some((token, p)) => match algorithm_of_token(token) {
                None => Err(CodecError::UnknownAlgorithm),
                Some(algorithm) => match take_string(body, p) {
                    None => Err(CodecError::Truncated),
                    Some((challenge_response, q)) => match take_u32(body, q) {
                        None => Err(CodecError::Truncated),
                        Some((mask, _)) => Ok(
                            Some(DaemonMsgView::CLogin { algorithm, challenge_response, mask }),
                        ),
                    },
                },
            },
        }
    } else if kind == SEARCH {
        match take_u32(body, 0) {
            None => Err(CodecError::Truncated),
            Some((code, p)) => match search_kind_of_code(code) {
                None => Err(CodecError::UnknownSearchKind),
                Some(k) => match take_string(body, p) {
                    None => Err(CodecError::Truncated),
                    Some((query, _)) => Ok(Some(DaemonMsgView::CSearch { kind: k, query })),
                },
            },
        }
    } else {
        Ok(None)
    }
}

/// The step from `AwaitingBody`: the new state, the number of bytes
/// consumed, and the result.
pub open spec fn body_step(body_len: u32, kind: u32, buf: Seq<u8>) -> (DecodeState, int, Decoded) {
    if buf.len() < body_len {
        (DecodeState::AwaitingBody { body_len, kind }, 0, Ok(None))
    } else {
        (
            DecodeState::AwaitingLength,
            body_len as int,
            parse_inbound(kind, buf.subrange(0, body_len as int)),
        )
    }
}

/// The step from `AwaitingKind`.
pub open spec fn kind_step(body_len: u32, buf: Seq<u8>) -> (DecodeState, int, Decoded) {
    if buf.len() < 4 {
        (DecodeState::AwaitingKind { body_len }, 0, Ok(None))
    } else {
        let s = body_step(body_len, u32_at(buf, 0), buf.subrange(4, buf.len() as int));
        (s.0, s.1 + 4, s.2)
    }
}

/// The step from `AwaitingLength`.
pub open spec fn length_step(buf: Seq<u8>) -> (DecodeState, int, Decoded) {
    if buf.len() < 4 {
        (DecodeState::AwaitingLength, 0, Ok(None))
    } else if u32_at(buf, 0) < 4 {
        (DecodeState::AwaitingLength, 4, Err(CodecError::FrameTooShort))
    } else {
        let s = kind_step((u32_at(buf, 0) - 4) as u32, buf.subrange(4, buf.len() as int));
        (s.0, s.1 + 4, s.2)
    }
}

/// One call of the decoder from state `st` on buffered bytes `buf`: the next
/// state, how many bytes leave the front of the buffer, and the result.
#[verifier::opaque]
pub open spec fn decode_step(st: DecodeState, buf: Seq<u8>) -> (DecodeState, int, Decoded) {
    match st {
        DecodeState::AwaitingLength => length_step(buf),
        DecodeState::AwaitingKind { body_len } => kind_step(body_len, buf),
        DecodeState::AwaitingBody { body_len, kind } => body_step(body_len, kind, buf),
    }
}

/// Parses the body of an inbound frame.
pub fn parse_body(kind: u32, body: &[u8]) -> (r: Result<Option<DaemonMsg>, CodecError>)
    ensures
        decoded_view(r) == parse_inbound(kind, body@),
{
    if kind == PING {
        match get_u32_le(body, 0) {
            Some((id, _)) => Ok(Some(DaemonMsg::CPing { id })),
            None => Err(CodecError::Truncated),
        }
    } else if kind == LOGIN {
        match read_raw_string(body, 0) {
            None => Err(CodecError::Truncated),
            Some((token, p)) => match CLoginAlgorithm::from_token(token) {
                None => Err(CodecError::UnknownAlgorithm),
                Some(algorithm) => match read_string(body, p) {
                    None => Err(CodecError::Truncated),
                    Some((challenge_response, q)) => match get_u32_le(body, q) {
                        None => Err(CodecError::Truncated),
                        Some((mask, _)) => Ok(
                            Some(DaemonMsg::CLogin { algorithm, challenge_response, mask }),
                        ),
                    },
                },
            },
        }
    } else if kind == SEARCH {
        match get_u32_le(body, 0) {
            None => Err(CodecError::Truncated),
            Some((code, p)) => match CSearchKind::from_code(code) {
                None => Err(CodecError::UnknownSearchKind),
                Some(k) => match read_string(body, p) {
                    None => Err(CodecError::Truncated),
                    Some((query, _)) => Ok(Some(DaemonMsg::CSearch { kind: k, query })),
                },
            },
        }
    } else {
        Ok(None)
    }
}

/// Reads the body of a search reply, as a peer that receives one would:
/// the fields in wire order, a flag byte read as set when it is not 0.
pub open spec fn search_reply_of(body: Seq<u8>) -> Option<DaemonMsgView> {
    match take_u32(body, 0) {
        Some((token, p1)) => match take_string(body, p1) {
            Some((username, p2)) => if p2 < body.len() {
                let slots_free = body[p2] != 0;
                match take_u32(body, p2 + 1) {
                    Some((average_speed, p3)) => match take_u32(body, p3) {
                        Some((queue_length, p4)) => match take_u32(body, p4) {
                            Some((n, p5)) => match take_file_entries(body, p5, n as nat) {
                                Some((results, p6)) => match take_u32(body, p6) {
                                    Some((k, p7)) => match take_file_entries(body, p7, k as nat) {
                                        Some((locked_results, _)) => Some(
                                            DaemonMsgView::SSearchReply {
                                                token,
                                                username,
                                                slots_free,
                                                average_speed,
                                                queue_length,
                                                results,
                                                locked_results,
                                            },
                                        ),
                                        None => None,
                                    },
                                    None => None,
                                },
                                None => None,
                            },
                            None => None,
                        },
                        None => None,
                    },
                    None => None,
                }
            } else {
                None
            },
            None => None,
        },
        None => None,
    }
}

/// Parses the body of a search reply; `None` where a field runs past the
/// end. The decoder never calls this: search replies are only sent here.
pub fn parse_search_reply(body: &[u8]) -> (r: Option<DaemonMsg>)
    ensures
        r matches Some(m) ==> search_reply_of(body@) == Some(m@),
        r is None ==> search_reply_of(body@) is None,
{
    let (token, p1) = match get_u32_le(body, 0) {
        Some(x) => x,
        None => return None,
    };
    let (username, p2) = match read_string(body, p1) {
        Some(x) => x,
        None => return None,
    };
    if p2 >= body.len() {
        return None;
    }
    let slots_free = body[p2] != 0;
    let (average_speed, p3) = match get_u32_le(body, p2 + 1) {
        Some(x) => x,
        None => return None,
    };
    let (queue_length, p4) = match get_u32_le(body, p3) {
        Some(x) => x,
        None => return None,
    };
    let (n, p5) = match get_u32_le(body, p4) {
        Some(x) => x,
        None => return None,
    };
    let (results, p6) = match read_file_entries(body, p5, n) {
        Some(x) => x,
        None => return None,
    };
    let (k, p7) = match get_u32_le(body, p6) {
        Some(x) => x,
        None => return None,
    };
    let (locked_results, _) = match read_file_entries(body, p7, k) {
        Some(x) => x,
        None => return None,
    };
    Some(
        DaemonMsg::SSearchReply {
            token,
            username,
            slots_free,
            average_speed,
            queue_length,
            results,
            locked_results,
        },
    )
}

/// The codec of one connection's daemon channel.
pub struct DaemonMsgCodec {
    state: DecodeState,
}

impl View for DaemonMsgCodec {
    type V = DecodeState;

    closed spec fn view(&self) -> DecodeState {
        self.state
    }
}

impl DaemonMsgCodec {
    /// A codec with no frame in progress.
    pub fn new() -> (r: Self)
        ensures
            r@ == DecodeState::AwaitingLength,
    {
        DaemonMsgCodec { state: DecodeState::AwaitingLength }
    }

    /// Takes from the front of `buf` as much of the current frame as is
    /// there. Returns `Ok(None)` while the frame is incomplete or when its
    /// kind is not an inbound one; a complete frame is consumed whole and
    /// the decoder is then ready for the next.
    pub fn decode(&mut self, buf: &mut bytes::BytesMut) -> (r: Result<Option<DaemonMsg>, CodecError>)
        ensures
            ({
                let s = decode_step(old(self)@, bytes_held(*old(buf)));
                &&& final(self)@ == s.0
                &&& 0 <= s.1 <= bytes_held(*old(buf)).len()
                &&& bytes_held(*final(buf)) == bytes_held(*old(buf)).subrange(
                    s.1,
                    bytes_held(*old(buf)).len() as int,
                )
                &&& decoded_view(r) == s.2
            }),
    {
        proof {
            reveal(decode_step);
        }
        let ghost start = bytes_held(*buf);
        if let DecodeState::AwaitingLength = self.state {
            if held_len(buf) < 4 {
                return Ok(None);
            }
            let head = take_front(buf, 4);
            let len = match get_u32_le(head.as_slice(), 0) {
                Some((v, _)) => v,
                None => 0,
            };
            assert(len == u32_at(start, 0));
            if len < 4 {
                return Err(CodecError::FrameTooShort);
            }
            self.state = DecodeState::AwaitingKind { body_len: len - 4 };
        }
        let ghost mid = bytes_held(*buf);
        if let DecodeState::AwaitingKind { body_len } = self.state {
            if held_len(buf) < 4 {
                return Ok(None);
            }
            let head = take_front(buf, 4);
            let kind = match get_u32_le(head.as_slice(), 0) {
                Some((v, _)) => v,
                None => 0,
            };
            assert(kind == u32_at(mid, 0));
            self.state = DecodeState::AwaitingBody { body_len, kind };
        }
        match self.state {
            DecodeState::AwaitingBody { body_len, kind } => {
                if held_len(buf) < body_len as usize {
                    return Ok(None);
                }
                let body = take_front(buf, body_len as usize);
                self.state = DecodeState::AwaitingLength;
                parse_body(kind, body.as_slice())
            },
            _ => {
                proof {
                    assert(false);
                }
                Ok(None)
            },
        }
    }

    /// Appends the frame of an outbound message to `bytes`. The decoder's
    /// state is left as it was. Fails, appending nothing, where the body is
    /// too long for the length field or the buffer would grow past half of
    /// `isize::MAX` bytes.
    pub fn encode(&mut self, msg: DaemonMsg, bytes: &mut bytes::BytesMut) -> (r: Result<
        (),
        CodecError,
    >)
        requires
            is_outbound(msg@),
        ensures
            final(self)@ == old(self)@,
            r is Ok <==> outbound_body(msg@).len() + 4 <= u32::MAX && bytes_held(*old(bytes)).len()
                + outbound_body(msg@).len() + 8 <= isize::MAX / 2,
            r is Ok ==> bytes_held(*final(bytes)) == bytes_held(*old(bytes)) + frame_bytes(
                kind_of(msg@),
                outbound_body(msg@),
            ),
            r is Err ==> r == Err::<(), CodecError>(CodecError::FrameTooLarge) && bytes_held(
                *final(bytes),
            ) == bytes_held(*old(bytes)),
    {
        let mut body: Vec<u8> = Vec::new();
        let kind = pack_body(&msg, &mut body);
        let held = held_len(bytes);
        let room: usize = (isize::MAX / 2) as usize;
        if body.len() > 0xffff_fffb || held > room || room - held < 8 || room - held - 8 < body.len() {
            return Err(CodecError::FrameTooLarge);
        }
        let mut frame: Vec<u8> = Vec::new();
        put_u32_le(&mut frame, body.len() as u32 + 4);
        put_u32_le(&mut frame, kind);
        put_bytes(&mut frame, body.as_slice());
        append(bytes, frame.as_slice());
        Ok(())
    }
}

} // verus!
