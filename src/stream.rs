//! The decoder driven over a whole stream that arrives in chunks.
use crate::codec::{decode_step, CodecError, DecodeState};
use crate::laws::{
    framable, header_progress, lemma_complete_frame, lemma_incomplete_frame,
    lemma_inbound_round_trip, state_within,
};
use crate::message::{frame_bytes, inbound_body, kind_of, DaemonMsgView};
use vstd::prelude::*;

verus! {

/// Calls the decoder on `buf` from `st` for as long as each call yields a
/// message: the state and the bytes left after the last call, and the
/// messages in the order they came.
pub open spec fn drain(st: DecodeState, buf: Seq<u8>) -> (DecodeState, Seq<u8>, Seq<DaemonMsgView>)
    decreases buf.len(),
{
    let s = decode_step(st, buf);
    let left = buf.subrange(s.1, buf.len() as int);
    match s.2 {
        Ok(Some(m)) => if 0 < s.1 <= buf.len() {
            let d = drain(s.0, left);
            (d.0, d.1, seq![m] + d.2)
        } else {
            (s.0, left, seq![m])
        },
        _ => (s.0, left, Seq::empty()),
    }
}

/// A transport that drains the decoder, then appends the next chunk of
/// input to what is left, and so on: every message that comes out, in order.
pub open spec fn feed(st: DecodeState, buf: Seq<u8>, chunks: Seq<Seq<u8>>) -> Seq<DaemonMsgView>
    decreases chunks.len(),
{
    let d = drain(st, buf);
    if chunks.len() == 0 {
        d.2
    } else {
        d.2 + feed(d.0, d.1 + chunks[0], chunks.drop_first())
    }
}

/// The chunks one after another.
pub open spec fn joined(chunks: Seq<Seq<u8>>) -> Seq<u8>
    decreases chunks.len(),
{
    if chunks.len() == 0 {
        Seq::empty()
    } else {
        chunks[0] + joined(chunks.drop_first())
    }
}

/// The frame in which a client sends an inbound message.
#[verifier::opaque]
pub open spec fn inbound_frame(m: DaemonMsgView) -> Seq<u8> {
    frame_bytes(kind_of(m), inbound_body(m))
}

/// The frames of `ms`, one after another.
#[verifier::opaque]
pub open spec fn inbound_frames(ms: Seq<DaemonMsgView>) -> Seq<u8>
    decreases ms.len(),
{
    if ms.len() == 0 {
        Seq::empty()
    } else {
        inbound_frame(ms[0]) + inbound_frames(ms.drop_first())
    }
}

/// The state of a decoder that has consumed the first `c` bytes of the
/// first frame of `ms`.
spec fn state_in(ms: Seq<DaemonMsgView>, c: int) -> DecodeState {
    if ms.len() == 0 {
        DecodeState::AwaitingLength
    } else {
        state_within(kind_of(ms[0]), inbound_body(ms[0]), c)
    }
}

proof fn lemma_frames_cons(ms: Seq<DaemonMsgView>)
    ensures
        ms.len() == 0 ==> inbound_frames(ms) == Seq::<u8>::empty(),
        ms.len() > 0 ==> inbound_frames(ms) == inbound_frame(ms[0]) + inbound_frames(
            ms.drop_first(),
        ),
{
    reveal(inbound_frames);
}

proof fn lemma_frame_of(m: DaemonMsgView)
    ensures
        inbound_frame(m) == frame_bytes(kind_of(m), inbound_body(m)),
        inbound_frame(m).len() == inbound_body(m).len() + 8,
{
    reveal(inbound_frame);
}

proof fn lemma_split(f: Seq<u8>, t: Seq<u8>, c: int, e: int)
    requires
        0 <= c <= f.len() <= e <= f.len() + t.len(),
    ensures
        (f + t).subrange(c, e) == f.subrange(c, f.len() as int) + t.subrange(0, e - f.len()),
        (f + t).subrange(c, e).subrange(f.len() - c, e - c) == t.subrange(0, e - f.len()),
{
    assert((f + t).subrange(c, e) =~= f.subrange(c, f.len() as int) + t.subrange(0, e - f.len()));
    assert((f + t).subrange(c, e).subrange(f.len() - c, e - c) =~= t.subrange(0, e - f.len()));
}

proof fn lemma_drain_message(
    st: DecodeState,
    buf: Seq<u8>,
    st2: DecodeState,
    n: int,
    m: DaemonMsgView,
)
    requires
        decode_step(st, buf) == (st2, n, Ok::<Option<DaemonMsgView>, CodecError>(Some(m))),
        0 < n <= buf.len(),
    ensures
        ({
            let d = drain(st2, buf.subrange(n, buf.len() as int));
            drain(st, buf) == (d.0, d.1, seq![m] + d.2)
        }),
{
}

proof fn lemma_drain_none(st: DecodeState, buf: Seq<u8>, st2: DecodeState, n: int)
    requires
        decode_step(st, buf) == (st2, n, Ok::<Option<DaemonMsgView>, CodecError>(None)),
    ensures
        drain(st, buf) == (st2, buf.subrange(n, buf.len() as int), Seq::<DaemonMsgView>::empty()),
{
}

/// A drain that starts inside the first frame, once that frame is whole in
/// the buffer: its message comes first, then a drain from the next frame.
proof fn lemma_drain_complete(ms: Seq<DaemonMsgView>, c: int, e: int)
    requires
        framable(ms[0]),
        c == 0 || c == 4 || c == 8,
        ms.len() > 0,
        inbound_frame(ms[0]).len() <= e <= inbound_frames(ms).len(),
    ensures
        ({
            let f = inbound_frame(ms[0]);
            let rest = inbound_frames(ms.drop_first()).subrange(0, e - f.len());
            let d = drain(DecodeState::AwaitingLength, rest);
            drain(state_in(ms, c), inbound_frames(ms).subrange(c, e)) == (
                d.0,
                d.1,
                seq![ms[0]] + d.2,
            )
        }),
{
    let m = ms[0];
    let t = inbound_frames(ms.drop_first());
    let f = inbound_frame(m);
    let body = inbound_body(m);
    lemma_frames_cons(ms);
    lemma_frame_of(m);
    let rest = t.subrange(0, e - f.len());
    lemma_split(f, t, c, e);
    lemma_complete_frame(kind_of(m), body, c, rest);
    lemma_inbound_round_trip(m);
    lemma_drain_message(
        state_in(ms, c),
        inbound_frames(ms).subrange(c, e),
        DecodeState::AwaitingLength,
        f.len() - c,
        m,
    );
}

/// A drain that starts inside the first frame while that frame is not yet
/// whole: it yields nothing and consumes the header fields that are there.
proof fn lemma_drain_incomplete(ms: Seq<DaemonMsgView>, c: int, e: int)
    requires
        ms.len() > 0 ==> framable(ms[0]),
        c == 0 || c == 4 || c == 8,
        ms.len() == 0 ==> c == 0,
        c <= e <= inbound_frames(ms).len(),
        ms.len() > 0 ==> e < inbound_frame(ms[0]).len(),
    ensures
        ({
            let c2 = if ms.len() == 0 {
                0
            } else {
                header_progress(e)
            };
            drain(state_in(ms, c), inbound_frames(ms).subrange(c, e)) == (
                state_in(ms, c2),
                inbound_frames(ms).subrange(c2, e),
                Seq::<DaemonMsgView>::empty(),
            )
        }),
{
    let all = inbound_frames(ms);
    let buf = all.subrange(c, e);
    lemma_frames_cons(ms);
    if ms.len() == 0 {
        assert(buf =~= Seq::<u8>::empty());
        reveal(decode_step);
        lemma_drain_none(state_in(ms, c), buf, DecodeState::AwaitingLength, 0);
        assert(buf.subrange(0, 0) =~= all.subrange(0, e));
    } else {
        let m = ms[0];
        let f = inbound_frame(m);
        let c2 = header_progress(e);
        lemma_frame_of(m);
        assert(buf =~= f.subrange(c, e));
        lemma_incomplete_frame(kind_of(m), inbound_body(m), c, e);
        lemma_drain_none(state_in(ms, c), buf, state_in(ms, c2), c2 - c);
        assert(buf.subrange(c2 - c, buf.len() as int) =~= all.subrange(c2, e));
    }
}

/// The induction behind `lemma_chunked_stream`: the decoder has consumed the
/// first `c` bytes of the first remaining frame, holds the bytes from there
/// up to `e`, and the chunks bring the rest.
proof fn lemma_feed_from(ms: Seq<DaemonMsgView>, c: int, e: int, chunks: Seq<Seq<u8>>)
    requires
        forall|i: int| 0 <= i < ms.len() ==> framable(#[trigger] ms[i]),
        c == 0 || c == 4 || c == 8,
        ms.len() == 0 ==> c == 0,
        c <= e <= inbound_frames(ms).len(),
        joined(chunks) == inbound_frames(ms).subrange(e, inbound_frames(ms).len() as int),
    ensures
        feed(state_in(ms, c), inbound_frames(ms).subrange(c, e), chunks) == ms,
    decreases ms.len() + chunks.len(),
{
    let all = inbound_frames(ms);
    let buf = all.subrange(c, e);
    if ms.len() > 0 && e >= inbound_frame(ms[0]).len() {
        let m = ms[0];
        let f = inbound_frame(m);
        let tail = ms.drop_first();
        lemma_frames_cons(ms);
        assert(framable(ms[0]));
        lemma_drain_complete(ms, c, e);
        let rest = inbound_frames(tail).subrange(0, e - f.len());
        assert(inbound_frames(tail).subrange(e - f.len(), inbound_frames(tail).len() as int)
            =~= all.subrange(e, all.len() as int));
        assert forall|i: int| 0 <= i < tail.len() implies framable(#[trigger] tail[i]) by {
            assert(tail[i] == ms[i + 1]);
        }
        lemma_feed_from(tail, 0, e - f.len(), chunks);
        assert(feed(state_in(ms, c), buf, chunks) =~= seq![m] + feed(
            DecodeState::AwaitingLength,
            rest,
            chunks,
        ));
        assert(seq![m] + tail =~= ms);
    } else {
        let c2 = if ms.len() == 0 {
            0
        } else {
            header_progress(e)
        };
        if ms.len() > 0 {
            assert(framable(ms[0]));
        }
        lemma_drain_incomplete(ms, c, e);
        if chunks.len() == 0 {
            lemma_frames_cons(ms);
            if ms.len() > 0 {
                assert(joined(chunks).len() == 0);
            }
            assert(ms =~= Seq::<DaemonMsgView>::empty());
        } else {
            let c0 = chunks[0];
            let e2 = e + c0.len();
            let j = joined(chunks);
            assert(j == c0 + joined(chunks.drop_first()));
            assert(c0 =~= j.subrange(0, c0.len() as int));
            assert(c0 =~= all.subrange(e, e2));
            assert(all.subrange(c2, e) + c0 =~= all.subrange(c2, e2));
            assert(j.subrange(c0.len() as int, j.len() as int) =~= joined(chunks.drop_first()));
            assert(joined(chunks.drop_first()) =~= all.subrange(e2, all.len() as int));
            lemma_feed_from(ms, c2, e2, chunks.drop_first());
        }
    }
}

/// However the frames of a sequence of inbound messages are cut into chunks
/// (inside a length, inside a tag, inside a body, or not at all), feeding
/// the chunks one by one and draining the decoder after each yields exactly
/// those messages, in order.
pub proof fn lemma_chunked_stream(ms: Seq<DaemonMsgView>, chunks: Seq<Seq<u8>>)
    requires
        forall|i: int| 0 <= i < ms.len() ==> framable(#[trigger] ms[i]),
        joined(chunks) == inbound_frames(ms),
    ensures
        feed(DecodeState::AwaitingLength, Seq::empty(), chunks) == ms,
{
    let all = inbound_frames(ms);
    assert(all.subrange(0, 0) =~= Seq::<u8>::empty());
    assert(all.subrange(0, all.len() as int) =~= all);
    lemma_feed_from(ms, 0, 0, chunks);
}

} // verus!
