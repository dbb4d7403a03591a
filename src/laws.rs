//! What holds of the codec across calls and across encoders and decoders.
use crate::codec::{decode_step, parse_inbound, CodecError, DecodeState};
use crate::message::{
    algorithm_of_token, algorithm_token, frame_bytes, inbound_body, is_outbound, kind_of, outbound_body,
    search_kind_code, search_kind_of_code, CLoginAlgorithm, CSearchKind, DaemonMsgView, LOGIN, PING, SEARCH,
};
use crate::wire::{
    lemma_string_at, lemma_string_overrun, lemma_u32_at, string_bytes,
    take_u32, u32_at, u32_le,
};
use vstd::prelude::*;
use vstd::utf8::encode_utf8;

verus! {

/// How far into a frame's header a decoder gets once it has seen the first
/// `j` bytes of the frame: past the length at 4, past the tag at 8.
pub open spec fn header_progress(j: int) -> int {
    if j < 4 {
        0
    } else if j < 8 {
        4
    } else {
        8
    }
}

/// The state of a decoder that has consumed the first `c` bytes (0, 4 or 8)
/// of the frame of kind `kind` with body `body`.
pub open spec fn state_within(kind: u32, body: Seq<u8>, c: int) -> DecodeState {
    if c < 4 {
        DecodeState::AwaitingLength
    } else if c < 8 {
        DecodeState::AwaitingKind { body_len: body.len() as u32 }
    } else {
        DecodeState::AwaitingBody { body_len: body.len() as u32, kind }
    }
}

/// The header of a frame reads back as its total length and its tag.
proof fn lemma_header(kind: u32, body: Seq<u8>)
    requires
        body.len() + 4 <= u32::MAX,
    ensures
        u32_at(frame_bytes(kind, body), 0) == body.len() + 4,
        u32_at(frame_bytes(kind, body), 4) == kind,
        frame_bytes(kind, body).len() == body.len() + 8,
{
    let f = frame_bytes(kind, body);
    let e: Seq<u8> = Seq::empty();
    assert(f =~= e + u32_le((body.len() + 4) as u32) + (u32_le(kind) + body));
    lemma_u32_at(e, (body.len() + 4) as u32, u32_le(kind) + body);
    assert(f =~= u32_le((body.len() + 4) as u32) + u32_le(kind) + body);
    lemma_u32_at(u32_le((body.len() + 4) as u32), kind, body);
}

/// A frame that arrives in pieces yields nothing while it is incomplete: a
/// decoder that has consumed the first `c` bytes, given the frame's bytes up
/// to `j`, consumes exactly the header fields that are whole and keeps them
/// as its state, whatever the split.
pub proof fn lemma_incomplete_frame(kind: u32, body: Seq<u8>, c: int, j: int)
    requires
        body.len() + 4 <= u32::MAX,
        c == 0 || c == 4 || c == 8,
        c <= j < body.len() + 8,
    ensures
        decode_step(state_within(kind, body, c), frame_bytes(kind, body).subrange(c, j)) == (
            state_within(kind, body, header_progress(j)),
            header_progress(j) - c,
            Ok::<Option<DaemonMsgView>, CodecError>(None),
        ),
{
    reveal(decode_step);
    let f = frame_bytes(kind, body);
    lemma_header(kind, body);
    let buf = f.subrange(c, j);
    if c == 0 && j >= 4 {
        assert(u32_at(buf, 0) == u32_at(f, 0));
        let b2 = buf.subrange(4, buf.len() as int);
        assert(b2 =~= f.subrange(4, j));
        if j >= 8 {
            assert(u32_at(b2, 0) == u32_at(f, 4));
            assert(b2.subrange(4, b2.len() as int) =~= f.subrange(8, j));
        }
    } else if c == 4 && j >= 8 {
        assert(u32_at(buf, 0) == u32_at(f, 4));
    }
}

/// Once the rest of a frame is there, the next call consumes exactly that
/// rest, parses the frame's body, and leaves the decoder at the start of
/// the following frame with the bytes after it untouched.
pub proof fn lemma_complete_frame(kind: u32, body: Seq<u8>, c: int, rest: Seq<u8>)
    requires
        body.len() + 4 <= u32::MAX,
        c == 0 || c == 4 || c == 8,
    ensures
        decode_step(
            state_within(kind, body, c),
            frame_bytes(kind, body).subrange(c, body.len() + 8int) + rest,
        ) == (DecodeState::AwaitingLength, body.len() + 8 - c, parse_inbound(kind, body)),
{
    reveal(decode_step);
    let f = frame_bytes(kind, body);
    lemma_header(kind, body);
    let buf = f.subrange(c, body.len() + 8int) + rest;
    if c == 0 {
        assert(u32_at(buf, 0) == u32_at(f, 0));
        let b2 = buf.subrange(4, buf.len() as int);
        assert(b2 =~= f.subrange(4, body.len() + 8int) + rest);
        assert(u32_at(b2, 0) == u32_at(f, 4));
        let b3 = b2.subrange(4, b2.len() as int);
        assert(b3 =~= body + rest);
        assert(b3.subrange(0, body.len() as int) =~= body);
    } else if c == 4 {
        assert(u32_at(buf, 0) == u32_at(f, 4));
        let b3 = buf.subrange(4, buf.len() as int);
        assert(b3 =~= body + rest);
        assert(b3.subrange(0, body.len() as int) =~= body);
    } else {
        assert(buf =~= body + rest);
        assert(buf.subrange(0, body.len() as int) =~= body);
    }
}

/// A frame of a kind that is not inbound is consumed whole, its total
/// length and the four bytes that hold it, and yields no message; the
/// decoder is then ready for the next frame.
pub proof fn lemma_unknown_kind_skipped(kind: u32, body: Seq<u8>, rest: Seq<u8>)
    requires
        body.len() + 4 <= u32::MAX,
        kind != PING,
        kind != LOGIN,
        kind != SEARCH,
    ensures
        decode_step(DecodeState::AwaitingLength, frame_bytes(kind, body) + rest) == (
            DecodeState::AwaitingLength,
            body.len() + 8int,
            Ok::<Option<DaemonMsgView>, CodecError>(None),
        ),
{
    lemma_complete_frame(kind, body, 0, rest);
    assert(frame_bytes(kind, body).subrange(0, body.len() + 8int) =~= frame_bytes(kind, body));
}

/// Whether every string of an inbound message fits its length prefix.
pub open spec fn inbound_fits(m: DaemonMsgView) -> bool {
    match m {
        DaemonMsgView::CLogin { challenge_response, .. } => encode_utf8(challenge_response).len()
            <= u32::MAX,
        DaemonMsgView::CSearch { query, .. } => encode_utf8(query).len() <= u32::MAX,
        _ => true,
    }
}

/// The token of an algorithm names that algorithm.
proof fn lemma_token_round_trip(a: CLoginAlgorithm)
    ensures
        algorithm_of_token(algorithm_token(a)) == Some(a),
{
    let s1 = algorithm_token(CLoginAlgorithm::Sha1);
    let s2 = algorithm_token(CLoginAlgorithm::Sha256);
    let m5 = algorithm_token(CLoginAlgorithm::Md5);
    assert(s1.len() == 4 && s2.len() == 6 && m5.len() == 3);
}

#[verifier::rlimit(40)]
proof fn lemma_login_round_trip(
    algorithm: CLoginAlgorithm,
    challenge_response: Seq<char>,
    mask: u32,
)
    requires
        encode_utf8(challenge_response).len() <= u32::MAX,
    ensures
        ({
            let m = DaemonMsgView::CLogin { algorithm, challenge_response, mask };
            parse_inbound(LOGIN, inbound_body(m)) == Ok::<Option<DaemonMsgView>, CodecError>(
                Some(m),
            )
        }),
{
    let m = DaemonMsgView::CLogin { algorithm, challenge_response, mask };
    let e: Seq<u8> = Seq::empty();
    let b = inbound_body(m);
    let t = algorithm_token(algorithm);
    let ts = u32_le(t.len() as u32) + t;
    let s = string_bytes(challenge_response);
    lemma_token_round_trip(algorithm);
    assert(b =~= e + u32_le(t.len() as u32) + (t + s + u32_le(mask)));
    lemma_u32_at(e, t.len() as u32, t + s + u32_le(mask));
    assert(b.subrange(4, 4 + t.len() as int) =~= t);
    assert(b =~= ts + s + u32_le(mask));
    lemma_string_at(ts, challenge_response, u32_le(mask));
    assert(b =~= (ts + s) + u32_le(mask) + e);
    lemma_u32_at(ts + s, mask, e);
}

proof fn lemma_search_round_trip(kind: CSearchKind, query: Seq<char>)
    requires
        encode_utf8(query).len() <= u32::MAX,
    ensures
        ({
            let m = DaemonMsgView::CSearch { kind, query };
            parse_inbound(SEARCH, inbound_body(m)) == Ok::<Option<DaemonMsgView>, CodecError>(
                Some(m),
            )
        }),
{
    let m = DaemonMsgView::CSearch { kind, query };
    let e: Seq<u8> = Seq::empty();
    let b = inbound_body(m);
    let c = u32_le(search_kind_code(kind));
    assert(b =~= e + c + string_bytes(query));
    lemma_u32_at(e, search_kind_code(kind), string_bytes(query));
    assert(b =~= c + string_bytes(query) + e);
    lemma_string_at(c, query, e);
}

/// Whether `m` is an inbound message that can be framed.
pub open spec fn framable(m: DaemonMsgView) -> bool {
    &&& !is_outbound(m)
    &&& inbound_fits(m)
    &&& inbound_body(m).len() + 4 <= u32::MAX
}

/// Parsing the body that a client lays out for an inbound message gives
/// that message back.
pub proof fn lemma_inbound_round_trip(m: DaemonMsgView)
    requires
        !is_outbound(m),
        inbound_fits(m),
    ensures
        parse_inbound(kind_of(m), inbound_body(m)) == Ok::<Option<DaemonMsgView>, CodecError>(
            Some(m),
        ),
{
    match m {
        DaemonMsgView::CPing { id } => {
            let e: Seq<u8> = Seq::empty();
            assert(inbound_body(m) =~= e + u32_le(id) + e);
            lemma_u32_at(e, id, e);
        },
        DaemonMsgView::CLogin { algorithm, challenge_response, mask } => {
            lemma_login_round_trip(algorithm, challenge_response, mask);
        },
        DaemonMsgView::CSearch { kind, query } => {
            lemma_search_round_trip(kind, query);
        },
        _ => {},
    }
}

/// Whatever is encoded, the frame's total length is four (the tag) plus the
/// body's length.
pub proof fn lemma_total_length(m: DaemonMsgView)
    requires
        is_outbound(m),
        outbound_body(m).len() + 4 <= u32::MAX,
    ensures
        take_u32(frame_bytes(kind_of(m), outbound_body(m)), 0) == Some(
            ((outbound_body(m).len() + 4) as u32, 4int),
        ),
{
    lemma_header(kind_of(m), outbound_body(m));
}

/// A ping sent by this side decodes, on the other side, as the client's
/// ping with the same id: its layout is the same in both directions.
pub proof fn lemma_ping_round_trip(id: u32, rest: Seq<u8>)
    ensures
        decode_step(
            DecodeState::AwaitingLength,
            frame_bytes(
                kind_of(DaemonMsgView::SPing { id }),
                outbound_body(DaemonMsgView::SPing { id }),
            ) + rest,
        ) == (
            DecodeState::AwaitingLength,
            12int,
            Ok::<Option<DaemonMsgView>, CodecError>(Some(DaemonMsgView::CPing { id })),
        ),
{
    let body = u32_le(id);
    let f = frame_bytes(PING, body);
    lemma_complete_frame(PING, body, 0, rest);
    assert(f.subrange(0, body.len() + 8int) =~= f);
    lemma_inbound_round_trip(DaemonMsgView::CPing { id });
}

/// A search whose query declares more bytes than the body holds is
/// rejected as truncated.
pub proof fn lemma_search_query_overrun(code: u32, n: u32, tail: Seq<u8>)
    requires
        search_kind_of_code(code) is Some,
        n > tail.len(),
    ensures
        parse_inbound(SEARCH, u32_le(code) + u32_le(n) + tail) == Err::<
            Option<DaemonMsgView>,
            CodecError,
        >(CodecError::Truncated),
{
    let e: Seq<u8> = Seq::empty();
    let b = u32_le(code) + u32_le(n) + tail;
    assert(b =~= e + u32_le(code) + (u32_le(n) + tail));
    lemma_u32_at(e, code, u32_le(n) + tail);
    lemma_u32_at(u32_le(code), n, tail);
    lemma_string_overrun(b, 4);
}

} // verus!
