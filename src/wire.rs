//! Little-endian integers and length-prefixed strings, the primitives that
//! every message body is made of.
use vstd::prelude::*;
use vstd::slice::slice_subrange;
use vstd::utf8::{decode_utf8, encode_utf8, valid_utf8};

verus! {

/// The four bytes of `v`, least significant first.
pub open spec fn u32_le(v: u32) -> Seq<u8> {
    seq![
        (v & 0xff) as u8,
        ((v >> 8u32) & 0xff) as u8,
        ((v >> 16u32) & 0xff) as u8,
        ((v >> 24u32) & 0xff) as u8,
    ]
}

/// The integer whose little-endian bytes are `b0 b1 b2 b3`.
pub open spec fn le_u32(b0: u8, b1: u8, b2: u8, b3: u8) -> u32 {
    (b0 as u32) | ((b1 as u32) << 8u32) | ((b2 as u32) << 16u32) | ((b3 as u32) << 24u32)
}

/// The eight bytes of `v`, least significant first.
pub open spec fn u64_le(v: u64) -> Seq<u8> {
    u32_le(v as u32) + u32_le((v >> 32u64) as u32)
}

/// The little-endian integer that starts at byte `p` of `s`.
pub open spec fn u32_at(s: Seq<u8>, p: int) -> u32 {
    le_u32(s[p], s[p + 1], s[p + 2], s[p + 3])
}

/// Reads a little-endian `u32` at `p`: the value and the position after it,
/// or `None` where fewer than four bytes remain.
pub open spec fn take_u32(s: Seq<u8>, p: int) -> Option<(u32, int)> {
    if 0 <= p && p + 4 <= s.len() {
        Some((u32_at(s, p), p + 4))
    } else {
        None
    }
}

/// Reads a little-endian `u64` at `p`: the value and the position after it.
pub open spec fn take_u64(s: Seq<u8>, p: int) -> Option<(u64, int)> {
    if 0 <= p && p + 8 <= s.len() {
        Some((((u32_at(s, p) as u64) | ((u32_at(s, p + 4) as u64) << 32u64)), p + 8))
    } else {
        None
    }
}

/// The characters that `String::from_utf8_lossy` gives for bytes that are not
/// valid UTF-8.
pub uninterp spec fn lossy_text(b: Seq<u8>) -> Seq<char>;

/// The text that a string field's bytes stand for: valid UTF-8 decodes to its
/// characters, anything else is decoded permissively.
pub open spec fn text_of(b: Seq<u8>) -> Seq<char> {
    if valid_utf8(b) {
        decode_utf8(b)
    } else {
        lossy_text(b)
    }
}

/// A string on the wire: its byte length, then its UTF-8 bytes.
pub open spec fn string_bytes(s: Seq<char>) -> Seq<u8> {
    u32_le(encode_utf8(s).len() as u32) + encode_utf8(s)
}

/// Reads the raw bytes of a length-prefixed string at `p`, and the position
/// after it; `None` where the declared length runs past the end of `s`.
pub open spec fn take_raw_string(s: Seq<u8>, p: int) -> Option<(Seq<u8>, int)> {
    match take_u32(s, p) {
        Some((n, q)) => if q + n <= s.len() {
            Some((s.subrange(q, q + n), q + n))
        } else {
            None
        },
        None => None,
    }
}

/// Reads a length-prefixed string at `p` as text.
pub open spec fn take_string(s: Seq<u8>, p: int) -> Option<(Seq<char>, int)> {
    match take_raw_string(s, p) {
        Some((b, q)) => Some((text_of(b), q)),
        None => None,
    }
}

/// Decoding the bytes of `v` gives `v` back.
pub proof fn lemma_u32_round_trip(v: u32)
    ensures
        le_u32(u32_le(v)[0], u32_le(v)[1], u32_le(v)[2], u32_le(v)[3]) == v,
{
    assert(((((v & 0xff) as u8) as u32) | (((((v >> 8u32) & 0xff) as u8) as u32) << 8u32) | (((((
    v >> 16u32) & 0xff) as u8) as u32) << 16u32) | (((((v >> 24u32) & 0xff) as u8) as u32)
        << 24u32)) == v) by (bit_vector);
}

/// A `u32` field reads back as the value that was packed, wherever it stands.
pub proof fn lemma_u32_at(pre: Seq<u8>, v: u32, rest: Seq<u8>)
    ensures
        take_u32(pre + u32_le(v) + rest, pre.len() as int) == Some((v, pre.len() + 4int)),
{
    let all = pre + u32_le(v) + rest;
    let n = pre.len() as int;
    lemma_u32_round_trip(v);
    assert(all[n] == u32_le(v)[0] && all[n + 1] == u32_le(v)[1] && all[n + 2] == u32_le(v)[2]
        && all[n + 3] == u32_le(v)[3]);
}

/// A string field reads back as the text that was packed, wherever it
/// stands, as long as its byte length fits the length prefix.
pub proof fn lemma_string_at(pre: Seq<u8>, s: Seq<char>, rest: Seq<u8>)
    requires
        encode_utf8(s).len() <= u32::MAX,
    ensures
        take_raw_string(pre + string_bytes(s) + rest, pre.len() as int) == Some(
            (encode_utf8(s), pre.len() + string_bytes(s).len() as int),
        ),
        take_string(pre + string_bytes(s) + rest, pre.len() as int) == Some(
            (s, pre.len() + string_bytes(s).len() as int),
        ),
{
    let e = encode_utf8(s);
    let n = pre.len() as int;
    let all = pre + string_bytes(s) + rest;
    assert(all =~= pre + u32_le(e.len() as u32) + (e + rest));
    lemma_u32_at(pre, e.len() as u32, e + rest);
    assert(all.subrange(n + 4, n + 4 + e.len()) =~= e);
    vstd::utf8::encode_utf8_valid_utf8(s);
    vstd::utf8::encode_utf8_decode_utf8(s);
}

/// A string whose declared length runs past the end of the bytes cannot be
/// read: the reader reports it rather than reading out of bounds.
pub proof fn lemma_string_overrun(s: Seq<u8>, p: int)
    requires
        0 <= p,
        p + 4 <= s.len(),
        u32_at(s, p) > s.len() - p - 4,
    ensures
        take_raw_string(s, p) is None,
        take_string(s, p) is None,
{
}

/// Appends the little-endian bytes of `v` to `out`.
pub fn put_u32_le(out: &mut Vec<u8>, v: u32)
    ensures
        final(out)@ == old(out)@ + u32_le(v),
{
    out.push((v & 0xff) as u8);
    out.push(((v >> 8u32) & 0xff) as u8);
    out.push(((v >> 16u32) & 0xff) as u8);
    out.push(((v >> 24u32) & 0xff) as u8);
    assert(out@ =~= old(out)@ + u32_le(v));
}

/// Appends the little-endian bytes of `v` to `out`.
pub fn put_u64_le(out: &mut Vec<u8>, v: u64)
    ensures
        final(out)@ == old(out)@ + u64_le(v),
{
    put_u32_le(out, v as u32);
    put_u32_le(out, (v >> 32u64) as u32);
    assert(out@ =~= old(out)@ + u64_le(v));
}

/// Appends every byte of `b` to `out`.
pub fn put_bytes(out: &mut Vec<u8>, b: &[u8])
    ensures
        final(out)@ == old(out)@ + b@,
{
    let mut i: usize = 0;
    while i < b.len()
        invariant
            i <= b@.len(),
            out@ == old(out)@ + b@.subrange(0, i as int),
        decreases b@.len() - i,
    {
        out.push(b[i]);
        i = i + 1;
        assert(out@ =~= old(out)@ + b@.subrange(0, i as int));
    }
    assert(b@.subrange(0, i as int) =~= b@);
}

/// Appends `s` to `out` as a string field: its byte length as a
/// little-endian `u32`, then its UTF-8 bytes, with no terminator.
pub fn pack_string(s: &str, out: &mut Vec<u8>)
    ensures
        final(out)@ == old(out)@ + string_bytes(s@),
{
    let b = s.as_bytes();
    put_u32_le(out, b.len() as u32);
    put_bytes(out, b);
    assert(out@ =~= old(out)@ + string_bytes(s@));
}

/// Reads a little-endian `u32` at `p` of `s`, with the position after it.
pub fn get_u32_le(s: &[u8], p: usize) -> (r: Option<(u32, usize)>)
    ensures
        r matches Some((v, q)) ==> take_u32(s@, p as int) == Some((v, q as int)),
        r is None ==> take_u32(s@, p as int) is None,
{
    if p <= s.len() && s.len() - p >= 4 {
        let v = (s[p] as u32) | ((s[p + 1] as u32) << 8u32) | ((s[p + 2] as u32) << 16u32) | ((s[p
            + 3] as u32) << 24u32);
        Some((v, p + 4))
    } else {
        None
    }
}

/// Reads a little-endian `u64` at `p` of `s`, with the position after it.
pub fn get_u64_le(s: &[u8], p: usize) -> (r: Option<(u64, usize)>)
    ensures
        r matches Some((v, q)) ==> take_u64(s@, p as int) == Some((v, q as int)),
        r is None ==> take_u64(s@, p as int) is None,
{
    if p <= s.len() && s.len() - p >= 8 {
        let lo = get_u32_le(s, p);
        let hi = get_u32_le(s, p + 4);
        match (lo, hi) {
            (Some((a, _)), Some((b, _))) => Some((((a as u64) | ((b as u64) << 32u64)), p + 8)),
            _ => None,
        }
    } else {
        None
    }
}

/// Relies on `String::from_utf8_lossy`: valid UTF-8 decodes to its characters,
/// and no input panics.
#[verifier::external_body]
fn decode_text(b: &[u8]) -> (r: String)
    ensures
        valid_utf8(b@) ==> r@ == decode_utf8(b@),
        !valid_utf8(b@) ==> r@ == lossy_text(b@),
{
    String::from_utf8_lossy(b).into_owned()
}

/// Reads the raw bytes of a length-prefixed string at `p` of `s`, with the
/// position after it; `None` where the declared length runs past the end.
pub fn read_raw_string<'a>(s: &'a [u8], p: usize) -> (r: Option<(&'a [u8], usize)>)
    ensures
        r matches Some((b, q)) ==> take_raw_string(s@, p as int) == Some((b@, q as int)),
        r is None ==> take_raw_string(s@, p as int) is None,
{
    match get_u32_le(s, p) {
        Some((n, q)) => {
            if n as usize <= s.len() - q {
                let e = q + n as usize;
                Some((slice_subrange(s, q, e), e))
            } else {
                None
            }
        },
        None => None,
    }
}

/// Reads a length-prefixed string at `p` of `s`, with the position after it;
/// `None` where the declared length runs past the end. Bytes that are not
/// valid UTF-8 are decoded permissively, never rejected.
pub fn read_string(s: &[u8], p: usize) -> (r: Option<(String, usize)>)
    ensures
        r matches Some((t, q)) ==> take_string(s@, p as int) == Some((t@, q as int)),
        r is None ==> take_string(s@, p as int) is None,
{
    match read_raw_string(s, p) {
        Some((b, q)) => Some((decode_text(b), q)),
        None => None,
    }
}

} // verus!
