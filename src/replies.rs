//! Search replies and their file entries read back as they were packed.
use crate::codec::search_reply_of;
use crate::message::{
    attributes_bytes, bool_byte, file_entries_bytes, file_entry_bytes, outbound_body,
    take_attributes, take_file_entries, take_file_entry, DaemonMsgView, FileEntryView,
};
use crate::wire::{lemma_string_at, lemma_u32_at, string_bytes, take_u64, u32_le, u64_le};
use vstd::prelude::*;
use vstd::utf8::encode_utf8;

verus! {

/// A `u64` field reads back as the value that was packed, wherever it stands.
pub proof fn lemma_u64_at(pre: Seq<u8>, v: u64, rest: Seq<u8>)
    ensures
        take_u64(pre + u64_le(v) + rest, pre.len() as int) == Some((v, pre.len() + 8int)),
{
    let lo = v as u32;
    let hi = (v >> 32u64) as u32;
    let all = pre + u64_le(v) + rest;
    assert(all =~= pre + u32_le(lo) + (u32_le(hi) + rest));
    lemma_u32_at(pre, lo, u32_le(hi) + rest);
    assert(all =~= (pre + u32_le(lo)) + u32_le(hi) + rest);
    lemma_u32_at(pre + u32_le(lo), hi, rest);
    assert((((v as u32) as u64) | ((((v >> 32u64) as u32) as u64) << 32u64)) == v) by (bit_vector);
}

proof fn lemma_attributes_at(pre: Seq<u8>, a: Seq<(u32, u32)>, rest: Seq<u8>)
    ensures
        take_attributes(pre + attributes_bytes(a) + rest, pre.len() as int, a.len()) == Some(
            (a, pre.len() + attributes_bytes(a).len() as int),
        ),
    decreases a.len(),
{
    if a.len() > 0 {
        let init = a.drop_last();
        let (k, v) = a.last();
        let ib = attributes_bytes(init);
        let all = pre + attributes_bytes(a) + rest;
        assert(all =~= pre + ib + (u32_le(k) + u32_le(v) + rest));
        lemma_attributes_at(pre, init, u32_le(k) + u32_le(v) + rest);
        assert(all =~= (pre + ib) + u32_le(k) + (u32_le(v) + rest));
        lemma_u32_at(pre + ib, k, u32_le(v) + rest);
        assert(all =~= (pre + ib + u32_le(k)) + u32_le(v) + rest);
        lemma_u32_at(pre + ib + u32_le(k), v, rest);
        assert(init.push((k, v)) =~= a);
    }
}

/// Whether every length of a file entry fits its prefix.
pub open spec fn entry_fits(e: FileEntryView) -> bool {
    &&& encode_utf8(e.name).len() <= u32::MAX
    &&& encode_utf8(e.extension).len() <= u32::MAX
    &&& e.attributes.len() <= u32::MAX
}

/// A packed file entry reads back as that entry, wherever it stands.
#[verifier::rlimit(100)]
pub proof fn lemma_file_entry_at(pre: Seq<u8>, e: FileEntryView, rest: Seq<u8>)
    requires
        entry_fits(e),
    ensures
        take_file_entry(pre + file_entry_bytes(e) + rest, pre.len() as int) == Some(
            (e, pre.len() + file_entry_bytes(e).len() as int),
        ),
{
    let nb = string_bytes(e.name);
    let sb = u64_le(e.size);
    let xb = string_bytes(e.extension);
    let cb = u32_le(e.attributes.len() as u32);
    let ab = attributes_bytes(e.attributes);
    let all = pre + file_entry_bytes(e) + rest;
    assert(all =~= pre + nb + (sb + xb + cb + ab + rest));
    lemma_string_at(pre, e.name, sb + xb + cb + ab + rest);
    assert(all =~= (pre + nb) + sb + (xb + cb + ab + rest));
    lemma_u64_at(pre + nb, e.size, xb + cb + ab + rest);
    assert(all =~= (pre + nb + sb) + xb + (cb + ab + rest));
    lemma_string_at(pre + nb + sb, e.extension, cb + ab + rest);
    assert(all =~= (pre + nb + sb + xb) + cb + (ab + rest));
    lemma_u32_at(pre + nb + sb + xb, e.attributes.len() as u32, ab + rest);
    assert(all =~= (pre + nb + sb + xb + cb) + ab + rest);
    lemma_attributes_at(pre + nb + sb + xb + cb, e.attributes, rest);
}

/// Packed file entries read back as those entries, wherever they stand.
#[verifier::rlimit(100)]
pub proof fn lemma_file_entries_at(pre: Seq<u8>, es: Seq<FileEntryView>, rest: Seq<u8>)
    requires
        forall|i: int| 0 <= i < es.len() ==> entry_fits(#[trigger] es[i]),
    ensures
        take_file_entries(pre + file_entries_bytes(es) + rest, pre.len() as int, es.len())
            == Some((es, pre.len() + file_entries_bytes(es).len() as int)),
    decreases es.len(),
{
    if es.len() > 0 {
        let init = es.drop_last();
        let last = es.last();
        let ib = file_entries_bytes(init);
        let all = pre + file_entries_bytes(es) + rest;
        assert forall|i: int| 0 <= i < init.len() implies entry_fits(#[trigger] init[i]) by {
            assert(init[i] == es[i]);
        }
        assert(entry_fits(es[es.len() - 1]));
        assert(all =~= pre + ib + (file_entry_bytes(last) + rest));
        lemma_file_entries_at(pre, init, file_entry_bytes(last) + rest);
        assert(all =~= (pre + ib) + file_entry_bytes(last) + rest);
        lemma_file_entry_at(pre + ib, last, rest);
        assert(init.push(last) =~= es);
    }
}

/// Whether every length of a search reply fits its prefix.
pub open spec fn search_reply_fits(m: DaemonMsgView) -> bool {
    match m {
        DaemonMsgView::SSearchReply { username, results, locked_results, .. } => {
            &&& encode_utf8(username).len() <= u32::MAX
            &&& results.len() <= u32::MAX
            &&& locked_results.len() <= u32::MAX
            &&& forall|i: int| 0 <= i < results.len() ==> entry_fits(#[trigger] results[i])
            &&& forall|i: int|
                0 <= i < locked_results.len() ==> entry_fits(#[trigger] locked_results[i])
        },
        _ => false,
    }
}

/// A search reply that this side encodes reads back, on the receiving
/// side, as the same reply, result lists included (empty ones too).
#[verifier::rlimit(100)]
pub proof fn lemma_search_reply_round_trip(m: DaemonMsgView)
    requires
        search_reply_fits(m),
    ensures
        search_reply_of(outbound_body(m)) == Some(m),
{
    if let DaemonMsgView::SSearchReply {
        token,
        username,
        slots_free,
        average_speed,
        queue_length,
        results,
        locked_results,
    } = m {
        let e: Seq<u8> = Seq::empty();
        let b = outbound_body(m);
        let tb = u32_le(token);
        let ub = string_bytes(username);
        let fb = seq![bool_byte(slots_free)];
        let rb = file_entries_bytes(results);
        let lb = file_entries_bytes(locked_results);
        let rn = u32_le(results.len() as u32);
        let ln = u32_le(locked_results.len() as u32);
        let h = tb + ub + fb + u32_le(average_speed) + u32_le(queue_length);
        assert(b =~= e + tb + (ub + fb + u32_le(average_speed) + u32_le(queue_length) + rn + rb
            + ln + lb));
        lemma_u32_at(e, token, ub + fb + u32_le(average_speed) + u32_le(queue_length) + rn + rb + ln
            + lb);
        assert(b =~= tb + ub + (fb + u32_le(average_speed) + u32_le(queue_length) + rn + rb + ln
            + lb));
        lemma_string_at(tb, username, fb + u32_le(average_speed) + u32_le(queue_length) + rn + rb
            + ln + lb);
        assert(b[(tb.len() + ub.len()) as int] == bool_byte(slots_free));
        assert(b =~= (tb + ub + fb) + u32_le(average_speed) + (u32_le(queue_length) + rn + rb + ln
            + lb));
        lemma_u32_at(tb + ub + fb, average_speed, u32_le(queue_length) + rn + rb + ln + lb);
        assert(b =~= (tb + ub + fb + u32_le(average_speed)) + u32_le(queue_length) + (rn + rb + ln
            + lb));
        lemma_u32_at(tb + ub + fb + u32_le(average_speed), queue_length, rn + rb + ln + lb);
        assert(b =~= h + rn + (rb + ln + lb));
        lemma_u32_at(h, results.len() as u32, rb + ln + lb);
        assert(b =~= (h + rn) + rb + (ln + lb));
        lemma_file_entries_at(h + rn, results, ln + lb);
        assert(b =~= (h + rn + rb) + ln + lb);
        lemma_u32_at(h + rn + rb, locked_results.len() as u32, lb);
        assert(b =~= (h + rn + rb + ln) + lb + e);
        lemma_file_entries_at(h + rn + rb + ln, locked_results, e);
    }
}

} // verus!
