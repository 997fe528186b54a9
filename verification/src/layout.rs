//! The byte layout of the data image, derived from the record index.
//!
//! The index is a sequence of record byte-lengths, one per record, in
//! position order. A record's offset in the data image is the sum of all
//! lengths before it; the image's size is the sum of all lengths. Nothing
//! else frames the records: the index alone describes the layout.

use vstd::prelude::*;

verus! {

/// The sum of a sequence of record lengths.
pub open spec fn sum(s: Seq<u64>) -> int
    decreases s.len(),
{
    if s.len() == 0 {
        0
    } else {
        sum(s.drop_last()) + s.last()
    }
}

/// The byte offset of the record at position `i`: the sum of all lengths
/// strictly before it.
pub open spec fn offset_of(s: Seq<u64>, i: int) -> int {
    sum(s.take(i))
}

/// The records that an index `h` lays out in a data image `d`: the record at
/// position `i` is the `h[i]` bytes starting at its offset.
pub open spec fn records_of(h: Seq<u64>, d: Seq<u8>) -> Seq<Seq<u8>> {
    Seq::new(h.len(), |i: int| d.subrange(offset_of(h, i), offset_of(h, i) + h[i]))
}

/// A sum of lengths is never negative.
pub proof fn lemma_sum_nonneg(s: Seq<u64>)
    ensures
        0 <= sum(s),
    decreases s.len(),
{
    if s.len() > 0 {
        lemma_sum_nonneg(s.drop_last());
    }
}

/// Appending one length adds exactly that length to the sum.
pub proof fn lemma_sum_push(s: Seq<u64>, x: u64)
    ensures
        sum(s.push(x)) == sum(s) + x,
{
    assert(s.push(x).drop_last() =~= s);
}

/// Extending a prefix by one entry adds that entry's length to its sum.
pub proof fn lemma_sum_take_succ(s: Seq<u64>, i: int)
    requires
        0 <= i < s.len(),
    ensures
        sum(s.take(i + 1)) == sum(s.take(i)) + s[i],
{
    assert(s.take(i + 1).drop_last() =~= s.take(i));
    assert(s.take(i + 1).last() == s[i]);
}

/// A prefix never sums to more than the whole sequence.
pub proof fn lemma_sum_take_le(s: Seq<u64>, i: int)
    requires
        0 <= i <= s.len(),
    ensures
        sum(s.take(i)) <= sum(s),
    decreases s.len(),
{
    if i == s.len() {
        assert(s.take(i) =~= s);
    } else {
        assert(s.drop_last().take(i) =~= s.take(i));
        lemma_sum_take_le(s.drop_last(), i);
    }
}

/// A record lies inside the data image: its offset plus its length is at most
/// the sum of the whole index.
pub proof fn lemma_offset_bound(s: Seq<u64>, i: int)
    requires
        0 <= i < s.len(),
    ensures
        0 <= offset_of(s, i),
        offset_of(s, i) + s[i] <= sum(s),
{
    lemma_sum_nonneg(s.take(i));
    lemma_sum_take_succ(s, i);
    lemma_sum_take_le(s, i + 1);
}

/// Extending the index by one entry, whatever it is, and the image by
/// whatever bytes, leaves the layout of every existing record unchanged: an
/// old record's offset and length depend only on the index entries before and
/// at its position, and its bytes lie below the old image's end.
pub proof fn lemma_records_prefix(h: Seq<u64>, d: Seq<u8>, x: u64, r: Seq<u8>)
    requires
        sum(h) == d.len(),
    ensures
        forall|i: int|
            0 <= i < h.len() ==> records_of(h.push(x), d + r)[i] == records_of(h, d)[i],
{
    let h2 = h.push(x);
    let d2 = d + r;
    assert forall|i: int| 0 <= i < h.len() implies records_of(h2, d2)[i] == records_of(
        h,
        d,
    )[i] by {
        assert(h2.take(i) =~= h.take(i));
        lemma_offset_bound(h, i);
        let o = offset_of(h, i);
        assert(d2.subrange(o, o + h[i]) =~= d.subrange(o, o + h[i]));
    }
}

/// Appending a record appends it to the record sequence: the new index entry
/// and the new image bytes lay out the old records followed by the new one.
pub proof fn lemma_records_push(h: Seq<u64>, d: Seq<u8>, r: Seq<u8>)
    requires
        sum(h) == d.len(),
        r.len() <= u64::MAX,
    ensures
        records_of(h.push(r.len() as u64), d + r) == records_of(h, d).push(r),
{
    let lw = r.len() as u64;
    let h2 = h.push(lw);
    let d2 = d + r;
    lemma_records_prefix(h, d, lw, r);
    assert(h2.take(h.len() as int) =~= h);
    lemma_sum_nonneg(h);
    assert(offset_of(h2, h.len() as int) == sum(h));
    assert(d2.subrange(d.len() as int, d.len() as int + r.len() as int) =~= r);
    assert(records_of(h2, d2)[h.len() as int] == r);
    assert(records_of(h2, d2) =~= records_of(h, d).push(r));
}

/// Removing the last record shortens the record sequence by exactly that
/// record: the truncated image and the shortened index lay out every earlier
/// record unchanged, and the removed record was the bytes past the new end.
pub proof fn lemma_records_pop(h: Seq<u64>, d: Seq<u8>)
    requires
        h.len() > 0,
        sum(h) == d.len(),
    ensures
        sum(h.drop_last()) == sum(h) - h.last(),
        0 <= sum(h.drop_last()) <= d.len(),
        records_of(h.drop_last(), d.take(sum(h.drop_last()))) == records_of(h, d).drop_last(),
        records_of(h, d).last() == d.subrange(sum(h.drop_last()), d.len() as int),
{
    let h2 = h.drop_last();
    lemma_sum_nonneg(h2);
    let d2 = d.take(sum(h2));
    assert forall|i: int| 0 <= i < h2.len() implies records_of(h2, d2)[i] == records_of(
        h,
        d,
    ).drop_last()[i] by {
        assert(h2.take(i) =~= h.take(i));
        lemma_offset_bound(h2, i);
        let o = offset_of(h2, i);
        assert(d2.subrange(o, o + h2[i]) =~= d.subrange(o, o + h[i]));
    }
    assert(records_of(h2, d2) =~= records_of(h, d).drop_last());
    assert(h.take(h.len() - 1) =~= h2);
    assert(offset_of(h, h.len() - 1) == sum(h2));
}

} // verus!
