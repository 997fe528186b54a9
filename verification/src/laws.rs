//! Laws of the layout: facts that hold of every record index and data image.
//!
//! The index `h` and the image `d` are a table's persisted shape; `sum(h) ==
//! d.len()` is its well-formedness. `push` extends them to `h.push(r.len())`
//! and `d + r`; `pop` shrinks them to `h.drop_last()` and the image truncated
//! to the new sum. The laws below speak of those transitions.

use vstd::prelude::*;

use crate::layout::{
    lemma_records_pop, lemma_records_prefix, lemma_records_push, lemma_sum_push, records_of, sum,
};

verus! {

/// Round-trip: appending a record and then removing the last record yields
/// exactly the appended record and restores both the index and the data
/// image, so the record count is back to what it was.
pub proof fn lemma_push_then_pop(h: Seq<u64>, d: Seq<u8>, r: Seq<u8>)
    requires
        sum(h) == d.len(),
        r.len() <= u64::MAX,
    ensures
        records_of(h.push(r.len() as u64), d + r).last() == r,
        h.push(r.len() as u64).drop_last() == h,
        (d + r).take(sum(h.push(r.len() as u64).drop_last())) == d,
        records_of(h.push(r.len() as u64), d + r).drop_last() == records_of(h, d),
        records_of(h.push(r.len() as u64), d + r).len() == records_of(h, d).len() + 1,
{
    let lw = r.len() as u64;
    let h2 = h.push(lw);
    let d2 = d + r;
    lemma_sum_push(h, lw);
    lemma_records_push(h, d, r);
    assert(h2.drop_last() =~= h);
    assert(d2.take(sum(h)) =~= d);
    assert(records_of(h2, d2).last() == records_of(h, d).push(r).last());
    assert(records_of(h2, d2).drop_last() =~= records_of(h, d).push(r).drop_last());
    assert(records_of(h, d).push(r).drop_last() =~= records_of(h, d));
}

/// Tail-only mutation: appending a record — whatever entry `x` joins the
/// index and whatever bytes `r` extend the image — or removing the last one,
/// leaves the record at every other position exactly as it was.
pub proof fn lemma_tail_only(h: Seq<u64>, d: Seq<u8>, x: u64, r: Seq<u8>)
    requires
        sum(h) == d.len(),
    ensures
        forall|i: int|
            0 <= i < h.len() ==> records_of(h.push(x), d + r)[i] == records_of(h, d)[i],
        h.len() > 0 ==> forall|i: int|
            0 <= i < h.len() - 1 ==> records_of(h.drop_last(), d.take(sum(h.drop_last())))[i]
                == records_of(h, d)[i],
{
    lemma_records_prefix(h, d, x, r);
    if h.len() > 0 {
        lemma_records_pop(h, d);
    }
}

} // verus!
