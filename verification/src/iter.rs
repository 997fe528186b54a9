//! A sequential scan over a table's records.
//!
//! The iterator walks the record index in position order, carrying a running
//! byte offset, so a full scan sums each length once instead of re-summing an
//! index prefix at every position.

use vstd::prelude::*;

use crate::layout::{lemma_offset_bound, lemma_sum_take_succ, offset_of};
use crate::table::Table;

verus! {

/// A position counter and a running byte offset over a borrowed table.
pub struct TableIterator<'a> {
    table: &'a Table,
    pos: usize,
    offset: u64,
}

impl<'a> TableIterator<'a> {
    /// The table being scanned.
    pub closed spec fn tbl(&self) -> Table {
        *self.table
    }

    /// The next position to yield.
    pub closed spec fn pos_view(&self) -> int {
        self.pos as int
    }

    /// The running byte offset.
    pub closed spec fn offset_view(&self) -> u64 {
        self.offset
    }

    /// The running offset matches the next position, which has not passed the
    /// end of a well-formed table.
    pub open spec fn inv(&self) -> bool {
        &&& self.tbl().wf()
        &&& 0 <= self.pos_view() <= self.tbl().header_view().len()
        &&& self.offset_view() == offset_of(self.tbl().header_view(), self.pos_view())
    }

    /// Step to the next record: its bytes, fetched at the running offset
    /// without re-summing the index, or `None` once every position has been
    /// yielded. The scan is finite and not restartable.
    pub fn next(&mut self) -> (r: Option<Vec<u8>>)
        requires
            old(self).inv(),
        ensures
            final(self).inv(),
            final(self).tbl() == old(self).tbl(),
            r is Some <==> old(self).pos_view() < old(self).tbl()@.len(),
            old(self).pos_view() < old(self).tbl()@.len() ==> {
                &&& r.unwrap()@ == old(self).tbl()@[old(self).pos_view()]
                &&& final(self).pos_view() == old(self).pos_view() + 1
            },
            old(self).pos_view() >= old(self).tbl()@.len() ==> final(self).pos_view() == old(
                self,
            ).pos_view(),
    {
        if self.pos >= self.table.len() {
            return None;
        }
        let l = self.table.record_len(self.pos);
        proof {
            lemma_offset_bound(self.table.header_view(), self.pos as int);
        }
        let bytes = self.table.get_at(self.offset, l);
        proof {
            lemma_sum_take_succ(self.table.header_view(), self.pos as int);
            self.table.lemma_length_invariant();
        }
        self.offset = self.offset + l;
        self.pos = self.pos + 1;
        Some(bytes)
    }
}

impl Table {
    /// An iterator over the records, starting at position zero, offset zero.
    pub fn iter(&self) -> (it: TableIterator)
        requires
            self.wf(),
        ensures
            it.inv(),
            it.pos_view() == 0,
            it.tbl() == *self,
    {
        assert(self.header_view().take(0) =~= Seq::<u64>::empty());
        TableIterator { table: self, pos: 0, offset: 0 }
    }

    /// Every record, in position order, by one sequential scan: position `i`
    /// of the result is exactly the record `get(i)` reads.
    pub fn scan(&self) -> (r: Vec<Vec<u8>>)
        requires
            self.wf(),
        ensures
            r@.len() == self@.len(),
            forall|i: int| 0 <= i < self@.len() ==> r@[i]@ == self@[i],
    {
        let n = self.len();
        let mut out: Vec<Vec<u8>> = Vec::new();
        let mut it = self.iter();
        while out.len() < n
            invariant
                self.wf(),
                it.inv(),
                it.tbl() == *self,
                n == self@.len(),
                out@.len() == it.pos_view(),
                forall|i: int| 0 <= i < out@.len() ==> out@[i]@ == self@[i],
            decreases n - out@.len(),
        {
            let b = it.next().unwrap();
            out.push(b);
        }
        out
    }
}

} // verus!
