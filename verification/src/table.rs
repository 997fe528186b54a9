//! The storage engine: a record index, its cached byte total, and the data
//! image the index describes.

use vstd::prelude::*;

use crate::codec::{decode_header, encode_header, header_decoding, header_encoding};
use crate::error::Error;
use crate::layout::{
    lemma_offset_bound, lemma_records_pop, lemma_records_push, lemma_sum_nonneg, lemma_sum_push,
    lemma_sum_take_le, lemma_sum_take_succ, offset_of, records_of, sum,
};

verus! {

/// A positional table of byte records.
///
/// `header` is the record index: one byte length per record, in position
/// order. `data` is the data image: every record's bytes, concatenated in
/// position order with nothing between them. `len` caches the sum of the
/// index, so an append does not re-sum it.
pub struct Table {
    header: Vec<u64>,
    data: Vec<u8>,
    len: u64,
}

impl View for Table {
    type V = Seq<Seq<u8>>;

    /// The table's records, in position order.
    open spec fn view(&self) -> Seq<Seq<u8>> {
        records_of(self.header_view(), self.data_view())
    }
}

impl Table {
    /// The record index.
    pub closed spec fn header_view(&self) -> Seq<u64> {
        self.header@
    }

    /// The data image.
    pub closed spec fn data_view(&self) -> Seq<u8> {
        self.data@
    }

    /// The cached total byte length.
    pub closed spec fn byte_size(&self) -> u64 {
        self.len
    }

    /// Well-formed: the cached total is the sum of the index's lengths, and
    /// the data image holds exactly that many bytes.
    pub open spec fn wf(&self) -> bool {
        &&& self.byte_size() == sum(self.header_view())
        &&& self.data_view().len() == sum(self.header_view())
    }

    /// The length invariant: a well-formed table has one record per index
    /// entry, and its data image's size is the sum of the index's lengths,
    /// which is the cached total.
    pub proof fn lemma_length_invariant(&self)
        requires
            self.wf(),
        ensures
            self@.len() == self.header_view().len(),
            self.data_view().len() == sum(self.header_view()),
            self.byte_size() == sum(self.header_view()),
    {
    }

    /// A fresh table: no records, an empty index, an empty data image.
    pub fn new() -> (t: Table)
        ensures
            t.wf(),
            t@.len() == 0,
            t.header_view().len() == 0,
            t.data_view().len() == 0,
    {
        Table { header: Vec::new(), data: Vec::new(), len: 0 }
    }

    /// Open a table from its persisted images: the header image, if the
    /// header file existed, and the data image.
    ///
    /// With no header image the table starts empty, whatever bytes were
    /// passed: a data image no index describes holds no records. With one,
    /// the image must decode to a record index, or opening fails with
    /// `Error::MsgPackDec`; the index's lengths must sum to the data image's
    /// size, or opening fails with `Error::Corrupt`.
    pub fn open(header_image: Option<&Vec<u8>>, data: Vec<u8>) -> (r: Result<Table, Error>)
        ensures
            match header_image {
                None => {
                    &&& r is Ok
                    &&& r.unwrap().wf()
                    &&& r.unwrap()@.len() == 0
                },
                Some(b) => match header_decoding(b@) {
                    None => r == Err::<Table, Error>(Error::MsgPackDec),
                    Some(h) => if sum(h) == data@.len() {
                        &&& r is Ok
                        &&& r.unwrap().wf()
                        &&& r.unwrap().header_view() == h
                        &&& r.unwrap().data_view() == data@
                        &&& r.unwrap()@ == records_of(h, data@)
                    } else {
                        r == Err::<Table, Error>(Error::Corrupt)
                    },
                },
            },
    {
        match header_image {
            None => Ok(Table { header: Vec::new(), data: Vec::new(), len: 0 }),
            Some(b) => match decode_header(b.as_slice()) {
                None => Err(Error::MsgPackDec),
                Some(header) => {
                    let data_len: u64 = data.len() as u64;
                    match checked_sum(&header) {
                        None => {
                            proof {
                                lemma_usize_fits_u64();
                            }
                            Err(Error::Corrupt)
                        },
                        Some(total) => {
                            if total == data_len {
                                Ok(Table { header, data, len: total })
                            } else {
                                Err(Error::Corrupt)
                            }
                        },
                    }
                },
            },
        }
    }

    /// The number of records.
    pub fn len(&self) -> (n: usize)
        ensures
            n == self@.len(),
    {
        self.header.len()
    }

    /// Whether the table holds no records. The same as `len() == 0`.
    pub fn is_empty(&self) -> (r: bool)
        ensures
            r <==> self@.len() == 0,
    {
        self.header.len() == 0
    }

    /// The data image's size in bytes: the sum of all record lengths.
    pub fn data_size(&self) -> (n: u64)
        requires
            self.wf(),
        ensures
            n == sum(self.header_view()),
    {
        self.len
    }

    /// The byte length of the record at `pos`.
    pub(crate) fn record_len(&self, pos: usize) -> (n: u64)
        requires
            pos < self.header_view().len(),
        ensures
            n == self.header_view()[pos as int],
    {
        self.header[pos]
    }

    /// Read the record at `pos`: its bytes from the data image, or `None`
    /// where `pos` is not below the record count. An out-of-range read is a
    /// normal outcome, never a failure.
    ///
    /// The offset is the sum of all index entries strictly before `pos`.
    pub fn get(&self, pos: usize) -> (r: Option<Vec<u8>>)
        requires
            self.wf(),
        ensures
            r is Some <==> pos < self@.len(),
            pos < self@.len() ==> r.unwrap()@ == self@[pos as int],
    {
        if pos >= self.header.len() {
            return None;
        }
        let start = self.offset_to(pos);
        let count = self.header[pos];
        proof {
            lemma_offset_bound(self.header@, pos as int);
        }
        Some(self.read_range(start, count))
    }

    /// Read `count` bytes at the absolute byte offset `start` of the data
    /// image. The caller answers for the offset: no position bound is checked
    /// here, only that the range lies inside the image.
    pub fn get_at(&self, start: u64, count: u64) -> (r: Vec<u8>)
        requires
            start + count <= self.data_view().len(),
        ensures
            r@ == self.data_view().subrange(start as int, start as int + count as int),
    {
        self.read_range(start, count)
    }

    /// Append a record's bytes as the new last record: its length joins the
    /// index, the cached total grows by it, and its bytes extend the data
    /// image. Every record at a position below the old count is untouched.
    pub fn push(&mut self, record: &Vec<u8>)
        requires
            old(self).wf(),
            sum(old(self).header_view()) + record@.len() <= u64::MAX,
        ensures
            final(self).wf(),
            final(self)@ == old(self)@.push(record@),
            forall|i: int| 0 <= i < old(self)@.len() ==> final(self)@[i] == old(self)@[i],
            final(self).header_view() == old(self).header_view().push(record@.len() as u64),
            final(self).data_view() == old(self).data_view() + record@,
    {
        let l: u64 = record.len() as u64;
        proof {
            lemma_sum_push(self.header@, l);
            lemma_sum_nonneg(self.header@);
        }
        self.header.push(l);
        self.len = self.len + l;
        let mut j: usize = 0;
        assert(record@.take(0) =~= Seq::<u8>::empty());
        assert(self.data@ =~= old(self).data@ + record@.take(0));
        while j < record.len()
            invariant
                j <= record@.len(),
                self.data@ == old(self).data@ + record@.take(j as int),
                self.header@ == old(self).header@.push(record@.len() as u64),
                self.len == old(self).len + record@.len(),
            decreases record@.len() - j,
        {
            let b = record[j];
            self.data.push(b);
            assert(self.data@ =~= old(self).data@ + record@.take(j as int + 1));
            j = j + 1;
        }
        assert(record@.take(record@.len() as int) =~= record@);
        proof {
            lemma_records_push(old(self).header@, old(self).data@, record@);
        }
    }

    /// Remove the last record and return its bytes: its length leaves the
    /// index, the cached total shrinks by it, and the data image is truncated
    /// to the new total. On an empty table nothing changes and nothing is
    /// returned. Every record at a lower position is untouched.
    pub fn pop(&mut self) -> (r: Option<Vec<u8>>)
        requires
            old(self).wf(),
        ensures
            final(self).wf(),
            r is Some <==> old(self)@.len() > 0,
            old(self)@.len() == 0 ==> *final(self) == *old(self),
            old(self)@.len() > 0 ==> {
                &&& r.unwrap()@ == old(self)@.last()
                &&& final(self)@ == old(self)@.drop_last()
                &&& final(self).header_view() == old(self).header_view().drop_last()
                &&& final(self).data_view() == old(self).data_view().take(
                    sum(final(self).header_view()),
                )
            },
    {
        if self.header.len() == 0 {
            return None;
        }
        proof {
            lemma_records_pop(self.header@, self.data@);
        }
        let l = self.header.pop().unwrap();
        let start = self.len - l;
        self.len = start;
        let rec = self.read_range(start, l);
        proof {
            lemma_usize_fits_u64();
        }
        self.data.truncate(start as usize);
        Some(rec)
    }

    /// Compute the header image: the whole record index, encoded. These are
    /// the bytes the header file must hold for `open` to rebuild this table;
    /// nothing persists the index but writing them out. It succeeds exactly
    /// when the index has no more entries than a MessagePack array can count.
    pub fn write_header(&self) -> (r: Result<Vec<u8>, Error>)
        ensures
            r is Ok <==> self.header_view().len() <= 0xFFFF_FFFF,
            r is Ok ==> r.unwrap()@ == header_encoding(self.header_view()) && header_decoding(
                r.unwrap()@,
            ) == Some(self.header_view()),
            r is Err ==> r == Err::<Vec<u8>, Error>(Error::MsgPackEnc),
    {
        if self.header.len() as u64 > 0xFFFF_FFFF {
            return Err(Error::MsgPackEnc);
        }
        Ok(encode_header(&self.header))
    }

    /// The byte offset of position `pos`: the sum of the index entries
    /// strictly before it, accumulated without re-summing.
    fn offset_to(&self, pos: usize) -> (off: u64)
        requires
            self.wf(),
            pos <= self.header_view().len(),
        ensures
            off == offset_of(self.header_view(), pos as int),
    {
        let mut off: u64 = 0;
        let mut i: usize = 0;
        assert(self.header@.take(0) =~= Seq::<u64>::empty());
        while i < pos
            invariant
                self.wf(),
                i <= pos,
                pos <= self.header@.len(),
                off == offset_of(self.header@, i as int),
            decreases pos - i,
        {
            proof {
                lemma_sum_take_succ(self.header@, i as int);
                lemma_sum_take_le(self.header@, i + 1);
                lemma_sum_nonneg(self.header@.take(i as int));
            }
            off = off + self.header[i];
            i = i + 1;
        }
        off
    }

    /// Copy `count` bytes starting at `start` out of the data image.
    fn read_range(&self, start: u64, count: u64) -> (r: Vec<u8>)
        requires
            start + count <= self.data_view().len(),
        ensures
            r@ == self.data_view().subrange(start as int, start as int + count as int),
    {
        let dlen: usize = self.data.len();
        let mut out: Vec<u8> = Vec::new();
        let mut j: u64 = 0;
        assert(out@ =~= self.data@.subrange(start as int, start as int));
        while j < count
            invariant
                start + count <= self.data@.len(),
                dlen == self.data@.len(),
                j <= count,
                out@ == self.data@.subrange(start as int, start as int + j as int),
            decreases count - j,
        {
            proof {
                lemma_usize_fits_u64();
            }
            assert((start as int) + (j as int) < (dlen as int));
            let b = self.data[(start + j) as usize];
            out.push(b);
            assert(out@ =~= self.data@.subrange(start as int, start as int + (j + 1) as int));
            j = j + 1;
        }
        out
    }
}

/// Sum a record index, or nothing where the total overflows a 64-bit length.
fn checked_sum(header: &Vec<u64>) -> (r: Option<u64>)
    ensures
        r is Some <==> sum(header@) <= u64::MAX,
        r is Some ==> r.unwrap() == sum(header@),
{
    let mut total: u64 = 0;
    let mut i: usize = 0;
    assert(header@.take(0) =~= Seq::<u64>::empty());
    while i < header.len()
        invariant
            i <= header@.len(),
            total == sum(header@.take(i as int)),
        decreases header@.len() - i,
    {
        let x = header[i];
        proof {
            lemma_sum_take_succ(header@, i as int);
            lemma_sum_take_le(header@, i + 1);
        }
        if u64::MAX - total < x {
            return None;
        }
        total = total + x;
        i = i + 1;
    }
    assert(header@.take(header@.len() as int) =~= header@);
    Some(total)
}

/// Every vector length fits in a 64-bit count.
proof fn lemma_usize_fits_u64()
    ensures
        usize::MAX <= u64::MAX,
{
}

} // verus!
