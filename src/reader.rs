use vstd::prelude::*;
use vstd::utf8::decode_utf8;
use vstd::utf8::valid_utf8;

use crate::framing::free_of;
use crate::framing::records_from;

verus! {

/// What each vector of a sequence holds.
pub open spec fn views(v: Seq<Vec<u8>>) -> Seq<Seq<u8>> {
    v.map_values(|x: Vec<u8>| x@)
}

/// Turns the bytes of a stream, in pieces of any size, into records: the bytes
/// between two delimiters, empty ones left out. The bytes read since the last
/// delimiter wait in `pending` until the next delimiter or the end.
pub struct RecordSplitter {
    delimiter: u8,
    pending: Vec<u8>,
}

impl RecordSplitter {
    pub closed spec fn delimiter_spec(&self) -> u8 {
        self.delimiter
    }

    /// The bytes read since the last delimiter.
    pub closed spec fn pending(&self) -> Seq<u8> {
        self.pending@
    }

    pub closed spec fn wf(&self) -> bool {
        free_of(self.pending@, self.delimiter)
    }

    pub fn new(delimiter: u8) -> (r: Self)
        ensures
            r.wf(),
            r.delimiter_spec() == delimiter,
            r.pending() == Seq::<u8>::empty(),
    {
        RecordSplitter { delimiter, pending: Vec::new() }
    }

    pub fn delimiter(&self) -> (r: u8)
        ensures
            r == self.delimiter_spec(),
    {
        self.delimiter
    }

    /// Takes the next piece of the stream and returns the records that it
    /// completes, in order. Whatever the rest of the stream is, the records
    /// returned now followed by those still to come are the records of the
    /// whole.
    pub fn feed(&mut self, bytes: &[u8]) -> (out: Vec<Vec<u8>>)
        requires
            old(self).wf(),
        ensures
            final(self).wf(),
            final(self).delimiter_spec() == old(self).delimiter_spec(),
            forall|rest: Seq<u8>|
                #[trigger] records_from(old(self).pending(), bytes@ + rest, old(self).delimiter_spec())
                    == views(out@) + records_from(
                    final(self).pending(),
                    rest,
                    old(self).delimiter_spec(),
                ),
    {
        let ghost p0 = self.pending@;
        let d: u8 = self.delimiter;
        let mut out: Vec<Vec<u8>> = Vec::new();
        let mut i: usize = 0;
        proof {
            assert forall|rest: Seq<u8>|
                #[trigger] records_from(p0, bytes@ + rest, d) == views(out@) + records_from(
                    self.pending@,
                    bytes@.skip(0) + rest,
                    d,
                ) by {
                assert(bytes@.skip(0) =~= bytes@);
                assert(views(out@) =~= Seq::<Seq<u8>>::empty());
                assert(Seq::<Seq<u8>>::empty() + records_from(p0, bytes@ + rest, d) =~= records_from(
                    p0,
                    bytes@ + rest,
                    d,
                ));
            }
        }
        while i < bytes.len()
            invariant
                0 <= i <= bytes@.len(),
                d == self.delimiter,
                free_of(self.pending@, d),
                forall|rest: Seq<u8>|
                    #[trigger] records_from(p0, bytes@ + rest, d) == views(out@)
                        + records_from(self.pending@, bytes@.skip(i as int) + rest, d),
            decreases bytes@.len() - i,
        {
            let b: u8 = bytes[i];
            let ghost pend = self.pending@;
            let ghost out0 = views(out@);
            if b == d {
                if self.pending.len() > 0 {
                    let mut rec: Vec<u8> = Vec::new();
                    std::mem::swap(&mut rec, &mut self.pending);
                    out.push(rec);
                    proof {
                        assert(views(out@) =~= out0.push(pend));
                    }
                }
            } else {
                self.pending.push(b);
            }
            proof {
                assert forall|rest: Seq<u8>|
                    #[trigger] records_from(p0, bytes@ + rest, d) == views(out@)
                        + records_from(self.pending@, bytes@.skip(i + 1) + rest, d) by {
                    let t = bytes@.skip(i as int) + rest;
                    assert(t[0] == b);
                    assert(t.drop_first() =~= bytes@.skip(i + 1) + rest);
                    if b == d && pend.len() > 0 {
                        assert(records_from(pend, t, d) == seq![pend] + records_from(
                            seq![],
                            t.drop_first(),
                            d,
                        ));
                        assert(self.pending@ =~= Seq::<u8>::empty());
                        assert(out0 + (seq![pend] + records_from(seq![], t.drop_first(), d))
                            =~= out0.push(pend) + records_from(seq![], t.drop_first(), d));
                    } else if b == d {
                        assert(pend =~= Seq::<u8>::empty());
                    }
                }
                assert(free_of(self.pending@, d));
            }
            i = i + 1;
        }
        proof {
            assert forall|rest: Seq<u8>|
                #[trigger] records_from(p0, bytes@ + rest, d) == views(out@) + records_from(
                    self.pending@,
                    rest,
                    d,
                ) by {
                assert(bytes@.skip(i as int) + rest =~= rest);
            }
        }
        out
    }

    /// Ends the stream: the bytes after the last delimiter, if there are any,
    /// form the last record.
    pub fn finish(&mut self) -> (r: Option<Vec<u8>>)
        requires
            old(self).wf(),
        ensures
            final(self).wf(),
            final(self).delimiter_spec() == old(self).delimiter_spec(),
            final(self).pending() == Seq::<u8>::empty(),
            records_from(old(self).pending(), Seq::<u8>::empty(), old(self).delimiter_spec())
                == match r {
                Some(v) => seq![v@],
                None => Seq::<Seq<u8>>::empty(),
            },
    {
        if self.pending.len() == 0 {
            None
        } else {
            let mut rec: Vec<u8> = Vec::new();
            std::mem::swap(&mut rec, &mut self.pending);
            Some(rec)
        }
    }
}

/// Relies on String::from_utf8: it accepts exactly the valid UTF-8 byte
/// sequences, and the text it returns is what those bytes encode.
#[verifier::external_body]
fn from_utf8(bytes: Vec<u8>) -> (r: Option<String>)
    ensures
        r is Some <==> valid_utf8(bytes@),
        r matches Some(s) ==> s@ == decode_utf8(bytes@),
{
    String::from_utf8(bytes).ok()
}

/// Decodes the records as UTF-8 text, in order, up to the first one that is
/// not valid text. Returns the texts decoded, and the index of that first
/// invalid record; `None` where all of them are valid.
pub fn decode_records(records: Vec<Vec<u8>>) -> (r: (Vec<String>, Option<usize>))
    ensures
        r.0@.len() <= records@.len(),
        forall|i: int|
            0 <= i < r.0@.len() ==> valid_utf8(#[trigger] records@[i]@) && r.0@[i]@ == decode_utf8(
                records@[i]@,
            ),
        r.1 is None ==> r.0@.len() == records@.len(),
        r.1 matches Some(j) ==> j == r.0@.len() && j < records@.len() && !valid_utf8(
            records@[j as int]@,
        ),
{
    let ghost all = records@;
    let mut texts: Vec<String> = Vec::new();
    let mut rest: Vec<Vec<u8>> = records;
    let n: usize = rest.len();
    let mut i: usize = 0;
    while i < n
        invariant
            n == all.len(),
            all == records@,
            0 <= i <= n,
            rest@ == all.skip(i as int),
            texts@.len() == i,
            forall|j: int| 0 <= j < i ==> valid_utf8(#[trigger] all[j]@),
            forall|j: int| 0 <= j < i ==> #[trigger] texts@[j]@ == decode_utf8(all[j]@),
        decreases n - i,
    {
        let rec = rest.remove(0);
        proof {
            assert(rest@ =~= all.skip(i + 1));
            assert(rec == all[i as int]);
        }
        match from_utf8(rec) {
            Some(t) => texts.push(t),
            None => {
                return (texts, Some(i));
            },
        }
        i = i + 1;
    }
    (texts, None)
}

} // verus!
