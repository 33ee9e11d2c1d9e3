use vstd::prelude::*;

verus! {

/// The segments of a stream split on `d`, when `cur` holds the bytes read
/// since the last delimiter. A delimiter closes the segment before it; at the
/// end of the stream whatever is left forms a last segment, unless nothing is.
pub open spec fn segments_from(cur: Seq<u8>, s: Seq<u8>, d: u8) -> Seq<Seq<u8>>
    decreases s.len(),
{
    if s.len() == 0 {
        if cur.len() > 0 {
            seq![cur]
        } else {
            seq![]
        }
    } else if s[0] == d {
        seq![cur] + segments_from(seq![], s.drop_first(), d)
    } else {
        segments_from(cur.push(s[0]), s.drop_first(), d)
    }
}

/// The records of a stream: its segments, less the empty ones.
pub open spec fn records_from(cur: Seq<u8>, s: Seq<u8>, d: u8) -> Seq<Seq<u8>>
    decreases s.len(),
{
    if s.len() == 0 {
        if cur.len() > 0 {
            seq![cur]
        } else {
            seq![]
        }
    } else if s[0] == d {
        if cur.len() > 0 {
            seq![cur] + records_from(seq![], s.drop_first(), d)
        } else {
            records_from(seq![], s.drop_first(), d)
        }
    } else {
        records_from(cur.push(s[0]), s.drop_first(), d)
    }
}

pub open spec fn segments(s: Seq<u8>, d: u8) -> Seq<Seq<u8>> {
    segments_from(seq![], s, d)
}

pub open spec fn records(s: Seq<u8>, d: u8) -> Seq<Seq<u8>> {
    records_from(seq![], s, d)
}

/// Each segment followed by the delimiter, all of them in a row.
pub open spec fn rejoin(segs: Seq<Seq<u8>>, d: u8) -> Seq<u8>
    decreases segs.len(),
{
    if segs.len() == 0 {
        seq![]
    } else {
        segs[0].push(d) + rejoin(segs.drop_first(), d)
    }
}

/// The stream with a delimiter added at its end, unless it is empty or
/// already ends with one.
pub open spec fn terminated(s: Seq<u8>, d: u8) -> Seq<u8> {
    if s.len() == 0 || s.last() == d {
        s
    } else {
        s.push(d)
    }
}

pub open spec fn free_of(s: Seq<u8>, d: u8) -> bool {
    forall|i: int| 0 <= i < s.len() ==> s[i] != d
}

proof fn lemma_terminated_prefix(a: Seq<u8>, b: Seq<u8>, d: u8)
    requires
        b.len() > 0,
    ensures
        terminated(a + b, d) == a + terminated(b, d),
{
    assert((a + b).last() == b.last());
    assert((a + b).push(d) =~= a + b.push(d));
}

proof fn lemma_rejoin_segments_from(cur: Seq<u8>, s: Seq<u8>, d: u8)
    requires
        free_of(cur, d),
    ensures
        rejoin(segments_from(cur, s, d), d) == terminated(cur + s, d),
    decreases s.len(),
{
    if s.len() == 0 {
        assert(cur + s =~= cur);
        if cur.len() > 0 {
            let segs = segments_from(cur, s, d);
            assert(segs.drop_first() =~= Seq::<Seq<u8>>::empty());
            assert(cur.push(d) + Seq::<u8>::empty() =~= cur.push(d));
            assert(rejoin(segs.drop_first(), d) == Seq::<u8>::empty());
            assert(cur.last() != d);
            assert(rejoin(segs, d) == terminated(cur + s, d));
        } else {
            assert(cur =~= Seq::<u8>::empty());
        }
    } else if s[0] == d {
        let rest = s.drop_first();
        lemma_rejoin_segments_from(seq![], rest, d);
        let segs = segments_from(cur, s, d);
        assert(segs[0] == cur);
        assert(segs.drop_first() =~= segments_from(seq![], rest, d));
        assert(Seq::<u8>::empty() + rest =~= rest);
        assert(rejoin(segs, d) == cur.push(d) + terminated(rest, d));
        assert(cur + s =~= cur.push(d) + rest);
        if rest.len() == 0 {
            assert(cur.push(d) + rest =~= cur.push(d));
            assert(terminated(rest, d) =~= rest);
            assert(rejoin(segs, d) == terminated(cur + s, d));
        } else {
            lemma_terminated_prefix(cur.push(d), rest, d);
            assert(rejoin(segs, d) == terminated(cur + s, d));
        }
    } else {
        let rest = s.drop_first();
        assert(free_of(cur.push(s[0]), d));
        lemma_rejoin_segments_from(cur.push(s[0]), rest, d);
        assert(cur.push(s[0]) + rest =~= cur + s);
        assert(segments_from(cur, s, d) == segments_from(cur.push(s[0]), rest, d));
    }
}

proof fn lemma_records_are_nonempty_segments(cur: Seq<u8>, s: Seq<u8>, d: u8)
    requires
        forall|i: int|
            0 <= i < segments_from(cur, s, d).len() ==> #[trigger] segments_from(cur, s, d)[i].len()
                > 0,
    ensures
        records_from(cur, s, d) == segments_from(cur, s, d),
    decreases s.len(),
{
    if s.len() == 0 {
    } else if s[0] == d {
        let rest = s.drop_first();
        let segs = segments_from(cur, s, d);
        assert(segs[0] == cur);
        assert forall|i: int|
            0 <= i < segments_from(seq![], rest, d).len() implies #[trigger] segments_from(
            seq![],
            rest,
            d,
        )[i].len() > 0 by {
            assert(segs[i + 1] == segments_from(seq![], rest, d)[i]);
        }
        lemma_records_are_nonempty_segments(seq![], rest, d);
    } else {
        assert(segments_from(cur, s, d) == segments_from(cur.push(s[0]), s.drop_first(), d));
        lemma_records_are_nonempty_segments(cur.push(s[0]), s.drop_first(), d);
    }
}

proof fn lemma_records_from_nonempty(cur: Seq<u8>, s: Seq<u8>, d: u8)
    ensures
        forall|i: int|
            0 <= i < records_from(cur, s, d).len() ==> #[trigger] records_from(cur, s, d)[i].len()
                > 0,
    decreases s.len(),
{
    if s.len() == 0 {
        if cur.len() > 0 {
            assert(records_from(cur, s, d)[0] == cur);
        }
    } else if s[0] == d {
        let rest = s.drop_first();
        lemma_records_from_nonempty(seq![], rest, d);
        if cur.len() > 0 {
            let r = records_from(cur, s, d);
            assert forall|i: int| 0 <= i < r.len() implies #[trigger] r[i].len() > 0 by {
                if i > 0 {
                    assert(r[i] == records_from(seq![], rest, d)[i - 1]);
                }
            }
        }
    } else {
        lemma_records_from_nonempty(cur.push(s[0]), s.drop_first(), d);
        assert(records_from(cur, s, d) == records_from(cur.push(s[0]), s.drop_first(), d));
    }
}

/// Framing loses nothing: the segments of a stream, each put back in front of
/// a delimiter, give the stream again (with a delimiter added at its end if it
/// had none there). Where no segment is empty, the records are exactly the
/// segments, so rejoining the records gives the stream back too.
pub proof fn lemma_framing_round_trip(s: Seq<u8>, d: u8)
    ensures
        rejoin(segments(s, d), d) == terminated(s, d),
        (forall|i: int|
            0 <= i < segments(s, d).len() ==> #[trigger] segments(s, d)[i].len() > 0) ==> rejoin(
            records(s, d),
            d,
        ) == terminated(s, d),
{
    lemma_rejoin_segments_from(seq![], s, d);
    assert(Seq::<u8>::empty() + s =~= s);
    if forall|i: int| 0 <= i < segments(s, d).len() ==> #[trigger] segments(s, d)[i].len() > 0 {
        assert forall|i: int|
            0 <= i < segments_from(seq![], s, d).len() implies #[trigger] segments_from(
            seq![],
            s,
            d,
        )[i].len() > 0 by {
            assert(segments(s, d)[i].len() > 0);
        }
        lemma_records_are_nonempty_segments(seq![], s, d);
    }
}

/// No record is empty: two delimiters in a row emit nothing between them.
pub proof fn lemma_records_nonempty(s: Seq<u8>, d: u8)
    ensures
        forall|i: int| 0 <= i < records(s, d).len() ==> #[trigger] records(s, d)[i].len() > 0,
{
    lemma_records_from_nonempty(seq![], s, d);
}

} // verus!
