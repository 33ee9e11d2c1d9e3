use std::collections::BTreeMap;

use vstd::prelude::*;

verus! {

/// How many points a series keeps before the oldest one is dropped.
pub const SERIES_CAPACITY: usize = 100;

/// The points of one line of a chart. The point at index `i` stands at
/// position `i` on the horizontal axis, so positions rise with the index.
pub struct Series<T> {
    values: Vec<T>,
}

/// The values after one more is added: appended at the end, and where that
/// makes more than the capacity, the oldest one dropped.
pub open spec fn pushed<T>(values: Seq<T>, v: T) -> Seq<T> {
    if values.len() + 1 > SERIES_CAPACITY {
        values.push(v).drop_first()
    } else {
        values.push(v)
    }
}

impl<T> Series<T> {
    pub closed spec fn values(&self) -> Seq<T> {
        self.values@
    }
}

impl<T: Copy> Series<T> {
    pub fn new() -> (r: Self)
        ensures
            r.values() == Seq::<T>::empty(),
    {
        Series { values: Vec::new() }
    }

    pub fn push(&mut self, v: T)
        ensures
            final(self).values() == pushed(old(self).values(), v),
    {
        self.values.push(v);
        if self.values.len() > SERIES_CAPACITY {
            self.values.remove(0);
            proof {
                assert(self.values@ =~= old(self).values@.push(v).drop_first());
            }
        }
    }

    pub fn len(&self) -> (r: usize)
        ensures
            r == self.values().len(),
    {
        self.values.len()
    }

    /// The value at position `i`.
    pub fn value(&self, i: usize) -> (r: T)
        requires
            i < self.values().len(),
        ensures
            r == self.values()[i as int],
    {
        self.values[i]
    }
}

/// Values arrive in order: while the capacity is not reached, a series that
/// starts empty holds after any number of pushes exactly the values pushed,
/// the first at position 0 and each later one at the next position.
pub proof fn lemma_pushes_accumulate<T>(vs: Seq<T>, k: int)
    requires
        0 <= k <= vs.len(),
        vs.len() <= SERIES_CAPACITY,
    ensures
        pushes(Seq::empty(), vs.take(k)) == vs.take(k),
    decreases k,
{
    if k > 0 {
        lemma_pushes_accumulate(vs, k - 1);
        let t = vs.take(k);
        assert(t.drop_last() =~= vs.take(k - 1));
        assert(vs.take(k - 1).push(vs[k - 1]) =~= t);
    }
}

/// The values after pushing each of `vs` in turn.
pub open spec fn pushes<T>(values: Seq<T>, vs: Seq<T>) -> Seq<T>
    decreases vs.len(),
{
    if vs.len() == 0 {
        values
    } else {
        pushed(pushes(values, vs.drop_last()), vs.last())
    }
}

/// One line of a chart: the name it was last given and its series.
pub struct ChartLine<T> {
    pub name: String,
    pub series: Series<T>,
}

pub open spec fn line_view<T>(l: ChartLine<T>) -> (Seq<char>, Seq<T>) {
    (l.name@, l.series.values())
}

/// No series holds more points than the capacity.
pub open spec fn within_capacity<T>(m: Map<usize, (Seq<char>, Seq<T>)>) -> bool {
    forall|k: usize| m.contains_key(k) ==> #[trigger] m[k].1.len() <= SERIES_CAPACITY
}

/// The values of a line before one more is added; none for a line seen for
/// the first time.
pub open spec fn values_before<T>(m: Map<usize, (Seq<char>, Seq<T>)>, line: usize) -> Seq<T> {
    if m.contains_key(line) {
        m[line].1
    } else {
        Seq::empty()
    }
}

/// The series that a chart has gathered, by the number of the input line
/// they come from, in increasing order of line.
pub struct ChartData<T> {
    lines: BTreeMap<usize, ChartLine<T>>,
}

impl<T: Copy> ChartData<T> {
    pub closed spec fn model(&self) -> Map<usize, (Seq<char>, Seq<T>)> {
        self.lines@.map_values(|l: ChartLine<T>| line_view(l))
    }

    pub fn new() -> (r: Self)
        ensures
            r.model() == Map::<usize, (Seq<char>, Seq<T>)>::empty(),
            within_capacity(r.model()),
    {
        let r = ChartData { lines: BTreeMap::new() };
        proof {
            assert(r.model() =~= Map::<usize, (Seq<char>, Seq<T>)>::empty());
        }
        r
    }

    /// The line recorded under number `line`, if any.
    pub fn get(&self, line: usize) -> (r: Option<&ChartLine<T>>)
        ensures
            match r {
                Some(l) => self.model().contains_key(line) && self.model()[line] == line_view(*l),
                None => !self.model().contains_key(line),
            },
    {
        self.lines.get(&line)
    }

    /// All lines, by increasing line number.
    pub fn lines(&self) -> (r: &BTreeMap<usize, ChartLine<T>>)
        ensures
            r@.map_values(|l: ChartLine<T>| line_view(l)) == self.model(),
    {
        &self.lines
    }

    /// Records that input line `line` holds `value`, under `name`: the
    /// line's series gets the value (a line seen for the first time holds
    /// just that value), and the other lines stay as they are.
    pub fn record(&mut self, line: usize, name: String, value: T)
        requires
            within_capacity(old(self).model()),
        ensures
            final(self).model() == old(self).model().insert(
                line,
                (name@, pushed(values_before(old(self).model(), line), value)),
            ),
            !old(self).model().contains_key(line) ==> final(self).model()[line].1 == seq![value],
            within_capacity(final(self).model()),
    {
        let ghost m0 = self.model();
        let ghost l0 = self.lines@;
        let old_line = self.lines.remove(&line);
        let mut series = match old_line {
            Some(l) => l.series,
            None => Series::new(),
        };
        proof {
            assert(series.values() == values_before(m0, line));
        }
        series.push(value);
        self.lines.insert(line, ChartLine { name, series });
        proof {
            assert(self.lines@ == l0.remove(line).insert(line, ChartLine { name, series }));
            assert(self.model() =~= m0.insert(line, (name@, pushed(values_before(m0, line), value))));
            assert(Seq::<T>::empty().push(value) =~= seq![value]);
            assert forall|k: usize| self.model().contains_key(k) implies #[trigger] self.model()[k].1.len()
                <= SERIES_CAPACITY by {
                if k != line {
                    assert(m0.contains_key(k));
                }
            }
        }
    }
}

/// The characters of `s` with its tabs taken out.
pub open spec fn without_tabs(s: Seq<char>) -> Seq<char>
    decreases s.len(),
{
    if s.len() == 0 {
        s
    } else if s.last() == '\t' {
        without_tabs(s.drop_last())
    } else {
        without_tabs(s.drop_last()).push(s.last())
    }
}

/// What follows the first tab of a line: nothing where it has none.
pub open spec fn after_first_tab(line: Seq<char>, k: int) -> Seq<char> {
    if k < line.len() {
        line.skip(k + 1)
    } else {
        Seq::empty()
    }
}

/// Splits a line of chart input at its first tab: the text before the tab,
/// which holds the value, and the rest with its tabs taken out, which names
/// the line.
pub fn split_entry(line: &str) -> (r: (&str, Vec<char>))
    ensures
        r.0@ == line@.subrange(0, r.0@.len() as int),
        forall|j: int| 0 <= j < r.0@.len() ==> line@[j] != '\t',
        r.0@.len() == line@.len() || line@[r.0@.len() as int] == '\t',
        r.1@ == without_tabs(after_first_tab(line@, r.0@.len() as int)),
{
    let n: usize = line.unicode_len();
    let mut k: usize = 0;
    while k < n && line.get_char(k) != '\t'
        invariant
            k <= n,
            n == line@.len(),
            forall|j: int| 0 <= j < k ==> line@[j] != '\t',
        decreases n - k,
    {
        k = k + 1;
    }
    let first = line.substring_char(0, k);
    let start: usize = if k < n {
        k + 1
    } else {
        n
    };
    let mut name: Vec<char> = Vec::new();
    let mut i: usize = start;
    proof {
        assert(line@.subrange(start as int, start as int) =~= Seq::<char>::empty());
    }
    while i < n
        invariant
            start <= i <= n,
            n == line@.len(),
            name@ == without_tabs(line@.subrange(start as int, i as int)),
        decreases n - i,
    {
        let c: char = line.get_char(i);
        if c != '\t' {
            name.push(c);
        }
        proof {
            assert(line@.subrange(start as int, i + 1).drop_last() =~= line@.subrange(
                start as int,
                i as int,
            ));
        }
        i = i + 1;
    }
    proof {
        if k < n {
            assert(line@.subrange(start as int, n as int) =~= line@.skip(k + 1));
        } else {
            assert(line@.subrange(start as int, n as int) =~= Seq::<char>::empty());
        }
    }
    (first, name)
}

} // verus!
