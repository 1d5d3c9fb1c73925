//! Grouping samples by metric name into per-metric series.
use vstd::prelude::*;

verus! {

/// One sample of a round. Its measured value stays with the caller, who
/// keeps the values in a table; `value_ref` is the sample's row there.
#[derive(Clone, Debug)]
pub struct RawSample {
    pub name: String,
    pub value_ref: usize,
    pub calls: i64,
}

/// One point of a metric's series.
#[derive(Clone, Copy, Debug, PartialEq, Eq, Structural)]
pub struct Point {
    pub time: i64,
    pub calls: i64,
    pub value_ref: usize,
}

/// The points of one metric, in the order they were added.
#[derive(Clone, Debug)]
pub struct MetricSeries {
    pub name: String,
    pub points: Vec<Point>,
}

impl MetricSeries {
    pub open spec fn view(&self) -> (Seq<char>, Seq<Point>) {
        (self.name@, self.points@)
    }
}

pub type SeriesView = Seq<(Seq<char>, Seq<Point>)>;

/// No metric name stands twice.
pub open spec fn names_unique(s: SeriesView) -> bool {
    forall|i: int, j: int| 0 <= i < s.len() && 0 <= j < s.len() && i != j ==> s[i].0 != s[j].0
}

pub open spec fn has_name(s: SeriesView, name: Seq<char>) -> bool {
    exists|i: int| 0 <= i < s.len() && s[i].0 == name
}

/// The points recorded under `name`; none where it is absent.
pub open spec fn points_of(s: SeriesView, name: Seq<char>) -> Seq<Point>
    decreases s.len(),
{
    if s.len() == 0 {
        seq![]
    } else if s.last().0 == name {
        s.last().1
    } else {
        points_of(s.drop_last(), name)
    }
}

/// Adds a point under a name: appended to that name's series, or a new series
/// after all others.
pub open spec fn add_point(s: SeriesView, name: Seq<char>, p: Point) -> SeriesView {
    if has_name(s, name) {
        let i = choose|i: int| 0 <= i < s.len() && s[i].0 == name;
        s.update(i, (name, s[i].1.push(p)))
    } else {
        s.push((name, seq![p]))
    }
}

/// The series that a stream of named points builds from nothing.
pub open spec fn aggregate(items: Seq<(Seq<char>, Point)>) -> SeriesView {
    add_all(seq![], items)
}

/// The points of the stream that carry `name`, in stream order.
pub open spec fn named_points(items: Seq<(Seq<char>, Point)>, name: Seq<char>) -> Seq<Point>
    decreases items.len(),
{
    if items.len() == 0 {
        seq![]
    } else if items.last().0 == name {
        named_points(items.drop_last(), name).push(items.last().1)
    } else {
        named_points(items.drop_last(), name)
    }
}

proof fn lemma_points_of_at(s: SeriesView, i: int)
    requires
        names_unique(s),
        0 <= i < s.len(),
    ensures
        points_of(s, s[i].0) == s[i].1,
    decreases s.len(),
{
    if i != s.len() - 1 {
        assert(s.drop_last()[i] == s[i]);
        lemma_points_of_at(s.drop_last(), i);
    }
}

proof fn lemma_points_of_absent(s: SeriesView, name: Seq<char>)
    requires
        !has_name(s, name),
    ensures
        points_of(s, name) == Seq::<Point>::empty(),
    decreases s.len(),
{
    if s.len() > 0 {
        assert(s.last().0 != name);
        assert(!has_name(s.drop_last(), name)) by {
            if has_name(s.drop_last(), name) {
                let k = choose|k: int| 0 <= k < s.drop_last().len() && s.drop_last()[k].0 == name;
                assert(s[k].0 == name);
            }
        }
        lemma_points_of_absent(s.drop_last(), name);
    }
}

/// Adding a point under one name extends that name's series by the point and
/// leaves every other name's series as it was; names stay unique.
pub proof fn lemma_add_point(s: SeriesView, name: Seq<char>, p: Point, m: Seq<char>)
    requires
        names_unique(s),
    ensures
        names_unique(add_point(s, name, p)),
        points_of(add_point(s, name, p), m) == if m == name {
            points_of(s, m).push(p)
        } else {
            points_of(s, m)
        },
{
    let t = add_point(s, name, p);
    if has_name(s, name) {
        let i = choose|i: int| 0 <= i < s.len() && s[i].0 == name;
        assert(names_unique(t));
        lemma_points_of_at(s, i);
        if has_name(s, m) {
            let j = choose|j: int| 0 <= j < s.len() && s[j].0 == m;
            lemma_points_of_at(s, j);
            lemma_points_of_at(t, j);
        } else {
            assert(!has_name(t, m)) by {
                if has_name(t, m) {
                    let k = choose|k: int| 0 <= k < t.len() && t[k].0 == m;
                    assert(s[k].0 == m);
                }
            }
            lemma_points_of_absent(s, m);
            lemma_points_of_absent(t, m);
        }
    } else {
        assert(names_unique(t));
        assert(t.drop_last() =~= s);
        if m == name {
            lemma_points_of_absent(s, m);
        }
    }
}

/// Every metric's series holds exactly the points of the stream that carry
/// its name, in stream order; so its length is the number of such points.
pub proof fn lemma_series_are_named_points(items: Seq<(Seq<char>, Point)>, m: Seq<char>)
    ensures
        names_unique(aggregate(items)),
        points_of(aggregate(items), m) == named_points(items, m),
        points_of(aggregate(items), m).len() == named_points(items, m).len(),
    decreases items.len(),
{
    if items.len() > 0 {
        lemma_series_are_named_points(items.drop_last(), m);
        lemma_add_point(aggregate(items.drop_last()), items.last().0, items.last().1, m);
    }
}

/// Per-metric series, built by adding named points one at a time. Metric
/// names keep the order in which they were first seen.
pub struct Aggregator {
    series: Vec<MetricSeries>,
}

impl Aggregator {
    pub closed spec fn view(&self) -> SeriesView {
        self.series@.map_values(|m: MetricSeries| m@)
    }

    pub open spec fn wf(&self) -> bool {
        names_unique(self@)
    }

    pub fn new() -> (r: Aggregator)
        ensures
            r@ == Seq::<(Seq<char>, Seq<Point>)>::empty(),
            r.wf(),
    {
        let r = Aggregator { series: Vec::new() };
        assert(r@ =~= Seq::<(Seq<char>, Seq<Point>)>::empty());
        r
    }

    /// Appends a point to the series of `name`, which is created after all
    /// others if it is new.
    pub fn add(&mut self, name: &String, p: Point)
        requires
            old(self).wf(),
        ensures
            final(self).wf(),
            final(self)@ == add_point(old(self)@, name@, p),
    {
        let ghost s = self@;
        let n = self.series.len();
        let mut i: usize = 0;
        while i < n
            invariant
                n == self.series@.len(),
                self@ == s,
                s == old(self)@,
                names_unique(s),
                i <= n,
                forall|j: int| 0 <= j < i ==> s[j].0 != name@,
            decreases n - i,
        {
            assert(self@[i as int] == self.series@[i as int]@);
            if self.series[i].name == *name {
                assert(has_name(s, name@));
                let ghost k = choose|k: int| 0 <= k < s.len() && s[k].0 == name@;
                assert(k == i as int);
                let mut m = self.series.remove(i);
                assert(m@ == s[i as int]);
                m.points.push(p);
                let ghost m_view = m@;
                assert(m_view == (name@, s[i as int].1.push(p)));
                self.series.insert(i, m);
                assert(self@ =~= s.update(i as int, m_view));
                proof {
                    lemma_add_point(s, name@, p, name@);
                }
                return;
            }
            i = i + 1;
        }
        assert(!has_name(s, name@));
        let mut points: Vec<Point> = Vec::new();
        points.push(p);
        assert(points@ =~= seq![p]);
        self.series.push(MetricSeries { name: name.clone(), points });
        assert(self@ =~= s.push((name@, seq![p])));
        proof {
            lemma_add_point(s, name@, p, name@);
        }
    }

    /// Adds every sample of one round, stamped with the round's time, in order.
    pub fn add_round(&mut self, time: i64, samples: &Vec<RawSample>)
        requires
            old(self).wf(),
        ensures
            final(self).wf(),
            final(self)@ == add_all(old(self)@, round_items(time, samples@)),
    {
        let ghost s0 = self@;
        let mut i: usize = 0;
        while i < samples.len()
            invariant
                self.wf(),
                i <= samples@.len(),
                self@ == add_all(s0, round_items(time, samples@).take(i as int)),
            decreases samples@.len() - i,
        {
            let p = Point { time, calls: samples[i].calls, value_ref: samples[i].value_ref };
            proof {
                let items = round_items(time, samples@);
                assert(items.take(i + 1).drop_last() =~= items.take(i as int));
            }
            self.add(&samples[i].name, p);
            i = i + 1;
        }
        assert(round_items(time, samples@).take(samples@.len() as int) =~= round_items(time, samples@));
    }

    /// The series of every metric, in first-seen order.
    pub fn series(&self) -> (r: &Vec<MetricSeries>)
        ensures
            r@.map_values(|m: MetricSeries| m@) == self@,
    {
        &self.series
    }

    /// The points of one metric; none where it was never seen.
    pub fn points_of(&self, name: &String) -> (r: Vec<Point>)
        requires
            self.wf(),
        ensures
            r@ == points_of(self@, name@),
    {
        let n = self.series.len();
        let mut i: usize = 0;
        while i < n
            invariant
                n == self.series@.len(),
                self.wf(),
                i <= n,
                forall|j: int| 0 <= j < i ==> self@[j].0 != name@,
            decreases n - i,
        {
            assert(self@[i as int] == self.series@[i as int]@);
            if self.series[i].name == *name {
                proof {
                    lemma_points_of_at(self@, i as int);
                }
                return self.series[i].points.clone();
            }
            i = i + 1;
        }
        proof {
            lemma_points_of_absent(self@, name@);
        }
        Vec::new()
    }
}

/// The named points that one round contributes.
pub open spec fn round_items(time: i64, samples: Seq<RawSample>) -> Seq<(Seq<char>, Point)> {
    samples.map_values(
        |x: RawSample| (x.name@, Point { time, calls: x.calls, value_ref: x.value_ref }),
    )
}

/// Adding two streams one after the other adds their concatenation.
pub proof fn lemma_add_all_concat(s: SeriesView, a: Seq<(Seq<char>, Point)>, b: Seq<(Seq<char>, Point)>)
    ensures
        add_all(add_all(s, a), b) == add_all(s, a + b),
    decreases b.len(),
{
    if b.len() > 0 {
        lemma_add_all_concat(s, a, b.drop_last());
        assert((a + b).drop_last() =~= a + b.drop_last());
        assert((a + b).last() == b.last());
    } else {
        assert(a + b =~= a);
    }
}

/// Adds a stream of named points to existing series.
pub open spec fn add_all(s: SeriesView, items: Seq<(Seq<char>, Point)>) -> SeriesView
    decreases items.len(),
{
    if items.len() == 0 {
        s
    } else {
        add_point(add_all(s, items.drop_last()), items.last().0, items.last().1)
    }
}

} // verus!
