//! Normalization against a reference metric's per-round call counts.
use vstd::prelude::*;
use crate::series::{points_of, Aggregator, Point};

verus! {

/// Why a dataset cannot be normalized.
#[derive(Clone, Copy, Debug, PartialEq, Eq, Structural)]
pub enum NormalizeError {
    /// The reference metric has no points.
    MissingReferenceMetric,
}

/// A point whose value is to be divided by `divisor`: the reference metric's
/// call count in the point's round, or 1 where that round has none.
#[derive(Clone, Copy, Debug, PartialEq, Eq, Structural)]
pub struct NormalizedPoint {
    pub time: i64,
    pub value_ref: usize,
    pub divisor: i64,
}

/// The reference calls recorded for round time `t`: those of the last
/// reference point at `t`, which overrides earlier ones.
pub open spec fn reference_calls_at(table: Seq<Point>, t: i64) -> Option<i64>
    decreases table.len(),
{
    if table.len() == 0 {
        None
    } else if table.last().time == t {
        Some(table.last().calls)
    } else {
        reference_calls_at(table.drop_last(), t)
    }
}

pub open spec fn divisor_for(table: Seq<Point>, t: i64) -> i64 {
    match reference_calls_at(table, t) {
        Some(c) => c,
        None => 1,
    }
}

pub open spec fn normalized(table: Seq<Point>, p: Point) -> NormalizedPoint {
    NormalizedPoint { time: p.time, value_ref: p.value_ref, divisor: divisor_for(table, p.time) }
}

/// The smallest call count among the points.
pub open spec fn min_calls(s: Seq<Point>) -> i64
    recommends
        s.len() > 0,
    decreases s.len(),
{
    if s.len() <= 1 {
        s[0].calls
    } else {
        let m = min_calls(s.drop_last());
        if s.last().calls < m { s.last().calls } else { m }
    }
}

/// Round time to reference call count, from the reference metric's series.
pub struct ReferenceTable {
    points: Vec<Point>,
}

impl ReferenceTable {
    pub closed spec fn view(&self) -> Seq<Point> {
        self.points@
    }

    pub open spec fn wf(&self) -> bool {
        self@.len() > 0
    }

    /// The table of the metric `reference`; an error where it has no points.
    pub fn build(series: &Aggregator, reference: &String) -> (r: Result<ReferenceTable, NormalizeError>)
        requires
            series.wf(),
        ensures
            points_of(series@, reference@).len() == 0 ==> r == Err::<ReferenceTable, _>(
                NormalizeError::MissingReferenceMetric,
            ),
            points_of(series@, reference@).len() > 0 ==> (r matches Ok(t) && t.wf() && t@
                == points_of(series@, reference@)),
    {
        let points = series.points_of(reference);
        if points.len() == 0 {
            Err(NormalizeError::MissingReferenceMetric)
        } else {
            Ok(ReferenceTable { points })
        }
    }

    /// The reference calls of round time `t`, if any.
    pub fn calls_at(&self, t: i64) -> (r: Option<i64>)
        ensures
            r == reference_calls_at(self@, t),
    {
        let mut n: usize = self.points.len();
        assert(self@.take(n as int) =~= self@);
        while n > 0
            invariant
                n <= self@.len(),
                reference_calls_at(self@, t) == reference_calls_at(self@.take(n as int), t),
            decreases n,
        {
            proof {
                assert(self@.take(n as int).drop_last() =~= self@.take(n - 1));
            }
            if self.points[n - 1].time == t {
                return Some(self.points[n - 1].calls);
            }
            n = n - 1;
        }
        None
    }

    /// What a value of round time `t` is divided by.
    pub fn divisor_at(&self, t: i64) -> (r: i64)
        ensures
            r == divisor_for(self@, t),
    {
        match self.calls_at(t) {
            Some(c) => c,
            None => 1,
        }
    }

    /// The fewest reference calls in any round.
    pub fn minimum_reference_calls(&self) -> (r: i64)
        requires
            self.wf(),
        ensures
            r == min_calls(self@),
            exists|i: int| 0 <= i < self@.len() && self@[i].calls == r,
            forall|i: int| 0 <= i < self@.len() ==> r <= #[trigger] self@[i].calls,
    {
        let mut m = self.points[0].calls;
        let mut i: usize = 1;
        proof {
            assert(self@.take(1).len() == 1);
        }
        while i < self.points.len()
            invariant
                self.wf(),
                1 <= i <= self@.len(),
                m == min_calls(self@.take(i as int)),
                exists|k: int| 0 <= k < i && self@[k].calls == m,
                forall|k: int| 0 <= k < i ==> m <= #[trigger] self@[k].calls,
            decreases self@.len() - i,
        {
            proof {
                assert(self@.take(i + 1).drop_last() =~= self@.take(i as int));
            }
            if self.points[i].calls < m {
                m = self.points[i].calls;
            }
            i = i + 1;
        }
        assert(self@.take(i as int) =~= self@);
        m
    }

    /// Each point of a series with the divisor of its round.
    pub fn normalize(&self, points: &Vec<Point>) -> (r: Vec<NormalizedPoint>)
        ensures
            r@ == points@.map_values(|p: Point| normalized(self@, p)),
    {
        let mut r: Vec<NormalizedPoint> = Vec::new();
        let mut i: usize = 0;
        while i < points.len()
            invariant
                i <= points@.len(),
                r@ == points@.take(i as int).map_values(|p: Point| normalized(self@, p)),
            decreases points@.len() - i,
        {
            let p = points[i];
            let d = self.divisor_at(p.time);
            r.push(NormalizedPoint { time: p.time, value_ref: p.value_ref, divisor: d });
            proof {
                assert(points@.take(i + 1) =~= points@.take(i as int).push(p));
            }
            i = i + 1;
            assert(r@ =~= points@.take(i as int).map_values(|p: Point| normalized(self@, p)));
        }
        assert(points@.take(i as int) =~= points@);
        r
    }
}

/// A normalized value times its divisor is the raw value: the divisor is the
/// reference calls of the point's round where the table has that round, and 1
/// where it has not.
pub proof fn lemma_divisor_reconstructs(table: Seq<Point>, points: Seq<Point>, i: int)
    requires
        0 <= i < points.len(),
    ensures
        ({
            let q = points.map_values(|p: Point| normalized(table, p))[i];
            &&& q.time == points[i].time
            &&& q.value_ref == points[i].value_ref
            &&& reference_calls_at(table, points[i].time) matches Some(c) ==> q.divisor == c
            &&& reference_calls_at(table, points[i].time) is None ==> q.divisor == 1
        }),
{
}

/// Normalizing the reference series by its own table divides each point by
/// its own calls where no other reference point shares its round time.
pub proof fn lemma_reference_divides_itself(table: Seq<Point>, i: int)
    requires
        0 <= i < table.len(),
        forall|j: int| 0 <= j < table.len() && j != i ==> table[j].time != table[i].time,
    ensures
        normalized(table, table[i]).divisor == table[i].calls,
    decreases table.len(),
{
    if i != table.len() - 1 {
        assert forall|j: int| 0 <= j < table.drop_last().len() && j != i implies table.drop_last()[j].time
            != table.drop_last()[i].time by {
            assert(table.drop_last()[j] == table[j]);
        }
        lemma_reference_divides_itself(table.drop_last(), i);
        assert(table.drop_last()[i] == table[i]);
    }
}

} // verus!
