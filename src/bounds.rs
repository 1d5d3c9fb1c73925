//! Axis bounds, caption size and artifact names for one metric's chart.
use vstd::prelude::*;
use crate::normalize::NormalizedPoint;
use vstd::string::StringExecFns;

verus! {

/// Padding on each side of the time axis, in seconds: one hour.
pub const TIME_PADDING_SECONDS: i64 = 3600;

/// Caption size before the metric name's length is taken off.
pub const CAPTION_BASE_SIZE: i64 = 85;

pub const CAPTION_MIN_SIZE: i64 = 25;

pub const CAPTION_MAX_SIZE: i64 = 50;

/// The time axis of a chart, padded on both sides.
#[derive(Clone, Copy, Debug, PartialEq, Eq, Structural)]
pub struct TimeBounds {
    pub min_time: i64,
    pub max_time: i64,
}

pub open spec fn clamp_spec(x: int, lo: int, hi: int) -> int {
    if x < lo {
        lo
    } else if x > hi {
        hi
    } else {
        x
    }
}

/// Relies on num's `clamp`: `min` below `min`, `max` above `max`, else the
/// input; it asserts `min <= max`.
#[verifier::external_body]
fn clamp_i64(input: i64, min: i64, max: i64) -> (r: i64)
    requires
        min <= max,
    ensures
        r == clamp_spec(input as int, min as int, max as int),
{
    num::clamp(input, min, max)
}

/// Caption size for a metric name: shorter names get larger captions, within
/// fixed limits.
pub fn caption_font_size(name: &String) -> (r: i32)
    ensures
        r == clamp_spec(CAPTION_BASE_SIZE - name@.len(), CAPTION_MIN_SIZE as int, CAPTION_MAX_SIZE as int),
{
    let n = name.as_str().unicode_len();
    let len: i64 = if n > 1000 {
        1000
    } else {
        n as i64
    };
    clamp_i64(CAPTION_BASE_SIZE - len, CAPTION_MIN_SIZE, CAPTION_MAX_SIZE) as i32
}

pub open spec fn time_fits(t: i64) -> bool {
    i64::MIN + TIME_PADDING_SECONDS <= t <= i64::MAX - TIME_PADDING_SECONDS
}

pub open spec fn min_time(s: Seq<NormalizedPoint>) -> i64
    recommends
        s.len() > 0,
    decreases s.len(),
{
    if s.len() <= 1 {
        s[0].time
    } else {
        let m = min_time(s.drop_last());
        if s.last().time < m { s.last().time } else { m }
    }
}

pub open spec fn max_time(s: Seq<NormalizedPoint>) -> i64
    recommends
        s.len() > 0,
    decreases s.len(),
{
    if s.len() <= 1 {
        s[0].time
    } else {
        let m = max_time(s.drop_last());
        if s.last().time > m { s.last().time } else { m }
    }
}

proof fn lemma_time_extremes(s: Seq<NormalizedPoint>)
    requires
        s.len() > 0,
    ensures
        forall|i: int| 0 <= i < s.len() ==> min_time(s) <= #[trigger] s[i].time <= max_time(s),
        exists|i: int| 0 <= i < s.len() && s[i].time == min_time(s),
        exists|i: int| 0 <= i < s.len() && s[i].time == max_time(s),
    decreases s.len(),
{
    if s.len() > 1 {
        lemma_time_extremes(s.drop_last());
        assert forall|i: int| 0 <= i < s.len() - 1 implies #[trigger] s[i] == s.drop_last()[i] by {}
        let a = choose|i: int| 0 <= i < s.drop_last().len() && s.drop_last()[i].time == min_time(s.drop_last());
        let b = choose|i: int| 0 <= i < s.drop_last().len() && s.drop_last()[i].time == max_time(s.drop_last());
        assert(s[a] == s.drop_last()[a]);
        assert(s[b] == s.drop_last()[b]);
        let l = s.len() - 1;
        if s.last().time < min_time(s.drop_last()) {
            assert(s[l].time == min_time(s));
        } else {
            assert(s[a].time == min_time(s));
        }
        if s.last().time > max_time(s.drop_last()) {
            assert(s[l].time == max_time(s));
        } else {
            assert(s[b].time == max_time(s));
        }
    } else {
        assert(s[0].time == min_time(s));
        assert(s[0].time == max_time(s));
    }
}

/// The time axis of a series: its earliest and latest times, each padded by
/// an hour; none for an empty series.
pub fn time_bounds(points: &Vec<NormalizedPoint>) -> (r: Option<TimeBounds>)
    requires
        forall|i: int| 0 <= i < points@.len() ==> time_fits(#[trigger] points@[i].time),
    ensures
        points@.len() == 0 ==> r is None,
        points@.len() > 0 ==> r == Some(
            TimeBounds {
                min_time: (min_time(points@) - TIME_PADDING_SECONDS) as i64,
                max_time: (max_time(points@) + TIME_PADDING_SECONDS) as i64,
            },
        ),
        r matches Some(b) ==> forall|i: int| 0 <= i < points@.len() ==> b.min_time + TIME_PADDING_SECONDS
            <= #[trigger] points@[i].time <= b.max_time - TIME_PADDING_SECONDS,
{
    if points.len() == 0 {
        return None;
    }
    let mut lo = points[0].time;
    let mut hi = points[0].time;
    let mut i: usize = 1;
    assert(points@.take(1).len() == 1);
    while i < points.len()
        invariant
            1 <= i <= points@.len(),
            lo == min_time(points@.take(i as int)),
            hi == max_time(points@.take(i as int)),
        decreases points@.len() - i,
    {
        proof {
            assert(points@.take(i + 1).drop_last() =~= points@.take(i as int));
        }
        if points[i].time < lo {
            lo = points[i].time;
        }
        if points[i].time > hi {
            hi = points[i].time;
        }
        i = i + 1;
    }
    assert(points@.take(i as int) =~= points@);
    proof {
        lemma_time_extremes(points@);
    }
    Some(TimeBounds { min_time: lo - TIME_PADDING_SECONDS, max_time: hi + TIME_PADDING_SECONDS })
}

/// A character that a file name must not hold: a path separator, a
/// character that some file system reserves, or a control character.
pub open spec fn is_unsafe_file_char(c: char) -> bool {
    ||| c == '/' || c == '?' || c == '<' || c == '>' || c == '\\'
    ||| c == ':' || c == '*' || c == '|' || c == '"'
    ||| (c as u32) <= 0x1f
    ||| 0x80 <= (c as u32) <= 0x9f
}

/// What sanitize_filename makes of a name.
pub uninterp spec fn sanitized(s: Seq<char>) -> Seq<char>;

/// Relies on sanitize_filename's `sanitize_with_options`, with the rules of
/// every platform applied and unsafe characters removed: the result depends on
/// the name alone, and holds no character that its patterns remove.
#[verifier::external_body]
fn sanitize(name: &str) -> (r: String)
    ensures
        r@ == sanitized(name@),
        forall|i: int| 0 <= i < r@.len() ==> !is_unsafe_file_char(#[trigger] r@[i]),
{
    sanitize_filename::sanitize_with_options(
        name,
        sanitize_filename::Options { windows: true, truncate: true, replacement: "" },
    )
}

/// The file name, without extension, under which a metric's chart is written.
pub fn artifact_stem(metric: &String) -> (r: String)
    ensures
        r@ == sanitized(metric@),
        forall|i: int| 0 <= i < r@.len() ==> !is_unsafe_file_char(#[trigger] r@[i]),
{
    sanitize(metric.as_str())
}

/// `s` followed by `k` underscores.
pub open spec fn underscored(s: Seq<char>, k: nat) -> Seq<char> {
    s + Seq::new(k, |i: int| '_')
}

/// `name` is `base` followed by the fewest underscores that make a name
/// not among `before`.
pub open spec fn first_free(before: Seq<String>, base: Seq<char>, name: Seq<char>) -> bool {
    &&& !taken(before, name)
    &&& exists|k: nat|
        name == underscored(base, k) && forall|j: nat|
            j < k ==> taken(before, #[trigger] underscored(base, j))
}

/// Some name among `names` is `c`.
pub open spec fn taken(names: Seq<String>, c: Seq<char>) -> bool {
    exists|q: int| 0 <= q < names.len() && names[q]@ == c
}

pub open spec fn max_len(names: Seq<String>) -> int
    decreases names.len(),
{
    if names.len() == 0 {
        0
    } else {
        let m = max_len(names.drop_last());
        if names.last()@.len() > m { names.last()@.len() as int } else { m }
    }
}

proof fn lemma_max_len(names: Seq<String>, q: int)
    requires
        0 <= q < names.len(),
    ensures
        names[q]@.len() <= max_len(names),
    decreases names.len(),
{
    if q < names.len() - 1 {
        lemma_max_len(names.drop_last(), q);
        assert(names.drop_last()[q] == names[q]);
    }
}

fn is_taken(names: &Vec<String>, c: &String) -> (r: bool)
    ensures
        r == taken(names@, c@),
{
    let mut q: usize = 0;
    while q < names.len()
        invariant
            q <= names@.len(),
            forall|j: int| 0 <= j < q ==> names@[j]@ != c@,
        decreases names@.len() - q,
    {
        if names[q] == *c {
            return true;
        }
        q = q + 1;
    }
    false
}

/// The file names, without extension, of the charts of several metrics:
/// each metric's stem, followed by as few underscores as keep it apart from
/// the names given to the metrics before it. No two names are equal.
pub fn artifact_stems(metrics: &Vec<String>) -> (r: Vec<String>)
    ensures
        r@.len() == metrics@.len(),
        forall|i: int, j: int| 0 <= i < j < r@.len() ==> r@[i]@ != r@[j]@,
        forall|i: int|
            0 <= i < r@.len() ==> first_free(r@.take(i), sanitized(metrics@[i]@), #[trigger] r@[i]@),
        forall|i: int, q: int| 0 <= i < r@.len() && 0 <= q < r@[i]@.len() ==> !is_unsafe_file_char(
            #[trigger] r@[i]@[q],
        ),
{
    let mut r: Vec<String> = Vec::new();
    let mut i: usize = 0;
    while i < metrics.len()
        invariant
            i <= metrics@.len(),
            r@.len() == i,
            forall|a: int, b: int| 0 <= a < b < r@.len() ==> r@[a]@ != r@[b]@,
            forall|a: int|
                0 <= a < r@.len() ==> first_free(
                    r@.take(a),
                    sanitized(metrics@[a]@),
                    #[trigger] r@[a]@,
                ),
            forall|a: int, q: int| 0 <= a < r@.len() && 0 <= q < r@[a]@.len() ==> !is_unsafe_file_char(
                #[trigger] r@[a]@[q],
            ),
        decreases metrics@.len() - i,
    {
        let base = artifact_stem(&metrics[i]);
        let mut cand = base.clone();
        let ghost mut k: nat = 0;
        let ghost bound = max_len(r@);
        proof {
            assert(cand@ =~= underscored(base@, 0));
        }
        while is_taken(&r, &cand)
            invariant
                bound == max_len(r@),
                cand@ == underscored(base@, k),
                forall|j: nat| j < k ==> taken(r@, #[trigger] underscored(base@, j)),
                forall|q: int| 0 <= q < cand@.len() ==> !is_unsafe_file_char(#[trigger] cand@[q]),
            decreases bound + 1 - cand@.len(),
        {
            proof {
                let q = choose|q: int| 0 <= q < r@.len() && r@[q]@ == cand@;
                lemma_max_len(r@, q);
                reveal_strlit("_");
            }
            let ghost before = cand@;
            cand.append("_");
            proof {
                assert(taken(r@, underscored(base@, k)));
                assert(cand@ =~= underscored(base@, k + 1));
                k = k + 1;
                assert forall|q: int| 0 <= q < cand@.len() implies !is_unsafe_file_char(
                    #[trigger] cand@[q],
                ) by {
                    if q < before.len() {
                        assert(cand@[q] == before[q]);
                    }
                }
            }
        }
        let ghost prev = r@;
        r.push(cand);
        proof {
            assert(r@.take(i as int) =~= prev);
            assert forall|a: int| 0 <= a < r@.len() implies first_free(
                r@.take(a),
                sanitized(metrics@[a]@),
                #[trigger] r@[a]@,
            ) by {
                if a < i {
                    assert(r@.take(a) =~= prev.take(a));
                    assert(r@[a] == prev[a]);
                } else {
                    assert(underscored(sanitized(metrics@[a]@), k) == r@[a]@);
                }
            }
            assert forall|a: int, b: int| 0 <= a < b < r@.len() implies r@[a]@ != r@[b]@ by {
                if b == i {
                    assert(r@[a] == prev[a]);
                    assert(!taken(prev, r@[b]@));
                } else {
                    assert(r@[a] == prev[a] && r@[b] == prev[b]);
                }
            }
        }
        i = i + 1;
    }
    r
}

} // verus!
