//! Chronological order of rounds, ties kept in file order.
use vstd::prelude::*;

verus! {

/// Round `a` comes before round `b`: it is earlier, or as early and read first.
pub open spec fn comes_before(times: Seq<i64>, a: int, b: int) -> bool {
    times[a] < times[b] || (times[a] == times[b] && a < b)
}

/// Index `k` stands somewhere in `order`.
pub open spec fn lists(order: Seq<usize>, k: int) -> bool {
    exists|q: int| 0 <= q < order.len() && order[q] as int == k
}

/// `order` lists every round index once, earliest first, ties in index order.
pub open spec fn is_chronological(times: Seq<i64>, order: Seq<usize>) -> bool {
    &&& order.len() == times.len()
    &&& forall|i: int| 0 <= i < order.len() ==> #[trigger] order[i] < times.len()
    &&& forall|k: int| 0 <= k < times.len() ==> #[trigger] lists(order, k)
    &&& forall|i: int, j: int| 0 <= i < j < order.len() ==> comes_before(
        times,
        order[i] as int,
        order[j] as int,
    )
}

/// The indices of `times` in chronological order; equal times keep their
/// relative order.
pub fn chronological_order(times: &Vec<i64>) -> (r: Vec<usize>)
    ensures
        is_chronological(times@, r@),
{
    let mut r: Vec<usize> = Vec::new();
    let n = times.len();
    let mut i: usize = 0;
    while i < n
        invariant
            n == times@.len(),
            i <= n,
            r@.len() == i,
            forall|q: int| 0 <= q < r@.len() ==> #[trigger] r@[q] < i,
            forall|k: int| 0 <= k < i ==> #[trigger] lists(r@, k),
            forall|a: int, b: int| 0 <= a < b < r@.len() ==> comes_before(
                times@,
                r@[a] as int,
                r@[b] as int,
            ),
        decreases n - i,
    {
        let mut p: usize = 0;
        while p < r.len() && times[r[p]] <= times[i]
            invariant
                n == times@.len(),
                i < n,
                p <= r@.len(),
                forall|q: int| 0 <= q < r@.len() ==> #[trigger] r@[q] < i,
                forall|q: int| 0 <= q < p ==> comes_before(times@, #[trigger] r@[q] as int, i as int),
            decreases r@.len() - p,
        {
            p = p + 1;
        }
        let ghost old_r = r@;
        r.insert(p, i);
        proof {
            assert(r@ =~= old_r.insert(p as int, i));
            assert forall|q: int| 0 <= q < r@.len() implies #[trigger] r@[q] < i + 1 by {
                if q < p {
                    assert(r@[q] == old_r[q]);
                } else if q > p {
                    assert(r@[q] == old_r[q - 1]);
                }
            }
            assert forall|k: int| 0 <= k < i + 1 implies #[trigger] lists(r@, k) by {
                if k == i {
                    assert(r@[p as int] == i);
                } else {
                    assert(lists(old_r, k));
                    let q = choose|q: int| 0 <= q < old_r.len() && old_r[q] as int == k;
                    if q < p {
                        assert(r@[q] == old_r[q]);
                    } else {
                        assert(r@[q + 1] == old_r[q]);
                    }
                }
            }
            assert forall|a: int, b: int| 0 <= a < b < r@.len() implies comes_before(
                times@,
                r@[a] as int,
                r@[b] as int,
            ) by {
                if b < p {
                    assert(r@[a] == old_r[a] && r@[b] == old_r[b]);
                } else if b == p {
                    assert(r@[a] == old_r[a]);
                } else if a > p {
                    assert(r@[a] == old_r[a - 1] && r@[b] == old_r[b - 1]);
                } else if a == p {
                    assert(r@[b] == old_r[b - 1]);
                    assert(times@[old_r[p as int] as int] > times@[i as int]);
                    if b - 1 > p {
                        assert(comes_before(times@, old_r[p as int] as int, old_r[b - 1] as int));
                    }
                } else {
                    assert(r@[a] == old_r[a] && r@[b] == old_r[b - 1]);
                }
            }
        }
        i = i + 1;
    }
    r
}

} // verus!
