//! Latency aggregation: the trial times of one grid point reduced to exact
//! mean and median figures.
//!
//! The mean is the total time over the total query count; the median is the
//! middle trial time (or the average of the middle pair) divided by the
//! per-trial query count, so both are per-query latencies.

use vstd::prelude::*;
use vstd::multiset::Multiset;
use vstd::relations::{sorted_by, total_ordering};
use vstd::seq_lib::{lemma_multiset_commutative, lemma_sorted_unique};
use crate::overhead::Ratio;

verus! {

/// Ascending order on trial times.
pub open spec fn leq64() -> spec_fn(u64, u64) -> bool {
    |x: u64, y: u64| x <= y
}

/// Non-decreasing from left to right.
pub open spec fn is_sorted(s: Seq<u64>) -> bool {
    forall|i: int, j: int| 0 <= i <= j < s.len() ==> s[i] <= s[j]
}

/// The trial times in ascending order.
pub open spec fn sorted_ascending(s: Seq<u64>) -> Seq<u64> {
    s.sort_by(leq64())
}

/// The median figure `m` for trial times `ts` at `iterations` queries per
/// trial: the middle sorted trial time (for an even count, the sum of the
/// middle pair over twice the query count) over the query count.
pub open spec fn median_matches(m: Ratio, ts: Seq<u64>, iterations: int) -> bool {
    let st = sorted_ascending(ts);
    let mid = ts.len() as int / 2;
    if ts.len() % 2 == 1 {
        m.num == st[mid] && m.den == iterations
    } else {
        m.num == st[mid] + st[mid - 1] && m.den == 2 * iterations
    }
}

/// The pair `(mean, median)` summarises some list of `repetitions` trial
/// times at `iterations` queries per trial: the mean is their sum over the
/// total query count, and the median is the middle of them sorted. In
/// particular the mean is at least the fastest trial's time over the total
/// query count.
pub open spec fn figures_from_trials(
    mean: Ratio,
    median: Ratio,
    repetitions: int,
    iterations: int,
) -> bool {
    exists|ts: Seq<u64>|
        ts.len() == repetitions && mean.num == #[trigger] sum_times(ts) && mean.den == repetitions
            * iterations && median_matches(median, ts, iterations)
}

/// Sum of all trial times.
pub open spec fn sum_times(s: Seq<u64>) -> int
    decreases s.len(),
{
    if s.len() == 0 {
        0
    } else {
        sum_times(s.drop_last()) + s.last()
    }
}

/// The ascending order on times is a total ordering.
proof fn lemma_leq64_total_ordering()
    ensures
        total_ordering(leq64()),
{
}

/// A sum of times is bounded by the largest time each trial could take.
proof fn lemma_sum_times_bounds(s: Seq<u64>)
    ensures
        0 <= sum_times(s) <= s.len() * (u64::MAX as int),
    decreases s.len(),
{
    if s.len() == 0 {
    } else {
        lemma_sum_times_bounds(s.drop_last());
    }
}

/// Replacing one element exchanges its contribution in the multiset.
proof fn lemma_update_to_multiset(s: Seq<u64>, i: int, v: u64)
    requires
        0 <= i < s.len(),
    ensures
        s.update(i, v).to_multiset() == s.to_multiset().remove(s[i]).insert(v),
{
    broadcast use vstd::multiset::group_multiset_axioms;

    let left = s.subrange(0, i);
    let right = s.subrange(i + 1, s.len() as int);
    assert(s =~= left.push(s[i]) + right);
    assert(s.update(i, v) =~= left.push(v) + right);
    lemma_multiset_commutative(left.push(s[i]), right);
    lemma_multiset_commutative(left.push(v), right);
    left.to_multiset_ensures();
    assert(s.update(i, v).to_multiset() =~= s.to_multiset().remove(s[i]).insert(v));
}

/// Exchanging two elements leaves the multiset of times unchanged.
proof fn lemma_swap_to_multiset(s: Seq<u64>, i: int, j: int)
    requires
        0 <= i < s.len(),
        0 <= j < s.len(),
    ensures
        s.update(i, s[j]).update(j, s[i]).to_multiset() == s.to_multiset(),
{
    broadcast use vstd::multiset::group_multiset_axioms;

    if i == j {
        assert(s.update(i, s[j]).update(j, s[i]) =~= s);
    } else {
        let t = s.update(i, s[j]);
        lemma_update_to_multiset(s, i, s[j]);
        lemma_update_to_multiset(t, j, s[i]);
        s.to_multiset_ensures();
        t.to_multiset_ensures();
        assert(s.contains(s[i]));
        assert(s.to_multiset().count(s[i]) > 0);
        assert(t[j] == s[j]);
        assert(t.contains(t[j]));
        assert(t.to_multiset().count(s[j]) > 0);
        assert(t.update(j, s[i]).to_multiset() =~= s.to_multiset());
    }
}

/// Exchange the elements at `a` and `b`.
fn swap_at(v: &mut Vec<u64>, a: usize, b: usize)
    requires
        a < old(v)@.len(),
        b < old(v)@.len(),
    ensures
        final(v)@ == old(v)@.update(a as int, old(v)@[b as int]).update(
            b as int,
            old(v)@[a as int],
        ),
        final(v)@.to_multiset() == old(v)@.to_multiset(),
        final(v)@.len() == old(v)@.len(),
{
    let x = v[a];
    let y = v[b];
    v.set(a, y);
    v.set(b, x);
    proof {
        lemma_swap_to_multiset(old(v)@, a as int, b as int);
    }
}

/// The trial times in ascending order, as a fresh vector.
pub fn sort_times(v: &Vec<u64>) -> (r: Vec<u64>)
    ensures
        r@ == sorted_ascending(v@),
        is_sorted(r@),
        r@.len() == v@.len(),
        r@.to_multiset() == v@.to_multiset(),
{
    let mut r: Vec<u64> = Vec::new();
    let mut i: usize = 0;
    while i < v.len()
        invariant
            i <= v@.len(),
            r@ == v@.take(i as int),
        decreases v@.len() - i,
    {
        r.push(v[i]);
        proof {
            assert(r@ =~= v@.take(i + 1));
        }
        i = i + 1;
    }
    proof {
        assert(r@ =~= v@);
    }
    let n = r.len();
    if n > 1 {
        let mut i: usize = 1;
        while i < n
            invariant
                n == r@.len(),
                1 <= i <= n,
                is_sorted(r@.take(i as int)),
                r@.to_multiset() == v@.to_multiset(),
            decreases n - i,
        {
            proof {
                assert forall|a: int, b: int|
                    0 <= a <= b <= i && a != i && b != i implies r@[a] <= r@[b] by {
                    assert(r@.take(i as int)[a] == r@[a]);
                    assert(r@.take(i as int)[b] == r@[b]);
                }
            }
            let mut j: usize = i;
            while j > 0 && r[j - 1] > r[j]
                invariant
                    n == r@.len(),
                    0 <= j <= i < n,
                    r@.to_multiset() == v@.to_multiset(),
                    forall|a: int, b: int|
                        0 <= a <= b <= i && a != j && b != j ==> r@[a] <= r@[b],
                    forall|b: int| j < b <= i ==> r@[j as int] <= r@[b],
                decreases j,
            {
                swap_at(&mut r, j - 1, j);
                j = j - 1;
            }
            proof {
                assert forall|a: int, b: int| 0 <= a <= b <= i implies r@[a] <= r@[b] by {
                    if b == j && a < j {
                        assert(r@[j as int - 1] <= r@[j as int]);
                        assert(r@[a] <= r@[j as int - 1]);
                    }
                }
                let ghost t = r@.take(i + 1);
                assert forall|a: int, b: int| 0 <= a <= b < t.len() implies #[trigger] t[a]
                    <= #[trigger] t[b] by {
                    assert(t[a] == r@[a]);
                    assert(t[b] == r@[b]);
                }
                assert(is_sorted(r@.take(i + 1)));
            }
            i = i + 1;
        }
        proof {
            assert(r@.take(n as int) =~= r@);
        }
    }
    proof {
        lemma_leq64_total_ordering();
        v@.lemma_sort_by_ensures(leq64());
        assert forall|a: int, b: int| 0 <= a <= b < r@.len() implies leq64()(r@[a], r@[b]) by {
            assert(r@[a] <= r@[b]);
        }
        assert(sorted_by(r@, leq64()));
        lemma_sorted_unique(r@, sorted_ascending(v@), leq64());
        assert(r@ =~= sorted_ascending(v@));
    }
    r
}

/// Reduce the trial times of one grid point to `(mean, median)`.
///
/// The mean is the sum of all trial times over `iterations` times the trial
/// count; the median is the middle trial time (for an even count, the
/// averaged middle pair) over `iterations`. With a single trial the two
/// figures are the same number.
pub fn aggregate(times: &Vec<u64>, iterations: usize) -> (r: (Ratio, Ratio))
    requires
        times@.len() >= 1,
        iterations >= 1,
    ensures
        r.0.num == sum_times(times@),
        r.0.den == times@.len() * iterations,
        median_matches(r.1, times@, iterations as int),
        r.0.wf(),
        r.1.wf(),
        times@.len() == 1 ==> r.0.same_value(r.1),
{
    let n = times.len();
    let sorted = sort_times(times);
    let mut sum: u128 = 0;
    let mut i: usize = 0;
    proof {
        assert(times@.take(0) =~= Seq::<u64>::empty());
    }
    while i < n
        invariant
            n == times@.len(),
            i <= n,
            sum == sum_times(times@.take(i as int)),
        decreases n - i,
    {
        proof {
            lemma_sum_times_bounds(times@.take(i as int));
            assert(i * (u64::MAX as int) + (u64::MAX as int) <= u128::MAX) by (nonlinear_arith)
                requires
                    0 <= i < u64::MAX,
            ;
            assert(times@.take(i + 1).drop_last() =~= times@.take(i as int));
        }
        sum = sum + (times[i] as u128);
        i = i + 1;
    }
    proof {
        assert(times@.take(n as int) =~= times@);
        assert((n as int) * (iterations as int) < u128::MAX) by (nonlinear_arith)
            requires
                0 < n <= u64::MAX,
                0 < iterations <= u64::MAX,
        ;
        assert((n as int) * (iterations as int) >= 1) by (nonlinear_arith)
            requires
                n >= 1,
                iterations >= 1,
        ;
    }
    let mean = Ratio { num: sum, den: (n as u128) * (iterations as u128) };
    let median = if n % 2 == 1 {
        Ratio { num: sorted[n / 2] as u128, den: iterations as u128 }
    } else {
        Ratio {
            num: (sorted[n / 2] as u128) + (sorted[n / 2 - 1] as u128),
            den: 2 * (iterations as u128),
        }
    };
    proof {
        if n == 1 {
            lemma_singleton_mean_is_median(times@);
        }
    }
    (mean, median)
}

/// With one trial, the sorted list is the list itself and the mean and the
/// median are the same number.
proof fn lemma_singleton_mean_is_median(s: Seq<u64>)
    requires
        s.len() == 1,
    ensures
        sorted_ascending(s) == s,
        sum_times(s) == s[0],
{
    lemma_leq64_total_ordering();
    s.lemma_sort_by_ensures(leq64());
    let st = sorted_ascending(s);
    s.to_multiset_ensures();
    st.to_multiset_ensures();
    assert(st.len() == 1);
    assert(st.to_multiset().contains(st[0])) by {
        assert(st =~= Seq::<u64>::empty().push(st[0]));
        assert(Seq::<u64>::empty().push(st[0]).to_multiset() =~= Multiset::<u64>::empty().insert(
            st[0],
        ));
    }
    assert(s.to_multiset().contains(st[0]));
    assert(s.contains(st[0]));
    assert(st[0] == s[0]);
    assert(st =~= s);
    assert(s.drop_last() =~= Seq::<u64>::empty());
    assert(sum_times(s) == sum_times(s.drop_last()) + s.last());
    assert(sum_times(Seq::<u64>::empty()) == 0);
    assert(s.last() == s[0]);
}

} // verus!
