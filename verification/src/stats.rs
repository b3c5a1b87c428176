use vstd::prelude::*;

use vstd::relations::{sorted_by, total_ordering};
use vstd::seq_lib::lemma_sorted_unique;

verus! {

broadcast use
    vstd::seq_lib::to_multiset_update,
    vstd::seq_lib::group_to_multiset_ensures,
    vstd::multiset::group_multiset_axioms;

/// The ordering by which run times are ranked.
pub open spec fn time_leq() -> spec_fn(u64, u64) -> bool {
    |a: u64, b: u64| a <= b
}

/// The run times in ascending order.
pub open spec fn sorted_times(s: Seq<u64>) -> Seq<u64> {
    s.sort_by(time_leq())
}

/// The sum of a batch of run times.
pub open spec fn time_sum(s: Seq<u64>) -> int
    decreases s.len(),
{
    if s.len() == 0 {
        0
    } else {
        time_sum(s.drop_last()) + s.last()
    }
}

/// Timing statistics of one batch of generation runs.
#[derive(Clone, Copy, Debug, PartialEq, Eq, Structural)]
pub struct RunStats {
    pub total: u128,
    pub mean: u128,
    pub median: u64,
    pub min: u64,
    pub max: u64,
}

/// The run times, sorted ascending by insertion.
fn sort_times(times: &Vec<u64>) -> (out: Vec<u64>)
    ensures
        out@ == sorted_times(times@),
        out@.len() == times@.len(),
{
    let mut v: Vec<u64> = Vec::new();
    let mut k: usize = 0;
    #[verifier::loop_isolation(false)]
    while k < times.len()
        invariant
            k <= times@.len(),
            v@ == times@.take(k as int),
        decreases times@.len() - k,
    {
        v.push(times[k]);
        proof {
            assert(v@ =~= times@.take(k as int + 1));
        }
        k = k + 1;
    }
    proof {
        assert(times@.take(times@.len() as int) =~= times@);
    }

    let mut i: usize = 1;
    #[verifier::loop_isolation(false)]
    while i < v.len()
        invariant
            1 <= i,
            v@.len() == times@.len(),
            v@.to_multiset() == times@.to_multiset(),
            forall|p: int, q: int| 0 <= p < q < i && q < v@.len() ==> v@[p] <= v@[q],
        decreases v@.len() - i,
    {
        let mut j = i;
        #[verifier::loop_isolation(false)]
        while j > 0 && v[j - 1] > v[j]
            invariant
                0 <= j <= i,
                i < v@.len(),
                v@.len() == times@.len(),
                v@.to_multiset() == times@.to_multiset(),
                forall|p: int, q: int| 0 <= p < q <= i && q != j ==> v@[p] <= v@[q],
            decreases j,
        {
            let ghost pre = v@;
            let a = v[j - 1];
            let b = v[j];
            v.set(j - 1, b);
            v.set(j, a);
            proof {
                assert(pre.contains(a)) by {
                    assert(pre[j - 1] == a);
                }
                assert(pre.contains(b)) by {
                    assert(pre[j as int] == b);
                }
                let m = pre.to_multiset();
                let mid = pre.update(j - 1, b);
                assert(mid.to_multiset() == m.insert(b).remove(a));
                assert(v@ == mid.update(j as int, a));
                assert(mid[j as int] == b);
                assert(v@.to_multiset() == mid.to_multiset().insert(a).remove(b));
                assert(v@.to_multiset() =~= pre.to_multiset());
            }
            j = j - 1;
        }
        i = i + 1;
    }

    proof {
        assert(total_ordering(time_leq()));
        assert(sorted_by(v@, time_leq()));
        times@.lemma_sort_by_ensures(time_leq());
        lemma_sorted_unique(v@, times@.sort_by(time_leq()), time_leq());
        assert(v@ =~= sorted_times(times@));
    }
    v
}

/// Generation harness statistics: the total, mean, median, smallest and
/// largest of a batch of per-run times, the median being the middle entry
/// of the ascending order and the mean the integer quotient of total by
/// batch size.
pub fn summarize_runs(times: &Vec<u64>) -> (stats: RunStats)
    requires
        1 <= times@.len(),
    ensures
        stats.total == time_sum(times@),
        stats.mean == time_sum(times@) / (times@.len() as int),
        stats.median == sorted_times(times@)[times@.len() as int / 2],
        stats.min == sorted_times(times@)[0],
        stats.max == sorted_times(times@).last(),
        forall|i: int| 0 <= i < times@.len() ==> stats.min <= #[trigger] times@[i] <= stats.max,
{
    let sorted = sort_times(times);

    let mut total: u128 = 0;
    let mut k: usize = 0;
    #[verifier::loop_isolation(false)]
    while k < times.len()
        invariant
            k <= times@.len(),
            total == time_sum(times@.take(k as int)),
            total <= k * (u64::MAX as int),
        decreases times@.len() - k,
    {
        proof {
            assert(times@.take(k as int + 1).drop_last() =~= times@.take(k as int));
        }
        total = total + (times[k] as u128);
        k = k + 1;
    }
    proof {
        assert(times@.take(times@.len() as int) =~= times@);
    }

    let count = times.len() as u128;
    let mean = total / count;
    let median = sorted[sorted.len() / 2];
    let min = sorted[0];
    let max = sorted[sorted.len() - 1];

    proof {
        times@.lemma_sort_by_ensures(time_leq());
        assert forall|i: int| 0 <= i < times@.len() implies min <= #[trigger] times@[i] <= max by {
            let s = sorted_times(times@);
            assert(times@.contains(times@[i]));
            assert(s.to_multiset().contains(times@[i])) by {
                broadcast use vstd::seq_lib::group_to_multiset_ensures;

            }
            assert(s.contains(times@[i])) by {
                broadcast use vstd::seq_lib::group_to_multiset_ensures;

            }
            let w = choose|w: int| 0 <= w < s.len() && s[w] == times@[i];
            assert(sorted_by(s, time_leq()));
            if 0 < w {
                assert(time_leq()(s[0], s[w]));
            }
            if w < s.len() - 1 {
                assert(time_leq()(s[w], s[s.len() - 1]));
            }
        }
    }

    RunStats { total, mean, median, min, max }
}

} // verus!
