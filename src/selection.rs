//! Weighted choice: walk the weights in order and stop at the first candidate
//! whose cumulative weight passes a threshold.
use vstd::prelude::*;

verus! {

/// The sum of the first `n` weights.
pub open spec fn prefix_sum(w: Seq<u64>, n: int) -> int
    decreases n,
{
    if n <= 0 {
        0
    } else {
        prefix_sum(w, n - 1) + w[n - 1]
    }
}

/// The sum of all the weights.
pub open spec fn total_weight(w: Seq<u64>) -> int {
    prefix_sum(w, w.len() as int)
}

/// The first index at or after `i` whose cumulative weight strictly exceeds `t`,
/// or `w.len()` where there is none.
pub open spec fn first_crossing(w: Seq<u64>, t: int, i: int) -> int
    decreases w.len() - i,
{
    if i < 0 || i >= w.len() {
        w.len() as int
    } else if prefix_sum(w, i + 1) > t {
        i
    } else {
        first_crossing(w, t, i + 1)
    }
}

/// The index that threshold `t` selects.
pub open spec fn selected_index(w: Seq<u64>, t: int) -> int {
    first_crossing(w, t, 0)
}

/// Cumulative weights never decrease.
pub proof fn lemma_prefix_monotone(w: Seq<u64>, a: int, b: int)
    requires
        0 <= a <= b <= w.len(),
    ensures
        prefix_sum(w, a) <= prefix_sum(w, b),
    decreases b - a,
{
    if a < b {
        lemma_prefix_monotone(w, a, b - 1);
    }
}

/// Each weight is at most `u64::MAX`, so `n` of them sum to at most `n` times that.
pub proof fn lemma_prefix_bound(w: Seq<u64>, n: int)
    requires
        0 <= n <= w.len(),
    ensures
        0 <= prefix_sum(w, n) <= n * 0xffff_ffff_ffff_ffff,
    decreases n,
{
    if n > 0 {
        lemma_prefix_bound(w, n - 1);
    }
}

/// Before the first crossing at or after `i`, no cumulative weight exceeds `t`;
/// at it, one does.
proof fn lemma_first_crossing(w: Seq<u64>, t: int, i: int)
    requires
        0 <= i <= w.len(),
        prefix_sum(w, i) <= t,
    ensures
        i <= first_crossing(w, t, i) <= w.len(),
        forall|j: int| i <= j < first_crossing(w, t, i) ==> #[trigger] prefix_sum(w, j + 1) <= t,
        first_crossing(w, t, i) < w.len() ==> prefix_sum(w, first_crossing(w, t, i) + 1) > t,
        first_crossing(w, t, i) < w.len() ==> prefix_sum(w, first_crossing(w, t, i)) <= t,
    decreases w.len() - i,
{
    if i < w.len() && prefix_sum(w, i + 1) <= t {
        lemma_first_crossing(w, t, i + 1);
    }
}

/// Selection by threshold is a partition of `[0, total)`: threshold `t`
/// selects candidate `i` exactly when `t` lies in `i`'s cumulative interval
/// `[prefix_sum(i), prefix_sum(i + 1))`, whose width is `i`'s weight. So over
/// thresholds spread evenly on `[0, total)`, each candidate is chosen in
/// proportion to its weight.
pub proof fn lemma_selection_interval(w: Seq<u64>, t: int, i: int)
    requires
        0 <= t < total_weight(w),
        0 <= i < w.len(),
    ensures
        0 <= selected_index(w, t) < w.len(),
        selected_index(w, t) == i <==> (prefix_sum(w, i) <= t && t < prefix_sum(w, i + 1)),
{
    lemma_first_crossing(w, t, 0);
    let s = selected_index(w, t);
    if s == w.len() {
        assert(prefix_sum(w, (w.len() - 1) + 1) <= t);
    }
    if prefix_sum(w, i) <= t && t < prefix_sum(w, i + 1) {
        if s < i {
            lemma_prefix_monotone(w, s + 1, i);
        } else if s > i {
            assert(prefix_sum(w, i + 1) <= t);
        }
    }
}

/// The index that `threshold` selects in `weights`: the first one whose
/// cumulative weight strictly exceeds it (ties go to the earlier candidate).
pub fn select_proposer_index(weights: &Vec<u64>, threshold: u128) -> (r: usize)
    requires
        threshold < total_weight(weights@),
    ensures
        r == selected_index(weights@, threshold as int),
        r < weights@.len(),
        prefix_sum(weights@, r as int) <= threshold < prefix_sum(weights@, r as int + 1),
        forall|j: int| 0 <= j < r ==> #[trigger] prefix_sum(weights@, j + 1) <= threshold,
{
    let ghost w = weights@;
    proof {
        lemma_first_crossing(w, threshold as int, 0);
        if first_crossing(w, threshold as int, 0) == w.len() {
            assert(prefix_sum(w, (w.len() - 1) + 1) <= threshold);
        }
    }
    let mut acc: u128 = 0;
    let mut i: usize = 0;
    while i < weights.len()
        invariant
            w == weights@,
            0 <= i <= w.len(),
            i <= selected_index(w, threshold as int) < w.len(),
            acc == prefix_sum(w, i as int),
            acc <= threshold,
            forall|j: int| 0 <= j < selected_index(w, threshold as int) ==> #[trigger] prefix_sum(w, j + 1) <= threshold,
            prefix_sum(w, selected_index(w, threshold as int) + 1) > threshold,
        decreases w.len() - i,
    {
        proof {
            lemma_prefix_bound(w, i as int + 1);
            assert(w.len() <= usize::MAX);
        }
        acc = acc + weights[i] as u128;
        if acc > threshold {
            return i;
        }
        i = i + 1;
    }
    i
}

} // verus!
