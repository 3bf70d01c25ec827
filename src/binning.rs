//! The mathematical model of binning: which bin a sample key falls into, the
//! bin of each candidate position of a series, and the counts that follow.
use vstd::prelude::*;

verus! {

/// The first bin, starting at `j`, whose upper boundary lies above `x`; the last
/// bin is unbounded above.
pub open spec fn bin_from(ys: Seq<i64>, x: i64, j: int) -> int
    decreases ys.len() - j,
{
    if j + 2 >= ys.len() {
        j
    } else if x < ys[j + 1] {
        j
    } else {
        bin_from(ys, x, j + 1)
    }
}

/// The bin that a sample key `x` is assigned to under the boundaries `ys`: the
/// first bin `j` with `ys[j] <= x < ys[j + 1]`, where the lowest boundary counts
/// as minus infinity and the highest as plus infinity.
pub open spec fn bin_of(ys: Seq<i64>, x: i64) -> int {
    bin_from(ys, x, 0)
}

/// The membership test of bin `b`, with the outer boundaries widened to infinity.
pub open spec fn in_bin(ys: Seq<i64>, b: int, x: i64) -> bool {
    (b == 0 || ys[b] <= x) && (b + 2 == ys.len() || x < ys[b + 1])
}

/// The positions `0 .. n` of a series.
pub open spec fn positions(n: nat) -> Seq<usize> {
    Seq::new(n, |i: int| i as usize)
}

/// For each candidate position `c[p]`, the bin of the sample `offset` steps later,
/// or `-1` where that sample lies past the end of the series.
pub open spec fn lagged_bins(ys: Seq<i64>, s: Seq<i64>, c: Seq<usize>, offset: nat) -> Seq<int> {
    Seq::new(
        c.len(),
        |p: int|
            if c[p] + offset < s.len() {
                bin_of(ys, s[c[p] + offset])
            } else {
                -1
            },
    )
}

/// The bin of every sample of the series, in order.
pub open spec fn sample_bins(ys: Seq<i64>, s: Seq<i64>) -> Seq<int> {
    lagged_bins(ys, s, positions(s.len()), 0)
}

/// How many of the first `p` entries of `a` equal `b`.
pub open spec fn count_upto(a: Seq<int>, b: int, p: int) -> nat
    decreases p,
{
    if p <= 0 {
        0
    } else {
        count_upto(a, b, p - 1) + if a[p - 1] == b {
            1nat
        } else {
            0nat
        }
    }
}

/// How many entries of `a` equal `b`.
pub open spec fn tally(a: Seq<int>, b: int) -> nat {
    count_upto(a, b, a.len() as int)
}

/// The candidates among the first `p` whose entry in `a` equals `b`, in order.
pub open spec fn members_upto(c: Seq<usize>, a: Seq<int>, b: int, p: int) -> Seq<usize>
    decreases p,
{
    if p <= 0 {
        Seq::empty()
    } else if a[p - 1] == b {
        members_upto(c, a, b, p - 1).push(c[p - 1])
    } else {
        members_upto(c, a, b, p - 1)
    }
}

/// The candidates whose entry in `a` equals `b`, in order.
pub open spec fn members(c: Seq<usize>, a: Seq<int>, b: int) -> Seq<usize> {
    members_upto(c, a, b, c.len() as int)
}

/// The positions of the series whose sample falls into bin `i`, in order.
pub open spec fn bin_positions(ys: Seq<i64>, s: Seq<i64>, i: int) -> Seq<usize> {
    members(positions(s.len()), sample_bins(ys, s), i)
}

/// For the samples in bin `i`, the bins of the samples `offset` steps later.
pub open spec fn transition_bins(ys: Seq<i64>, s: Seq<i64>, i: int, offset: nat) -> Seq<int> {
    lagged_bins(ys, s, bin_positions(ys, s, i), offset)
}

/// The sum of a sequence of counts.
pub open spec fn sum(c: Seq<u64>) -> int
    decreases c.len(),
{
    if c.len() == 0 {
        0
    } else {
        sum(c.drop_last()) + c.last()
    }
}

/// How many of the first `p` entries of `a` name one of the bins `0 .. m`.
pub open spec fn within_upto(a: Seq<int>, m: int, p: int) -> nat
    decreases p,
{
    if p <= 0 {
        0
    } else {
        within_upto(a, m, p - 1) + if 0 <= a[p - 1] < m {
            1nat
        } else {
            0nat
        }
    }
}

/// The sum over the bins `0 .. m` of how many of the first `p` entries name each.
pub open spec fn total_upto(a: Seq<int>, m: int, p: int) -> int
    decreases m,
{
    if m <= 0 {
        0
    } else {
        total_upto(a, m - 1, p) + count_upto(a, m - 1, p)
    }
}

pub proof fn lemma_bin_from_range(ys: Seq<i64>, x: i64, j: int)
    requires
        ys.len() >= 2,
        0 <= j <= ys.len() - 2,
    ensures
        j <= bin_from(ys, x, j) <= ys.len() - 2,
    decreases ys.len() - j,
{
    if j + 2 < ys.len() && !(x < ys[j + 1]) {
        lemma_bin_from_range(ys, x, j + 1);
    }
}

/// A sample that no bin below `b` took passes the lower test of bin `b`, and
/// passes its upper test exactly when `b` is its bin.
pub proof fn lemma_bin_from_test(ys: Seq<i64>, x: i64, j: int, b: int)
    requires
        ys.len() >= 2,
        0 <= j <= b <= ys.len() - 2,
        bin_from(ys, x, j) >= b,
    ensures
        j < b ==> ys[b] <= x,
        bin_from(ys, x, j) == b <==> (b + 2 == ys.len() || x < ys[b + 1]),
    decreases b - j,
{
    if j < b {
        assert(j + 2 < ys.len() && !(x < ys[j + 1]));
        assert(bin_from(ys, x, j) == bin_from(ys, x, j + 1));
        lemma_bin_from_test(ys, x, j + 1, b);
    } else if j + 2 < ys.len() && !(x < ys[j + 1]) {
        lemma_bin_from_range(ys, x, j + 1);
    }
}

/// The first-match test over ascending bins picks out exactly `bin_of`.
pub proof fn lemma_in_bin(ys: Seq<i64>, x: i64, b: int)
    requires
        ys.len() >= 2,
        0 <= b <= ys.len() - 2,
        bin_of(ys, x) >= b,
    ensures
        in_bin(ys, b, x) <==> bin_of(ys, x) == b,
{
    lemma_bin_from_test(ys, x, 0, b);
}

pub proof fn lemma_bin_from_top(ys: Seq<i64>, x: i64, j: int)
    requires
        ys.len() >= 2,
        0 <= j <= ys.len() - 2,
        forall|k: int| j < k < ys.len() - 1 ==> #[trigger] ys[k] <= x,
    ensures
        bin_from(ys, x, j) == ys.len() - 2,
    decreases ys.len() - j,
{
    if j + 2 < ys.len() {
        assert(ys[j + 1] <= x);
        lemma_bin_from_top(ys, x, j + 1);
    }
}

/// Every sample of a series is assigned one of the bins.
pub proof fn lemma_sample_bins_range(ys: Seq<i64>, s: Seq<i64>)
    requires
        ys.len() >= 2,
        s.len() <= usize::MAX,
    ensures
        forall|q: int|
            0 <= q < s.len() ==> 0 <= #[trigger] sample_bins(ys, s)[q] < ys.len() - 1,
{
    assert forall|q: int| 0 <= q < s.len() implies 0 <= #[trigger] sample_bins(ys, s)[q] < ys.len()
        - 1 by {
        assert(positions(s.len())[q] == q);
        lemma_bin_from_range(ys, s[q], 0);
    }
}

pub proof fn lemma_count_upto_bound(a: Seq<int>, b: int, p: int)
    requires
        0 <= p,
    ensures
        count_upto(a, b, p) <= p,
    decreases p,
{
    if p > 0 {
        lemma_count_upto_bound(a, b, p - 1);
    }
}

pub proof fn lemma_members_upto(c: Seq<usize>, a: Seq<int>, b: int, p: int)
    requires
        0 <= p <= c.len(),
    ensures
        members_upto(c, a, b, p).len() == count_upto(a, b, p),
        forall|k: int|
            #![trigger members_upto(c, a, b, p)[k]]
            0 <= k < members_upto(c, a, b, p).len() ==> exists|q: int|
                0 <= q < p && a[q] == b && members_upto(c, a, b, p)[k] == #[trigger] c[q],
    decreases p,
{
    if p > 0 {
        lemma_members_upto(c, a, b, p - 1);
        let prev = members_upto(c, a, b, p - 1);
        let cur = members_upto(c, a, b, p);
        if a[p - 1] == b {
            assert(cur == prev.push(c[p - 1]));
        } else {
            assert(cur == prev);
        }
        assert forall|k: int| #![trigger cur[k]] 0 <= k < cur.len() implies exists|q: int|
            0 <= q < p && a[q] == b && cur[k] == #[trigger] c[q] by {
            if k < prev.len() {
                assert(cur[k] == prev[k]);
                let q = choose|q: int| 0 <= q < p - 1 && a[q] == b && prev[k] == #[trigger] c[q];
                assert(0 <= q < p && a[q] == b && cur[k] == c[q]);
            } else {
                assert(a[p - 1] == b);
                assert(cur[k] == c[p - 1]);
                assert(0 <= p - 1 < p && a[p - 1] == b && cur[k] == c[p - 1]);
            }
        }
    }
}

pub proof fn lemma_total_step(a: Seq<int>, m: int, p: int)
    requires
        0 <= p < a.len(),
        0 <= m,
    ensures
        total_upto(a, m, p + 1) == total_upto(a, m, p) + if 0 <= a[p] < m {
            1int
        } else {
            0int
        },
    decreases m,
{
    if m > 0 {
        lemma_total_step(a, m - 1, p);
    }
}

/// Summed over all bins, the counts are the number of entries that name a bin.
pub proof fn lemma_total_within(a: Seq<int>, m: int, p: int)
    requires
        0 <= p <= a.len(),
        0 <= m,
    ensures
        total_upto(a, m, p) == within_upto(a, m, p),
        within_upto(a, m, p) <= p,
    decreases p,
{
    if p == 0 {
        lemma_total_zero(a, m);
    } else {
        lemma_total_within(a, m, p - 1);
        lemma_total_step(a, m, p - 1);
    }
}

pub proof fn lemma_total_zero(a: Seq<int>, m: int)
    requires
        0 <= m,
    ensures
        total_upto(a, m, 0) == 0,
    decreases m,
{
    if m > 0 {
        lemma_total_zero(a, m - 1);
    }
}

pub proof fn lemma_within_all(a: Seq<int>, m: int, p: int)
    requires
        0 <= p <= a.len(),
        forall|q: int| 0 <= q < p ==> 0 <= #[trigger] a[q] < m,
    ensures
        within_upto(a, m, p) == p,
    decreases p,
{
    if p > 0 {
        lemma_within_all(a, m, p - 1);
    }
}

/// The sum of the counts `count(a, j)` over `j < m` is `total_upto`.
pub proof fn lemma_sum_counts(a: Seq<int>, m: int, c: Seq<u64>)
    requires
        0 <= m <= c.len(),
        forall|j: int| 0 <= j < m ==> #[trigger] c[j] == tally(a, j),
    ensures
        sum(c.subrange(0, m)) == total_upto(a, m, a.len() as int),
    decreases m,
{
    if m > 0 {
        lemma_sum_counts(a, m - 1, c);
        assert(c.subrange(0, m).drop_last() =~= c.subrange(0, m - 1));
    }
}

/// A sample below the second boundary falls into the lowest bin, and a sample
/// at or above every inner boundary into the highest, whatever the outer
/// boundaries are.
pub proof fn lemma_outer_bins(ys: Seq<i64>, x: i64)
    requires
        ys.len() >= 2,
    ensures
        (ys.len() == 2 || x < ys[1]) ==> bin_of(ys, x) == 0,
        (forall|k: int| 0 < k < ys.len() - 1 ==> #[trigger] ys[k] <= x) ==> bin_of(ys, x) == ys.len()
            - 2,
{
    if forall|k: int| 0 < k < ys.len() - 1 ==> #[trigger] ys[k] <= x {
        lemma_bin_from_top(ys, x, 0);
    }
}

} // verus!
