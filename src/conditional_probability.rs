//! Transition counts between bins: a marginal histogram of a series together
//! with, for each bin, the histogram of the samples that follow the samples in
//! that bin.
use vstd::prelude::*;
use crate::binning::{
    bin_of, bin_positions, lemma_bin_from_range, lemma_count_upto_bound, lemma_members_upto,
    lemma_sum_counts, lemma_total_within, lemma_within_all, positions, sample_bins, sum, tally,
    transition_bins,
};
use crate::counts::{zero_counts, zero_matrix, CountMatrix};
use crate::histogram::{Histogram, HistogramFiller};

verus! {

/// A marginal histogram `P(x_i)` and, row by row, the counts of the conditional
/// distributions `P(x_j | x_i)`, all over one common set of boundaries.
pub struct ConditionalProbability {
    conditional_probability: CountMatrix,
    probability: Histogram,
    intervals: Vec<i64>,
}

impl ConditionalProbability {
    /// Row `i`, column `j`: how many samples in bin `i` were followed by one in bin `j`.
    pub closed spec fn matrix(&self) -> Seq<Seq<u64>> {
        self.conditional_probability@
    }

    /// The marginal histogram.
    pub closed spec fn marginal(&self) -> Histogram {
        self.probability
    }

    /// The boundaries shared by the marginal histogram and every row.
    pub closed spec fn boundaries(&self) -> Seq<i64> {
        self.intervals@
    }

    /// The number of bins.
    pub open spec fn size(&self) -> nat {
        self.marginal().counts().len()
    }

    /// One binning for all: the marginal histogram is well formed, its boundaries
    /// are the shared ones, and the matrix is square over its bins.
    pub open spec fn wf(&self) -> bool {
        &&& self.marginal().wf()
        &&& self.boundaries() == self.marginal().boundaries()
        &&& self.matrix().len() == self.size()
        &&& forall|i: int| 0 <= i < self.size() ==> #[trigger] self.matrix()[i].len() == self.size()
    }

    /// The conditional counts.
    pub fn conditional_probability_ref(&self) -> (r: &CountMatrix)
        ensures
            r@ == self.matrix(),
    {
        &self.conditional_probability
    }

    /// The conditional counts, row by row.
    pub fn rows(&self) -> (r: Vec<Vec<u64>>)
        requires
            self.wf(),
        ensures
            r@.len() == self.matrix().len(),
            forall|i: int| 0 <= i < r@.len() ==> #[trigger] r@[i]@ == self.matrix()[i],
    {
        let n = self.probability.bins_ref().len();
        let mut r: Vec<Vec<u64>> = Vec::new();
        while r.len() < n
            invariant
                n == self.size(),
                self.wf(),
                r@.len() <= n,
                forall|i: int| 0 <= i < r@.len() ==> #[trigger] r@[i]@ == self.matrix()[i],
            decreases n - r@.len(),
        {
            let i = r.len();
            let mut row: Vec<u64> = Vec::new();
            while row.len() < n
                invariant
                    n == self.size(),
                    self.wf(),
                    i < n,
                    row@.len() <= n,
                    forall|k: int| 0 <= k < row@.len() ==> #[trigger] row@[k] == self.matrix()[i as int][k],
                decreases n - row@.len(),
            {
                row.push(self.conditional_probability.read(i, row.len()));
            }
            assert(row@ =~= self.matrix()[i as int]);
            r.push(row);
        }
        r
    }

    /// The shared boundaries.
    pub fn intervals_ref(&self) -> (r: &Vec<i64>)
        ensures
            r@ == self.boundaries(),
    {
        &self.intervals
    }

    /// The marginal histogram.
    pub fn probability_ref(&self) -> (r: &Histogram)
        ensures
            *r == self.marginal(),
    {
        &self.probability
    }

    /// Empty conditional counts over the binning of `histogram`: a cleared copy of
    /// it as the marginal, and a square matrix of zeros.
    pub fn from_histogram(histogram: &Histogram) -> (r: ConditionalProbability)
        requires
            histogram.wf(),
            histogram.counts().len() * histogram.counts().len() <= isize::MAX,
        ensures
            r.wf(),
            r.boundaries() == histogram.boundaries(),
            r.marginal().counts() == zero_counts(histogram.counts().len()),
            r.matrix() == zero_matrix(histogram.counts().len()),
    {
        let mut probability = histogram.duplicate();
        probability.clear();
        let n = probability.bins_ref().len();
        let conditional_probability = CountMatrix::zeros(n);
        let intervals = probability.intervals_ref().clone();
        ConditionalProbability { conditional_probability, probability, intervals }
    }

    /// Places every sample of `xs` into the marginal histogram and, for each bin
    /// `i`, the sample after each sample of bin `i` into row `i`, adding to the
    /// counts. The last sample of the series has no successor and adds to no row.
    pub fn fill(&mut self, xs: &[i64])
        requires
            old(self).wf(),
            forall|j: int|
                0 <= j < old(self).size() ==> #[trigger] old(self).marginal().counts()[j]
                    + xs@.len() <= u64::MAX,
            forall|i: int, j: int|
                0 <= i < old(self).size() && 0 <= j < old(self).size() ==> #[trigger] old(self).matrix()[i][j]
                    + xs@.len() <= u64::MAX,
        ensures
            final(self).wf(),
            final(self).boundaries() == old(self).boundaries(),
            final(self).size() == old(self).size(),
            forall|j: int|
                0 <= j < old(self).size() ==> #[trigger] final(self).marginal().counts()[j]
                    == old(self).marginal().counts()[j] + tally(
                    sample_bins(old(self).boundaries(), xs@),
                    j,
                ),
            forall|i: int, j: int|
                0 <= i < old(self).size() && 0 <= j < old(self).size() ==> #[trigger] final(self).matrix()[i][j]
                    == old(self).matrix()[i][j] + tally(
                    transition_bins(old(self).boundaries(), xs@, i, 1),
                    j,
                ),
    {
        let ghost ys = self.intervals@;
        let ghost a = sample_bins(ys, xs@);
        let n = self.probability.bins_ref().len();
        let mut filler = HistogramFiller::new(xs, self.probability.duplicate());
        let mut i: usize = 0;
        while i < n
            invariant
                filler.wf(),
                i <= n,
                n == old(self).size(),
                filler.bins_done() == i,
                filler.series() == xs@,
                filler.candidates() == positions(xs@.len()),
                filler.lag() == 0,
                filler.histogram().boundaries() == ys,
                filler.start_counts() == old(self).marginal().counts(),
                filler.assignment() == a,
                forall|j: int|
                    0 <= j < filler.start_counts().len() ==> #[trigger] filler.start_counts()[j]
                        + filler.candidates().len() <= u64::MAX,
                forall|r: int, j: int|
                    0 <= r < n && 0 <= j < n ==> #[trigger] old(self).matrix()[r][j] + xs@.len()
                        <= u64::MAX,
                self.wf(),
                self.intervals@ == ys,
                ys == old(self).boundaries(),
                self.probability == old(self).probability,
                forall|r: int, j: int|
                    0 <= r < n && 0 <= j < n ==> #[trigger] self.matrix()[r][j] == if r < i {
                        old(self).matrix()[r][j] + tally(transition_bins(ys, xs@, r, 1), j)
                    } else {
                        old(self).matrix()[r][j] as int
                    },
            decreases n - i,
        {
            let indices = match filler.next() {
                Some(v) => v,
                None => Vec::new(),
            };
            assert(indices@ == bin_positions(ys, xs@, i as int));
            proof {
                lemma_members_upto(positions(xs@.len()), a, i as int, xs@.len() as int);
                lemma_count_upto_bound(a, i as int, xs@.len() as int);
            }
            let mut row: Vec<u64> = Vec::new();
            let mut j: usize = 0;
            while j < n
                invariant
                    j <= n,
                    i < n,
                    n == self.size(),
                    self.wf(),
                    row@.len() == j,
                    forall|k: int| 0 <= k < j ==> #[trigger] row@[k] == self.matrix()[i as int][k],
                decreases n - j,
            {
                row.push(self.conditional_probability.read(i, j));
                j = j + 1;
            }
            let mut h = match Histogram::new(row, self.intervals.clone()) {
                Ok(h) => h,
                Err(_) => {
                    assert(false);
                    return;
                },
            };
            assert forall|k: int| 0 <= k < h.counts().len() implies #[trigger] h.counts()[k]
                + indices@.len() <= u64::MAX by {
                assert(self.matrix()[i as int][k] == old(self).matrix()[i as int][k]);
            }
            h.fill_with_indices(xs, &indices, 1);
            let ghost before = self.matrix();
            let mut j: usize = 0;
            while j < n
                invariant
                    j <= n,
                    i < n,
                    n == self.size(),
                    h.counts().len() == n,
                    self.wf(),
                    self.intervals@ == ys,
                    self.probability == old(self).probability,
                    before.len() == n,
                    forall|r: int, k: int|
                        0 <= r < n && 0 <= k < n ==> #[trigger] self.matrix()[r][k] == if r
                            == i && k < j {
                            h.counts()[k] as int
                        } else {
                            before[r][k] as int
                        },
                decreases n - j,
            {
                let v = h.bins_ref().get(j);
                self.conditional_probability.set(i, j, v);
                j = j + 1;
            }
            i = i + 1;
        }
        self.probability = filler.into_histogram();
    }
}

/// With a lag of one, row `i` of the transition counts sums to at most the
/// count of bin `i`, and to exactly that count when the last sample of the
/// series is not in bin `i`.
pub proof fn lemma_row_within_bin(ys: Seq<i64>, xs: Seq<i64>, i: int, row: Seq<u64>)
    requires
        ys.len() >= 2,
        xs.len() <= usize::MAX,
        0 <= i < ys.len() - 1,
        row.len() + 1 == ys.len(),
        forall|j: int|
            0 <= j < row.len() ==> #[trigger] row[j] == zero_counts(row.len())[j] + tally(
                transition_bins(ys, xs, i, 1),
                j,
            ),
    ensures
        sum(row) <= tally(sample_bins(ys, xs), i),
        (xs.len() == 0 || bin_of(ys, xs.last()) != i) ==> sum(row) == tally(sample_bins(ys, xs), i),
{
    let a = sample_bins(ys, xs);
    let c = positions(xs.len());
    let m = bin_positions(ys, xs, i);
    let t = transition_bins(ys, xs, i, 1);
    let n = row.len() as int;
    lemma_sum_counts(t, n, row);
    assert(row.subrange(0, n) =~= row);
    lemma_total_within(t, n, t.len() as int);
    lemma_members_upto(c, a, i, c.len() as int);
    if xs.len() == 0 || bin_of(ys, xs.last()) != i {
        assert forall|q: int| 0 <= q < t.len() implies 0 <= #[trigger] t[q] < n by {
            assert(m[q] == m[q]);
            let q2 = choose|q2: int| 0 <= q2 < c.len() && a[q2] == i && m[q] == #[trigger] c[q2];
            assert(c[q2] == q2);
            if q2 == xs.len() - 1 {
                assert(a[q2] == bin_of(ys, xs.last()));
            }
            lemma_bin_from_range(ys, xs[q2 + 1], 0);
        }
        lemma_within_all(t, n, t.len() as int);
    }
}

} // verus!
