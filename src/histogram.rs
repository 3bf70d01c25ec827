//! A one-dimensional histogram of sample keys, and the bin-major filler that
//! places samples into it while reporting which positions fell into each bin.
use vstd::prelude::*;
use crate::binning::{
    bin_of, lagged_bins, lemma_bin_from_range, lemma_count_upto_bound,
    lemma_in_bin, lemma_members_upto, lemma_outer_bins, lemma_sample_bins_range, lemma_sum_counts,
    lemma_total_within, lemma_within_all, members, members_upto, positions, sample_bins, sum,
    tally,
};
use crate::counts::{zero_counts, Counts};

verus! {

/// The ways in which building a histogram can fail.
#[derive(Debug, Clone, Copy, PartialEq, Eq, Structural)]
pub enum HistogramError {
    /// There are no samples to take the bounds from.
    EmptyInput,
    /// The bins and boundaries do not describe at least one bin.
    InvalidBinCount,
}

/// Bin counts over `n` bins together with the `n + 1` boundaries that define
/// them: bin `j` holds the samples `x` with `intervals[j] <= x < intervals[j + 1]`,
/// the lowest boundary counting as minus infinity and the highest as plus infinity.
pub struct Histogram {
    bins: Counts,
    intervals: Vec<i64>,
}

impl Histogram {
    /// The counts, bin by bin.
    pub closed spec fn counts(&self) -> Seq<u64> {
        self.bins@
    }

    /// The boundaries, lowest first.
    pub closed spec fn boundaries(&self) -> Seq<i64> {
        self.intervals@
    }

    /// At least one bin, and one boundary more than bins.
    pub open spec fn wf(&self) -> bool {
        self.boundaries().len() >= 2 && self.counts().len() + 1 == self.boundaries().len()
    }

    /// Makes a histogram from its counts and boundaries.
    pub fn new(bins: Vec<u64>, intervals: Vec<i64>) -> (r: Result<Histogram, HistogramError>)
        ensures
            r is Ok <==> bins@.len() >= 1 && intervals@.len() == bins@.len() + 1,
            r is Err ==> r == Err::<Histogram, HistogramError>(HistogramError::InvalidBinCount),
            r matches Ok(h) ==> h.wf() && h.counts() == bins@ && h.boundaries() == intervals@,
    {
        if bins.len() == 0 || intervals.len() == 0 || intervals.len() - 1 != bins.len() {
            return Err(HistogramError::InvalidBinCount);
        }
        Ok(Histogram { bins: Counts::from_vec(bins), intervals })
    }

    /// Makes a histogram with all counts zero over the given boundaries.
    pub fn from_intervals(intervals: Vec<i64>) -> (r: Result<Histogram, HistogramError>)
        ensures
            r is Ok <==> intervals@.len() >= 2,
            r is Err ==> r == Err::<Histogram, HistogramError>(HistogramError::InvalidBinCount),
            r matches Ok(h) ==> h.wf() && h.counts() == zero_counts((intervals@.len() - 1) as nat)
                && h.boundaries() == intervals@,
    {
        if intervals.len() < 2 {
            return Err(HistogramError::InvalidBinCount);
        }
        let n = intervals.len() - 1;
        let mut zeros: Vec<u64> = Vec::new();
        while zeros.len() < n
            invariant
                zeros.len() <= n,
                zeros@ == zero_counts(zeros.len() as nat),
            decreases n - zeros.len(),
        {
            zeros.push(0);
            assert(zeros@ =~= zero_counts(zeros.len() as nat));
        }
        Ok(Histogram { bins: Counts::from_vec(zeros), intervals })
    }

    /// The counts.
    pub fn bins_ref(&self) -> (r: &Counts)
        ensures
            r@ == self.counts(),
    {
        &self.bins
    }

    /// The boundaries.
    pub fn intervals_ref(&self) -> (r: &Vec<i64>)
        ensures
            r@ == self.boundaries(),
    {
        &self.intervals
    }

    /// Sets every count to zero and keeps the boundaries.
    pub fn clear(&mut self)
        ensures
            final(self).counts() == zero_counts(old(self).counts().len()),
            final(self).boundaries() == old(self).boundaries(),
    {
        self.bins.fill(0);
        assert(self.bins@ =~= zero_counts(old(self).counts().len()));
    }

    /// Places every sample of `xs` into its bin, adding to the counts.
    pub fn fill(&mut self, xs: &[i64])
        requires
            old(self).wf(),
            forall|j: int|
                0 <= j < old(self).counts().len() ==> #[trigger] old(self).counts()[j] + xs@.len()
                    <= u64::MAX,
        ensures
            final(self).wf(),
            final(self).boundaries() == old(self).boundaries(),
            forall|j: int|
                0 <= j < final(self).counts().len() ==> #[trigger] final(self).counts()[j]
                    == old(self).counts()[j] + tally(sample_bins(old(self).boundaries(), xs@), j),
    {
        let mut filler = HistogramFiller::new(xs, self.duplicate());
        self.run(&mut filler);
    }

    /// Places, for each index `i` of `indices`, the sample `xs[i + offset]` into
    /// its bin, adding to the counts; an index whose sample would lie past the
    /// end of `xs` is skipped.
    pub fn fill_with_indices(&mut self, xs: &[i64], indices: &[usize], offset: usize)
        requires
            old(self).wf(),
            forall|j: int|
                0 <= j < old(self).counts().len() ==> #[trigger] old(self).counts()[j]
                    + indices@.len() <= u64::MAX,
        ensures
            final(self).wf(),
            final(self).boundaries() == old(self).boundaries(),
            forall|j: int|
                0 <= j < final(self).counts().len() ==> #[trigger] final(self).counts()[j]
                    == old(self).counts()[j] + tally(
                    lagged_bins(old(self).boundaries(), xs@, indices@, offset as nat),
                    j,
                ),
    {
        let mut filler = HistogramFiller::new(xs, self.duplicate());
        filler.data_indices(indices);
        filler.offset(offset);
        self.run(&mut filler);
    }

    /// Runs a fresh filler over all bins and takes its histogram.
    fn run(&mut self, filler: &mut HistogramFiller)
        requires
            old(filler).wf(),
            old(filler).bins_done() == 0,
            forall|j: int|
                0 <= j < old(filler).start_counts().len() ==> #[trigger] old(filler).start_counts()[j]
                    + old(filler).candidates().len() <= u64::MAX,
        ensures
            final(self).wf(),
            final(self).boundaries() == old(filler).histogram().boundaries(),
            forall|j: int|
                0 <= j < final(self).counts().len() ==> #[trigger] final(self).counts()[j]
                    == old(filler).start_counts()[j] + tally(old(filler).assignment(), j),
    {
        let n = filler.histogram.bins.size();
        let mut i: usize = 0;
        while i < n
            invariant
                filler.wf(),
                i <= n,
                filler.bins_done() == i,
                n == filler.histogram().counts().len(),
                filler.series() == old(filler).series(),
                filler.candidates() == old(filler).candidates(),
                filler.lag() == old(filler).lag(),
                filler.histogram().boundaries() == old(filler).histogram().boundaries(),
                filler.start_counts() == old(filler).start_counts(),
                forall|j: int|
                    0 <= j < filler.start_counts().len() ==> #[trigger] filler.start_counts()[j]
                        + filler.candidates().len() <= u64::MAX,
            decreases n - i,
        {
            filler.next();
            i = i + 1;
        }
        *self = filler.histogram.duplicate();
        assert(self.bins@ =~= filler.histogram.bins@);
    }

    /// An equal histogram.
    pub fn duplicate(&self) -> (r: Histogram)
        ensures
            r.counts() == self.counts(),
            r.boundaries() == self.boundaries(),
    {
        Histogram { bins: self.bins.duplicate(), intervals: self.intervals.clone() }
    }
}

/// The positions of a smallest and a largest sample, found in one pass that
/// takes a sample as the new minimum when it is at most the current one, and
/// otherwise as the new maximum when it is at least the current one.
pub fn sample_extremes(xs: &[i64]) -> (r: Result<(usize, usize), HistogramError>)
    ensures
        r is Err <==> xs@.len() == 0,
        r is Err ==> r == Err::<(usize, usize), HistogramError>(HistogramError::EmptyInput),
        r matches Ok((lo, hi)) ==> {
            &&& lo < xs@.len()
            &&& hi < xs@.len()
            &&& forall|i: int| 0 <= i < xs@.len() ==> xs@[lo as int] <= #[trigger] xs@[i]
            &&& forall|i: int| 0 <= i < xs@.len() ==> #[trigger] xs@[i] <= xs@[hi as int]
        },
{
    if xs.len() == 0 {
        return Err(HistogramError::EmptyInput);
    }
    let mut lo: usize = 0;
    let mut hi: usize = 0;
    let mut i: usize = 0;
    while i < xs.len()
        invariant
            i <= xs@.len(),
            lo < xs@.len(),
            hi < xs@.len(),
            xs@[lo as int] <= xs@[hi as int],
            forall|k: int| 0 <= k < i ==> xs@[lo as int] <= #[trigger] xs@[k],
            forall|k: int| 0 <= k < i ==> #[trigger] xs@[k] <= xs@[hi as int],
        decreases xs@.len() - i,
    {
        if xs[i] <= xs[lo] {
            lo = i;
        } else if xs[i] >= xs[hi] {
            hi = i;
        }
        i = i + 1;
    }
    Ok((lo, hi))
}

/// A histogram filled once from zero counts places every sample exactly once:
/// its counts sum to the length of the series.
pub proof fn lemma_fill_places_every_sample(ys: Seq<i64>, xs: Seq<i64>, counts: Seq<u64>)
    requires
        ys.len() >= 2,
        xs.len() <= usize::MAX,
        counts.len() + 1 == ys.len(),
        forall|j: int|
            0 <= j < counts.len() ==> #[trigger] counts[j] == zero_counts(counts.len())[j] + tally(
                sample_bins(ys, xs),
                j,
            ),
    ensures
        sum(counts) == xs.len(),
{
    let a = sample_bins(ys, xs);
    let n = counts.len() as int;
    lemma_sum_counts(a, n, counts);
    assert(counts.subrange(0, n) =~= counts);
    lemma_total_within(a, n, a.len() as int);
    lemma_sample_bins_range(ys, xs);
    lemma_within_all(a, n, a.len() as int);
}

/// A smallest sample of the series falls into the lowest bin when it lies below
/// the second boundary, and a largest sample into the highest bin when it is at
/// or above every inner boundary: the outer boundaries never exclude them.
pub proof fn lemma_extremes_in_outer_bins(ys: Seq<i64>, xs: Seq<i64>, p: int)
    requires
        ys.len() >= 2,
        xs.len() <= usize::MAX,
        0 <= p < xs.len(),
    ensures
        (forall|q: int| 0 <= q < xs.len() ==> xs[p] <= #[trigger] xs[q]) && (ys.len() == 2 || xs[p]
            < ys[1]) ==> sample_bins(ys, xs)[p] == 0,
        (forall|q: int| 0 <= q < xs.len() ==> #[trigger] xs[q] <= xs[p]) && (forall|k: int|
            0 < k < ys.len() - 1 ==> #[trigger] ys[k] <= xs[p]) ==> sample_bins(ys, xs)[p]
            == ys.len() - 2,
{
    assert(positions(xs.len())[p] == p);
    lemma_outer_bins(ys, xs[p]);
}

/// Clearing a filled histogram and filling it again with the same series gives
/// back the same counts.
pub proof fn lemma_refill_reproduces(
    ys: Seq<i64>,
    xs: Seq<i64>,
    counts: Seq<u64>,
    refilled: Seq<u64>,
)
    requires
        ys.len() >= 2,
        counts.len() + 1 == ys.len(),
        refilled.len() == counts.len(),
        forall|j: int|
            0 <= j < counts.len() ==> #[trigger] counts[j] == zero_counts(counts.len())[j] + tally(
                sample_bins(ys, xs),
                j,
            ),
        forall|j: int|
            0 <= j < refilled.len() ==> #[trigger] refilled[j] == zero_counts(counts.len())[j]
                + tally(sample_bins(ys, xs), j),
    ensures
        refilled == counts,
{
    assert(refilled =~= counts);
}

/// An owned copy of a slice.
fn copy_slice<T: Copy>(s: &[T]) -> (r: Vec<T>)
    ensures
        r@ == s@,
{
    let mut r: Vec<T> = Vec::new();
    let mut i: usize = 0;
    while i < s.len()
        invariant
            i <= s@.len(),
            r@ == s@.subrange(0, i as int),
        decreases s@.len() - i,
    {
        r.push(s[i]);
        i = i + 1;
        assert(r@ =~= s@.subrange(0, i as int));
    }
    assert(r@ =~= s@);
    r
}

impl Clone for Histogram {
    fn clone(&self) -> (r: Self)
        ensures
            r.counts() == self.counts(),
            r.boundaries() == self.boundaries(),
    {
        self.duplicate()
    }
}

/// Places samples into a histogram one bin at a time, lowest bin first.
///
/// For each bin it scans every candidate position once, takes the positions
/// not yet placed whose sample passes the bin's test, adds their number to the
/// bin's count and hands them out in scan order. By default the candidates are
/// all positions of the series; with `data_indices` they are a given list, and
/// with `offset` the sample examined for candidate `i` is the one at `i + offset`
/// (a candidate whose sample would lie past the end of the series is skipped).
pub struct HistogramFiller {
    samples: Vec<i64>,
    data_indices: Option<Vec<usize>>,
    offset: usize,
    binned: Vec<bool>,
    bin: usize,
    histogram: Histogram,
    initial: Ghost<Seq<u64>>,
}

impl HistogramFiller {
    /// The series being placed.
    pub closed spec fn series(&self) -> Seq<i64> {
        self.samples@
    }

    /// The candidate positions, in scan order.
    pub closed spec fn candidates(&self) -> Seq<usize> {
        match self.data_indices {
            Some(v) => v@,
            None => positions(self.samples@.len()),
        }
    }

    /// How far ahead of each candidate the examined sample lies.
    pub closed spec fn lag(&self) -> nat {
        self.offset as nat
    }

    /// How many bins have been filled so far.
    pub closed spec fn bins_done(&self) -> nat {
        self.bin as nat
    }

    /// The histogram being filled.
    pub closed spec fn histogram(&self) -> Histogram {
        self.histogram
    }

    /// The histogram's counts before the first bin was filled.
    pub closed spec fn start_counts(&self) -> Seq<u64> {
        self.initial@
    }

    /// The bin of each candidate, or `-1` where it is skipped.
    pub open spec fn assignment(&self) -> Seq<int> {
        lagged_bins(self.histogram().boundaries(), self.series(), self.candidates(), self.lag())
    }

    /// The placed marks agree with the bins filled so far.
    pub closed spec fn scan_wf(&self) -> bool {
        &&& self.binned@.len() == self.candidates().len()
        &&& forall|q: int|
            0 <= q < self.binned@.len() ==> #[trigger] self.binned@[q] == (0 <= self.assignment()[q]
                < self.bin)
    }

    /// The filler's invariant: bins below `bins_done` hold their share of the
    /// candidates on top of the starting counts, the others the starting counts.
    pub open spec fn wf(&self) -> bool {
        &&& self.scan_wf()
        &&& self.histogram().wf()
        &&& self.bins_done() <= self.histogram().counts().len()
        &&& self.start_counts().len() == self.histogram().counts().len()
        &&& forall|j: int|
            0 <= j < self.histogram().counts().len() ==> #[trigger] self.histogram().counts()[j]
                == self.start_counts()[j] + if j < self.bins_done() {
                tally(self.assignment(), j)
            } else {
                0
            }
    }

    /// A filler that places every sample of `data` into `histogram`.
    pub fn new(data: &[i64], histogram: Histogram) -> (r: HistogramFiller)
        requires
            histogram.wf(),
        ensures
            r.wf(),
            r.series() == data@,
            r.candidates() == positions(data@.len()),
            r.lag() == 0,
            r.bins_done() == 0,
            r.histogram() == histogram,
            r.start_counts() == histogram.counts(),
    {
        let mut binned: Vec<bool> = Vec::new();
        while binned.len() < data.len()
            invariant
                binned.len() <= data.len(),
                forall|q: int| 0 <= q < binned.len() ==> !#[trigger] binned@[q],
            decreases data.len() - binned.len(),
        {
            binned.push(false);
        }
        let ghost initial = histogram.counts();
        HistogramFiller {
            samples: copy_slice(data),
            data_indices: None,
            offset: 0,
            binned,
            bin: 0,
            histogram,
            initial: Ghost(initial),
        }
    }

    /// Restricts the candidates to `data_indices`, in that order.
    pub fn data_indices(&mut self, data_indices: &[usize])
        requires
            old(self).wf(),
            old(self).bins_done() == 0,
        ensures
            final(self).wf(),
            final(self).candidates() == data_indices@,
            final(self).series() == old(self).series(),
            final(self).lag() == old(self).lag(),
            final(self).bins_done() == 0,
            final(self).histogram() == old(self).histogram(),
            final(self).start_counts() == old(self).start_counts(),
    {
        let mut binned: Vec<bool> = Vec::new();
        while binned.len() < data_indices.len()
            invariant
                binned.len() <= data_indices.len(),
                forall|q: int| 0 <= q < binned.len() ==> !#[trigger] binned@[q],
            decreases data_indices.len() - binned.len(),
        {
            binned.push(false);
        }
        self.data_indices = Some(copy_slice(data_indices));
        self.binned = binned;
    }

    /// Examines, for each candidate `i`, the sample at `i + offset`.
    pub fn offset(&mut self, offset: usize)
        requires
            old(self).wf(),
            old(self).bins_done() == 0,
        ensures
            final(self).wf(),
            final(self).lag() == offset,
            final(self).candidates() == old(self).candidates(),
            final(self).series() == old(self).series(),
            final(self).bins_done() == 0,
            final(self).histogram() == old(self).histogram(),
            final(self).start_counts() == old(self).start_counts(),
    {
        self.offset = offset;
    }

    /// The histogram, once the filler is done with it.
    pub fn into_histogram(self) -> (r: Histogram)
        ensures
            r == self.histogram(),
    {
        self.histogram
    }

    /// Fills the next bin: marks the candidates not yet placed that pass its
    /// test, adds their number to its count and returns them in scan order.
    pub fn fill_bin(&mut self) -> (r: Vec<usize>)
        requires
            old(self).wf(),
            old(self).bins_done() < old(self).histogram().counts().len(),
            forall|j: int|
                0 <= j < old(self).start_counts().len() ==> #[trigger] old(self).start_counts()[j]
                    + old(self).candidates().len() <= u64::MAX,
        ensures
            final(self).wf(),
            final(self).bins_done() == old(self).bins_done() + 1,
            final(self).series() == old(self).series(),
            final(self).candidates() == old(self).candidates(),
            final(self).lag() == old(self).lag(),
            final(self).histogram().boundaries() == old(self).histogram().boundaries(),
            final(self).start_counts() == old(self).start_counts(),
            r@ == members(old(self).candidates(), old(self).assignment(), old(self).bins_done() as int),
    {
        let ghost a = self.assignment();
        let ghost cands = self.candidates();
        let ghost ys = self.histogram.intervals@;
        let b = self.bin;
        let len = self.samples.len();
        let ncand = self.binned.len();
        let nb = self.histogram.intervals.len();
        let mut found: Vec<usize> = Vec::new();
        let mut p: usize = 0;
        while p < ncand
            invariant
                old(self).wf(),
                forall|j: int|
                    0 <= j < old(self).start_counts().len() ==> #[trigger] old(self).start_counts()[j]
                        + old(self).candidates().len() <= u64::MAX,
                self.bin == b,
                ys.len() == self.histogram.bins@.len() + 1,
                nb == ys.len(),
                a == self.assignment(),
                cands == self.candidates(),
                ys == self.histogram.intervals@,
                len == self.samples@.len(),
                ncand == self.binned@.len(),
                ncand == cands.len(),
                b < self.histogram.bins@.len(),
                p <= ncand,
                forall|q: int| 0 <= q < p ==> #[trigger] self.binned@[q] == (0 <= a[q] <= b),
                forall|q: int| p <= q < ncand ==> #[trigger] self.binned@[q] == (0 <= a[q] < b),
                found@ == members_upto(cands, a, b as int, p as int),
                self.histogram == old(self).histogram,
                self.samples@ == old(self).samples@,
                self.data_indices == old(self).data_indices,
                self.offset == old(self).offset,
                self.initial == old(self).initial,
            decreases ncand - p,
        {
            let i: usize = match &self.data_indices {
                Some(v) => v[p],
                None => p,
            };
            assert(i == cands[p as int]);
            match i.checked_add(self.offset) {
                Some(j) => {
                    if j < len {
                        let x = self.samples[j];
                        proof {
                            assert(a[p as int] == bin_of(ys, x));
                            lemma_bin_from_range(ys, x, 0);
                            if !self.binned@[p as int] {
                                lemma_in_bin(ys, x, b as int);
                            }
                        }
                        let lower = b == 0 || self.histogram.intervals[b] <= x;
                        let upper = b + 2 == nb || x < self.histogram.intervals[b + 1];
                        if !self.binned[p] && lower && upper {
                            self.binned.set(p, true);
                            found.push(i);
                        }
                    }
                },
                None => {},
            }
            p = p + 1;
        }
        proof {
            lemma_members_upto(cands, a, b as int, ncand as int);
            lemma_count_upto_bound(a, b as int, ncand as int);
        }
        let count = self.histogram.bins.read(b);
        self.histogram.bins.set(b, count + found.len() as u64);
        self.bin = b + 1;
        assert(self.assignment() == a);
        assert forall|q: int| 0 <= q < self.binned@.len() implies #[trigger] self.binned@[q] == (0
            <= self.assignment()[q] < self.bin) by {}
        found
    }

    /// Fills the next bin and returns the candidates placed there, in scan order;
    /// `None` once every bin is filled.
    pub fn next(&mut self) -> (r: Option<Vec<usize>>)
        requires
            old(self).wf(),
            forall|j: int|
                0 <= j < old(self).start_counts().len() ==> #[trigger] old(self).start_counts()[j]
                    + old(self).candidates().len() <= u64::MAX,
        ensures
            final(self).wf(),
            final(self).series() == old(self).series(),
            final(self).candidates() == old(self).candidates(),
            final(self).lag() == old(self).lag(),
            final(self).histogram().boundaries() == old(self).histogram().boundaries(),
            final(self).start_counts() == old(self).start_counts(),
            old(self).bins_done() < old(self).histogram().counts().len() ==> {
                &&& final(self).bins_done() == old(self).bins_done() + 1
                &&& r matches Some(v) && v@ == members(
                    old(self).candidates(),
                    old(self).assignment(),
                    old(self).bins_done() as int,
                )
            },
            old(self).bins_done() == old(self).histogram().counts().len() ==> {
                &&& r is None
                &&& *final(self) == *old(self)
            },
    {
        if self.bin < self.histogram.bins.size() {
            Some(self.fill_bin())
        } else {
            None
        }
    }
}

} // verus!
