use markov_histogram::{
    sample_extremes, ConditionalProbability, Histogram, HistogramError, HistogramFiller,
};

/// An integer key with the order of the samples.
fn key(x: f64) -> i64 {
    let b = (x + 0.0).to_bits() as i64;
    if b < 0 {
        b ^ i64::MAX
    } else {
        b
    }
}

fn keys(xs: &[f64]) -> Vec<i64> {
    xs.iter().map(|x| key(*x)).collect()
}

fn empty_from_data(xs: &[f64], n: usize) -> Histogram {
    let ks = keys(xs);
    let (lo, hi) = sample_extremes(&ks).unwrap();
    let bounds = ndarray::Array1::linspace(xs[lo], xs[hi], n + 1);
    Histogram::from_intervals(keys(&bounds.to_vec())).unwrap()
}

fn from_data(xs: &[f64], n: usize) -> Histogram {
    let mut hist = empty_from_data(xs, n);
    hist.fill(&keys(xs));
    hist
}

fn series() -> Vec<f64> {
    vec![0.0, 1.0, 2.0, 3.0, 0.0, 1.0, 2.0, 0.0, 1.0]
}

#[test]
fn histogram() {
    let xs = series();
    let hist = from_data(&xs, 4);
    assert_eq!(hist.bins_ref().to_vec(), vec![3, 3, 2, 1]);
}

#[test]
fn histogram_filler() {
    let xs = series();
    let hist = empty_from_data(&xs, 4);
    let mut hist_filler = HistogramFiller::new(&keys(&xs), hist);
    assert_eq!(hist_filler.next(), Some(vec![0, 4, 7]));
    assert_eq!(hist_filler.next(), Some(vec![1, 5, 8]));
    assert_eq!(hist_filler.next(), Some(vec![2, 6]));
    assert_eq!(hist_filler.next(), Some(vec![3]));
    assert_eq!(hist_filler.next(), None);
}

#[test]
fn histogram_clone() {
    let xs = series();
    let hist = from_data(&xs, 4);
    let cloned = hist.clone();
    assert_eq!(cloned.bins_ref().to_vec(), hist.bins_ref().to_vec());
    assert_eq!(cloned.intervals_ref(), hist.intervals_ref());
}

#[test]
fn filler_fills_its_histogram() {
    let xs = series();
    let hist = empty_from_data(&xs, 4);
    let mut filler = HistogramFiller::new(&keys(&xs), hist);
    while filler.next().is_some() {}
    assert_eq!(filler.into_histogram().bins_ref().to_vec(), vec![3, 3, 2, 1]);
}

#[test]
fn counts_sum_to_series_length() {
    let xs = vec![-2.5, 7.0, 0.1, 0.1, 3.3, -2.5, 6.9, 1.0, 4.4, 5.0, 2.2];
    for n in 1..8 {
        let hist = from_data(&xs, n);
        let total: u64 = hist.bins_ref().to_vec().iter().sum();
        assert_eq!(total, xs.len() as u64);
        assert_eq!(hist.bins_ref().len(), n);
        assert_eq!(hist.intervals_ref().len(), n + 1);
    }
}

#[test]
fn extremes_land_in_outer_bins() {
    let xs = vec![0.3, 0.1, 0.7, 0.9, 0.2, 0.1, 0.9];
    let hist = from_data(&xs, 5);
    let counts = hist.bins_ref().to_vec();
    assert_eq!(counts[0], 3);
    assert_eq!(counts[4], 2);
}

#[test]
fn single_bin_takes_everything() {
    let xs = vec![4.0, -1.0, 2.0];
    let hist = from_data(&xs, 1);
    assert_eq!(hist.bins_ref().to_vec(), vec![3]);
}

#[test]
fn equal_samples_go_to_the_last_bin() {
    let xs = vec![2.0, 2.0, 2.0];
    let hist = from_data(&xs, 3);
    assert_eq!(hist.bins_ref().to_vec(), vec![0, 0, 3]);
}

#[test]
fn samples_outside_the_bounds_are_kept() {
    let mut hist = Histogram::from_intervals(vec![0, 10, 20]).unwrap();
    hist.fill(&[-100, 5, 15, 20, 1000]);
    assert_eq!(hist.bins_ref().to_vec(), vec![2, 3]);
}

#[test]
fn clear_then_refill_reproduces_counts() {
    let xs = series();
    let mut hist = from_data(&xs, 4);
    let before = hist.bins_ref().to_vec();
    hist.clear();
    assert_eq!(hist.bins_ref().to_vec(), vec![0, 0, 0, 0]);
    hist.fill(&keys(&xs));
    assert_eq!(hist.bins_ref().to_vec(), before);
}

#[test]
fn fill_adds_to_existing_counts() {
    let mut hist = Histogram::new(vec![1, 2], vec![0, 10, 20]).unwrap();
    hist.fill(&[3, 12, 14]);
    assert_eq!(hist.bins_ref().to_vec(), vec![2, 4]);
}

#[test]
fn lagged_fill_on_first_bin() {
    let xs = series();
    let mut row = empty_from_data(&xs, 4);
    row.fill_with_indices(&keys(&xs), &[0, 4, 7], 1);
    assert_eq!(row.bins_ref().to_vec(), vec![0, 3, 0, 0]);
}

#[test]
fn lagged_fill_skips_past_the_end() {
    let xs = series();
    let mut row = empty_from_data(&xs, 4);
    row.fill_with_indices(&keys(&xs), &[1, 5, 8], 1);
    assert_eq!(row.bins_ref().to_vec(), vec![0, 0, 2, 0]);
    let mut far = empty_from_data(&xs, 4);
    far.fill_with_indices(&keys(&xs), &[0, 3], usize::MAX);
    assert_eq!(far.bins_ref().to_vec(), vec![0, 0, 0, 0]);
}

#[test]
fn filler_with_indices_and_offset() {
    let xs = series();
    let hist = empty_from_data(&xs, 4);
    let mut filler = HistogramFiller::new(&keys(&xs), hist);
    filler.data_indices(&[2, 6]);
    filler.offset(1);
    assert_eq!(filler.next(), Some(vec![6]));
    assert_eq!(filler.next(), Some(vec![]));
    assert_eq!(filler.next(), Some(vec![]));
    assert_eq!(filler.next(), Some(vec![2]));
    assert_eq!(filler.next(), None);
}

#[test]
fn conditional_probability_rows() {
    let xs = series();
    let mut cp = ConditionalProbability::from_histogram(&empty_from_data(&xs, 4));
    cp.fill(&keys(&xs));
    assert_eq!(cp.probability_ref().bins_ref().to_vec(), vec![3, 3, 2, 1]);
    let m = cp.rows();
    assert_eq!(
        m,
        vec![vec![0, 3, 0, 0], vec![0, 0, 2, 0], vec![1, 0, 0, 1], vec![1, 0, 0, 0]]
    );
    assert_eq!(cp.conditional_probability_ref().get(2, 3), 1);
    assert_eq!(cp.intervals_ref(), cp.probability_ref().intervals_ref());
}

#[test]
fn conditional_rows_bounded_by_marginal() {
    let xs = series();
    let mut cp = ConditionalProbability::from_histogram(&empty_from_data(&xs, 4));
    cp.fill(&keys(&xs));
    let bins = cp.probability_ref().bins_ref().to_vec();
    let m = cp.rows();
    for i in 0..4 {
        let row: u64 = m[i].iter().sum();
        assert!(row <= bins[i]);
        if i != 1 {
            assert_eq!(row, bins[i]);
        }
    }
    let row1: u64 = m[1].iter().sum();
    assert_eq!(row1, bins[1] - 1);
}

#[test]
fn from_histogram_clears_the_template() {
    let xs = series();
    let template = from_data(&xs, 4);
    let cp = ConditionalProbability::from_histogram(&template);
    assert_eq!(cp.probability_ref().bins_ref().to_vec(), vec![0, 0, 0, 0]);
    assert_eq!(cp.intervals_ref(), template.intervals_ref());
    assert_eq!(cp.rows(), vec![vec![0; 4]; 4]);
}

#[test]
fn extremes_of_samples() {
    assert_eq!(sample_extremes(&[]), Err(HistogramError::EmptyInput));
    let (lo, hi) = sample_extremes(&[5, 1, 9, 1, 9, 3]).unwrap();
    assert_eq!([5, 1, 9, 1, 9, 3][lo], 1);
    assert_eq!([5, 1, 9, 1, 9, 3][hi], 9);
    let (lo, hi) = sample_extremes(&[4, 4, 4]).unwrap();
    assert!(lo < 3 && hi < 3);
}

#[test]
fn invalid_bin_counts_are_rejected() {
    assert_eq!(Histogram::from_intervals(vec![]).err(), Some(HistogramError::InvalidBinCount));
    assert_eq!(Histogram::from_intervals(vec![3]).err(), Some(HistogramError::InvalidBinCount));
    assert_eq!(Histogram::new(vec![], vec![0]).err(), Some(HistogramError::InvalidBinCount));
    assert_eq!(
        Histogram::new(vec![0, 0], vec![0, 1]).err(),
        Some(HistogramError::InvalidBinCount)
    );
    let h = Histogram::new(vec![7], vec![0, 1]).unwrap();
    assert_eq!(h.bins_ref().get(0), 7);
    assert_eq!(h.intervals_ref(), &vec![0, 1]);
}
