//! Discretised Markov transition statistics of a time series: histograms of
//! sample keys, the sample positions that fall into each bin, and the counts of
//! transitions between bins at a fixed lag.
//!
//! Samples are handled as `i64` keys whose order is the order of the samples.
use vstd::prelude::*;

pub mod binning;
pub mod conditional_probability;
pub mod counts;
pub mod histogram;

pub use conditional_probability::ConditionalProbability;
pub use counts::{CountMatrix, Counts};
pub use histogram::{sample_extremes, Histogram, HistogramError, HistogramFiller};

verus! {

} // verus!
