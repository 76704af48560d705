//! Per-bin running statistics over a stream of multidimensional samples.
//!
//! A [`Grid`] partitions an integer coordinate space into rectangular bins.
//! A [`BinnedStatistic`] keeps, for every bin of a grid, the number of samples
//! that fell into it together with the sum, the sum of squares and the extrema
//! of the values that came with them. A sample is taken whenever the count
//! and the sum of its bin can hold it. Means and variances are exact
//! fractions, given bin by bin.
pub mod arrays;
pub mod grid;
pub mod model;
pub mod moments;
pub mod binnedstatistic;
pub mod laws;
pub mod variance_laws;
pub mod order_laws;





pub use crate::arrays::{CountArray, SquareArray, ValueArray};
pub use crate::binnedstatistic::{BinnedStatistic, BinnedStatisticExt, MergeError, SampleError};
pub use crate::grid::Grid;
pub use crate::model::{Bins, Ratio, StatError};
