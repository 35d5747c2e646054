//! A calculator for a fixed catalog of parametric probability
//! distributions and for empirical datasets: validated parameters, exact
//! moment formulas, a complete interval partition over any list of query
//! points, dataset statistics with probability balancing, quantile
//! inversion, pooled variance, and aligned two-column reports. Every real
//! value is held as a whole number of 10^-10 units, the precision to which
//! all output is rounded.

pub mod analyze;
pub mod data_set;
pub mod descriptions;
pub mod display;
pub mod distributions;
pub mod fixed;
pub mod format;
pub mod info;
pub mod inverse;
pub mod math;
pub mod printer;
pub mod secret;
pub mod utils;
