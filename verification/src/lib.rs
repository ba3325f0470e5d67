//! Verified building blocks for rank-based statistics.
//!
//! The numerically delicate parts of a statistics library (special
//! functions, descriptive statistics, Chebyshev fits) live in unverified
//! floating-point code around this crate.  What this crate verifies is the
//! combinatorial machinery of the Benjamini-Hochberg p-value adjustment:
//! sorting positions by key, cumulative and elementwise minima, and
//! gathering through a permutation.  Keys are `u64` values; a caller that
//! works with IEEE floats maps them here through the standard monotone
//! total-order encoding, under which the float total order, minima and
//! ties coincide with the `u64` order used in the contracts.

pub mod adjust;
pub mod minima;
pub mod rank;
