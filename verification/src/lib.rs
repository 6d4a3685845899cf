//! Li–Stephens haplotype-copying likelihood.
//!
//! Given a panel of reference haplotypes and a query sequence over the
//! nucleotide alphabet, the library computes the unnormalized forward
//! probability of the query having been copied from the panel, under
//! per-position mutation and recombination probabilities. All arithmetic
//! is exact: probabilities enter as rationals and the forward recurrence
//! is carried out on integer numerators over one common denominator, so
//! every contract states the returned value precisely.

pub mod alphabet;
pub mod bounds;
pub mod encode;
pub mod engine;
pub mod errors;
pub mod laws;
pub mod model;
pub mod params;

pub use alphabet::is_base;
pub use encode::li_stephens_probs;
pub use engine::li_stephens_probs_matrix;
