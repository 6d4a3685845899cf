//! Error kinds of the likelihood computation.

use vstd::prelude::*;

verus! {

/// Which sequence held the offending character.
#[derive(Clone, Copy, Debug, PartialEq, Eq, Structural)]
pub enum BaseSource {
    /// The query sequence is at fault.
    Query,
    /// The haplotype panel row with the given index is at fault.
    Haplotype { row: usize },
}

/// A failed likelihood call. All kinds are fatal for the call: no partial
/// result is produced.
#[derive(Clone, Copy, Debug, PartialEq, Eq, Structural)]
pub enum LsError {
    /// A character outside the base alphabet was found, at position `pos`
    /// of the named sequence.
    InvalidBase { source: BaseSource, pos: usize },
    /// The panel rows and the query do not share one aligned width.
    DimensionMismatch,
    /// The exact common denominator of the forward values does not fit in
    /// 128 bits for these parameters and this sequence length.
    Overflow,
}

} // verus!
