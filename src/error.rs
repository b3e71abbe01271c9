use vstd::prelude::*;

verus! {

/// Why a simulation could not be carried out.
#[derive(PartialEq, Eq, Structural, Clone, Copy, Debug)]
pub enum SimError {
    /// A field of the request is malformed or missing.
    InvalidInput,
    /// Positives exceed trials, a shape parameter or prior is not positive,
    /// or a percentile probability lies outside the open interval (0, 1).
    InvalidParameter,
    /// The number of samples or of bins is zero.
    InvalidCount,
    /// No draws were supplied, so no extrema exist.
    InsufficientData,
}

} // verus!
