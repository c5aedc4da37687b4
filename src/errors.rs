use vstd::prelude::*;

verus! {

/// Failures of the multiparty protocols.
///
/// Protocol conditions are checked before any secret material is touched;
/// failures of the ring layer are carried with their message.
#[derive(Debug, Clone, PartialEq, Eq)]
pub enum Error {
    /// An aggregation was given `found` values where at least `needed` are required.
    TooFewValues(usize, usize),
    /// Two inputs of one operation were built over different parameters.
    ParametersMismatch,
    /// A common random vector had `found` entries where `expected` were required.
    CrpLengthMismatch(usize, usize),
    /// A round-two share does not carry the aggregated round-one share it was built from.
    MissingRoundOne,
    /// No ring context exists at the given level.
    InvalidLevel(usize),
    /// Two ring elements or ciphertexts do not have the shape the operation requires.
    ShapeMismatch,
    /// The ring arithmetic layer reported a failure.
    MathError(String),
}

} // verus!
