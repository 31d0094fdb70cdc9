use vstd::prelude::*;

verus! {

/// The ways an operation of this library can fail.
///
/// Every error is surfaced immediately to the caller; there is no retry or
/// recovery path, since all inputs are fully caller-controlled.
#[derive(Clone, Copy, Debug, PartialEq, Eq, Structural)]
pub enum SpnError {
    /// The requested key schedule would read past the 80-bit master key.
    InvalidConfiguration,
    /// A round-key schedule of a length other than five was supplied.
    InvalidKeySchedule,
    /// An attack was invoked on an empty pair collection.
    EmptyPairSet,
    /// The differential right-pair filter removed every quadruple.
    NoSurvivingPairs,
}

} // verus!
