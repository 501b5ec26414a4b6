use vstd::prelude::*;

verus! {

/// The error taxonomy of the library.
///
/// Every failing operation returns one of these and leaves all of its
/// `&mut` arguments exactly as they were: no partial state is ever
/// observable after an error.
#[derive(Clone, Copy, PartialEq, Eq, Structural, Debug)]
pub enum ErrorCode {
    /// A record or candidate that the operation requires is absent.
    NotFound,
    /// Externally supplied bytes cannot be read as the expected digest.
    DecodeError,
    /// Fewer distinct voters are available than a sampling step needs.
    InsufficientCandidates,
    /// The encoded response chunk does not fit the response channel.
    SerializationError,
    /// The payer cannot cover the funding shortfall for a growth step.
    FundingFailure,
    /// The required capacity exceeds what the backing storage permits.
    ResizeFailure,
}

} // verus!
