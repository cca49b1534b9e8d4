//! Why a verification request is turned down before any hash is computed.

use vstd::prelude::*;

verus! {

/// A request that cannot be verified as it stands. A proof that merely fails
/// to check out is no error: it is the verdict `false`.
#[derive(Clone, Copy, Debug, PartialEq, Eq, Structural)]
pub enum VerifyError {
    /// The worker count is zero, so there is nobody to give a chunk to.
    NoWorkers,
    /// The proof does not have as many elements as the difficulty asks for.
    LengthMismatch,
}

} // verus!
