//! The failure kinds surfaced to callers.

use vstd::prelude::*;

verus! {

/// Every failure a library operation can report.
///
/// `NotFound` is a normal outcome of a cache lookup, not a fault.
/// `InvalidInput` is a caller error detected before any external call.
/// `ExternalAuthorityFailure` carries the authority's own cause text; the
/// call is never retried. `PersistenceFailure` is fatal to a restart
/// transition: the in-memory state is left untouched.
#[derive(Debug, PartialEq, Eq)]
pub enum SignerError {
    NotFound,
    InvalidInput,
    ExternalAuthorityFailure(String),
    PersistenceFailure,
}

} // verus!
