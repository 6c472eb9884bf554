use vstd::prelude::*;

verus! {

/// Error kinds surfaced by the core operations.
///
/// `Unauthorized` means no identity was presented (anonymous caller),
/// `Forbidden` means the caller is authenticated but does not own the
/// resource, `NotFound` means a referenced id is absent, and
/// `Validation` means a required field was missing or empty.
#[derive(Clone, Copy, Debug, PartialEq, Eq, Structural)]
pub enum RepoError {
    Unauthorized,
    Forbidden,
    NotFound,
    Validation,
}

} // verus!
