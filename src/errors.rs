//! Errors of a run.

use vstd::prelude::*;

verus! {

#[verifier::external_type_specification]
#[verifier::external_body]
pub struct ExIoError(std::io::Error);

/// Top-level application errors.
#[derive(Debug)]
pub enum AppError {
    /// Resolving the target host failed.
    Io(std::io::Error),
    /// The target host resolved to no address.
    NoDns,
}

} // verus!
