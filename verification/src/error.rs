//! The ways an operation of this crate can fail.
use vstd::prelude::*;

verus! {

/// A date, time or period string could not be read.
#[derive(Clone, Copy, Debug, PartialEq, Eq, Structural)]
pub struct ParseFailure;

/// A run of minute sessions has a day without data between days with data.
#[derive(Clone, Copy, Debug, PartialEq, Eq, Structural)]
pub struct DataIntegrityError;

} // verus!

verus! {

/// Why no credential could be had.
#[derive(Clone, Copy, Debug, PartialEq, Eq, Structural)]
pub enum CredentialError {
    /// A source of credentials failed.
    Failed,
    /// No source had a credential, and one was required.
    NotFound,
}

} // verus!
