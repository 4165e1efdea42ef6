//! The error kinds every operation reports. Each error is synchronous and
//! leaves all state unchanged.

use vstd::prelude::*;

verus! {

#[derive(Clone, Copy, PartialEq, Eq, Structural, Debug)]
pub enum LoanError {
    /// The referenced loan id has no record.
    NotFound,
    /// The operation was attempted against a loan whose status forbids it.
    InvalidState,
    /// The caller lacks the role required for the action.
    Unauthorized,
    /// A non-positive amount or duration was supplied.
    InvalidArgument,
}

} // verus!
