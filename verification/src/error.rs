use vstd::prelude::*;

verus! {

/// The ways in which an operation of this library can be refused.
#[derive(Debug, Clone, Copy, PartialEq, Eq, Structural)]
pub enum UserError {
    /// A record of a user database is malformed.
    InvalidData,
    /// The current user may not do what was asked.
    PermissionDenied,
    /// The password given does not match.
    AuthenticationFailure,
}

} // verus!
