//! Error taxonomy: codec failures and whole-batch authorization failures.

use vstd::prelude::*;

verus! {

/// Malformed or oversized bytes in the credential / policy codec.
#[derive(Copy, Clone, PartialEq, Eq, Structural, Debug)]
pub struct CodecError;

/// A whole-batch fatal condition of the proposal authorizer. Permission
/// denials are never errors: they only shrink the output batch.
#[derive(Copy, Clone, PartialEq, Eq, Structural, Debug)]
pub enum AuthorizationError {
    /// Malformed credential or policy bytes.
    DecodeError,
    /// The group context lacks the expected policy extension.
    PolicyMissing,
    /// The author or a proposal sender is not an existing member.
    UnauthorizedSender,
    /// Missing default role entry, or a role index outside the policy table.
    RoleResolutionFailure,
}

/// A string-typed error surfaced to the enclosing engine.
#[derive(Clone, PartialEq, Eq, Debug)]
pub struct FireflyError {
    inner: String,
}

impl View for FireflyError {
    type V = Seq<char>;

    closed spec fn view(&self) -> Seq<char> {
        self.inner@
    }
}

impl FireflyError {
    pub fn new(s: String) -> (r: Self)
        ensures
            r@ == s@,
    {
        FireflyError { inner: s }
    }

    pub fn message(&self) -> (r: &String)
        ensures
            r@ == self@,
    {
        &self.inner
    }
}

/// The message text attached to each authorization failure.
pub open spec fn spec_firefly_message(e: AuthorizationError) -> Seq<char> {
    match e {
        AuthorizationError::DecodeError => "Credential or policy bytes failed to decode"@,
        AuthorizationError::PolicyMissing => "No Firefly Roster Extension Found"@,
        AuthorizationError::UnauthorizedSender => "Sender has to be an existing member"@,
        AuthorizationError::RoleResolutionFailure => "No role could be resolved for the sender"@,
    }
}

impl AuthorizationError {
    /// The engine-facing description of each failure.
    pub fn into_firefly(self) -> (r: FireflyError)
        ensures
            r@ == spec_firefly_message(self),
    {
        let s: &str = match self {
            AuthorizationError::DecodeError => "Credential or policy bytes failed to decode",
            AuthorizationError::PolicyMissing => "No Firefly Roster Extension Found",
            AuthorizationError::UnauthorizedSender => "Sender has to be an existing member",
            AuthorizationError::RoleResolutionFailure => "No role could be resolved for the sender",
        };
        FireflyError { inner: s.to_string() }
    }
}

} // verus!
