//! Authorization policy layer for a secure group-messaging engine.
//!
//! The engine manages a cryptographic group and batches proposals — add a
//! member, remove one, rotate a key, change group extensions — which a
//! commit applies atomically. This library owns the authorization side of
//! that flow: a role/permission model ([`permissions`], [`policy`]), the
//! wire codec for member credentials and the replicated role policy
//! ([`codec`]), and the per-proposal decision procedure that filters every
//! candidate batch before the engine's own structural rules ([`rules`]).
//! The general properties of the filter are stated and proved in [`laws`].
//!
//! The engine's own types never appear here: [`engine`] models the values
//! the authorizer reads — roster, context extensions, proposal batch — as
//! plain data, and the authorizer is a pure function of them.

pub mod codec;
pub mod credential;
pub mod engine;
pub mod error;
pub mod laws;
pub mod permissions;
pub mod policy;
pub mod rules;

pub use error::AuthorizationError;
pub use error::FireflyError;
pub use permissions::UserPermission;
pub use permissions::UserPermissions;
pub use rules::FireflyMlsRules;
