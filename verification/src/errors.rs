//! Typed errors returned by the core. The core never maps these to any
//! transport representation; collaborators do.

use vstd::prelude::*;

verus! {

/// Why a resource (or a commit's resulting resource) is not valid.
#[derive(Debug, PartialEq, Eq)]
pub enum ValidationError {
    /// A raw value does not conform to its property's datatype grammar.
    InvalidValue { property: String },
    /// A property key does not resolve to a known Property resource.
    UnknownProperty { property: String },
    /// A class that the resource declares requires a property it lacks.
    MissingRequired { subject: String, shortname: String, class: String },
}

/// Why a commit was refused before validation.
#[derive(Debug, PartialEq, Eq)]
pub enum AuthError {
    /// The signer is not a known Agent with a public key.
    UnknownSigner,
    /// The supplied signature does not match the signed payload.
    InvalidSignature,
    /// The signer has no write permission on the target subject.
    NoWritePermission,
    /// The commit is older than the subject's last applied commit.
    Stale,
}

/// The error taxonomy of the whole core.
#[derive(Debug, PartialEq, Eq)]
pub enum AtomicError {
    /// A malformed AD3 line; `line` is its 1-based position in the input.
    Parse { line: usize },
    Validation(ValidationError),
    NotFound { subject: String },
    Authorization(AuthError),
    /// Surfaced by collaborators around persistence calls; never produced
    /// by the core itself.
    Io { message: String },
}

} // verus!
