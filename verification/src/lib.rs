//! An embeddable semantic data store for typed subject-property-value facts.
//!
//! Resources are keyed by subject URI and hold a mapping from property URI to
//! raw value string. Mutations go through cryptographically signed,
//! authorization-checked commits; bulk loads go through the line-oriented
//! AD3 triple codec. A schema of Property and Class resources drives
//! datatype and required-property validation.

pub mod codec;
pub mod commit;
pub mod errors;
pub mod hierarchy;
pub mod ontology;
pub mod resource;
pub mod schema;
pub mod serialize;
pub mod store;
pub mod text;
pub mod urls;
pub mod value;

pub use commit::Commit;
pub use commit::CommitResponse;
pub use errors::AtomicError;
pub use resource::Atom;
pub use resource::PropVal;
pub use resource::Resource;
pub use store::Store;
