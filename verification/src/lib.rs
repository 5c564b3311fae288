//! An ordered, append-friendly keyed record store with owner-gated deletion.
//!
//! The store keeps a single mutable greeting, a mapping from integer ids to
//! [`Report`] records, and the identity of its owner, captured at
//! construction. Every operation takes the caller's identity explicitly, so
//! the core stays independent of whatever host delivers the calls.

pub mod report;
pub mod store;

pub use report::Report;
pub use report::StoreError;
pub use store::Contract;
