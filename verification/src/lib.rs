//! A small personal catalog for tagged media, backed by an append-only
//! transaction log instead of a database.
//!
//! The log is a sequence of length-prefixed binary records, one per mutation.
//! An in-memory cache is the fold of those records in order: it is rebuilt by
//! replaying the whole log at startup and kept in lock-step with every later
//! append.  Media payloads are embedded in the log and served back byte-exact
//! through stored `(offset, size)` references.  Bearer tokens are issued from
//! a salted one-way hash of a monotonic counter and checked by set membership.

pub mod cache;
pub mod catalog;
pub mod codec;
pub mod replay;
pub mod session;
pub mod store;
pub mod stream;
pub mod types;
pub mod wire;
