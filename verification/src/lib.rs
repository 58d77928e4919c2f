//! Reconciliation of drink-image records against a key-value store.
//!
//! A notification names a newly stored file by bucket and object key. The
//! library derives the record identity (bar name, drink name) from the key,
//! builds the canonical reference locator, and decides whether the record is
//! inserted or updated, so that the stored reference always points at the
//! most recently observed file for that identity.

pub mod errors;
pub mod path;
pub mod reconcile;
pub mod store;
