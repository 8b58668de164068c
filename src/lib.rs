//! An offline-first note collection kept on a client and reconciled with a
//! single server-side table by whole-collection batches.
pub mod cache;
pub mod client;
pub mod cors;
pub mod note;
pub mod sync;
pub mod table;
