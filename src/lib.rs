//! Merges a remote subscription document with a local override document whose
//! `prepend-<key>` and `append-<key>` entries extend the remote sequences, and
//! decides the replies of the service that serves the result.

pub mod document;
pub mod merge;
pub mod laws;
pub mod error;
pub mod remote;
pub mod api;
