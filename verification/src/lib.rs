//! Verified core of a sandboxed per-user document store.
//!
//! The library models a directory tree as a finite map from relative path
//! (bytes, forward-slash separated) to file content (bytes), and verifies
//! the store's read/write/list/delete operations, the classification of
//! URL-like asset references, percent-decoding, and the scan that ingests
//! an HTML document together with the local images it references.

pub mod bytes;
pub mod classify;
pub mod ingest;
pub mod paths;
pub mod percent;
pub mod scan;
pub mod store;
