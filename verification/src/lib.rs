//! Discovery of API-documentation endpoints in a cluster.
//!
//! The library decodes discovery annotations on watched services, builds
//! probe endpoints, merges candidate entries into a shared catalogue with
//! last-writer-wins deduplication, and drives an optimistic read-merge-write
//! cycle with bounded exponential backoff against concurrent writers. The
//! catalogue's persisted JSON form is rendered and read back by a codec whose
//! decoding provably inverts its encoding.

pub mod annotations;
pub mod codec;
pub mod config;
pub mod entry;
pub mod frontend;
pub mod merge;
pub mod namespaces;
pub mod reconcile;
pub mod server;
pub mod sync;
pub mod text;
