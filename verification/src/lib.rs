//! Chunked archival backup core: partitions a directory tree's entries into
//! bounded, sealed archive segments, derives unique remote object keys for
//! them, decides which staged archives a retention sweep may delete, and
//! tracks a backup run's lifecycle as a state machine.

pub mod entry;
pub mod errors;
pub mod chunker;
pub mod archive;
pub mod keys;
pub mod retention;
pub mod walker;
pub mod orchestrator;
