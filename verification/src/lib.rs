//! Crash-consistency analysis for byte-addressable persistent memory.
//!
//! A recorded trace of writes, flushes and fences is replayed against a model
//! of x86 persistency. At every fence that still has pending lines a bounded
//! family of candidate crash images is produced, and images whose semantic
//! fingerprints agree are folded into one semantic state.

pub mod image;
pub mod pmem;
pub mod model;
pub mod trace;
pub mod replay;
pub mod crash;
pub mod semantic;
pub mod generator;
pub mod orchestrator;
pub mod text;
pub mod summary;
pub mod snapshot;
