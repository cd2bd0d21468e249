//! Verified corpus I/O: a size-bounded rotating writer for newline-delimited
//! records, a split-aware reader that reassembles the logical record sequence
//! from rotated parts, and a nested-to-columnar flattener with
//! definition/repetition levels.

pub mod chunking;
pub mod columns;
pub mod docwriter;
pub mod error;
pub mod lines;
pub mod names;
pub mod new_writer;
pub mod reader;
pub mod types;
pub mod writer;
