//! Extension-driven command inference for a compression utility.
//!
//! A filename's trailing suffixes are parsed into an ordered chain of
//! compression formats (`archive.tar.gz` yields tar, then gzip).  From the
//! input paths and the optional output path of an invocation, the library
//! decides whether the user means to compress or to decompress, validates
//! that decision against every input, and builds a single command
//! descriptor for the execution stage to consume.

pub mod error;
pub mod cli;
pub mod extension;
pub mod compressors;
pub mod file;
pub mod utils;
