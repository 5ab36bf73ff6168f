//! A store for process-local Prometheus-style metric samples.
//!
//! Many worker processes each append `(key, value)` records to a backing
//! region of their own; a reader later scans every region, merges records
//! that share a key, and renders the merged set in the Prometheus text
//! format or as length-delimited binary metric-family messages.
//!
//! Metric values are IEEE-754 double-precision numbers. This crate never
//! computes with native floats: a value travels through the library as its
//! 64-bit pattern (`u64`), which is exactly what the record format stores.
//! The few operations that need real floating-point semantics (addition,
//! parsing, rendering) go through the small trusted interface in [`value`].

use vstd::prelude::*;

pub mod error;
pub mod exemplars;
pub mod file_entry;
pub mod map;
pub mod metric_text;
pub mod protobuf;
pub mod raw_entry;
pub mod region;
pub mod util;
pub mod value;

verus! {

/// Byte length of a region header: a `u32` length of the record stream
/// (header included) followed by four reserved bytes.
pub const HEADER_SIZE: usize = 8;

} // verus!
