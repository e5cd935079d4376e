//! Planning of reads that fetch only part of a serialized array segment.
//!
//! A segment holds one serialized array: its data buffers one after another. Given the tree that
//! describes the array and a range of rows, the planner works out which bytes of the segment are
//! enough to decode those rows, and the reader puts the fetched bytes back into the buffers that
//! the decoder expects.

pub mod alignment;
pub mod analyze;
pub mod analyze_laws;
pub mod analyze_rules;
pub mod arrays;
pub mod assemble;
pub mod assemble_laws;
pub mod buffer;
pub mod chunked;
pub mod decoding;
pub mod decoding_laws;
pub mod dtype;
pub mod encoding;
pub mod error;
pub mod fastlanes;
pub mod flatbuffer;
pub mod needed;
pub mod plan;
pub mod plan_laws;
pub mod ranges;
pub mod segments;
pub mod tree;
pub mod unshared;
pub mod wire;
