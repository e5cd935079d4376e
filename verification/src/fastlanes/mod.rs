//! Encodings that store integers in chunks of 1,024 values.

pub mod bitpacking;
pub mod delta;
pub mod delta_array;
pub mod lanes;
pub mod metadata;
