//! Chunks and lanes.

use crate::dtype::{DType, PType};
use vstd::prelude::*;

verus! {

/// The number of values in a chunk.
pub const CHUNK_LEN: usize = 1024;

/// The number of lanes of a type of the given width in bytes: as many as values of that width fit
/// in 1,024 bits.
pub open spec fn lanes_of_width(byte_width: usize) -> usize {
    match byte_width {
        1 => 128,
        2 => 64,
        4 => 32,
        _ => 16,
    }
}

/// The number of lanes of a type.
pub open spec fn spec_lane_count(ptype: PType) -> usize {
    lanes_of_width(ptype.spec_byte_width())
}

/// The lanes of a type fill 1,024 bits.
pub proof fn law_lanes_fill_a_register(ptype: PType)
    ensures
        spec_lane_count(ptype) * ptype.spec_byte_width() * 8 == 1024,
{
    let lanes = spec_lane_count(ptype);
    let width = ptype.spec_byte_width();
    assert(lanes * width == 128) by (nonlinear_arith)
        requires
            lanes == 128 && width == 1 || lanes == 64 && width == 2 || lanes == 32 && width == 4
                || lanes == 16 && width == 8,
    ;
}

/// Returns the number of lanes of an integer type.
pub fn lane_count(ptype: PType) -> (r: usize)
    requires
        ptype.spec_is_int(),
    ensures
        r == spec_lane_count(ptype),
        16 <= r <= 128,
{
    match ptype {
        PType::U8 | PType::I8 => 128,
        PType::U16 | PType::I16 => 64,
        PType::U32 | PType::I32 => 32,
        _ => 16,
    }
}

/// A number of bases fits in a `usize` where the number of values of their chunks does.
pub proof fn lemma_bases_fit(chunks: int, lanes: int)
    requires
        0 <= chunks,
        0 < lanes <= 128,
    ensures
        0 <= chunks * lanes,
        chunks * lanes * 8 <= chunks * 1024,
{
    assert(chunks * lanes * 8 <= chunks * 1024 && 0 <= chunks * lanes) by (nonlinear_arith)
        requires
            0 <= chunks,
            0 < lanes <= 128,
    ;
}

/// The number of chunks that hold `len` values.
pub open spec fn chunks_for(len: int) -> int {
    (len + 1023) / 1024
}

/// Returns the number of chunks that hold `len` values.
pub fn num_chunks(len: usize) -> (r: usize)
    ensures
        r == chunks_for(len as int),
{
    len / CHUNK_LEN + if len % CHUNK_LEN == 0 { 0 } else { 1 }
}

/// The type and the number of rows of an array: what encodings look at of their children.
#[derive(Debug)]
pub struct ArrayShape {
    pub dtype: DType,
    pub len: usize,
}

impl ArrayShape {
    /// Returns the shape of an array of the given type and length.
    pub fn new(dtype: DType, len: usize) -> (r: Self)
        ensures
            r == (ArrayShape { dtype, len }),
    {
        ArrayShape { dtype, len }
    }
}

impl Clone for ArrayShape {
    fn clone(&self) -> (r: Self)
        ensures
            r == *self,
    {
        ArrayShape { dtype: self.dtype.clone(), len: self.len }
    }
}

/// A chunk has 1,024 values, and values take as many chunks as it needs to hold them, and no more.
pub proof fn law_chunks_hold_their_values(len: int)
    requires
        0 <= len,
    ensures
        CHUNK_LEN == 1024,
        chunks_for(len) * 1024 >= len,
        chunks_for(len) * 1024 < len + 1024,
{
}

} // verus!
