//! Byte buffers.
//!
//! A `vortex_buffer::ByteBuffer` shares its bytes with the buffers that it was sliced from. What
//! its methods do is stated here and not proved.

use crate::alignment::Alignment;
use std::ops::Range;
use vstd::prelude::*;

verus! {

/// `vortex_buffer::Buffer`: a buffer of values; of bytes, a `vortex_buffer::ByteBuffer`.
#[verifier::external_type_specification]
#[verifier::external_body]
#[verifier::reject_recursive_types(T)]
pub struct ExBuffer<T>(vortex_buffer::Buffer<T>);

/// The bytes that a buffer holds.
pub uninterp spec fn buffer_bytes(buffer: vortex_buffer::Buffer<u8>) -> Seq<u8>;

/// The alignment that a buffer was made with, as the exponent of a power of two.
pub uninterp spec fn buffer_alignment(buffer: vortex_buffer::Buffer<u8>) -> u8;

/// The mathematical content of a byte buffer.
#[verifier::ext_equal]
pub struct BufferView {
    pub bytes: Seq<u8>,
    pub alignment: Alignment,
}

/// The content of a byte buffer.
pub open spec fn buffer_view(buffer: vortex_buffer::Buffer<u8>) -> BufferView {
    BufferView {
        bytes: buffer_bytes(buffer),
        alignment: Alignment { exponent: buffer_alignment(buffer) },
    }
}

/// Calls `vortex_buffer::Buffer::len`: the number of bytes.
#[verifier::external_body]
pub(crate) fn buffer_len(buffer: &vortex_buffer::Buffer<u8>) -> (r: usize)
    ensures
        r == buffer_bytes(*buffer).len(),
{
    buffer.len()
}

/// Calls `vortex_buffer::Buffer::slice_unaligned`: the bytes in the range, aligned to one byte.
/// It panics on a range that does not lie in the buffer.
#[verifier::external_body]
pub(crate) fn slice_unaligned(
    buffer: &vortex_buffer::Buffer<u8>,
    range: Range<usize>,
) -> (r: vortex_buffer::Buffer<u8>)
    requires
        range.start <= range.end <= buffer_bytes(*buffer).len(),
    ensures
        buffer_bytes(r) == buffer_bytes(*buffer).subrange(range.start as int, range.end as int),
        buffer_alignment(r) == 0,
{
    buffer.slice_unaligned(range)
}

/// Calls `vortex_buffer::Buffer::aligned`: the same bytes with the given alignment, copied where
/// they are not aligned so already. It panics if the copy would be too large to allocate.
#[verifier::external_body]
pub(crate) fn aligned(
    buffer: vortex_buffer::Buffer<u8>,
    alignment: Alignment,
) -> (r: vortex_buffer::Buffer<u8>)
    requires
        alignment.valid(),
        alignment.can_hold(buffer_bytes(buffer).len()),
    ensures
        buffer_bytes(r) == buffer_bytes(buffer),
        buffer_alignment(r) == alignment.exponent,
{
    buffer.aligned(vortex_buffer::Alignment::from_exponent(alignment.exponent))
}

/// Calls `vortex_buffer::Buffer::empty_aligned`: no bytes, with the given alignment.
#[verifier::external_body]
pub(crate) fn empty_aligned(alignment: Alignment) -> (r: vortex_buffer::Buffer<u8>)
    requires
        alignment.valid(),
    ensures
        buffer_bytes(r) == Seq::<u8>::empty(),
        buffer_alignment(r) == alignment.exponent,
{
    vortex_buffer::Buffer::<u8>::empty_aligned(
        vortex_buffer::Alignment::from_exponent(alignment.exponent),
    )
}

} // verus!
