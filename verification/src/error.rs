//! The errors of this library.

use vstd::prelude::*;

verus! {

/// Why an operation could not be carried out.
#[allow(inconsistent_fields)]
#[derive(Debug, Clone, Copy, PartialEq, Eq)]
pub enum VortexError {
    /// An array node names a buffer that the array tree does not describe.
    BufferIndexOutOfRange { buffer_idx: u16, num_buffers: usize },
    /// The bytes of an array tree are not a well-formed flatbuffer.
    InvalidArrayTree,
    /// The array tree has no root node.
    MissingRootNode,
    /// The metadata bytes of an array node are not a well-formed message.
    InvalidMetadata,
    /// The length of the deltas does not fit in a `usize`.
    DeltasLenOverflow { deltas_len: u64 },
    /// The offset and the length of a delta array do not add up to a `usize`.
    LengthOverflow { offset: usize, len: usize },
    /// The length of a delta array, rounded up to whole chunks, does not fit in a `usize`.
    PaddedLengthOverflow,
    /// A delta array needs more deltas than its metadata describes.
    MissingDeltas { required: usize, described: usize },
    /// A delta array owns no buffers, but some were given.
    UnexpectedBuffers { num_buffers: usize },
    /// A delta array has exactly two children.
    UnexpectedChildren { num_children: usize },
    /// The type is not a primitive type.
    NotPrimitive,
    /// The offset into the first chunk must be smaller than a chunk.
    OffsetTooLarge { offset: usize },
    /// The logical values reach past the end of the deltas.
    LengthExceedsDeltas { offset: usize, len: usize, deltas_len: usize },
    /// Bases and deltas have different types.
    DTypesDiffer,
    /// The type is not an integer type.
    NotInteger,
    /// The declared type is not the type of the parts.
    DTypeMismatch,
    /// The last chunk is full in the deltas and not in the bases, or the other way round.
    RaggedChunks { deltas_len: usize, bases_len: usize, lanes: usize },
    /// The number of deltas is not a multiple of the chunk length.
    DeltasNotChunked { deltas_len: usize },
    /// The number of bases is not a multiple of the number of lanes.
    BasesNotChunked { bases_len: usize, lanes: usize },
    /// There is no segment of this number.
    MissingSegment { id: u32 },
    /// The byte range does not lie in its segment.
    SegmentRangeOutOfBounds { id: u32, start: usize, end: usize, segment_len: usize },
    /// The byte range starts past the largest file or buffer offset.
    RangeStartOverflow { id: u32, start: usize },
    /// The byte range ends past the largest buffer offset.
    RangeEndOverflow { id: u32, end: usize },
    /// The byte range does not lie in the backing buffer.
    BufferRangeOutOfBounds { id: u32, start: usize, end: usize, buffer_len: usize },
    /// A read returned another number of bytes than was asked for.
    UnexpectedReadLength { expected: usize, received: usize },
    /// A plan names a buffer that the array tree does not describe.
    PlanReferencesMissingBuffer { buffer_idx: usize },
    /// A plan provides the same buffer twice.
    BufferProvidedTwice { buffer_idx: usize },
}

/// The result type of this library.
pub type VortexResult<T> = Result<T, VortexError>;

} // verus!
