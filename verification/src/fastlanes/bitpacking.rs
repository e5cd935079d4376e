//! Arrays of integers that are stored in a fixed number of bits each.

use crate::dtype::DType;
use crate::encoding::{
    BufferSubRange, EncodingRangeRead, EncodingRangeReadView, RangeDecodeInfo, ValidityRangeRead,
};
use crate::fastlanes::lanes::CHUNK_LEN;
use std::ops::Range;
use vstd::prelude::*;

verus! {

/// The encoding, as it is registered.
#[derive(Clone, Debug)]
pub struct BitPackedEncoding;

/// The operations of the encoding.
#[derive(Clone, Debug)]
pub struct BitPackedVTable;

/// What the encoding stores about an array.
#[derive(Clone, Copy, Debug, PartialEq, Eq, Structural)]
pub struct BitPackedMetadata {
    /// The number of bits of a value.
    pub bit_width: u32,
    /// The position of the first row in the first block.
    pub offset: u32,
    /// Whether values that do not fit in the bits are stored apart.
    pub has_patches: bool,
}

/// The number of bytes of a block of 1,024 values.
pub open spec fn bytes_per_block(bit_width: u32) -> int {
    128 * bit_width
}

/// The block past the last one that holds a row below `end`, counted from the first block of the
/// buffer. Without rows it is the second block.
pub open spec fn block_end(offset: u32, end: usize) -> int {
    let last = offset + end - 1;
    if last < 0 { 1int } else { last / 1024 + 1 }
}

/// Row `i` lies in block `(offset + i) / 1024`. Since the offset holds for a part of the buffer as
/// for the whole, a part begins at a multiple of 1,024 rows. There is no plan for an array with
/// patches, for rows that end before their part begins, nor where a position does not fit in a
/// `usize`.
pub open spec fn bitpacked_plan(metadata: BitPackedMetadata, row_range: Range<usize>) -> Option<
    EncodingRangeReadView,
> {
    let first_block = row_range.start as int / 1024;
    let end_block = block_end(metadata.offset, row_range.end);
    let width = bytes_per_block(metadata.bit_width);
    if !metadata.has_patches && metadata.offset + row_range.end <= usize::MAX && width
        <= usize::MAX && first_block * width <= usize::MAX && end_block * width <= usize::MAX
        && first_block * 1024 <= row_range.end {
        Some(
            EncodingRangeReadView {
                buffer_sub_ranges: seq![
                    BufferSubRange::Range(
                        Range {
                            start: (first_block * width) as usize,
                            end: (end_block * width) as usize,
                        },
                    ),
                ],
                children: seq![],
                decode_info: RangeDecodeInfo::Rows(
                    Range { start: (first_block * 1024) as usize, end: row_range.end },
                ),
                validity: ValidityRangeRead::Optional,
            },
        )
    } else {
        None
    }
}

impl BitPackedVTable {
    /// Returns the identifier of the encoding.
    pub fn id(_encoding: &BitPackedEncoding) -> (r: &'static str)
        ensures
            r@ == "fastlanes.bitpacked"@,
    {
        "fastlanes.bitpacked"
    }

    /// Plans the read of a range of rows.
    pub fn plan_range_read(
        metadata: &BitPackedMetadata,
        row_range: Range<usize>,
        _row_count: usize,
        _dtype: &DType,
    ) -> (r: Option<EncodingRangeRead>)
        ensures
            r is Some <==> bitpacked_plan(*metadata, row_range) is Some,
            r matches Some(plan) ==> bitpacked_plan(*metadata, row_range) == Some(plan@),
    {
        if metadata.has_patches {
            return None;
        }
        let width: usize = match (metadata.bit_width as usize).checked_mul(128) {
            Some(width) => width,
            None => return None,
        };
        let end_row: usize = match row_range.end.checked_add(metadata.offset as usize) {
            Some(end_row) => end_row,
            None => return None,
        };
        let first_block: usize = row_range.start / CHUNK_LEN;
        let end_block: usize = end_row.saturating_sub(1) / CHUNK_LEN + 1;
        let (Some(byte_start), Some(byte_end)) = (
            first_block.checked_mul(width),
            end_block.checked_mul(width),
        ) else {
            return None;
        };
        let block_start_row: usize = first_block * CHUNK_LEN;
        if block_start_row > row_range.end {
            return None;
        }
        let plan = EncodingRangeRead {
            buffer_sub_ranges: vec![BufferSubRange::Range(byte_start..byte_end)],
            children: vec![],
            decode_info: RangeDecodeInfo::Rows(block_start_row..row_range.end),
            validity: ValidityRangeRead::Optional,
        };
        assert(bitpacked_plan(*metadata, row_range)->0 =~= plan@);
        Some(plan)
    }
}

/// A plan decodes the rows that are asked for and those before them in their block, and its bytes
/// hold the block of every decoded row, at the position that the offset gives the row in the part.
pub proof fn law_bitpacked_plan_covers_rows(
    metadata: BitPackedMetadata,
    row_range: Range<usize>,
    k: int,
)
    requires
        bitpacked_plan(metadata, row_range) is Some,
        row_range.start as int / 1024 * 1024 <= k < row_range.end,
    ensures
        ({
            let plan = bitpacked_plan(metadata, row_range)->0;
            let width = bytes_per_block(metadata.bit_width);
            let block = (metadata.offset + k) / 1024;
            &&& plan.decode_info matches RangeDecodeInfo::Rows(decoded)
            &&& plan.buffer_sub_ranges[0] matches BufferSubRange::Range(bytes)
            &&& row_range.start - 1023 <= decoded.start <= row_range.start
            &&& decoded.end == row_range.end
            &&& bytes.start == decoded.start as int / 1024 * width
            &&& bytes.start <= block * width
            &&& (block + 1) * width <= bytes.end
            &&& (metadata.offset + (k - decoded.start)) / 1024 == block - decoded.start as int
                / 1024
        }),
{
    let width = bytes_per_block(metadata.bit_width);
    let block = (metadata.offset + k) / 1024;
    let first_block = row_range.start as int / 1024;
    let end_block = block_end(metadata.offset, row_range.end);
    assert(first_block <= block < end_block);
    assert(0 <= first_block * width <= block * width && (block + 1) * width <= end_block * width)
        by (nonlinear_arith)
        requires
            0 <= first_block <= block,
            block + 1 <= end_block,
            0 <= width,
    ;
    assert(0 <= end_block * width) by (nonlinear_arith)
        requires
            0 <= end_block,
            0 <= width,
    ;
    assert(first_block * 1024 / 1024 == first_block);
}

/// Rows can be read in part if no value is stored apart, they do not end before the block that
/// they begin in, and their bytes can be counted. Whole
/// blocks of 1,024 values are read, `128 * bit_width` bytes each: from the block that begins with
/// the last multiple of 1,024 rows before them to the one that holds the last row.
pub proof fn law_bitpacked_plan_reads_whole_blocks(
    metadata: BitPackedMetadata,
    row_range: Range<usize>,
)
    ensures
        ({
            let values = metadata.offset + row_range.end;
            let last_block: int = if values == 0 { 0 } else { (values - 1) / 1024 };
            let width = 128 * metadata.bit_width;
            &&& bitpacked_plan(metadata, row_range) is Some <==> !metadata.has_patches && values
                <= usize::MAX && last_block * width + width <= usize::MAX && row_range.start as int
                / 1024 * width <= usize::MAX && row_range.start - row_range.start % 1024
                <= row_range.end
            &&& bitpacked_plan(metadata, row_range) matches Some(plan) ==> {
                &&& plan.buffer_sub_ranges.len() == 1
                &&& plan.buffer_sub_ranges[0] matches BufferSubRange::Range(bytes)
                &&& plan.decode_info matches RangeDecodeInfo::Rows(decoded)
                &&& bytes.start == row_range.start as int / 1024 * width
                &&& bytes.end == last_block * width + width
                &&& decoded.start % 1024 == 0
                &&& decoded.start <= row_range.start < decoded.start + 1024
                &&& decoded.end == row_range.end
                &&& plan.children.len() == 0
                &&& plan.validity is Optional
            }
        }),
{
    let values = metadata.offset + row_range.end;
    let last_block: int = if values == 0 { 0 } else { (values - 1) / 1024 };
    let width = bytes_per_block(metadata.bit_width);
    let first_block = row_range.start as int / 1024;
    assert((last_block + 1) * width == last_block * width + width && 0 <= last_block * width && 0
        <= first_block * width) by (nonlinear_arith)
        requires
            0 <= last_block,
            0 <= first_block,
            0 <= width,
    ;
}

} // verus!
