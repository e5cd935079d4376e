//! Arrays of truth values, stored as single bits.

use crate::dtype::DType;
use crate::encoding::{
    BufferSubRange, EncodingRangeRead, EncodingRangeReadView, RangeDecodeInfo, ValidityRangeRead,
};
use std::ops::Range;
use vstd::prelude::*;

verus! {

/// The encoding, as it is registered.
#[derive(Clone, Debug)]
pub struct BoolEncoding;

/// The operations of the encoding.
#[derive(Clone, Debug)]
pub struct BoolVTable;

/// What the encoding stores about an array.
#[derive(Clone, Copy, Debug, PartialEq, Eq, Structural)]
pub struct BoolMetadata {
    /// The position of the first row in the buffer, in bits.
    pub offset: u32,
}

/// Row `i` is bit `offset + i` of the buffer. Since the offset holds for a part of the buffer as
/// for the whole, a part begins at a multiple of eight rows; it ends with the byte that holds the
/// last bit. There is no plan where a bit position does not fit in a `usize`.
pub open spec fn bool_plan(metadata: BoolMetadata, row_range: Range<usize>) -> Option<
    EncodingRangeReadView,
> {
    let last_bit = metadata.offset + row_range.end;
    if last_bit <= usize::MAX {
        Some(
            EncodingRangeReadView {
                buffer_sub_ranges: seq![
                    BufferSubRange::Range(
                        Range {
                            start: (row_range.start / 8) as usize,
                            end: ((last_bit + 7) / 8) as usize,
                        },
                    ),
                ],
                children: seq![],
                decode_info: RangeDecodeInfo::Rows(
                    Range {
                        start: (row_range.start / 8 * 8) as usize,
                        end: row_range.end,
                    },
                ),
                validity: ValidityRangeRead::Optional,
            },
        )
    } else {
        None
    }
}

impl BoolVTable {
    /// Returns the identifier of the encoding.
    pub fn id(_encoding: &BoolEncoding) -> (r: &'static str)
        ensures
            r@ == "vortex.bool"@,
    {
        "vortex.bool"
    }

    /// Plans the read of a range of rows.
    pub fn plan_range_read(
        metadata: &BoolMetadata,
        row_range: Range<usize>,
        _row_count: usize,
        _dtype: &DType,
    ) -> (r: Option<EncodingRangeRead>)
        ensures
            r is Some <==> bool_plan(*metadata, row_range) is Some,
            r matches Some(plan) ==> bool_plan(*metadata, row_range) == Some(plan@),
    {
        let last_bit: usize = match row_range.end.checked_add(metadata.offset as usize) {
            Some(last_bit) => last_bit,
            None => return None,
        };
        let byte_start: usize = row_range.start / 8;
        let byte_end: usize = last_bit / 8 + if last_bit % 8 == 0 { 0 } else { 1 };
        let plan = EncodingRangeRead {
            buffer_sub_ranges: vec![BufferSubRange::Range(byte_start..byte_end)],
            children: vec![],
            decode_info: RangeDecodeInfo::Rows(byte_start * 8..row_range.end),
            validity: ValidityRangeRead::Optional,
        };
        assert(bool_plan(*metadata, row_range)->0 =~= plan@);
        Some(plan)
    }
}

/// A plan decodes the rows that are asked for and up to seven rows before them, and its bytes hold
/// the bit of every decoded row at the position that the offset gives it in the part.
pub proof fn law_bool_plan_covers_rows(metadata: BoolMetadata, row_range: Range<usize>, k: int)
    requires
        bool_plan(metadata, row_range) is Some,
        row_range.start / 8 * 8 <= k < row_range.end,
    ensures
        ({
            let plan = bool_plan(metadata, row_range)->0;
            &&& plan.decode_info matches RangeDecodeInfo::Rows(decoded)
            &&& plan.buffer_sub_ranges[0] matches BufferSubRange::Range(bytes)
            &&& row_range.start - 7 <= decoded.start <= row_range.start
            &&& decoded.end == row_range.end
            &&& bytes.start * 8 == decoded.start
            &&& bytes.start * 8 + metadata.offset + (k - decoded.start) == metadata.offset + k
            &&& metadata.offset + k < bytes.end * 8
        }),
{
}

/// Rows can be read in part as far as their bits can be counted. No more bytes are read than it
/// takes: the last one holds the last bit, and the first one is the first of eight rows.
pub proof fn law_bool_plan_is_tight(metadata: BoolMetadata, row_range: Range<usize>)
    ensures
        bool_plan(metadata, row_range) is Some <==> row_range.end + metadata.offset <= usize::MAX,
        bool_plan(metadata, row_range) matches Some(plan) ==> {
            &&& plan.buffer_sub_ranges.len() == 1
            &&& plan.buffer_sub_ranges[0] matches BufferSubRange::Range(bytes)
            &&& plan.decode_info matches RangeDecodeInfo::Rows(decoded)
            &&& bytes.start * 8 <= row_range.start < bytes.start * 8 + 8
            &&& bytes.end * 8 - 8 < metadata.offset + row_range.end <= bytes.end * 8
            &&& decoded.start == bytes.start * 8
            &&& decoded.end == row_range.end
            &&& plan.children.len() == 0
            &&& plan.validity is Optional
        },
{
}

} // verus!
