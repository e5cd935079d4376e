//! Arrays in which every row has the same value.

use crate::dtype::DType;
use crate::encoding::{
    BufferSubRange, EmptyMetadata, EncodingRangeRead, EncodingRangeReadView, RangeDecodeInfo,
    VTable, ValidityRangeRead,
};
use crate::error::{VortexError, VortexResult};
use std::ops::Range;
use vstd::prelude::*;

verus! {

/// The encoding, as it is registered.
#[derive(Clone, Debug)]
pub struct ConstantEncoding;

/// The operations of the encoding.
#[derive(Clone, Debug)]
pub struct ConstantVTable;

/// The value takes the whole buffer, and any rows can be decoded from it.
pub open spec fn constant_plan(row_range: Range<usize>) -> EncodingRangeReadView {
    EncodingRangeReadView {
        buffer_sub_ranges: seq![BufferSubRange::Full],
        children: seq![],
        decode_info: RangeDecodeInfo::Rows(row_range),
        validity: ValidityRangeRead::Absent,
    }
}

impl ConstantVTable {
    /// Returns the identifier of the encoding.
    pub fn id(_encoding: &ConstantEncoding) -> (r: &'static str)
        ensures
            r@ == "vortex.constant"@,
    {
        "vortex.constant"
    }

    /// Plans the read of a range of rows.
    pub fn plan_range_read(
        _metadata: &EmptyMetadata,
        row_range: Range<usize>,
        _row_count: usize,
        _dtype: &DType,
    ) -> (r: Option<EncodingRangeRead>)
        ensures
            r matches Some(plan) && plan@ == constant_plan(row_range),
    {
        let plan = EncodingRangeRead {
            buffer_sub_ranges: vec![BufferSubRange::Full],
            children: vec![],
            decode_info: RangeDecodeInfo::Rows(row_range),
            validity: ValidityRangeRead::Absent,
        };
        assert(plan@ =~= constant_plan(row_range));
        Some(plan)
    }
}

impl VTable for ConstantEncoding {
    open spec fn planned(
        &self,
        metadata: Seq<u8>,
        row_range: Range<usize>,
        row_count: usize,
        dtype: DType,
    ) -> VortexResult<Option<EncodingRangeReadView>> {
        Ok(Some(constant_plan(row_range)))
    }

    fn plan_range_read(
        &self,
        metadata: &[u8],
        row_range: Range<usize>,
        row_count: usize,
        dtype: &DType,
    ) -> (r: VortexResult<Option<EncodingRangeRead>>) {
        Ok(ConstantVTable::plan_range_read(&EmptyMetadata, row_range, row_count, dtype))
    }
}

/// Any rows can be read from the whole of the one buffer, and nothing else is needed.
pub proof fn law_constant_plan_reads_the_value(row_range: Range<usize>)
    ensures
        ({
            let plan = constant_plan(row_range);
            &&& plan.buffer_sub_ranges.len() == 1
            &&& plan.buffer_sub_ranges[0] is Full
            &&& plan.children.len() == 0
            &&& plan.decode_info == RangeDecodeInfo::Rows(row_range)
            &&& plan.validity is Absent
        }),
{
}

/// The encoding answers with its plan, whatever else is asked of it.
pub proof fn law_constant_encoding_answers_with_its_plan(
    encoding: ConstantEncoding,
    metadata: Seq<u8>,
    row_range: Range<usize>,
    row_count: usize,
    dtype: DType,
)
    ensures
        encoding.planned(metadata, row_range, row_count, dtype) == Ok::<
            Option<EncodingRangeReadView>,
            VortexError,
        >(Some(constant_plan(row_range))),
{
}

} // verus!
