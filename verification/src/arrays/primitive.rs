//! Arrays of fixed-width numbers, stored one after another in a single buffer.

use crate::dtype::{DType, PType};
use crate::encoding::{
    BufferSubRange, EmptyMetadata, EncodingRangeRead, EncodingRangeReadView, RangeDecodeInfo,
    VTable, ValidityRangeRead,
};
use crate::error::{VortexError, VortexResult};
use std::ops::Range;
use vstd::prelude::*;

verus! {

/// The encoding, as it is registered.
#[derive(Clone, Debug)]
pub struct PrimitiveEncoding;

/// The operations of the encoding.
#[derive(Clone, Debug)]
pub struct PrimitiveVTable;

/// Value `i` takes the bytes from `i * width` to `(i + 1) * width`. There is no plan for other
/// types, nor where a byte position does not fit in a `usize`.
pub open spec fn primitive_plan(row_range: Range<usize>, dtype: DType) -> Option<
    EncodingRangeReadView,
> {
    match dtype {
        DType::Primitive(ptype, _) => {
            let width = ptype.spec_byte_width();
            if row_range.start * width <= usize::MAX && row_range.end * width <= usize::MAX {
                Some(
                    EncodingRangeReadView {
                        buffer_sub_ranges: seq![
                            BufferSubRange::Range(
                                Range {
                                    start: (row_range.start * width) as usize,
                                    end: (row_range.end * width) as usize,
                                },
                            ),
                        ],
                        children: seq![],
                        decode_info: RangeDecodeInfo::Rows(row_range),
                        validity: ValidityRangeRead::Optional,
                    },
                )
            } else {
                None
            }
        },
        _ => None,
    }
}

impl PrimitiveVTable {
    /// Returns the identifier of the encoding.
    pub fn id(_encoding: &PrimitiveEncoding) -> (r: &'static str)
        ensures
            r@ == "vortex.primitive"@,
    {
        "vortex.primitive"
    }

    /// Plans the read of a range of rows.
    pub fn plan_range_read(
        _metadata: &EmptyMetadata,
        row_range: Range<usize>,
        _row_count: usize,
        dtype: &DType,
    ) -> (r: Option<EncodingRangeRead>)
        ensures
            r is Some <==> primitive_plan(row_range, *dtype) is Some,
            r matches Some(plan) ==> primitive_plan(row_range, *dtype) == Some(plan@),
    {
        let byte_width: usize = match dtype {
            DType::Primitive(ptype, _) => ptype.byte_width(),
            _ => return None,
        };
        let (Some(start), Some(end)) = (
            row_range.start.checked_mul(byte_width),
            row_range.end.checked_mul(byte_width),
        ) else {
            return None;
        };
        let plan = EncodingRangeRead {
            buffer_sub_ranges: vec![BufferSubRange::Range(start..end)],
            children: vec![],
            decode_info: RangeDecodeInfo::Rows(row_range),
            validity: ValidityRangeRead::Optional,
        };
        assert(primitive_plan(row_range, *dtype)->0 =~= plan@);
        Some(plan)
    }
}

impl VTable for PrimitiveEncoding {
    open spec fn planned(
        &self,
        metadata: Seq<u8>,
        row_range: Range<usize>,
        row_count: usize,
        dtype: DType,
    ) -> VortexResult<Option<EncodingRangeReadView>> {
        Ok(primitive_plan(row_range, dtype))
    }

    fn plan_range_read(
        &self,
        metadata: &[u8],
        row_range: Range<usize>,
        row_count: usize,
        dtype: &DType,
    ) -> (r: VortexResult<Option<EncodingRangeRead>>) {
        Ok(PrimitiveVTable::plan_range_read(&EmptyMetadata, row_range, row_count, dtype))
    }
}

/// A plan decodes exactly the rows that are asked for, from exactly their bytes: the values of a
/// type of `w` bytes lie one after another, so row `k` takes bytes `k * w` to `(k + 1) * w`.
pub proof fn law_primitive_plan_is_exact(row_range: Range<usize>, dtype: DType, k: int)
    requires
        row_range.start <= k < row_range.end,
        primitive_plan(row_range, dtype) is Some,
    ensures
        ({
            let plan = primitive_plan(row_range, dtype)->0;
            let width = (dtype->Primitive_0).spec_byte_width();
            &&& plan.decode_info == RangeDecodeInfo::Rows(row_range)
            &&& plan.buffer_sub_ranges.len() == 1
            &&& plan.buffer_sub_ranges[0] matches BufferSubRange::Range(bytes)
            &&& bytes.end - bytes.start == (row_range.end - row_range.start) * width
            &&& bytes.start <= k * width
            &&& (k + 1) * width <= bytes.end
        }),
{
    let width = (dtype->Primitive_0).spec_byte_width() as int;
    let (a, b) = (row_range.start as int, row_range.end as int);
    assert(a * width <= k * width && (k + 1) * width <= b * width && b * width - a * width == (b
        - a) * width) by (nonlinear_arith)
        requires
            a <= k < b,
            width > 0,
    ;
}

/// Exactly the rows of numbers can be read in part, as far as their bytes can be counted: rows `a`
/// to `b` of numbers of `n` bits take the bytes from `a * n / 8` to `b * n / 8`.
pub proof fn law_primitive_plan_counts_bytes(row_range: Range<usize>, dtype: DType)
    ensures
        !(dtype is Primitive) ==> primitive_plan(row_range, dtype) is None,
        dtype is Primitive ==> {
            let bits: int = match dtype->Primitive_0 {
                PType::U8 | PType::I8 => 8,
                PType::U16 | PType::I16 | PType::F16 => 16,
                PType::U32 | PType::I32 | PType::F32 => 32,
                PType::U64 | PType::I64 | PType::F64 => 64,
            };
            &&& primitive_plan(row_range, dtype) is Some <==> row_range.start * bits / 8
                <= usize::MAX && row_range.end * bits / 8 <= usize::MAX
            &&& primitive_plan(row_range, dtype) matches Some(plan) ==> {
                &&& plan.buffer_sub_ranges.len() == 1
                &&& plan.buffer_sub_ranges[0] matches BufferSubRange::Range(bytes)
                &&& bytes.start == row_range.start * bits / 8
                &&& bytes.end == row_range.end * bits / 8
                &&& plan.children.len() == 0
                &&& plan.decode_info == RangeDecodeInfo::Rows(row_range)
                &&& plan.validity is Optional
            }
        },
{
    if let DType::Primitive(ptype, _) = dtype {
        let width = ptype.spec_byte_width() as int;
        let bits = width * 8;
        let (a, b) = (row_range.start as int, row_range.end as int);
        assert(a * bits == a * width * 8 && b * bits == b * width * 8) by (nonlinear_arith)
            requires
                bits == width * 8,
        ;
    }
}

/// The encoding answers with its plan, whatever else is asked of it.
pub proof fn law_primitive_encoding_answers_with_its_plan(
    encoding: PrimitiveEncoding,
    metadata: Seq<u8>,
    row_range: Range<usize>,
    row_count: usize,
    dtype: DType,
)
    ensures
        encoding.planned(metadata, row_range, row_count, dtype) == Ok::<
            Option<EncodingRangeReadView>,
            VortexError,
        >(primitive_plan(row_range, dtype)),
{
}

} // verus!
