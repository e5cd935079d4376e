//! Arrays of lists that all have the same number of elements, stored as one child.

use crate::analyze::{spec_resolve_decode_range, SubtreeView};
use crate::dtype::DType;
use crate::encoding::{
    ChildRangeRead, EmptyMetadata, EncodingRangeRead, EncodingRangeReadView, RangeDecodeInfo,
    VTable, ValidityRangeRead,
};
use crate::error::{VortexError, VortexResult};
use std::ops::Range;
use vstd::arithmetic::div_mod::{lemma_div_multiples_vanish, lemma_mod_multiples_basic};
use vstd::prelude::*;

verus! {

/// The encoding, as it is registered.
#[derive(Clone, Debug)]
pub struct FixedSizeListEncoding;

/// The operations of the encoding.
#[derive(Clone, Debug)]
pub struct FixedSizeListVTable;

/// List `i` of size `n` has the elements from `i * n` to `(i + 1) * n`. There is no plan for other
/// types, nor where the number of an element does not fit in a `usize`.
pub open spec fn fixed_size_list_plan(
    row_range: Range<usize>,
    row_count: usize,
    dtype: DType,
) -> Option<EncodingRangeReadView> {
    match dtype {
        DType::FixedSizeList(element_dtype, list_size, _) => {
            if row_range.start * list_size <= usize::MAX && row_range.end * list_size <= usize::MAX
                && row_count * list_size <= usize::MAX {
                Some(
                    EncodingRangeReadView {
                        buffer_sub_ranges: seq![],
                        children: seq![
                            ChildRangeRead::Recurse {
                                row_range: Range {
                                    start: (row_range.start * list_size) as usize,
                                    end: (row_range.end * list_size) as usize,
                                },
                                row_count: (row_count * list_size) as usize,
                                dtype: *element_dtype,
                            },
                        ],
                        decode_info: RangeDecodeInfo::FromChild {
                            child_idx: 0,
                            divisor: list_size as usize,
                        },
                        validity: ValidityRangeRead::Optional,
                    },
                )
            } else {
                None
            }
        },
        _ => None,
    }
}

impl FixedSizeListVTable {
    /// Returns the identifier of the encoding.
    pub fn id(_encoding: &FixedSizeListEncoding) -> (r: &'static str)
        ensures
            r@ == "vortex.fixed_size_list"@,
    {
        "vortex.fixed_size_list"
    }

    /// Plans the read of a range of rows.
    pub fn plan_range_read(
        _metadata: &EmptyMetadata,
        row_range: Range<usize>,
        row_count: usize,
        dtype: &DType,
    ) -> (r: Option<EncodingRangeRead>)
        ensures
            r is Some <==> fixed_size_list_plan(row_range, row_count, *dtype) is Some,
            r matches Some(plan) ==> fixed_size_list_plan(row_range, row_count, *dtype) == Some(
                plan@,
            ),
    {
        let (element_dtype, list_size) = match dtype {
            DType::FixedSizeList(element_dtype, list_size, _) => (
                (**element_dtype).clone(),
                *list_size as usize,
            ),
            _ => return None,
        };
        let (Some(start), Some(end), Some(element_count)) = (
            row_range.start.checked_mul(list_size),
            row_range.end.checked_mul(list_size),
            row_count.checked_mul(list_size),
        ) else {
            return None;
        };
        let plan = EncodingRangeRead {
            buffer_sub_ranges: vec![],
            children: vec![
                ChildRangeRead::Recurse {
                    row_range: start..end,
                    row_count: element_count,
                    dtype: element_dtype,
                },
            ],
            decode_info: RangeDecodeInfo::FromChild { child_idx: 0, divisor: list_size },
            validity: ValidityRangeRead::Optional,
        };
        assert(fixed_size_list_plan(row_range, row_count, *dtype)->0 =~= plan@);
        Some(plan)
    }
}

impl VTable for FixedSizeListEncoding {
    open spec fn planned(
        &self,
        metadata: Seq<u8>,
        row_range: Range<usize>,
        row_count: usize,
        dtype: DType,
    ) -> VortexResult<Option<EncodingRangeReadView>> {
        Ok(fixed_size_list_plan(row_range, row_count, dtype))
    }

    fn plan_range_read(
        &self,
        metadata: &[u8],
        row_range: Range<usize>,
        row_count: usize,
        dtype: &DType,
    ) -> (r: VortexResult<Option<EncodingRangeRead>>) {
        Ok(FixedSizeListVTable::plan_range_read(&EmptyMetadata, row_range, row_count, dtype))
    }
}

/// If the child decodes exactly the elements that it is asked for, the lists that come out are
/// exactly those that were asked for.
pub proof fn law_fixed_size_list_maps_elements_to_lists(
    row_range: Range<usize>,
    row_count: usize,
    dtype: DType,
    child: SubtreeView,
)
    requires
        fixed_size_list_plan(row_range, row_count, dtype) is Some,
        (dtype->FixedSizeList_1) > 0,
        (fixed_size_list_plan(row_range, row_count, dtype)->0).children[0]->Recurse_row_range
            == child.decoded_range,
    ensures
        spec_resolve_decode_range(
            (fixed_size_list_plan(row_range, row_count, dtype)->0).decode_info,
            seq![Some(child)],
        ) == Some(row_range),
{
    let n = (dtype->FixedSizeList_1) as int;
    lemma_div_multiples_vanish(row_range.start as int, n);
    lemma_div_multiples_vanish(row_range.end as int, n);
    lemma_mod_multiples_basic(row_range.start as int, n);
    lemma_mod_multiples_basic(row_range.end as int, n);
    assert(row_range.start * n == n * row_range.start) by (nonlinear_arith);
    assert(row_range.end * n == n * row_range.end) by (nonlinear_arith);
}

/// Exactly the rows of fixed-size lists can be read in part, as far as their elements can be
/// counted: rows `a` to `b` of lists of `n` elements are the elements from `a * n` to `b * n` of a
/// child that has `n` elements to a list. A child may decode more elements, as long as they make
/// whole lists.
pub proof fn law_fixed_size_list_plan_counts_elements(
    row_range: Range<usize>,
    row_count: usize,
    dtype: DType,
)
    ensures
        !(dtype is FixedSizeList) ==> fixed_size_list_plan(row_range, row_count, dtype) is None,
        dtype is FixedSizeList ==> {
            let n = dtype->FixedSizeList_1;
            &&& fixed_size_list_plan(row_range, row_count, dtype) is Some <==> n * row_range.start
                <= usize::MAX && n * row_range.end <= usize::MAX && n * row_count <= usize::MAX
            &&& fixed_size_list_plan(row_range, row_count, dtype) matches Some(plan) ==> {
                &&& plan.buffer_sub_ranges.len() == 0
                &&& plan.children.len() == 1
                &&& plan.children[0] matches ChildRangeRead::Recurse {
                    row_range: elements,
                    row_count: element_count,
                    dtype: element_type,
                }
                &&& elements.start == n * row_range.start
                &&& elements.end == n * row_range.end
                &&& element_count == n * row_count
                &&& element_type == *dtype->FixedSizeList_0
                &&& plan.decode_info matches RangeDecodeInfo::FromChild { child_idx, divisor }
                &&& child_idx == 0
                &&& divisor == n
                &&& plan.validity is Optional
            }
        },
{
    if let DType::FixedSizeList(_, n, _) = dtype {
        assert(n * row_range.start == row_range.start * n) by (nonlinear_arith);
        assert(n * row_range.end == row_range.end * n) by (nonlinear_arith);
        assert(n * row_count == row_count * n) by (nonlinear_arith);
    }
}

/// The encoding answers with its plan, whatever else is asked of it.
pub proof fn law_fixed_size_list_encoding_answers_with_its_plan(
    encoding: FixedSizeListEncoding,
    metadata: Seq<u8>,
    row_range: Range<usize>,
    row_count: usize,
    dtype: DType,
)
    ensures
        encoding.planned(metadata, row_range, row_count, dtype) == Ok::<
            Option<EncodingRangeReadView>,
            VortexError,
        >(fixed_size_list_plan(row_range, row_count, dtype)),
{
}

} // verus!
