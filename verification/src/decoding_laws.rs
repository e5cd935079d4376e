//! Encodings that answer rightly, given what their decoders compute a row from.

use crate::analyze::spec_resolve_decode_range;
use crate::arrays::bool::{bool_plan, law_bool_plan_covers_rows, BoolMetadata};
use crate::arrays::constant::constant_plan;
use crate::arrays::fixed_size_list::fixed_size_list_plan;
use crate::arrays::primitive::{law_primitive_plan_is_exact, primitive_plan};
use crate::decoding::{answers_rightly, row_is_right, ArraySource, RowCase};
use crate::dtype::{DType, Nullability};
use crate::encoding::{EncodingRangeReadView, VTable};
use crate::error::VortexError;
use crate::fastlanes::bitpacking::{
    bitpacked_plan, bytes_per_block, law_bitpacked_plan_covers_rows, BitPackedMetadata,
};
use crate::fastlanes::delta::delta_plan;
use crate::fastlanes::lanes::{chunks_for, lemma_bases_fit, spec_lane_count};
use crate::fastlanes::metadata::decoded_metadata;
use std::ops::Range;
use vstd::arithmetic::div_mod::lemma_fundamental_div_mod;
use vstd::prelude::*;

verus! {

/// The validity of a row, if the array has a child for it behind its other children.
pub open spec fn validity_of<V>(source: ArraySource<V>, num_data: int, row: int) -> Option<V> {
    if source.num_children > num_data {
        Some((source.child)(num_data, DType::Bool(Nullability::NonNullable), row))
    } else {
        None
    }
}

/// The bytes of a row of fixed width.
pub open spec fn bytes_of_row(bytes: Seq<u8>, width: int, row: int) -> Seq<u8> {
    bytes.subrange(row * width, (row + 1) * width)
}

/// Whether a decoder computes each row from the bytes of its value and its validity.
pub open spec fn decodes_fixed_width<V>(
    decode: spec_fn(ArraySource<V>, int) -> V,
    encoding: Seq<char>,
    value: spec_fn(DType, Seq<u8>, Option<V>) -> V,
) -> bool {
    forall|source: ArraySource<V>, row: int|
        source.encoding == encoding && source.dtype is Primitive ==> #[trigger] decode(source, row)
            == value(
            source.dtype,
            bytes_of_row(
                source.buffers[0],
                (source.dtype->Primitive_0).spec_byte_width() as int,
                row,
            ),
            validity_of(source, 0, row),
        )
}

/// The primitive encoding answers rightly: of the bytes that it asks for, those of a row are the
/// bytes that the row has in the whole buffer.
pub proof fn law_primitive_answers_rightly<P: VTable, V>(
    decode: spec_fn(ArraySource<V>, int) -> V,
    plugin: P,
    encoding: Seq<char>,
    value: spec_fn(DType, Seq<u8>, Option<V>) -> V,
)
    requires
        decodes_fixed_width(decode, encoding, value),
        forall|metadata: Seq<u8>, rows: Range<usize>, row_count: usize, dtype: DType| #[trigger]
            plugin.planned(metadata, rows, row_count, dtype) == Ok::<
                Option<EncodingRangeReadView>,
                VortexError,
            >(primitive_plan(rows, dtype)),
    ensures
        answers_rightly(decode, plugin, encoding),
{
    assert forall|case: RowCase<V>| #[trigger] row_is_right(decode, plugin, encoding, case) by {
        if let Some(answer) = primitive_plan(case.requested, case.dtype) {
            let rows = case.requested;
            if case.fits(answer, rows) {
                let width = (case.dtype->Primitive_0).spec_byte_width() as int;
                law_primitive_plan_is_exact(rows, case.dtype, case.row);
                let part = case.part_source(encoding, answer);
                let whole = case.whole_source(encoding);
                let first = rows.start as int;
                let position = case.row - first;
                assert(position * width == case.row * width - first * width && (position + 1)
                    * width == (case.row + 1) * width - first * width && 0 <= position * width
                    <= (position + 1) * width) by (nonlinear_arith)
                    requires
                        position == case.row - first,
                        0 <= position,
                        width > 0,
                ;
                assert(case.buffers[0] == whole.buffers[0]);
                assert(bytes_of_row(part.buffers[0], width, position) =~= bytes_of_row(
                    whole.buffers[0],
                    width,
                    case.row,
                ));
                assert(validity_of(part, 0, position) == validity_of(whole, 0, case.row));
            }
        }
    }
}

/// The byte that holds a bit, and the position of the bit in it.
pub open spec fn bit_in(bytes: Seq<u8>, bit: int) -> (u8, int) {
    (bytes[bit / 8], bit % 8)
}

/// Whether a decoder computes each row from its bit and its validity.
pub open spec fn decodes_bits<V>(
    decode: spec_fn(ArraySource<V>, int) -> V,
    encoding: Seq<char>,
    metadata: spec_fn(Seq<u8>) -> BoolMetadata,
    value: spec_fn((u8, int), Option<V>) -> V,
) -> bool {
    forall|source: ArraySource<V>, row: int|
        source.encoding == encoding ==> #[trigger] decode(source, row) == value(
            bit_in(source.buffers[0], metadata(source.metadata).offset + row),
            validity_of(source, 0, row),
        )
}

/// The bool encoding answers rightly: in the bytes that it asks for, the bit of a row is the bit
/// that the row has in the whole buffer.
pub proof fn law_bool_answers_rightly<P: VTable, V>(
    decode: spec_fn(ArraySource<V>, int) -> V,
    plugin: P,
    encoding: Seq<char>,
    metadata: spec_fn(Seq<u8>) -> BoolMetadata,
    value: spec_fn((u8, int), Option<V>) -> V,
)
    requires
        decodes_bits(decode, encoding, metadata, value),
        forall|bytes: Seq<u8>, rows: Range<usize>, row_count: usize, dtype: DType| #[trigger]
            plugin.planned(bytes, rows, row_count, dtype) == Ok::<
                Option<EncodingRangeReadView>,
                VortexError,
            >(bool_plan(metadata(bytes), rows)),
    ensures
        answers_rightly(decode, plugin, encoding),
{
    assert forall|case: RowCase<V>| #[trigger] row_is_right(decode, plugin, encoding, case) by {
        let stored = metadata(case.metadata);
        if let Some(answer) = bool_plan(stored, case.requested) {
            let decoded = answer.decode_info->Rows_0;
            if case.fits(answer, decoded) {
                law_bool_plan_covers_rows(stored, case.requested, case.row);
                let part = case.part_source(encoding, answer);
                let whole = case.whole_source(encoding);
                let position = case.row - decoded.start;
                assert(case.buffers[0] == whole.buffers[0]);
                assert(bit_in(part.buffers[0], stored.offset + position) == bit_in(
                    whole.buffers[0],
                    stored.offset + case.row,
                ));
                assert(validity_of(part, 0, position) == validity_of(whole, 0, case.row));
            }
        }
    }
}

/// Whether a decoder computes every row from the whole buffer.
pub open spec fn decodes_constant<V>(
    decode: spec_fn(ArraySource<V>, int) -> V,
    encoding: Seq<char>,
    value: spec_fn(DType, Seq<u8>) -> V,
) -> bool {
    forall|source: ArraySource<V>, row: int|
        source.encoding == encoding ==> #[trigger] decode(source, row) == value(
            source.dtype,
            source.buffers[0],
        )
}

/// The constant encoding answers rightly: it asks for the whole buffer.
pub proof fn law_constant_answers_rightly<P: VTable, V>(
    decode: spec_fn(ArraySource<V>, int) -> V,
    plugin: P,
    encoding: Seq<char>,
    value: spec_fn(DType, Seq<u8>) -> V,
)
    requires
        decodes_constant(decode, encoding, value),
        forall|metadata: Seq<u8>, rows: Range<usize>, row_count: usize, dtype: DType| #[trigger]
            plugin.planned(metadata, rows, row_count, dtype) == Ok::<
                Option<EncodingRangeReadView>,
                VortexError,
            >(Some(constant_plan(rows))),
    ensures
        answers_rightly(decode, plugin, encoding),
{
    assert forall|case: RowCase<V>| #[trigger] row_is_right(decode, plugin, encoding, case) by {
        let answer = constant_plan(case.requested);
        if case.fits(answer, case.requested) {
            let part = case.part_source(encoding, answer);
            assert(part.buffers[0] == case.buffers[0]);
        }
    }
}

/// The elements of a list.
pub open spec fn elements_of<V>(source: ArraySource<V>, row: int) -> Seq<V> {
    let size = source.dtype->FixedSizeList_1;
    let element_type = *source.dtype->FixedSizeList_0;
    Seq::new(size as nat, |i: int| (source.child)(0, element_type, row * size + i))
}

/// Whether a decoder computes each list from its elements and its validity.
pub open spec fn decodes_lists<V>(
    decode: spec_fn(ArraySource<V>, int) -> V,
    encoding: Seq<char>,
    value: spec_fn(DType, Seq<V>, Option<V>) -> V,
) -> bool {
    forall|source: ArraySource<V>, row: int|
        source.encoding == encoding && source.dtype is FixedSizeList ==> #[trigger] decode(
            source,
            row,
        ) == value(source.dtype, elements_of(source, row), validity_of(source, 1, row))
}

/// The encoding of fixed-size lists answers rightly: the elements of a list, among those that the
/// child decodes, are the elements that the list has among all of them.
pub proof fn law_fixed_size_list_answers_rightly<P: VTable, V>(
    decode: spec_fn(ArraySource<V>, int) -> V,
    plugin: P,
    encoding: Seq<char>,
    value: spec_fn(DType, Seq<V>, Option<V>) -> V,
)
    requires
        decodes_lists(decode, encoding, value),
        forall|metadata: Seq<u8>, rows: Range<usize>, row_count: usize, dtype: DType| #[trigger]
            plugin.planned(metadata, rows, row_count, dtype) == Ok::<
                Option<EncodingRangeReadView>,
                VortexError,
            >(fixed_size_list_plan(rows, row_count, dtype)),
    ensures
        answers_rightly(decode, plugin, encoding),
{
    assert forall|case: RowCase<V>| #[trigger] row_is_right(decode, plugin, encoding, case) by {
        if let Some(answer) = fixed_size_list_plan(case.requested, case.row_count, case.dtype) {
            if let Some(decoded) = spec_resolve_decode_range(answer.decode_info, case.child_plans) {
                if case.fits(answer, decoded) {
                    let part = case.part_source(encoding, answer);
                    let whole = case.whole_source(encoding);
                    let size = (case.dtype->FixedSizeList_1) as int;
                    let action = answer.children[0];
                    assert(case.child_agrees(action, 0));
                    let elements = (case.child_plans[0]->0).decoded_range;
                    let first = decoded.start as int;
                    let last = decoded.end as int;
                    let row = case.row;
                    lemma_fundamental_div_mod(elements.start as int, size);
                    lemma_fundamental_div_mod(elements.end as int, size);
                    assert(elements.start == first * size && elements.end == last * size)
                        by (nonlinear_arith)
                        requires
                            elements.start == size * first,
                            elements.end == size * last,
                    ;
                    assert(first * size <= row * size && (row + 1) * size <= last * size && (row
                        - first) * size == row * size - first * size && (row + 1) * size == row
                        * size + size) by (nonlinear_arith)
                        requires
                            first <= row < last,
                            size > 0,
                    ;
                    let element_type = *case.dtype->FixedSizeList_0;
                    assert(case.rows_agree(0, element_type, elements));
                    assert forall|i: int| 0 <= i < size implies elements_of(part, row - first)[i]
                        == elements_of(whole, row)[i] by {
                        assert((case.whole)(0, element_type, row * size + i) == (case.part)(
                            0,
                            element_type,
                            row * size + i - elements.start,
                        ));
                    }
                    assert(elements_of(part, row - first) =~= elements_of(whole, row));
                    assert(validity_of(part, 1, row - first) == validity_of(whole, 1, row));
                }
            }
        }
    }
}

/// The bytes of a block of 1,024 packed values.
pub open spec fn block_bytes(bytes: Seq<u8>, bit_width: u32, block: int) -> Seq<u8> {
    let width = bytes_per_block(bit_width);
    bytes.subrange(block * width, (block + 1) * width)
}

/// Whether a decoder computes each row from its block, its position in the block and its validity.
pub open spec fn decodes_blocks<V>(
    decode: spec_fn(ArraySource<V>, int) -> V,
    encoding: Seq<char>,
    metadata: spec_fn(Seq<u8>) -> BitPackedMetadata,
    value: spec_fn(DType, u32, Seq<u8>, int, Option<V>) -> V,
) -> bool {
    forall|source: ArraySource<V>, row: int|
        source.encoding == encoding && !metadata(source.metadata).has_patches ==> {
            let stored = metadata(source.metadata);
            #[trigger] decode(source, row) == value(
                source.dtype,
                stored.bit_width,
                block_bytes(source.buffers[0], stored.bit_width, (stored.offset + row) / 1024),
                (stored.offset + row) % 1024,
                validity_of(source, 0, row),
            )
        }
}

/// The bit-packed encoding answers rightly: in the bytes that it asks for, the block of a row is
/// the block that the row has in the whole buffer, and the row has the same position in it.
pub proof fn law_bitpacked_answers_rightly<P: VTable, V>(
    decode: spec_fn(ArraySource<V>, int) -> V,
    plugin: P,
    encoding: Seq<char>,
    metadata: spec_fn(Seq<u8>) -> BitPackedMetadata,
    value: spec_fn(DType, u32, Seq<u8>, int, Option<V>) -> V,
)
    requires
        decodes_blocks(decode, encoding, metadata, value),
        forall|bytes: Seq<u8>, rows: Range<usize>, row_count: usize, dtype: DType| #[trigger]
            plugin.planned(bytes, rows, row_count, dtype) == Ok::<
                Option<EncodingRangeReadView>,
                VortexError,
            >(bitpacked_plan(metadata(bytes), rows)),
    ensures
        answers_rightly(decode, plugin, encoding),
{
    assert forall|case: RowCase<V>| #[trigger] row_is_right(decode, plugin, encoding, case) by {
        let stored = metadata(case.metadata);
        if let Some(answer) = bitpacked_plan(stored, case.requested) {
            let decoded = answer.decode_info->Rows_0;
            if case.fits(answer, decoded) {
                law_bitpacked_plan_covers_rows(stored, case.requested, case.row);
                let part = case.part_source(encoding, answer);
                let whole = case.whole_source(encoding);
                let position = case.row - decoded.start;
                let block = (stored.offset + case.row) / 1024;
                let first = decoded.start as int / 1024;
                let width = bytes_per_block(stored.bit_width);
                assert((block - first) * width == block * width - first * width && (block - first
                    + 1) * width == (block + 1) * width - first * width && block * width <= (block
                    + 1) * width) by (nonlinear_arith)
                    requires
                        0 <= width,
                ;
                assert(case.buffers[0] == whole.buffers[0]);
                assert(block_bytes(part.buffers[0], stored.bit_width, block - first)
                    =~= block_bytes(whole.buffers[0], stored.bit_width, block));
                assert((stored.offset + position) % 1024 == (stored.offset + case.row) % 1024);
                assert(validity_of(part, 0, position) == validity_of(whole, 0, case.row));
            }
        }
    }
}

/// The rows of a child that belong to a chunk, `count` to a chunk.
pub open spec fn rows_of_chunk<V>(
    source: ArraySource<V>,
    c: int,
    count: nat,
    chunk: int,
) -> Seq<V> {
    Seq::new(count, |i: int| (source.child)(c, source.dtype, chunk * count + i))
}

/// Whether a decoder computes each row of an array without an offset from the bases and the deltas
/// of its chunk, and its position in the chunk.
pub open spec fn decodes_deltas<V>(
    decode: spec_fn(ArraySource<V>, int) -> V,
    encoding: Seq<char>,
    value: spec_fn(DType, Seq<V>, Seq<V>, int) -> V,
) -> bool {
    forall|source: ArraySource<V>, row: int|
        source.encoding == encoding && source.dtype.spec_is_int() && (decoded_metadata(
            source.metadata,
        ) matches Some(metadata) && metadata.offset == 0) ==> #[trigger] decode(source, row)
            == value(
            source.dtype,
            rows_of_chunk(
                source,
                0,
                spec_lane_count(source.dtype->Primitive_0) as nat,
                row / 1024,
            ),
            rows_of_chunk(source, 1, 1024, row / 1024),
            row % 1024,
        )
}

/// The delta encoding answers rightly: the bases and the deltas of the chunk of a row, among those
/// that the children decode, are those that the chunk has among all of them.
pub proof fn law_delta_answers_rightly<P: VTable, V>(
    decode: spec_fn(ArraySource<V>, int) -> V,
    plugin: P,
    encoding: Seq<char>,
    value: spec_fn(DType, Seq<V>, Seq<V>, int) -> V,
)
    requires
        decodes_deltas(decode, encoding, value),
        forall|metadata: Seq<u8>, rows: Range<usize>, row_count: usize, dtype: DType| #[trigger]
            plugin.planned(metadata, rows, row_count, dtype) == delta_plan(metadata, rows, dtype),
    ensures
        answers_rightly(decode, plugin, encoding),
{
    assert forall|case: RowCase<V>| #[trigger] row_is_right(decode, plugin, encoding, case) by {
        if let Ok(Some(answer)) = delta_plan(case.metadata, case.requested, case.dtype) {
            let decoded = answer.decode_info->Rows_0;
            if case.fits(answer, decoded) {
                lemma_chunk_is_right(case, encoding, answer);
                let part = case.part_source(encoding, answer);
                let whole = case.whole_source(encoding);
                assert(decode(part, case.row - decoded.start) == decode(whole, case.row));
            }
        }
    }
}

proof fn lemma_chunk_is_right<V>(
    case: RowCase<V>,
    encoding: Seq<char>,
    answer: EncodingRangeReadView,
)
    requires
        delta_plan(case.metadata, case.requested, case.dtype) == Ok::<
            Option<EncodingRangeReadView>,
            VortexError,
        >(Some(answer)),
        case.fits(answer, answer.decode_info->Rows_0),
    ensures
        ({
            let part = case.part_source(encoding, answer);
            let whole = case.whole_source(encoding);
            let decoded = answer.decode_info->Rows_0;
            let position = case.row - decoded.start;
            let lanes = spec_lane_count(case.dtype->Primitive_0) as nat;
            &&& position % 1024 == case.row % 1024
            &&& rows_of_chunk(part, 0, lanes, position / 1024) == rows_of_chunk(
                whole,
                0,
                lanes,
                case.row / 1024,
            )
            &&& rows_of_chunk(part, 1, 1024, position / 1024) == rows_of_chunk(
                whole,
                1,
                1024,
                case.row / 1024,
            )
        }),
{
    let part = case.part_source(encoding, answer);
    let whole = case.whole_source(encoding);
    let decoded = answer.decode_info->Rows_0;
    let dtype = case.dtype;
    let lanes = spec_lane_count(dtype->Primitive_0) as int;
    let first = case.requested.start as int / 1024;
    let last = chunks_for(case.requested.end as int);
    let chunk = case.row / 1024;
    let position = case.row - decoded.start;
    lemma_bases_fit(first, lanes);
    lemma_bases_fit(last, lanes);
    assert(decoded.start == first * 1024 && decoded.end == last * 1024);
    assert(first <= chunk < last);
    assert(position / 1024 == chunk - first && position % 1024 == case.row % 1024);
    assert(first * lanes <= chunk * lanes && (chunk + 1) * lanes <= last * lanes && (chunk - first)
        * lanes == chunk * lanes - first * lanes && (chunk + 1) * lanes == chunk * lanes + lanes)
        by (nonlinear_arith)
        requires
            first <= chunk < last,
            lanes > 0,
    ;
    assert(case.child_agrees(answer.children[0], 0));
    assert(case.child_agrees(answer.children[1], 1));
    let bases = (case.child_plans[0]->0).decoded_range;
    let deltas = (case.child_plans[1]->0).decoded_range;
    assert(bases.start == first * lanes && bases.end == last * lanes);
    assert(deltas == decoded);
    assert(case.rows_agree(0, dtype, bases));
    assert(case.rows_agree(1, dtype, deltas));
    let shifted = chunk - first;
    assert forall|i: int| 0 <= i < lanes implies #[trigger] rows_of_chunk(
        part,
        0,
        lanes as nat,
        shifted,
    )[i] == rows_of_chunk(whole, 0, lanes as nat, chunk)[i] by {
        assert((case.whole)(0, dtype, chunk * lanes + i) == (case.part)(
            0,
            dtype,
            chunk * lanes + i - bases.start,
        ));
    }
    assert forall|i: int| 0 <= i < 1024 implies #[trigger] rows_of_chunk(part, 1, 1024, shifted)[i]
        == rows_of_chunk(whole, 1, 1024, chunk)[i] by {
        assert((case.whole)(1, dtype, chunk * 1024 + i) == (case.part)(
            1,
            dtype,
            chunk * 1024 + i - deltas.start,
        ));
    }
    assert(rows_of_chunk(part, 0, lanes as nat, shifted) =~= rows_of_chunk(
        whole,
        0,
        lanes as nat,
        chunk,
    ));
    assert(rows_of_chunk(part, 1, 1024, shifted) =~= rows_of_chunk(whole, 1, 1024, chunk));
}

} // verus!
