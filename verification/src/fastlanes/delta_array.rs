//! Delta-encoded arrays.

use crate::dtype::{law_types_alike_differ_in_nullability_alone, DType, PType};
use crate::encoding::{
    ChildRangeRead, EncodingRangeRead, EncodingRangeReadView, RangeDecodeInfo, ValidityRangeRead,
};
use crate::error::{VortexError, VortexResult};
use crate::fastlanes::lanes::{
    lane_count, lanes_of_width, lemma_bases_fit, spec_lane_count, ArrayShape, CHUNK_LEN,
};
use crate::fastlanes::metadata::DeltaMetadata;
use std::ops::Range;
use vstd::prelude::*;

verus! {

/// The encoding, as it is registered.
#[derive(Clone, Debug)]
pub struct DeltaEncoding;

/// The operations of the encoding.
#[derive(Clone, Debug)]
pub struct DeltaVTable;

/// An array of integers, each stored as the difference to the one before in its lane.
///
/// The values lie in chunks of 1,024, of which the last may hold fewer. A full chunk has as many
/// bases as its type has lanes. To slice the array without touching its chunks, it has an offset
/// into the first chunk and a length: the values from the offset on, as many as the length says,
/// are those of the array. The validity is that of the deltas.
#[derive(Debug)]
pub struct DeltaArray {
    offset: usize,
    len: usize,
    dtype: DType,
    bases: ArrayShape,
    deltas: ArrayShape,
}

/// The mathematical content of a [`DeltaArray`].
#[verifier::ext_equal]
pub struct DeltaArrayView {
    pub offset: usize,
    pub len: usize,
    pub dtype: DType,
    pub bases: ArrayShape,
    pub deltas: ArrayShape,
}

impl View for DeltaArray {
    type V = DeltaArrayView;

    closed spec fn view(&self) -> DeltaArrayView {
        DeltaArrayView {
            offset: self.offset,
            len: self.len,
            dtype: self.dtype,
            bases: self.bases,
            deltas: self.deltas,
        }
    }
}

/// The array with the given parts. Its type is that of the bases, with the nullability of the
/// deltas.
pub open spec fn delta_array_of(
    bases: ArrayShape,
    deltas: ArrayShape,
    offset: usize,
    len: usize,
) -> DeltaArrayView {
    DeltaArrayView {
        offset,
        len,
        dtype: bases.dtype.spec_with_nullability(deltas.dtype.spec_nullability()),
        bases,
        deltas,
    }
}

/// The number of lanes of the bases.
pub open spec fn lanes_of(bases: ArrayShape) -> usize {
    spec_lane_count(bases.dtype->Primitive_0)
}

/// Why parts do not make an array, if they do not.
pub open spec fn delta_array_error(
    bases: ArrayShape,
    deltas: ArrayShape,
    offset: usize,
    len: usize,
) -> Option<VortexError> {
    if offset >= CHUNK_LEN {
        Some(VortexError::OffsetTooLarge { offset })
    } else if offset + len > deltas.len {
        Some(VortexError::LengthExceedsDeltas { offset, len, deltas_len: deltas.len })
    } else if bases.dtype.without_nullability() != deltas.dtype.without_nullability() {
        Some(VortexError::DTypesDiffer)
    } else if !(bases.dtype is Primitive) {
        Some(VortexError::NotPrimitive)
    } else if !bases.dtype.spec_is_int() {
        Some(VortexError::NotInteger)
    } else if (deltas.len % CHUNK_LEN == 0) != (bases.len % lanes_of(bases) == 0) {
        Some(
            VortexError::RaggedChunks {
                deltas_len: deltas.len,
                bases_len: bases.len,
                lanes: lanes_of(bases),
            },
        )
    } else {
        None
    }
}

impl DeltaArrayView {
    /// Whether the parts make an array: the offset lies in the first chunk, the values lie in the
    /// deltas, bases and deltas are integers of the same type, and the last chunk is full on both
    /// sides or on neither.
    pub open spec fn well_formed(self) -> bool {
        &&& delta_array_error(self.bases, self.deltas, self.offset, self.len) is None
        &&& self == delta_array_of(self.bases, self.deltas, self.offset, self.len)
    }
}

/// Whether two arrays are the same, given whether their bases and their deltas are.
pub open spec fn same_array(
    a: DeltaArrayView,
    b: DeltaArrayView,
    bases_eq: bool,
    deltas_eq: bool,
) -> bool {
    a.offset == b.offset && a.len == b.len && a.dtype == b.dtype && bases_eq && deltas_eq
}

/// The child that holds the validity of an array, and the rows of it that the array has.
pub open spec fn validity_rows(array: DeltaArrayView) -> (ArrayShape, Range<usize>) {
    (array.deltas, Range { start: array.offset, end: (array.offset + array.len) as usize })
}

impl Clone for DeltaArray {
    fn clone(&self) -> (r: Self)
        ensures
            r@ == self@,
    {
        proof {
            use_type_invariant(self);
        }
        DeltaArray {
            offset: self.offset,
            len: self.len,
            dtype: self.dtype.clone(),
            bases: self.bases.clone(),
            deltas: self.deltas.clone(),
        }
    }
}

impl DeltaArray {
    #[verifier::type_invariant]
    closed spec fn holds(self) -> bool {
        self@.well_formed()
    }

    /// Creates an array from what compressing a primitive array yields: its bases and its deltas.
    pub fn try_from_primitive_array(compressed: (ArrayShape, ArrayShape)) -> (r: VortexResult<
        DeltaArray,
    >)
        ensures
            match delta_array_error(compressed.0, compressed.1, 0, compressed.1.len) {
                None => r matches Ok(array) && array@ == delta_array_of(
                    compressed.0,
                    compressed.1,
                    0,
                    compressed.1.len,
                ) && array@.well_formed(),
                Some(e) => r matches Err(error) && error == e,
            },
    {
        let (bases, deltas) = compressed;
        DeltaArray::try_from_delta_compress_parts(bases, deltas)
    }

    /// Creates an array of as many values as there are deltas. The deltas might be nullable.
    pub fn try_from_delta_compress_parts(bases: ArrayShape, deltas: ArrayShape) -> (r: VortexResult<
        DeltaArray,
    >)
        ensures
            match delta_array_error(bases, deltas, 0, deltas.len) {
                None => r matches Ok(array) && array@ == delta_array_of(
                    bases,
                    deltas,
                    0,
                    deltas.len,
                ) && array@.well_formed(),
                Some(e) => r matches Err(error) && error == e,
            },
    {
        let logical_len: usize = deltas.len;
        DeltaArray::try_new(bases, deltas, 0, logical_len)
    }

    /// Creates an array from its parts.
    pub fn try_new(
        bases: ArrayShape,
        deltas: ArrayShape,
        offset: usize,
        logical_len: usize,
    ) -> (r: VortexResult<DeltaArray>)
        ensures
            match delta_array_error(bases, deltas, offset, logical_len) {
                None => r matches Ok(array) && array@ == delta_array_of(
                    bases,
                    deltas,
                    offset,
                    logical_len,
                ) && array@.well_formed(),
                Some(e) => r matches Err(error) && error == e,
            },
    {
        if offset >= CHUNK_LEN {
            return Err(VortexError::OffsetTooLarge { offset });
        }
        if offset > deltas.len || logical_len > deltas.len - offset {
            return Err(
                VortexError::LengthExceedsDeltas {
                    offset,
                    len: logical_len,
                    deltas_len: deltas.len,
                },
            );
        }
        if !bases.dtype.eq_ignore_nullability(&deltas.dtype) {
            return Err(VortexError::DTypesDiffer);
        }
        let ptype = match &bases.dtype {
            DType::Primitive(ptype, _) => *ptype,
            _ => return Err(VortexError::NotPrimitive),
        };
        if !ptype.is_int() {
            return Err(VortexError::NotInteger);
        }
        let lanes: usize = lane_count(ptype);
        if (deltas.len % CHUNK_LEN == 0) != (bases.len % lanes == 0) {
            return Err(
                VortexError::RaggedChunks {
                    deltas_len: deltas.len,
                    bases_len: bases.len,
                    lanes,
                },
            );
        }
        Ok(DeltaArray::new_unchecked(bases, deltas, offset, logical_len))
    }

    /// Creates an array from parts that are known to make one.
    pub(crate) fn new_unchecked(
        bases: ArrayShape,
        deltas: ArrayShape,
        offset: usize,
        logical_len: usize,
    ) -> (r: DeltaArray)
        requires
            delta_array_error(bases, deltas, offset, logical_len) is None,
        ensures
            r@ == delta_array_of(bases, deltas, offset, logical_len),
            r@.well_formed(),
    {
        DeltaArray {
            offset,
            len: logical_len,
            dtype: bases.dtype.with_nullability(deltas.dtype.nullability()),
            bases,
            deltas,
        }
    }

    /// Returns the first value of each lane of each chunk.
    pub fn bases(&self) -> (r: &ArrayShape)
        ensures
            *r == self@.bases,
    {
        &self.bases
    }

    /// Returns the differences.
    pub fn deltas(&self) -> (r: &ArrayShape)
        ensures
            *r == self@.deltas,
    {
        &self.deltas
    }

    /// Returns the number of lanes of the type of the array.
    pub fn lanes(&self) -> (r: usize)
        ensures
            r == lanes_of(self@.bases),
            self@.well_formed(),
    {
        proof {
            use_type_invariant(self);
        }
        match &self.dtype {
            DType::Primitive(ptype, _) => lane_count(*ptype),
            _ => 0,
        }
    }

    /// Returns the logical offset into the first chunk of [`DeltaArray::deltas`].
    pub fn offset(&self) -> (r: usize)
        ensures
            r == self@.offset,
            r < CHUNK_LEN,
    {
        proof {
            use_type_invariant(self);
        }
        self.offset
    }

    /// Returns the number of bases.
    pub fn bases_len(&self) -> (r: usize)
        ensures
            r == self@.bases.len,
    {
        self.bases.len
    }

    /// Returns the number of deltas.
    pub fn deltas_len(&self) -> (r: usize)
        ensures
            r == self@.deltas.len,
    {
        self.deltas.len
    }

    /// Returns the number of values.
    pub fn len(&self) -> (r: usize)
        ensures
            r == self@.len,
    {
        self.len
    }

    /// Returns the type of the array.
    pub fn dtype(&self) -> (r: &DType)
        ensures
            *r == self@.dtype,
    {
        &self.dtype
    }

    /// Returns the child that holds the validity, and the rows of it that the array has.
    pub fn unsliced_child_and_slice(&self) -> (r: (&ArrayShape, usize, usize))
        ensures
            *r.0 == self@.deltas,
            r.1 == self@.offset,
            r.2 == self@.offset + self@.len,
            r.2 <= self@.deltas.len,
            (*r.0, r.1..r.2) == validity_rows(self@),
    {
        proof {
            use_type_invariant(self);
        }
        (&self.deltas, self.offset, self.offset + self.len)
    }

    /// Returns whether two arrays are the same, given whether their bases and their deltas are.
    pub fn array_eq(&self, other: &DeltaArray, bases_eq: bool, deltas_eq: bool) -> (r: bool)
        ensures
            r == (self@.offset == other@.offset && self@.len == other@.len && self@.dtype
                == other@.dtype && bases_eq && deltas_eq),
            r == same_array(self@, other@, bases_eq, deltas_eq),
    {
        self.offset == other.offset && self.len == other.len && self.dtype == other.dtype
            && bases_eq && deltas_eq
    }
}

/// The chunks that hold the rows, for an array of which the last chunk may hold fewer values. Such
/// a chunk has a single base. There is no plan for a sliced array, for types other than numbers,
/// for rows past the last chunk, nor where a position does not fit in a `usize`.
pub open spec fn chunked_delta_plan(
    metadata: DeltaMetadata,
    row_range: Range<usize>,
    dtype: DType,
) -> Option<EncodingRangeReadView> {
    let deltas_len = metadata.deltas_len as int;
    let lanes = lanes_of_width((dtype->Primitive_0).spec_byte_width()) as int;
    let first_chunk = row_range.start as int / 1024;
    let last_chunk = if row_range.end == 0 { 0int } else { (row_range.end - 1) / 1024 };
    let full_chunks = deltas_len / 1024;
    let bases_len = full_chunks * lanes + if deltas_len % 1024 == 0 { 0int } else { 1int };
    let deltas_start = first_chunk * 1024;
    let deltas_end = if (last_chunk + 1) * 1024 <= deltas_len {
        (last_chunk + 1) * 1024
    } else {
        deltas_len
    };
    let bases_end = if last_chunk >= full_chunks || (last_chunk + 1) * lanes > bases_len {
        bases_len
    } else {
        (last_chunk + 1) * lanes
    };
    if metadata.offset == 0 && deltas_len <= usize::MAX && dtype is Primitive && (last_chunk + 1)
        * 1024 <= usize::MAX && deltas_start <= deltas_end {
        Some(
            EncodingRangeReadView {
                buffer_sub_ranges: seq![],
                children: seq![
                    ChildRangeRead::Recurse {
                        row_range: Range {
                            start: (first_chunk * lanes) as usize,
                            end: bases_end as usize,
                        },
                        row_count: bases_len as usize,
                        dtype,
                    },
                    ChildRangeRead::Recurse {
                        row_range: Range {
                            start: deltas_start as usize,
                            end: deltas_end as usize,
                        },
                        row_count: deltas_len as usize,
                        dtype,
                    },
                ],
                decode_info: RangeDecodeInfo::Rows(
                    Range { start: deltas_start as usize, end: deltas_end as usize },
                ),
                validity: ValidityRangeRead::Absent,
            },
        )
    } else {
        None
    }
}

impl DeltaVTable {
    /// Returns the identifier of the encoding.
    pub fn id(_encoding: &DeltaEncoding) -> (r: &'static str)
        ensures
            r@ == "fastlanes.delta"@,
    {
        "fastlanes.delta"
    }

    /// Plans the read of a range of rows.
    pub fn plan_range_read(
        metadata: &DeltaMetadata,
        row_range: Range<usize>,
        _row_count: usize,
        dtype: &DType,
    ) -> (r: Option<EncodingRangeRead>)
        ensures
            r is Some <==> chunked_delta_plan(*metadata, row_range, *dtype) is Some,
            r matches Some(plan) ==> chunked_delta_plan(*metadata, row_range, *dtype) == Some(
                plan@,
            ),
    {
        if metadata.offset != 0 {
            return None;
        }
        if metadata.deltas_len > usize::MAX as u64 {
            return None;
        }
        let deltas_len: usize = metadata.deltas_len as usize;
        let byte_width: usize = match dtype {
            DType::Primitive(ptype, _) => ptype.byte_width(),
            _ => return None,
        };
        let lanes: usize = match byte_width {
            1 => 128,
            2 => 64,
            4 => 32,
            _ => 16,
        };
        assert(lanes == lanes_of_width(byte_width));

        let first_chunk: usize = row_range.start / CHUNK_LEN;
        let last_chunk: usize = row_range.end.saturating_sub(1) / CHUNK_LEN;
        let chunks_end: usize = match (last_chunk + 1).checked_mul(CHUNK_LEN) {
            Some(chunks_end) => chunks_end,
            None => return None,
        };
        let deltas_row_start: usize = first_chunk * CHUNK_LEN;
        let deltas_row_end: usize = if chunks_end <= deltas_len { chunks_end } else { deltas_len };
        if deltas_row_start > deltas_row_end {
            return None;
        }

        let num_full_chunks: usize = deltas_len / CHUNK_LEN;
        proof {
            lemma_bases_fit(num_full_chunks as int, lanes as int);
            lemma_bases_fit(first_chunk as int, lanes as int);
            lemma_bases_fit(last_chunk + 1, lanes as int);
        }
        let has_remainder = deltas_len % CHUNK_LEN != 0;
        let bases_len: usize = num_full_chunks * lanes + if has_remainder { 1 } else { 0 };
        let bases_row_start: usize = first_chunk * lanes;
        let bases_row_end: usize = if last_chunk >= num_full_chunks || (last_chunk + 1) * lanes
            > bases_len {
            bases_len
        } else {
            (last_chunk + 1) * lanes
        };

        let plan = EncodingRangeRead {
            buffer_sub_ranges: vec![],
            children: vec![
                ChildRangeRead::Recurse {
                    row_range: bases_row_start..bases_row_end,
                    row_count: bases_len,
                    dtype: dtype.clone(),
                },
                ChildRangeRead::Recurse {
                    row_range: deltas_row_start..deltas_row_end,
                    row_count: deltas_len,
                    dtype: dtype.clone(),
                },
            ],
            decode_info: RangeDecodeInfo::Rows(deltas_row_start..deltas_row_end),
            validity: ValidityRangeRead::Absent,
        };
        assert(chunked_delta_plan(*metadata, row_range, *dtype)->0 =~= plan@);
        Some(plan)
    }
}

/// A plan decodes whole chunks, up to the end of the deltas, and these hold all rows that are
/// asked for and that the deltas have. It reads exactly the deltas and the bases of these chunks.
pub proof fn law_chunked_delta_plan_covers_rows(
    metadata: DeltaMetadata,
    row_range: Range<usize>,
    dtype: DType,
)
    requires
        chunked_delta_plan(metadata, row_range, dtype) is Some,
        row_range.start < row_range.end <= metadata.deltas_len,
    ensures
        ({
            let plan = chunked_delta_plan(metadata, row_range, dtype)->0;
            let lanes = lanes_of_width((dtype->Primitive_0).spec_byte_width());
            &&& plan.decode_info matches RangeDecodeInfo::Rows(decoded)
            &&& decoded.start <= row_range.start
            &&& row_range.end <= decoded.end
            &&& decoded.start % 1024 == 0
            &&& decoded.end % 1024 == 0 || decoded.end == metadata.deltas_len
            &&& plan.children.len() == 2
            &&& plan.children[0] matches ChildRangeRead::Recurse { row_range: bases, row_count, .. }
            &&& bases.start == decoded.start / 1024 * lanes
            &&& bases.end == decoded.end / 1024 * lanes + if decoded.end % 1024 == 0 {
                0int
            } else {
                1
            }
            &&& bases.start < bases.end <= row_count
            &&& plan.children[1] matches ChildRangeRead::Recurse { row_range: deltas, .. }
            &&& deltas == decoded
        }),
{
    let lanes = lanes_of_width((dtype->Primitive_0).spec_byte_width()) as int;
    let first = row_range.start as int / 1024;
    let last = (row_range.end - 1) / 1024;
    let full = metadata.deltas_len as int / 1024;
    lemma_bases_fit(first, lanes);
    lemma_bases_fit(last + 1, lanes);
    lemma_bases_fit(full, lanes);
    assert((last + 1) * 1024 / 1024 == last + 1);
    assert(first * 1024 / 1024 == first);
    if last < full {
        assert((last + 1) * lanes <= full * lanes) by (nonlinear_arith)
            requires
                last < full,
                0 < lanes,
        ;
        assert(first * lanes < (last + 1) * lanes) by (nonlinear_arith)
            requires
                first <= last,
                0 < lanes,
        ;
    } else {
        assert(first * lanes <= full * lanes) by (nonlinear_arith)
            requires
                first <= full,
                0 < lanes,
        ;
    }
}

/// Rows can be read in part if the array is not sliced, its values are numbers, the deltas reach
/// the first chunk that is asked for, the rows do not end before it, and positions can be counted.
pub proof fn law_chunked_delta_plan_exists(
    metadata: DeltaMetadata,
    row_range: Range<usize>,
    dtype: DType,
)
    ensures
        chunked_delta_plan(metadata, row_range, dtype) is Some <==> {
            let top = end_of_chunk(row_range.end as int);
            &&& metadata.offset == 0
            &&& metadata.deltas_len <= usize::MAX
            &&& dtype is Primitive
            &&& top <= usize::MAX
            &&& row_range.start - row_range.start % 1024 <= metadata.deltas_len
            &&& row_range.start - row_range.start % 1024 <= top
        },
{
    let (start, end) = (row_range.start as int, row_range.end as int);
    assert(end > 0 ==> (end - 1) / 1024 * 1024 + 1024 == end + (1024 - end % 1024) % 1024);
    assert(start / 1024 * 1024 == start - start % 1024);
}

/// Where the chunk ends that holds the last value before `end`; without one, the first chunk.
pub open spec fn end_of_chunk(end: int) -> int {
    if end == 0 { 1024 } else { end + (1024 - end % 1024) % 1024 }
}

/// Both children of a plan are read as arrays of the type of the array. The deltas have as many
/// rows as the metadata says, and the bases as many as values of the type fit in 1,024 bits for
/// each full chunk, and one more for a chunk that is not full. The chunks that hold the rows are
/// read, as far as there are deltas.
pub proof fn law_chunked_delta_plan_reads_its_own_type(
    metadata: DeltaMetadata,
    row_range: Range<usize>,
    dtype: DType,
)
    requires
        chunked_delta_plan(metadata, row_range, dtype) is Some,
    ensures
        ({
            let plan = chunked_delta_plan(metadata, row_range, dtype)->0;
            let lanes: int = match dtype->Primitive_0 {
                PType::U8 | PType::I8 => 128,
                PType::U16 | PType::I16 | PType::F16 => 64,
                PType::U32 | PType::I32 | PType::F32 => 32,
                PType::U64 | PType::I64 | PType::F64 => 16,
            };
            let top = end_of_chunk(row_range.end as int);
            &&& plan.buffer_sub_ranges.len() == 0
            &&& plan.validity is Absent
            &&& plan.children.len() == 2
            &&& plan.children[0] matches ChildRangeRead::Recurse {
                row_range: bases,
                row_count: bases_len,
                dtype: bases_type,
            }
            &&& plan.children[1] matches ChildRangeRead::Recurse {
                row_range: deltas,
                row_count: deltas_len,
                dtype: deltas_type,
            }
            &&& bases_type == dtype
            &&& deltas_type == dtype
            &&& deltas_len == metadata.deltas_len
            &&& bases_len == metadata.deltas_len as int / 1024 * lanes + if metadata.deltas_len
                % 1024 == 0 {
                0int
            } else {
                1
            }
            &&& plan.decode_info == RangeDecodeInfo::Rows(deltas)
            &&& deltas.start % 1024 == 0
            &&& deltas.start <= row_range.start < deltas.start + 1024
            &&& bases.start * 1024 == deltas.start * lanes
            &&& deltas.end == if top <= metadata.deltas_len {
                top
            } else {
                metadata.deltas_len as int
            }
            &&& bases.end == if top <= metadata.deltas_len - metadata.deltas_len % 1024 {
                top / 1024 * lanes
            } else {
                bases_len as int
            }
        }),
{
    let end = row_range.end as int;
    let top = end_of_chunk(end);
    let last = if end == 0 { 0int } else { (end - 1) / 1024 };
    assert((last + 1) * 1024 == top);
    let lanes = lanes_of_width((dtype->Primitive_0).spec_byte_width()) as int;
    let first = row_range.start as int / 1024;
    let full = metadata.deltas_len as int / 1024;
    lemma_bases_fit(first, lanes);
    lemma_bases_fit(full, lanes);
    assert(first * lanes * 1024 == first * 1024 * lanes) by (nonlinear_arith);
    lemma_bases_fit(last + 1, lanes);
    if last < full {
        assert((last + 1) * lanes <= full * lanes) by (nonlinear_arith)
            requires
                last < full,
                0 < lanes,
        ;
    }
}

/// Parts make an array exactly if it begins in its first chunk, its values lie in the deltas, bases
/// and deltas are integers of one type, and the last chunk is full on both sides or on neither.
/// Otherwise the first of these that fails is reported.
pub proof fn law_delta_array_parts(
    bases: ArrayShape,
    deltas: ArrayShape,
    offset: usize,
    len: usize,
)
    ensures
        ({
            let error = delta_array_error(bases, deltas, offset, len);
            let begins = offset < 1024;
            let fits = offset + len <= deltas.len;
            let alike = bases.dtype.without_nullability() == deltas.dtype.without_nullability();
            let number = bases.dtype is Primitive;
            let float = bases.dtype->Primitive_0 is F16 || bases.dtype->Primitive_0 is F32
                || bases.dtype->Primitive_0 is F64;
            let lanes: int = match bases.dtype->Primitive_0 {
                PType::U8 | PType::I8 => 128,
                PType::U16 | PType::I16 => 64,
                PType::U32 | PType::I32 => 32,
                _ => 16,
            };
            let full = deltas.len % 1024 == 0 <==> bases.len as int % lanes == 0;
            &&& error is None <==> begins && fits && alike && number && !float && full
            &&& !begins <==> error == Some(VortexError::OffsetTooLarge { offset })
            &&& begins && !fits <==> error == Some(
                VortexError::LengthExceedsDeltas { offset, len, deltas_len: deltas.len },
            )
            &&& begins && fits && !alike <==> error == Some(VortexError::DTypesDiffer)
            &&& begins && fits && alike && !number <==> error == Some(VortexError::NotPrimitive)
            &&& begins && fits && alike && number && float <==> error == Some(
                VortexError::NotInteger,
            )
            &&& begins && fits && alike && number && !float && !full <==> error == Some(
                VortexError::RaggedChunks {
                    deltas_len: deltas.len,
                    bases_len: bases.len,
                    lanes: lanes as usize,
                },
            )
        }),
{
}

/// An array has the parts that it was made from. Its values are of the type of its bases, and may
/// be null where its deltas may be.
pub proof fn law_delta_array_has_its_parts(
    bases: ArrayShape,
    deltas: ArrayShape,
    offset: usize,
    len: usize,
)
    ensures
        ({
            let array = delta_array_of(bases, deltas, offset, len);
            &&& array.offset == offset
            &&& array.len == len
            &&& array.bases == bases
            &&& array.deltas == deltas
            &&& bases.dtype is Primitive && deltas.dtype is Primitive ==> array.dtype
                == DType::Primitive(bases.dtype->Primitive_0, deltas.dtype->Primitive_1)
            &&& delta_array_error(bases, deltas, offset, len) is None ==> array.dtype
                == deltas.dtype && array.well_formed()
            &&& array.well_formed() ==> delta_array_error(bases, deltas, offset, len) is None
            &&& bases.dtype is Primitive ==> lanes_of(bases) == match bases.dtype->Primitive_0 {
                PType::U8 | PType::I8 => 128int,
                PType::U16 | PType::I16 | PType::F16 => 64,
                PType::U32 | PType::I32 | PType::F32 => 32,
                PType::U64 | PType::I64 | PType::F64 => 16,
            }
        }),
{
    law_types_alike_differ_in_nullability_alone(bases.dtype, deltas.dtype);
}

/// Arrays are the same exactly if nothing tells them apart: neither the offset, nor the length, nor
/// the type, nor the bases, nor the deltas. Being the same is an equivalence.
pub proof fn law_same_arrays_agree_in_everything(
    a: DeltaArrayView,
    b: DeltaArrayView,
    bases_eq: bool,
    deltas_eq: bool,
)
    ensures
        same_array(a, a, true, true),
        same_array(a, b, bases_eq, deltas_eq) == same_array(b, a, bases_eq, deltas_eq),
        same_array(a, b, bases_eq, deltas_eq) ==> bases_eq && deltas_eq,
        a.offset != b.offset || a.len != b.len || a.dtype != b.dtype ==> !same_array(
            a,
            b,
            bases_eq,
            deltas_eq,
        ),
        a.offset == b.offset && a.len == b.len && a.dtype == b.dtype ==> same_array(
            a,
            b,
            true,
            true,
        ),
{
}

/// The validity of an array is that of its deltas: of as many of them as the array has values, from
/// its offset on.
pub proof fn law_validity_is_that_of_the_deltas(array: DeltaArrayView)
    requires
        array.well_formed(),
    ensures
        validity_rows(array).0 == array.deltas,
        validity_rows(array).1.start == array.offset,
        validity_rows(array).1.end - validity_rows(array).1.start == array.len,
        validity_rows(array).1.end <= array.deltas.len,
{
}

} // verus!
