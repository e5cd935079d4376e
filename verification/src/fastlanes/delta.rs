//! Delta encoding with chunks that are always full.

use crate::dtype::{law_types_alike_differ_in_nullability_alone, DType, PType};
use crate::encoding::{
    ChildRangeRead, EncodingRangeRead, EncodingRangeReadView, RangeDecodeInfo, VTable,
    ValidityRangeRead,
};
use crate::error::{VortexError, VortexResult};
use crate::fastlanes::delta_array::{
    delta_array_of, lanes_of, law_delta_array_has_its_parts, DeltaArray, DeltaArrayView,
};
use crate::fastlanes::lanes::{
    chunks_for, lane_count, lemma_bases_fit, num_chunks, spec_lane_count, ArrayShape, CHUNK_LEN,
};
use crate::fastlanes::metadata::{
    decoded_metadata, encoded_metadata, law_metadata_round_trip, DeltaMetadata,
};
use std::ops::Range;
use vstd::arithmetic::div_mod::lemma_mod_multiples_basic;
use vstd::prelude::*;

verus! {

/// The encoding, as it is registered.
#[derive(Clone, Debug)]
pub struct Delta;

/// What a delta array holds beside its children.
#[derive(Clone, Copy, Debug, PartialEq, Eq, Structural)]
pub struct DeltaData {
    /// The position of the first value in the first chunk.
    pub offset: usize,
}

impl DeltaData {
    /// Returns the data of an array with the given offset, which has to lie in the first chunk.
    pub fn try_new(offset: usize) -> (r: VortexResult<DeltaData>)
        ensures
            offset < CHUNK_LEN ==> r == Ok::<DeltaData, VortexError>(DeltaData { offset }),
            offset >= CHUNK_LEN ==> r == Err::<DeltaData, VortexError>(
                VortexError::OffsetTooLarge { offset },
            ),
    {
        if offset >= CHUNK_LEN {
            return Err(VortexError::OffsetTooLarge { offset });
        }
        Ok(DeltaData { offset })
    }

    /// Returns whether two arrays agree in what they hold beside their children.
    pub fn array_eq(&self, other: &DeltaData) -> (r: bool)
        ensures
            r == (*self == *other),
    {
        self.offset == other.offset
    }
}

/// Why parts do not make an array of full chunks, if they do not. The offset is not looked at
/// alone.
pub open spec fn parts_error(
    bases: ArrayShape,
    deltas: ArrayShape,
    offset: usize,
    dtype: DType,
    len: usize,
) -> Option<VortexError> {
    if offset + len > deltas.len {
        Some(VortexError::LengthExceedsDeltas { offset, len, deltas_len: deltas.len })
    } else if bases.dtype.without_nullability() != deltas.dtype.without_nullability() {
        Some(VortexError::DTypesDiffer)
    } else if !bases.dtype.spec_is_int() {
        Some(VortexError::NotInteger)
    } else if dtype != bases.dtype.spec_with_nullability(deltas.dtype.spec_nullability()) {
        Some(VortexError::DTypeMismatch)
    } else if deltas.len % CHUNK_LEN != 0 {
        Some(VortexError::DeltasNotChunked { deltas_len: deltas.len })
    } else if bases.len % lanes_of(bases) != 0 {
        Some(VortexError::BasesNotChunked { bases_len: bases.len, lanes: lanes_of(bases) })
    } else {
        None
    }
}

/// Checks that parts make an array of full chunks.
pub fn validate_parts(
    bases: &ArrayShape,
    deltas: &ArrayShape,
    offset: usize,
    dtype: &DType,
    len: usize,
) -> (r: VortexResult<()>)
    ensures
        match parts_error(*bases, *deltas, offset, *dtype, len) {
            None => r is Ok,
            Some(e) => r == Err::<(), VortexError>(e),
        },
{
    if offset > deltas.len || len > deltas.len - offset {
        return Err(VortexError::LengthExceedsDeltas { offset, len, deltas_len: deltas.len });
    }
    if !bases.dtype.eq_ignore_nullability(&deltas.dtype) {
        return Err(VortexError::DTypesDiffer);
    }
    if !bases.dtype.is_int() {
        return Err(VortexError::NotInteger);
    }
    let expected_dtype = bases.dtype.with_nullability(deltas.dtype.nullability());
    if *dtype != expected_dtype {
        return Err(VortexError::DTypeMismatch);
    }
    let ptype = match &bases.dtype {
        DType::Primitive(ptype, _) => *ptype,
        _ => return Err(VortexError::NotInteger),
    };
    let lanes: usize = lane_count(ptype);
    if deltas.len % CHUNK_LEN != 0 {
        return Err(VortexError::DeltasNotChunked { deltas_len: deltas.len });
    }
    if bases.len % lanes != 0 {
        return Err(VortexError::BasesNotChunked { bases_len: bases.len, lanes });
    }
    Ok(())
}

/// Why parts do not make an array of full chunks with the given offset, if they do not.
pub open spec fn delta_error(
    bases: ArrayShape,
    deltas: ArrayShape,
    offset: usize,
    len: usize,
) -> Option<VortexError> {
    if offset >= CHUNK_LEN {
        Some(VortexError::OffsetTooLarge { offset })
    } else {
        parts_error(
            bases,
            deltas,
            offset,
            bases.dtype.spec_with_nullability(deltas.dtype.spec_nullability()),
            len,
        )
    }
}

/// The array as it is put together from its serialized form: its type, its length, its offset, and
/// the type and the length of the children to decode.
#[derive(Debug)]
pub struct DeltaParts {
    pub dtype: DType,
    pub len: usize,
    pub data: DeltaData,
    pub bases: ArrayShape,
    pub deltas: ArrayShape,
}

/// The number of deltas that an array of `len` values needs: those of all chunks up to its end.
pub open spec fn required_deltas(offset: int, len: int) -> int {
    chunks_for(offset + len) * 1024
}

/// The children to decode for an array of `len` values with the given metadata. Of a partly read
/// array only as many deltas are there as it needs.
pub open spec fn spec_child_shapes(
    dtype: DType,
    len: usize,
    metadata: Seq<u8>,
    num_buffers: usize,
    num_children: usize,
    is_partial_decode: bool,
) -> VortexResult<(usize, ArrayShape, ArrayShape)> {
    if num_buffers != 0 {
        Err(VortexError::UnexpectedBuffers { num_buffers })
    } else if num_children != 2 {
        Err(VortexError::UnexpectedChildren { num_children })
    } else {
        match decoded_metadata(metadata) {
            None => Err(VortexError::InvalidMetadata),
            Some(metadata) => {
                let offset = metadata.offset as usize;
                let required = required_deltas(offset as int, len as int);
                let deltas_len = if is_partial_decode {
                    required as usize
                } else {
                    metadata.deltas_len as usize
                };
                let lanes = spec_lane_count(dtype->Primitive_0);
                if !(dtype is Primitive) {
                    Err(VortexError::NotPrimitive)
                } else if !dtype.spec_is_int() {
                    Err(VortexError::NotInteger)
                } else if metadata.deltas_len > usize::MAX {
                    Err(VortexError::DeltasLenOverflow { deltas_len: metadata.deltas_len })
                } else if offset + len > usize::MAX {
                    Err(VortexError::LengthOverflow { offset, len })
                } else if required > usize::MAX {
                    Err(VortexError::PaddedLengthOverflow)
                } else if required > metadata.deltas_len {
                    Err(
                        VortexError::MissingDeltas {
                            required: required as usize,
                            described: metadata.deltas_len as usize,
                        },
                    )
                } else {
                    Ok(
                        (
                            offset,
                            ArrayShape { dtype, len: (deltas_len as int / 1024 * lanes) as usize },
                            ArrayShape { dtype, len: deltas_len },
                        ),
                    )
                }
            },
        }
    }
}

/// The parts of a serialized array.
pub open spec fn spec_deserialize(
    dtype: DType,
    len: usize,
    metadata: Seq<u8>,
    num_buffers: usize,
    num_children: usize,
    is_partial_decode: bool,
) -> VortexResult<DeltaParts> {
    match spec_child_shapes(dtype, len, metadata, num_buffers, num_children, is_partial_decode) {
        Err(e) => Err(e),
        Ok((offset, bases, deltas)) => if offset >= CHUNK_LEN {
            Err(VortexError::OffsetTooLarge { offset })
        } else {
            Ok(DeltaParts { dtype, len, data: DeltaData { offset }, bases, deltas })
        },
    }
}

/// What is stored about an array: the number of its deltas and its offset.
pub open spec fn serialized(array: DeltaArrayView) -> Seq<u8> {
    encoded_metadata(
        DeltaMetadata { deltas_len: array.deltas.len as u64, offset: array.offset as u32 },
    )
}

impl Delta {
    /// Returns the identifier of the encoding.
    pub fn id(&self) -> (r: &'static str)
        ensures
            r@ == "fastlanes.delta"@,
    {
        "fastlanes.delta"
    }

    /// Checks the parts of an array.
    pub fn validate(
        &self,
        data: &DeltaData,
        dtype: &DType,
        len: usize,
        bases: &ArrayShape,
        deltas: &ArrayShape,
    ) -> (r: VortexResult<()>)
        ensures
            match parts_error(*bases, *deltas, data.offset, *dtype, len) {
                None => r is Ok,
                Some(e) => r == Err::<(), VortexError>(e),
            },
    {
        validate_parts(bases, deltas, data.offset, dtype, len)
    }

    /// Creates an array of full chunks from its parts.
    pub fn try_new(
        bases: ArrayShape,
        deltas: ArrayShape,
        offset: usize,
        len: usize,
    ) -> (r: VortexResult<DeltaArray>)
        ensures
            match delta_error(bases, deltas, offset, len) {
                None => r matches Ok(array) && array@ == delta_array_of(bases, deltas, offset, len)
                    && array@.well_formed(),
                Some(e) => r matches Err(error) && error == e,
            },
    {
        let dtype = bases.dtype.with_nullability(deltas.dtype.nullability());
        let data = match DeltaData::try_new(offset) {
            Ok(data) => data,
            Err(e) => return Err(e),
        };
        if let Err(e) = validate_parts(&bases, &deltas, data.offset, &dtype, len) {
            return Err(e);
        }
        Ok(DeltaArray::new_unchecked(bases, deltas, offset, len))
    }

    /// Creates an array from what compressing a primitive array of `logical_len` values yields: its
    /// bases and its deltas.
    pub fn try_from_primitive_array(
        compressed: (ArrayShape, ArrayShape),
        logical_len: usize,
    ) -> (r: VortexResult<DeltaArray>)
        ensures
            match delta_error(compressed.0, compressed.1, 0, logical_len) {
                None => r matches Ok(array) && array@ == delta_array_of(
                    compressed.0,
                    compressed.1,
                    0,
                    logical_len,
                ) && array@.well_formed(),
                Some(e) => r matches Err(error) && error == e,
            },
    {
        let (bases, deltas) = compressed;
        Delta::try_new(bases, deltas, 0, logical_len)
    }

    /// Returns the number of buffers of an array: it has only children.
    pub fn nbuffers(_array: &DeltaArray) -> (r: usize)
        ensures
            r == 0,
    {
        0
    }

    /// Returns the metadata of an array.
    pub fn serialize(array: &DeltaArray) -> (r: Vec<u8>)
        ensures
            r@ == encoded_metadata(
                DeltaMetadata {
                    deltas_len: array@.deltas.len as u64,
                    offset: array@.offset as u32,
                },
            ),
            r@ == serialized(array@),
            array@.offset < CHUNK_LEN,
    {
        DeltaMetadata {
            deltas_len: array.deltas_len() as u64,
            offset: array.offset() as u32,
        }.encode_to_vec()
    }

    /// Returns the offset of a serialized array of `len` values, and the type and the length of
    /// its bases and its deltas.
    pub fn child_shapes(
        dtype: &DType,
        len: usize,
        metadata: &[u8],
        num_buffers: usize,
        num_children: usize,
        is_partial_decode: bool,
    ) -> (r: VortexResult<(usize, ArrayShape, ArrayShape)>)
        ensures
            r == spec_child_shapes(
                *dtype,
                len,
                metadata@,
                num_buffers,
                num_children,
                is_partial_decode,
            ),
    {
        if num_buffers != 0 {
            return Err(VortexError::UnexpectedBuffers { num_buffers });
        }
        if num_children != 2 {
            return Err(VortexError::UnexpectedChildren { num_children });
        }
        let metadata = match DeltaMetadata::decode(metadata) {
            Ok(metadata) => metadata,
            Err(e) => return Err(e),
        };
        let ptype = match dtype {
            DType::Primitive(ptype, _) => *ptype,
            _ => return Err(VortexError::NotPrimitive),
        };
        if !ptype.is_int() {
            return Err(VortexError::NotInteger);
        }
        let lanes: usize = lane_count(ptype);

        if metadata.deltas_len > usize::MAX as u64 {
            return Err(VortexError::DeltasLenOverflow { deltas_len: metadata.deltas_len });
        }
        let serialized_deltas_len: usize = metadata.deltas_len as usize;
        let offset: usize = metadata.offset as usize;
        let logical_end: usize = match offset.checked_add(len) {
            Some(logical_end) => logical_end,
            None => return Err(VortexError::LengthOverflow { offset, len }),
        };
        let required_deltas_len: usize = match num_chunks(logical_end).checked_mul(CHUNK_LEN) {
            Some(required_deltas_len) => required_deltas_len,
            None => return Err(VortexError::PaddedLengthOverflow),
        };
        if required_deltas_len > serialized_deltas_len {
            return Err(
                VortexError::MissingDeltas {
                    required: required_deltas_len,
                    described: serialized_deltas_len,
                },
            );
        }
        let deltas_len: usize = if is_partial_decode {
            required_deltas_len
        } else {
            serialized_deltas_len
        };
        proof {
            lemma_bases_fit((deltas_len / CHUNK_LEN) as int, lanes as int);
        }
        let bases_len: usize = deltas_len / CHUNK_LEN * lanes;
        Ok(
            (
                offset,
                ArrayShape::new(dtype.clone(), bases_len),
                ArrayShape::new(dtype.clone(), deltas_len),
            ),
        )
    }

    /// Returns the parts of a serialized array of `len` values.
    pub fn deserialize(
        &self,
        dtype: &DType,
        len: usize,
        metadata: &[u8],
        num_buffers: usize,
        num_children: usize,
        is_partial_decode: bool,
    ) -> (r: VortexResult<DeltaParts>)
        ensures
            r == spec_deserialize(
                *dtype,
                len,
                metadata@,
                num_buffers,
                num_children,
                is_partial_decode,
            ),
    {
        let (offset, bases, deltas) = match Delta::child_shapes(
            dtype,
            len,
            metadata,
            num_buffers,
            num_children,
            is_partial_decode,
        ) {
            Ok(shapes) => shapes,
            Err(e) => return Err(e),
        };
        let data = match DeltaData::try_new(offset) {
            Ok(data) => data,
            Err(e) => return Err(e),
        };
        Ok(DeltaParts { dtype: dtype.clone(), len, data, bases, deltas })
    }
}

/// The chunks that hold the rows. There is no plan for a sliced array, for one whose last chunk is
/// not full, for rows that it does not have, nor for types other than integers.
pub open spec fn delta_plan(
    metadata: Seq<u8>,
    row_range: Range<usize>,
    dtype: DType,
) -> VortexResult<Option<EncodingRangeReadView>> {
    match decoded_metadata(metadata) {
        None => Err(VortexError::InvalidMetadata),
        Some(metadata) => {
            let deltas_len = metadata.deltas_len as int;
            let lanes = spec_lane_count(dtype->Primitive_0) as int;
            let first_chunk = row_range.start as int / 1024;
            let last_chunk = chunks_for(row_range.end as int);
            let deltas = Range {
                start: (first_chunk * 1024) as usize,
                end: (last_chunk * 1024) as usize,
            };
            if metadata.offset != 0 {
                Ok(None)
            } else if deltas_len > usize::MAX {
                Err(VortexError::DeltasLenOverflow { deltas_len: metadata.deltas_len })
            } else if deltas_len % 1024 != 0 || row_range.end > deltas_len
                || !dtype.spec_is_int() {
                Ok(None)
            } else {
                Ok(
                    Some(
                        EncodingRangeReadView {
                            buffer_sub_ranges: seq![],
                            children: seq![
                                ChildRangeRead::RecurseExact {
                                    row_range: Range {
                                        start: (first_chunk * lanes) as usize,
                                        end: (last_chunk * lanes) as usize,
                                    },
                                    row_count: (deltas_len / 1024 * lanes) as usize,
                                    dtype,
                                },
                                ChildRangeRead::RecurseExact {
                                    row_range: deltas,
                                    row_count: deltas_len as usize,
                                    dtype,
                                },
                            ],
                            decode_info: RangeDecodeInfo::Rows(deltas),
                            validity: ValidityRangeRead::Absent,
                        },
                    ),
                )
            }
        },
    }
}

impl VTable for Delta {
    open spec fn planned(
        &self,
        metadata: Seq<u8>,
        row_range: Range<usize>,
        row_count: usize,
        dtype: DType,
    ) -> VortexResult<Option<EncodingRangeReadView>> {
        delta_plan(metadata, row_range, dtype)
    }

    fn plan_range_read(
        &self,
        metadata: &[u8],
        row_range: Range<usize>,
        row_count: usize,
        dtype: &DType,
    ) -> (r: VortexResult<Option<EncodingRangeRead>>) {
        let ghost bytes = metadata@;
        let metadata = match DeltaMetadata::decode(metadata) {
            Ok(metadata) => metadata,
            Err(e) => return Err(e),
        };
        if metadata.offset != 0 {
            return Ok(None);
        }
        if metadata.deltas_len > usize::MAX as u64 {
            return Err(VortexError::DeltasLenOverflow { deltas_len: metadata.deltas_len });
        }
        let deltas_len: usize = metadata.deltas_len as usize;
        if deltas_len % CHUNK_LEN != 0 || row_range.end > deltas_len {
            return Ok(None);
        }
        let ptype = match dtype {
            DType::Primitive(ptype, _) => *ptype,
            _ => return Ok(None),
        };
        if !ptype.is_int() {
            return Ok(None);
        }
        let lanes: usize = lane_count(ptype);
        let first_chunk: usize = row_range.start / CHUNK_LEN;
        let last_chunk: usize = num_chunks(row_range.end);
        proof {
            lemma_bases_fit(first_chunk as int, lanes as int);
            lemma_bases_fit(last_chunk as int, lanes as int);
            lemma_bases_fit((deltas_len / CHUNK_LEN) as int, lanes as int);
        }
        let deltas_start: usize = first_chunk * CHUNK_LEN;
        let deltas_end: usize = last_chunk * CHUNK_LEN;
        let plan = EncodingRangeRead {
            buffer_sub_ranges: vec![],
            children: vec![
                ChildRangeRead::RecurseExact {
                    row_range: first_chunk * lanes..last_chunk * lanes,
                    row_count: deltas_len / CHUNK_LEN * lanes,
                    dtype: dtype.clone(),
                },
                ChildRangeRead::RecurseExact {
                    row_range: deltas_start..deltas_end,
                    row_count: deltas_len,
                    dtype: dtype.clone(),
                },
            ],
            decode_info: RangeDecodeInfo::Rows(deltas_start..deltas_end),
            validity: ValidityRangeRead::Absent,
        };
        assert(delta_plan(bytes, row_range, *dtype)->Ok_0->0 =~= plan@);
        Ok(Some(plan))
    }
}

/// A plan decodes whole chunks that hold all rows that are asked for, and asks of each child for
/// rows that it has: of the deltas those of the chunks, of the bases as many for each chunk as the
/// type has lanes.
pub proof fn law_delta_plan_covers_rows(metadata: Seq<u8>, row_range: Range<usize>, dtype: DType)
    requires
        row_range.start <= row_range.end,
        delta_plan(metadata, row_range, dtype) matches Ok(Some(_)),
    ensures
        ({
            let plan = delta_plan(metadata, row_range, dtype)->Ok_0->0;
            let lanes = spec_lane_count(dtype->Primitive_0) as int;
            &&& plan.decode_info matches RangeDecodeInfo::Rows(decoded)
            &&& decoded.start <= row_range.start
            &&& row_range.end <= decoded.end
            &&& decoded.start % 1024 == 0
            &&& decoded.end % 1024 == 0
            &&& plan.children.len() == 2
            &&& plan.children[0] matches ChildRangeRead::RecurseExact {
                row_range: bases,
                row_count: bases_len,
                ..
            }
            &&& plan.children[1] matches ChildRangeRead::RecurseExact {
                row_range: deltas,
                row_count: deltas_len,
                ..
            }
            &&& deltas == decoded
            &&& deltas.end <= deltas_len
            &&& bases.start == deltas.start as int / 1024 * lanes
            &&& bases.end == deltas.end as int / 1024 * lanes
            &&& bases.end <= bases_len
        }),
{
    let m = decoded_metadata(metadata)->0;
    let lanes = spec_lane_count(dtype->Primitive_0) as int;
    let first = row_range.start as int / 1024;
    let last = chunks_for(row_range.end as int);
    let all = m.deltas_len as int / 1024;
    lemma_bases_fit(first, lanes);
    lemma_bases_fit(last, lanes);
    lemma_bases_fit(all, lanes);
    assert(last * lanes <= all * lanes) by (nonlinear_arith)
        requires
            last <= all,
            0 < lanes,
    ;
    assert(first * 1024 / 1024 == first);
    assert(last * 1024 / 1024 == last);
}

/// What is read for a range of rows is what decoding it takes: an array of the rows that a plan
/// decodes, put together from its parts, has exactly the bases and the deltas that the plan asks
/// for.
pub proof fn law_partial_decode_takes_what_was_planned(
    metadata: Seq<u8>,
    row_range: Range<usize>,
    dtype: DType,
)
    requires
        row_range.start < row_range.end,
        delta_plan(metadata, row_range, dtype) matches Ok(Some(_)),
    ensures
        ({
            let plan = delta_plan(metadata, row_range, dtype)->Ok_0->0;
            let decoded = plan.decode_info->Rows_0;
            let bases = plan.children[0]->RecurseExact_row_range;
            let deltas = plan.children[1]->RecurseExact_row_range;
            &&& spec_deserialize(
                dtype,
                (decoded.end - decoded.start) as usize,
                metadata,
                0,
                2,
                true,
            ) matches Ok(parts)
            &&& parts.deltas.len == deltas.end - deltas.start
            &&& parts.bases.len == bases.end - bases.start
            &&& parts.data.offset == 0
        }),
{
    law_delta_plan_covers_rows(metadata, row_range, dtype);
    let m = decoded_metadata(metadata)->0;
    let lanes = spec_lane_count(dtype->Primitive_0) as int;
    let first = row_range.start as int / 1024;
    let last = chunks_for(row_range.end as int);
    lemma_bases_fit(first, lanes);
    lemma_bases_fit(last, lanes);
    lemma_bases_fit(last - first, lanes);
    assert(last * lanes - first * lanes == (last - first) * lanes) by (nonlinear_arith);
    assert(required_deltas(0, (last - first) * 1024) == (last - first) * 1024);
    assert((last - first) * 1024 / 1024 == last - first);
}

/// Serializing an array and putting it together again keeps its length, its offset and all of its
/// deltas, those past its end too, and as many bases as its chunks have lanes.
pub proof fn law_serialized_array_keeps_its_parts(array: DeltaArrayView)
    requires
        delta_error(array.bases, array.deltas, array.offset, array.len) is None,
        array == delta_array_of(array.bases, array.deltas, array.offset, array.len),
        array.bases.len == array.deltas.len as int / 1024 * lanes_of(array.bases),
    ensures
        ({
            let metadata = encoded_metadata(
                DeltaMetadata {
                    deltas_len: array.deltas.len as u64,
                    offset: array.offset as u32,
                },
            );
            &&& spec_deserialize(array.dtype, array.len, metadata, 0, 2, false) matches Ok(parts)
            &&& parts.len == array.len
            &&& parts.dtype == array.dtype
            &&& parts.data.offset == array.offset
            &&& parts.deltas.len == array.deltas.len
            &&& parts.bases.len == array.bases.len
        }),
{
    law_metadata_round_trip(
        DeltaMetadata { deltas_len: array.deltas.len as u64, offset: array.offset as u32 },
    );
    let end = array.offset + array.len;
    assert(chunks_for(end) * 1024 <= array.deltas.len);
    lemma_bases_fit(array.deltas.len as int / 1024, lanes_of(array.bases) as int);
}

/// The number of lanes of an integer type is 1,024 divided by the bits of a value.
proof fn lemma_lanes(dtype: DType)
    requires
        dtype is Primitive,
    ensures
        spec_lane_count(dtype->Primitive_0) == lanes_of_bits(dtype->Primitive_0),
{
}

/// How many values of a type fit in 1,024 bits.
pub open spec fn lanes_of_bits(ptype: PType) -> int {
    match ptype {
        PType::U8 | PType::I8 => 1024int / 8,
        PType::U16 | PType::I16 | PType::F16 => 1024int / 16,
        PType::U32 | PType::I32 | PType::F32 => 1024int / 32,
        PType::U64 | PType::I64 | PType::F64 => 1024int / 64,
    }
}

/// Rows can be read in part exactly if the array is not sliced, its last chunk is full, it has the
/// rows, and its values are integers.
pub proof fn law_delta_plan_exists(metadata: Seq<u8>, row_range: Range<usize>, dtype: DType)
    ensures
        match decoded_metadata(metadata) {
            None => delta_plan(metadata, row_range, dtype) == Err::<
                Option<EncodingRangeReadView>,
                VortexError,
            >(VortexError::InvalidMetadata),
            Some(stored) => {
                let plan = delta_plan(metadata, row_range, dtype);
                &&& plan is Err <==> stored.offset == 0 && stored.deltas_len > usize::MAX
                &&& plan matches Err(e) ==> e == (VortexError::DeltasLenOverflow {
                    deltas_len: stored.deltas_len,
                })
                &&& (plan matches Ok(Some(_))) <==> stored.offset == 0 && stored.deltas_len
                    <= usize::MAX && stored.deltas_len % 1024 == 0 && row_range.end
                    <= stored.deltas_len && dtype is Primitive && !(dtype->Primitive_0 is F16)
                    && !(dtype->Primitive_0 is F32) && !(dtype->Primitive_0 is F64)
            },
        },
{
}

/// A plan reads the fewest whole chunks that hold the rows. Both children are read as arrays of the
/// type of the array: of the deltas those of the chunks, out of as many as the metadata says, and
/// of the bases as many for each chunk as values of the type fit in 1,024 bits.
pub proof fn law_delta_plan_is_tight(metadata: Seq<u8>, row_range: Range<usize>, dtype: DType)
    requires
        delta_plan(metadata, row_range, dtype) matches Ok(Some(_)),
    ensures
        ({
            let plan = delta_plan(metadata, row_range, dtype)->Ok_0->0;
            let lanes = lanes_of_bits(dtype->Primitive_0);
            &&& plan.decode_info matches RangeDecodeInfo::Rows(decoded)
            &&& decoded.start <= row_range.start < decoded.start + 1024
            &&& decoded.end - 1024 < row_range.end <= decoded.end
            &&& decoded.start % 1024 == 0
            &&& decoded.end % 1024 == 0
            &&& plan.buffer_sub_ranges.len() == 0
            &&& plan.validity is Absent
            &&& plan.children.len() == 2
            &&& plan.children[0] matches ChildRangeRead::RecurseExact {
                row_range: bases,
                row_count: bases_len,
                dtype: bases_type,
            }
            &&& plan.children[1] matches ChildRangeRead::RecurseExact {
                row_range: deltas,
                row_count: deltas_len,
                dtype: deltas_type,
            }
            &&& bases_type == dtype
            &&& deltas_type == dtype
            &&& decoded_metadata(metadata) matches Some(stored)
            &&& deltas_len == stored.deltas_len
            &&& deltas == decoded
            &&& bases_len * 1024 == deltas_len * lanes
            &&& bases.start * 1024 == deltas.start * lanes
            &&& bases.end * 1024 == deltas.end * lanes
        }),
{
    lemma_lanes(dtype);
    let stored = decoded_metadata(metadata)->0;
    let lanes = spec_lane_count(dtype->Primitive_0) as int;
    let first = row_range.start as int / 1024;
    let last = chunks_for(row_range.end as int);
    let all = stored.deltas_len as int / 1024;
    lemma_bases_fit(first, lanes);
    lemma_bases_fit(last, lanes);
    lemma_bases_fit(all, lanes);
    assert(first * lanes * 1024 == first * 1024 * lanes && last * lanes * 1024 == last * 1024
        * lanes && all * lanes * 1024 == all * 1024 * lanes) by (nonlinear_arith);
}

/// Parts make an array of full chunks exactly if the values lie in the deltas, bases and deltas are
/// integers of one type, the array has that type with the nullability of the deltas, and both
/// consist of whole chunks.
pub proof fn law_parts_make_an_array(
    bases: ArrayShape,
    deltas: ArrayShape,
    offset: usize,
    dtype: DType,
    len: usize,
)
    ensures
        parts_error(bases, deltas, offset, dtype, len) is None <==> {
            &&& offset + len <= deltas.len
            &&& bases.dtype is Primitive
            &&& deltas.dtype is Primitive
            &&& bases.dtype->Primitive_0 == deltas.dtype->Primitive_0
            &&& !(bases.dtype->Primitive_0 is F16) && !(bases.dtype->Primitive_0 is F32) && !(
            bases.dtype->Primitive_0 is F64)
            &&& dtype == deltas.dtype
            &&& deltas.len % 1024 == 0
            &&& bases.len as int % lanes_of_bits(bases.dtype->Primitive_0) == 0
        },
{
    if bases.dtype is Primitive {
        lemma_lanes(bases.dtype);
    }
    law_types_alike_differ_in_nullability_alone(bases.dtype, deltas.dtype);
}

/// The first thing that is wrong with parts is what is reported: the length, then the types of the
/// parts, then the type of the array, then the chunks.
pub proof fn law_wrong_parts_are_reported(
    bases: ArrayShape,
    deltas: ArrayShape,
    offset: usize,
    dtype: DType,
    len: usize,
)
    ensures
        ({
            let error = parts_error(bases, deltas, offset, dtype, len);
            let fits = offset + len <= deltas.len;
            let alike = bases.dtype.without_nullability() == deltas.dtype.without_nullability();
            let integers = bases.dtype is Primitive && !(bases.dtype->Primitive_0 is F16) && !(
            bases.dtype->Primitive_0 is F32) && !(bases.dtype->Primitive_0 is F64);
            let lanes = lanes_of_bits(bases.dtype->Primitive_0);
            &&& !fits <==> error == Some(
                VortexError::LengthExceedsDeltas { offset, len, deltas_len: deltas.len },
            )
            &&& fits && !alike <==> error == Some(VortexError::DTypesDiffer)
            &&& fits && alike && !integers <==> error == Some(VortexError::NotInteger)
            &&& fits && alike && integers && dtype != deltas.dtype <==> error == Some(
                VortexError::DTypeMismatch,
            )
            &&& fits && alike && integers && dtype == deltas.dtype && deltas.len % 1024 != 0
                <==> error == Some(VortexError::DeltasNotChunked { deltas_len: deltas.len })
            &&& fits && alike && integers && dtype == deltas.dtype && deltas.len % 1024 == 0
                && bases.len as int % lanes != 0 <==> error == Some(
                VortexError::BasesNotChunked { bases_len: bases.len, lanes: lanes as usize },
            )
        }),
{
    if bases.dtype is Primitive {
        lemma_lanes(bases.dtype);
    }
    law_types_alike_differ_in_nullability_alone(bases.dtype, deltas.dtype);
}

/// An array has to begin in its first chunk; beyond that, parts make an array if they make one of
/// the type of the deltas.
pub proof fn law_arrays_begin_in_their_first_chunk(
    bases: ArrayShape,
    deltas: ArrayShape,
    offset: usize,
    len: usize,
)
    ensures
        offset >= 1024 <==> delta_error(bases, deltas, offset, len) == Some(
            VortexError::OffsetTooLarge { offset },
        ),
        delta_error(bases, deltas, offset, len) is None <==> offset < 1024 && parts_error(
            bases,
            deltas,
            offset,
            deltas.dtype,
            len,
        ) is None,
        offset < 1024 && bases.dtype is Primitive && deltas.dtype is Primitive ==> delta_error(
            bases,
            deltas,
            offset,
            len,
        ) == parts_error(
            bases,
            deltas,
            offset,
            DType::Primitive(bases.dtype->Primitive_0, deltas.dtype->Primitive_1),
            len,
        ),
{
    law_types_alike_differ_in_nullability_alone(bases.dtype, deltas.dtype);
}

/// A serialized array is put together from two children of its own type. Of the deltas there are
/// as many as the metadata says, or, of a partly read array, the fewest whole chunks that reach its
/// end; of the bases, as many for each chunk as values of the type fit in 1,024 bits.
pub proof fn law_children_have_the_type_of_the_array(
    dtype: DType,
    len: usize,
    metadata: Seq<u8>,
    num_buffers: usize,
    num_children: usize,
    is_partial_decode: bool,
)
    requires
        spec_child_shapes(dtype, len, metadata, num_buffers, num_children, is_partial_decode) is Ok,
    ensures
        ({
            let (offset, bases, deltas) = spec_child_shapes(
                dtype,
                len,
                metadata,
                num_buffers,
                num_children,
                is_partial_decode,
            )->Ok_0;
            &&& bases.dtype == dtype
            &&& deltas.dtype == dtype
            &&& decoded_metadata(metadata) matches Some(stored)
            &&& offset == stored.offset
            &&& !is_partial_decode ==> deltas.len == stored.deltas_len
            &&& is_partial_decode ==> deltas.len % 1024 == 0 && deltas.len - 1024 < offset + len
            &&& offset + len <= deltas.len <= stored.deltas_len
            &&& bases.len == deltas.len as int / 1024 * lanes_of_bits(dtype->Primitive_0)
        }),
{
    lemma_lanes(dtype);
    let stored = decoded_metadata(metadata)->0;
    let required = required_deltas(stored.offset as int, len as int);
    let deltas_len = if is_partial_decode { required } else { stored.deltas_len as int };
    lemma_bases_fit(deltas_len / 1024, spec_lane_count(dtype->Primitive_0) as int);
}

/// A serialized array is refused for the first thing that is wrong with it: its buffers, its
/// children, its metadata, its type, the number of its deltas, its end, the chunks up to there, and
/// deltas that are missing.
pub proof fn law_wrong_serialized_arrays_are_refused(
    dtype: DType,
    len: usize,
    metadata: Seq<u8>,
    num_buffers: usize,
    num_children: usize,
    is_partial_decode: bool,
)
    ensures
        ({
            let shapes = spec_child_shapes(
                dtype,
                len,
                metadata,
                num_buffers,
                num_children,
                is_partial_decode,
            );
            &&& num_buffers > 0 ==> shapes == Err::<(usize, ArrayShape, ArrayShape), VortexError>(
                VortexError::UnexpectedBuffers { num_buffers },
            )
            &&& num_buffers == 0 && num_children != 2 ==> shapes == Err::<
                (usize, ArrayShape, ArrayShape),
                VortexError,
            >(VortexError::UnexpectedChildren { num_children })
            &&& num_buffers == 0 && num_children == 2 ==> match decoded_metadata(metadata) {
                None => shapes == Err::<(usize, ArrayShape, ArrayShape), VortexError>(
                    VortexError::InvalidMetadata,
                ),
                Some(stored) => {
                    let end = stored.offset + len;
                    // The end of the last chunk that holds a value.
                    let padded = end + (1024 - end % 1024) % 1024;
                    let error = if !(dtype is Primitive) {
                        Some(VortexError::NotPrimitive)
                    } else if dtype->Primitive_0 is F16 || dtype->Primitive_0 is F32
                        || dtype->Primitive_0 is F64 {
                        Some(VortexError::NotInteger)
                    } else if stored.deltas_len > usize::MAX {
                        Some(VortexError::DeltasLenOverflow { deltas_len: stored.deltas_len })
                    } else if end > usize::MAX {
                        Some(VortexError::LengthOverflow { offset: stored.offset as usize, len })
                    } else if padded > usize::MAX {
                        Some(VortexError::PaddedLengthOverflow)
                    } else if stored.deltas_len < padded {
                        Some(
                            VortexError::MissingDeltas {
                                required: padded as usize,
                                described: stored.deltas_len as usize,
                            },
                        )
                    } else {
                        None
                    };
                    &&& error is None <==> shapes is Ok
                    &&& error matches Some(e) ==> shapes == Err::<
                        (usize, ArrayShape, ArrayShape),
                        VortexError,
                    >(e)
                },
            }
        }),
{
    if let Some(stored) = decoded_metadata(metadata) {
        let end = stored.offset + len;
        let padded = end + (1024 - end % 1024) % 1024;
        assert(padded % 1024 == 0);
        assert(chunks_for(end) * 1024 == padded);
    }
}

/// What is put together from a serialized array is that array: it has the type and the length that
/// were asked for, the offset of the metadata, which lies in the first chunk, and the children that
/// were decoded. Its parts make an array of its type, if its chunks are full.
pub proof fn law_deserialized_parts_make_an_array(
    dtype: DType,
    len: usize,
    metadata: Seq<u8>,
    num_buffers: usize,
    num_children: usize,
    is_partial_decode: bool,
)
    ensures
        ({
            let shapes = spec_child_shapes(
                dtype,
                len,
                metadata,
                num_buffers,
                num_children,
                is_partial_decode,
            );
            let parts = spec_deserialize(
                dtype,
                len,
                metadata,
                num_buffers,
                num_children,
                is_partial_decode,
            );
            &&& shapes matches Err(e) ==> parts == Err::<DeltaParts, VortexError>(e)
            &&& shapes matches Ok((offset, bases, deltas)) ==> {
                &&& offset >= 1024 ==> parts == Err::<DeltaParts, VortexError>(
                    VortexError::OffsetTooLarge { offset },
                )
                &&& offset < 1024 ==> {
                    &&& parts matches Ok(p)
                    &&& p.dtype == dtype
                    &&& p.len == len
                    &&& p.data.offset == offset
                    &&& p.bases == bases
                    &&& p.deltas == deltas
                    &&& p.bases.dtype == dtype
                    &&& p.deltas.dtype == dtype
                    &&& p.deltas.len % 1024 == 0 ==> parts_error(
                        p.bases,
                        p.deltas,
                        p.data.offset,
                        dtype,
                        len,
                    ) is None
                }
            }
        }),
{
    if let Ok((offset, bases, deltas)) = spec_child_shapes(
        dtype,
        len,
        metadata,
        num_buffers,
        num_children,
        is_partial_decode,
    ) {
        law_children_have_the_type_of_the_array(
            dtype,
            len,
            metadata,
            num_buffers,
            num_children,
            is_partial_decode,
        );
        law_parts_make_an_array(bases, deltas, offset, dtype, len);
        let lanes = lanes_of_bits(dtype->Primitive_0);
        let chunks = deltas.len as int / 1024;
        lemma_mod_multiples_basic(chunks, lanes);
    }
}

/// The encoding answers with its plan, whatever else is asked of it.
pub proof fn law_delta_encoding_answers_with_its_plan(
    encoding: Delta,
    metadata: Seq<u8>,
    row_range: Range<usize>,
    row_count: usize,
    dtype: DType,
)
    ensures
        encoding.planned(metadata, row_range, row_count, dtype) == delta_plan(
            metadata,
            row_range,
            dtype,
        ),
{
}

/// What is stored about an array can be read back: its offset, and the number of its deltas. An
/// array whose bases fill its chunks is put together again from it as it was: with its type, its
/// length, its offset, and bases and deltas of their lengths and of its type.
pub proof fn law_serialized_arrays_can_be_put_together(array: DeltaArrayView)
    requires
        array.well_formed(),
    ensures
        decoded_metadata(serialized(array)) matches Some(stored) && stored.offset == array.offset
            && stored.deltas_len == array.deltas.len,
        array.deltas.len % 1024 == 0 && array.bases.len * 1024 == array.deltas.len * lanes_of_bits(
            array.bases.dtype->Primitive_0,
        ) ==> {
            &&& spec_deserialize(
                array.dtype,
                array.len,
                serialized(array),
                0,
                2,
                false,
            ) matches Ok(parts)
            &&& parts.dtype == array.dtype
            &&& parts.len == array.len
            &&& parts.data.offset == array.offset
            &&& parts.deltas.len == array.deltas.len
            &&& parts.deltas.dtype == array.dtype
            &&& parts.bases.len == array.bases.len
            &&& parts.bases.dtype == array.dtype
        },
{
    law_metadata_round_trip(
        DeltaMetadata { deltas_len: array.deltas.len as u64, offset: array.offset as u32 },
    );
    law_delta_array_has_its_parts(array.bases, array.deltas, array.offset, array.len);
    if array.deltas.len % 1024 == 0 {
        let lanes = lanes_of_bits(array.bases.dtype->Primitive_0);
        let end = array.offset + array.len;
        let chunks = array.deltas.len as int / 1024;
        lemma_lanes(array.dtype);
        assert(chunks_for(end) * 1024 <= array.deltas.len);
        lemma_bases_fit(chunks, lanes);
        assert(chunks * lanes * 1024 == chunks * 1024 * lanes) by (nonlinear_arith);
    }
}

} // verus!
