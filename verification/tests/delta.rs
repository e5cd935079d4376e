//! Delta arrays, their metadata, and how their parts are read.

use vortex_range_read::dtype::{DType, Nullability, PType};
use vortex_range_read::encoding::{ChildRangeRead, RangeDecodeInfo, VTable};
use vortex_range_read::error::VortexError;
use vortex_range_read::fastlanes::delta::{validate_parts, Delta, DeltaData};
use vortex_range_read::fastlanes::delta_array::{DeltaArray, DeltaVTable};
use vortex_range_read::fastlanes::lanes::{lane_count, ArrayShape};
use vortex_range_read::fastlanes::metadata::DeltaMetadata;

fn number(ptype: PType) -> DType {
    DType::Primitive(ptype, Nullability::NonNullable)
}

fn shape(ptype: PType, len: usize) -> ArrayShape {
    ArrayShape::new(number(ptype), len)
}

#[test]
fn test_delta_metadata() {
    let bytes = DeltaMetadata { offset: u32::MAX, deltas_len: u64::MAX }.encode_to_vec();
    let expected: Vec<u8> = vec![
        0x08, 0xFF, 0xFF, 0xFF, 0xFF, 0xFF, 0xFF, 0xFF, 0xFF, 0xFF, 0x01, 0x10, 0xFF, 0xFF, 0xFF,
        0xFF, 0x0F,
    ];
    assert_eq!(bytes, expected);
}

#[test]
fn full_serde_preserves_extra_backing_chunks() {
    const LOGICAL_LEN: usize = 100;
    const DELTAS_LEN: usize = 2048;

    let bases_len = 2 * lane_count(PType::I32);
    let array =
        Delta::try_new(shape(PType::I32, bases_len), shape(PType::I32, DELTAS_LEN), 0, LOGICAL_LEN)
            .expect("the parts make an array");
    let metadata = Delta::serialize(&array);
    let decoded = Delta
        .deserialize(array.dtype(), array.len(), &metadata, 0, 2, false)
        .expect("the metadata is valid");
    assert_eq!(decoded.bases.len, bases_len);
    assert_eq!(decoded.deltas.len, DELTAS_LEN);
    assert_eq!(decoded.len, LOGICAL_LEN);
}

#[test]
fn metadata_round_trip() {
    for (deltas_len, offset) in
        [(0, 0), (0, 5), (1024, 0), (127, 128), (128, 127), (u64::MAX, u32::MAX), (1 << 63, 1)]
    {
        let metadata = DeltaMetadata { deltas_len, offset };
        assert_eq!(DeltaMetadata::decode(&metadata.encode_to_vec()), Ok(metadata));
    }
    assert!(DeltaMetadata { deltas_len: 0, offset: 0 }.encode_to_vec().is_empty());
    assert_eq!(DeltaMetadata { deltas_len: 300, offset: 0 }.encode_to_vec(), [0x08, 0xAC, 0x02]);
}

#[test]
fn metadata_passes_over_unknown_fields() {
    // Field 3 in every wire type: a number, eight bytes, two bytes with their length, four bytes,
    // and a group that holds a number.
    let bytes = [
        0x18, 0x96, 0x01, //
        0x19, 1, 2, 3, 4, 5, 6, 7, 8, //
        0x1A, 0x02, 0xAA, 0xBB, //
        0x1D, 1, 2, 3, 4, //
        0x1B, 0x20, 0x07, 0x1C, //
        0x08, 0x05, 0x10, 0x06,
    ];
    assert_eq!(
        DeltaMetadata::decode(&bytes),
        Ok(DeltaMetadata { deltas_len: 5, offset: 6 })
    );
    // The last of two fields counts, and an offset keeps its low 32 bits.
    assert_eq!(
        DeltaMetadata::decode(&[0x08, 0x05, 0x08, 0x07, 0x10, 0x81, 0x80, 0x80, 0x80, 0x10]),
        Ok(DeltaMetadata { deltas_len: 7, offset: 1 })
    );
}

#[test]
fn malformed_metadata_is_refused() {
    for bytes in [
        vec![0x08],                   // the number is missing
        vec![0x08, 0x80],             // the number does not end
        vec![0x09, 1, 2, 3, 4, 5, 6, 7, 8], // not a number
        vec![0x0E, 0x01],             // no such wire type
        vec![0x00, 0x01],             // no such tag
        vec![0x1A, 0x05, 0x01],       // fewer bytes than announced
        vec![0x1C],                   // the end of a group that did not begin
        vec![0x1B, 0x24],             // a group that ends with another tag
        vec![0x08, 0xFF, 0xFF, 0xFF, 0xFF, 0xFF, 0xFF, 0xFF, 0xFF, 0xFF, 0x02], // too large
    ] {
        assert_eq!(DeltaMetadata::decode(&bytes), Err(VortexError::InvalidMetadata));
    }
}

#[test]
fn groups_are_passed_over_up_to_a_depth() {
    let nested = |depth: usize, inner: &[u8]| {
        let mut bytes = vec![0x1B; depth];
        bytes.extend_from_slice(inner);
        bytes.extend(vec![0x1C; depth]);
        bytes.extend([0x08, 0x05]);
        DeltaMetadata::decode(&bytes)
    };
    let message = Ok(DeltaMetadata { deltas_len: 5, offset: 0 });
    assert_eq!(nested(100, &[]), message);
    assert_eq!(nested(101, &[]), Err(VortexError::InvalidMetadata));
    assert_eq!(nested(99, &[0x20, 0x07]), message);
    assert_eq!(nested(100, &[0x20, 0x07]), Err(VortexError::InvalidMetadata));
    // Groups with other tags, one after another, with the fields 1 and 2 among what they hold.
    assert_eq!(nested(1, &[0x23, 0x08, 0x09, 0x24, 0x2B, 0x10, 0x09, 0x2C]), message);
    // A group that does not end, and one that ends inside another.
    assert_eq!(DeltaMetadata::decode(&[0x1B, 0x08, 0x05]), Err(VortexError::InvalidMetadata));
    assert_eq!(nested(1, &[0x23, 0x1C, 0x24]), Err(VortexError::InvalidMetadata));
}

#[test]
fn lanes_fill_a_register() {
    for (ptype, lanes) in [
        (PType::U8, 128),
        (PType::I8, 128),
        (PType::U16, 64),
        (PType::I16, 64),
        (PType::U32, 32),
        (PType::I32, 32),
        (PType::U64, 16),
        (PType::I64, 16),
    ] {
        assert_eq!(lane_count(ptype), lanes);
        assert_eq!(lanes * ptype.byte_width() * 8, 1024);
    }
}

#[test]
fn arrays_of_full_chunks_are_validated() {
    let new = |bases, deltas, offset, len| Delta::try_new(bases, deltas, offset, len).map(|_| ());
    assert_eq!(new(shape(PType::U32, 64), shape(PType::U32, 2048), 10, 2038), Ok(()));
    assert_eq!(
        new(shape(PType::U32, 64), shape(PType::U32, 2048), 1024, 0),
        Err(VortexError::OffsetTooLarge { offset: 1024 })
    );
    assert_eq!(
        new(shape(PType::U32, 64), shape(PType::U32, 2048), 10, 2039),
        Err(VortexError::LengthExceedsDeltas { offset: 10, len: 2039, deltas_len: 2048 })
    );
    assert_eq!(
        new(shape(PType::U32, 64), shape(PType::U64, 2048), 0, 1),
        Err(VortexError::DTypesDiffer)
    );
    assert_eq!(
        new(shape(PType::F32, 64), shape(PType::F32, 2048), 0, 1),
        Err(VortexError::NotInteger)
    );
    assert_eq!(
        new(shape(PType::U32, 64), shape(PType::U32, 2047), 0, 1),
        Err(VortexError::DeltasNotChunked { deltas_len: 2047 })
    );
    assert_eq!(
        new(shape(PType::U32, 63), shape(PType::U32, 2048), 0, 1),
        Err(VortexError::BasesNotChunked { bases_len: 63, lanes: 32 })
    );
    assert_eq!(
        validate_parts(
            &shape(PType::U32, 64),
            &shape(PType::U32, 2048),
            0,
            &number(PType::I32),
            1
        ),
        Err(VortexError::DTypeMismatch)
    );
    assert_eq!(
        Delta.validate(
            &DeltaData { offset: 3 },
            &number(PType::U32),
            2045,
            &shape(PType::U32, 64),
            &shape(PType::U32, 2048)
        ),
        Ok(())
    );
}

#[test]
fn the_type_of_an_array_is_nullable_if_its_deltas_are() {
    let nullable = DType::Primitive(PType::U16, Nullability::Nullable);
    let array = Delta::try_from_primitive_array(
        (shape(PType::U16, 64), ArrayShape::new(nullable.clone(), 1024)),
        1000,
    )
    .expect("the parts make an array");
    assert!(*array.dtype() == nullable);
    assert_eq!((array.offset(), array.len(), array.lanes()), (0, 1000, 64));
    assert_eq!((array.bases_len(), array.deltas_len()), (64, 1024));
    let (validity, start, stop) = array.unsliced_child_and_slice();
    assert!(validity.dtype == nullable && (start, stop) == (0, 1000));
}

#[test]
fn arrays_with_a_short_last_chunk_are_validated() {
    let array =
        DeltaArray::try_from_delta_compress_parts(shape(PType::U64, 17), shape(PType::U64, 1030))
            .expect("the parts make an array");
    assert_eq!((array.len(), array.lanes()), (1030, 16));
    assert_eq!(array.bases().len, 17);
    assert_eq!(array.deltas().len, 1030);
    let same = DeltaArray::try_from_primitive_array((
        shape(PType::U64, 17),
        shape(PType::U64, 1030),
    ))
    .expect("the parts make an array");
    assert_eq!(Delta::nbuffers(&same), 0);
    assert!(array.array_eq(&same, true, true));
    assert!(!array.array_eq(&same, true, false));

    let error = |bases, deltas, offset, len| {
        DeltaArray::try_new(bases, deltas, offset, len).map(|_| ()).expect_err("no array")
    };
    assert_eq!(
        error(shape(PType::U64, 16), shape(PType::U64, 1030), 0, 1),
        VortexError::RaggedChunks { deltas_len: 1030, bases_len: 16, lanes: 16 }
    );
    assert_eq!(
        error(shape(PType::U64, 16), shape(PType::U64, 1024), 2000, 1),
        VortexError::OffsetTooLarge { offset: 2000 }
    );
    assert_eq!(
        error(shape(PType::U64, 16), shape(PType::U64, 1024), 1023, 2),
        VortexError::LengthExceedsDeltas { offset: 1023, len: 2, deltas_len: 1024 }
    );
    assert_eq!(
        error(shape(PType::U32, 32), shape(PType::U32, 1024), 1, usize::MAX),
        VortexError::LengthExceedsDeltas { offset: 1, len: usize::MAX, deltas_len: 1024 }
    );
    assert_eq!(
        error(shape(PType::U32, 0), shape(PType::U32, 0), 1, 0),
        VortexError::LengthExceedsDeltas { offset: 1, len: 0, deltas_len: 0 }
    );
    assert_eq!(
        error(shape(PType::U64, 16), shape(PType::I64, 1024), 0, 1),
        VortexError::DTypesDiffer
    );
    let bools = |len| ArrayShape::new(DType::Bool(Nullability::NonNullable), len);
    assert_eq!(error(bools(16), bools(1024), 0, 1), VortexError::NotPrimitive);
    assert_eq!(
        error(shape(PType::F64, 16), shape(PType::F64, 1024), 0, 1),
        VortexError::NotInteger
    );
}

#[test]
fn serialized_arrays_are_checked() {
    let metadata = |deltas_len, offset| DeltaMetadata { deltas_len, offset }.encode_to_vec();
    let error = |dtype: &DType, len, metadata: &[u8], buffers, children| {
        Delta
            .deserialize(dtype, len, metadata, buffers, children, false)
            .map(|_| ())
            .expect_err("no array")
    };
    let u32_type = number(PType::U32);
    assert_eq!(
        error(&u32_type, 10, &metadata(1024, 0), 1, 2),
        VortexError::UnexpectedBuffers { num_buffers: 1 }
    );
    assert_eq!(
        error(&u32_type, 10, &metadata(1024, 0), 0, 3),
        VortexError::UnexpectedChildren { num_children: 3 }
    );
    assert_eq!(error(&u32_type, 10, &[0x08], 0, 2), VortexError::InvalidMetadata);
    let bools = DType::Bool(Nullability::NonNullable);
    assert_eq!(error(&bools, 10, &metadata(1024, 0), 0, 2), VortexError::NotPrimitive);
    let floats = number(PType::F64);
    assert_eq!(error(&floats, 10, &metadata(1024, 0), 0, 2), VortexError::NotInteger);
    assert_eq!(
        error(&floats, 10, &metadata(1024, 0), 1, 2),
        VortexError::UnexpectedBuffers { num_buffers: 1 }
    );
    assert_eq!(error(&floats, 10, &[0x08], 0, 2), VortexError::InvalidMetadata);
    assert_eq!(
        error(&u32_type, usize::MAX, &metadata(1024, 1), 0, 2),
        VortexError::LengthOverflow { offset: 1, len: usize::MAX }
    );
    assert_eq!(
        error(&u32_type, usize::MAX, &metadata(1024, 0), 0, 2),
        VortexError::PaddedLengthOverflow
    );
    assert_eq!(
        error(&u32_type, 1025, &metadata(1024, 0), 0, 2),
        VortexError::MissingDeltas { required: 2048, described: 1024 }
    );
    assert_eq!(
        error(&u32_type, 10, &metadata(4096, 1024), 0, 2),
        VortexError::OffsetTooLarge { offset: 1024 }
    );
}

#[test]
fn a_partial_decode_takes_what_was_planned() {
    let metadata = DeltaMetadata { deltas_len: 5 * 1024, offset: 0 }.encode_to_vec();
    let dtype = number(PType::U32);
    let plan = VTable::plan_range_read(&Delta, &metadata, 1500..2500, 5000, &dtype)
        .expect("the metadata is valid")
        .expect("there is a plan");
    assert_eq!(plan.decode_info, RangeDecodeInfo::Rows(1024..3072));
    assert_eq!(
        plan.children,
        vec![
            ChildRangeRead::RecurseExact {
                row_range: 32..96,
                row_count: 160,
                dtype: dtype.clone()
            },
            ChildRangeRead::RecurseExact {
                row_range: 1024..3072,
                row_count: 5120,
                dtype: dtype.clone()
            },
        ]
    );
    let parts =
        Delta.deserialize(&dtype, 2048, &metadata, 0, 2, true).expect("the metadata is valid");
    assert_eq!((parts.bases.len, parts.deltas.len), (64, 2048));
}

#[test]
fn delta_plans_are_refused_where_chunks_do_not_fit() {
    let plan = |deltas_len, offset, rows: std::ops::Range<usize>, dtype: &DType| {
        let metadata = DeltaMetadata { deltas_len, offset }.encode_to_vec();
        VTable::plan_range_read(&Delta, &metadata, rows, 5000, dtype).map(|plan| plan.is_some())
    };
    let u32_type = number(PType::U32);
    assert_eq!(plan(5120, 0, 0..10, &u32_type), Ok(true));
    assert_eq!(plan(5120, 1, 0..10, &u32_type), Ok(false));
    assert_eq!(plan(5121, 0, 0..10, &u32_type), Ok(false));
    assert_eq!(plan(5120, 0, 0..5121, &u32_type), Ok(false));
    assert_eq!(plan(5120, 0, 0..10, &number(PType::F32)), Ok(false));
    assert_eq!(plan(5120, 0, 0..10, &DType::Bool(Nullability::NonNullable)), Ok(false));
    assert_eq!(
        VTable::plan_range_read(&Delta, &[0x09], 0..10, 20, &u32_type).map(|_| ()),
        Err(VortexError::InvalidMetadata)
    );
    assert_eq!(Delta.id(), "fastlanes.delta");
}

#[test]
fn plans_for_a_short_last_chunk() {
    let metadata = DeltaMetadata { deltas_len: 2500, offset: 0 };
    let dtype = number(PType::U64);
    let plan = DeltaVTable::plan_range_read(&metadata, 2100..2200, 2500, &dtype)
        .expect("there is a plan");
    assert_eq!(plan.decode_info, RangeDecodeInfo::Rows(2048..2500));
    assert_eq!(
        plan.children,
        vec![
            ChildRangeRead::Recurse { row_range: 32..33, row_count: 33, dtype: dtype.clone() },
            ChildRangeRead::Recurse {
                row_range: 2048..2500,
                row_count: 2500,
                dtype: dtype.clone()
            },
        ]
    );
    let plan =
        DeltaVTable::plan_range_read(&metadata, 100..200, 2500, &dtype).expect("there is a plan");
    assert_eq!(plan.decode_info, RangeDecodeInfo::Rows(0..1024));
    let sliced = DeltaMetadata { deltas_len: 2500, offset: 1 };
    assert!(DeltaVTable::plan_range_read(&sliced, 100..200, 2500, &dtype).is_none());
    assert!(DeltaVTable::plan_range_read(&metadata, 4000..4100, 2500, &dtype).is_none());
}

#[test]
fn chunks_are_read_with_their_bases() {
    let metadata = DeltaMetadata { deltas_len: 2500, offset: 0 };
    let dtype = number(PType::U64);
    for (rows, decoded, bases) in [
        (0..1, 0..1024, 0..16),
        (1023..1025, 0..2048, 0..32),
        (1024..2048, 1024..2048, 16..32),
        (2047..2049, 1024..2500, 16..33),
        (2499..2500, 2048..2500, 32..33),
    ] {
        let plan = DeltaVTable::plan_range_read(&metadata, rows, 2500, &dtype)
            .expect("there is a plan");
        assert_eq!(plan.decode_info, RangeDecodeInfo::Rows(decoded.clone()));
        let asked: Vec<_> = plan
            .children
            .iter()
            .map(|child| match child {
                ChildRangeRead::Recurse { row_range, row_count, .. } => {
                    (row_range.clone(), *row_count)
                }
                _ => panic!("the child is planned"),
            })
            .collect();
        assert_eq!(asked, [(bases, 33), (decoded, 2500)]);
    }
}

#[test]
fn copies_are_the_same() {
    let array = Delta::try_new(shape(PType::I16, 128), shape(PType::I16, 2048), 3, 1000)
        .expect("the parts make an array");
    let copy = array.clone();
    assert!(array.array_eq(&copy, true, true));
    assert_eq!((copy.offset(), copy.len()), (3, 1000));
    assert_eq!((copy.bases().len, copy.deltas().len), (128, 2048));

    let metadata = DeltaMetadata { deltas_len: 2048, offset: 0 };
    let plan = DeltaVTable::plan_range_read(&metadata, 5..9, 2048, &number(PType::I16))
        .expect("there is a plan");
    let copy = plan.clone();
    assert_eq!(copy.children, plan.children);
    assert_eq!(copy.decode_info, plan.decode_info);
    assert_eq!(copy.buffer_sub_ranges, plan.buffer_sub_ranges);
    assert_eq!(copy.validity, plan.validity);
}
