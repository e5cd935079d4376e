//! The plans of single encodings.

use vortex_range_read::arrays::bool::{BoolEncoding, BoolMetadata, BoolVTable};
use vortex_range_read::arrays::constant::{ConstantEncoding, ConstantVTable};
use vortex_range_read::arrays::fixed_size_list::{FixedSizeListEncoding, FixedSizeListVTable};
use vortex_range_read::arrays::primitive::{PrimitiveEncoding, PrimitiveVTable};
use vortex_range_read::dtype::{DType, Nullability, PType};
use vortex_range_read::encoding::{
    BufferSubRange, ChildRangeRead, EmptyMetadata, RangeDecodeInfo, VTable, ValidityRangeRead,
};
use vortex_range_read::fastlanes::bitpacking::{
    BitPackedEncoding, BitPackedMetadata, BitPackedVTable,
};
use vortex_range_read::fastlanes::delta_array::{DeltaEncoding, DeltaVTable};

fn primitive(ptype: PType) -> DType {
    DType::Primitive(ptype, Nullability::NonNullable)
}

#[test]
fn encodings_have_identifiers() {
    assert_eq!(PrimitiveVTable::id(&PrimitiveEncoding), "vortex.primitive");
    assert_eq!(BoolVTable::id(&BoolEncoding), "vortex.bool");
    assert_eq!(ConstantVTable::id(&ConstantEncoding), "vortex.constant");
    assert_eq!(FixedSizeListVTable::id(&FixedSizeListEncoding), "vortex.fixed_size_list");
    assert_eq!(BitPackedVTable::id(&BitPackedEncoding), "fastlanes.bitpacked");
    assert_eq!(DeltaVTable::id(&DeltaEncoding), "fastlanes.delta");
}

#[test]
fn primitive_rows_are_as_wide_as_their_type() {
    for (ptype, width) in [(PType::U8, 1), (PType::F16, 2), (PType::I32, 4), (PType::F64, 8)] {
        let plan = PrimitiveVTable::plan_range_read(&EmptyMetadata, 3..7, 10, &primitive(ptype))
            .expect("there is a plan");
        assert_eq!(plan.buffer_sub_ranges, vec![BufferSubRange::Range(3 * width..7 * width)]);
        assert_eq!(plan.decode_info, RangeDecodeInfo::Rows(3..7));
        assert_eq!(plan.validity, ValidityRangeRead::Optional);
        assert!(plan.children.is_empty());
    }
    let text = DType::Utf8(Nullability::NonNullable);
    assert!(PrimitiveVTable::plan_range_read(&EmptyMetadata, 3..7, 10, &text).is_none());
    let far = usize::MAX / 4 + 1;
    let wide = primitive(PType::I32);
    assert!(PrimitiveVTable::plan_range_read(&EmptyMetadata, 0..far, far, &wide).is_none());
    assert!(PrimitiveVTable::plan_range_read(&EmptyMetadata, 0..far - 1, far, &wide).is_some());
}

#[test]
fn constants_need_their_whole_buffer() {
    let plan =
        ConstantVTable::plan_range_read(&EmptyMetadata, 3..7, 10, &primitive(PType::U8))
            .expect("there is a plan");
    assert_eq!(plan.buffer_sub_ranges, vec![BufferSubRange::Full]);
    assert_eq!(plan.decode_info, RangeDecodeInfo::Rows(3..7));
    assert_eq!(plan.validity, ValidityRangeRead::Absent);
    let same = ConstantEncoding
        .plan_range_read(&[], 3..7, 10, &primitive(PType::U8))
        .expect("valid")
        .expect("there is a plan");
    assert_eq!(same.buffer_sub_ranges, plan.buffer_sub_ranges);
}

#[test]
fn lists_read_the_elements_of_their_rows() {
    let element = primitive(PType::U16);
    let list = |size| {
        DType::FixedSizeList(Box::new(primitive(PType::U16)), size, Nullability::Nullable)
    };
    let plan = FixedSizeListVTable::plan_range_read(&EmptyMetadata, 3..7, 10, &list(5))
        .expect("there is a plan");
    assert_eq!(
        plan.children,
        vec![ChildRangeRead::Recurse { row_range: 15..35, row_count: 50, dtype: element }]
    );
    assert_eq!(plan.decode_info, RangeDecodeInfo::FromChild { child_idx: 0, divisor: 5 });
    assert_eq!(plan.validity, ValidityRangeRead::Optional);
    let no_list = primitive(PType::U16);
    assert!(FixedSizeListVTable::plan_range_read(&EmptyMetadata, 3..7, 10, &no_list).is_none());
    assert!(
        FixedSizeListVTable::plan_range_read(&EmptyMetadata, 3..7, usize::MAX, &list(2)).is_none()
    );
}

#[test]
fn bools_are_read_in_bytes() {
    let plan = |offset, rows: std::ops::Range<usize>| {
        let dtype = DType::Bool(Nullability::NonNullable);
        let plan = BoolVTable::plan_range_read(&BoolMetadata { offset }, rows, 100, &dtype)?;
        Some((plan.buffer_sub_ranges, plan.decode_info))
    };
    let bytes = |bytes, rows| {
        Some((vec![BufferSubRange::Range(bytes)], RangeDecodeInfo::Rows(rows)))
    };
    assert_eq!(plan(0, 5..13), bytes(0..2, 0..13));
    assert_eq!(plan(0, 8..16), bytes(1..2, 8..16));
    assert_eq!(plan(0, 9..17), bytes(1..3, 8..17));
    assert_eq!(plan(3, 101..109), bytes(12..14, 96..109));
    assert_eq!(plan(7, 8..16), bytes(1..3, 8..16));
    assert_eq!(plan(1, 0..usize::MAX), None);
    assert!(plan(0, 0..usize::MAX).is_some());
}

#[test]
fn packed_bits_are_read_in_blocks() {
    let plan = |bit_width, offset, has_patches, rows: std::ops::Range<usize>| {
        let metadata = BitPackedMetadata { bit_width, offset, has_patches };
        let plan =
            BitPackedVTable::plan_range_read(&metadata, rows, 9000, &primitive(PType::U32))?;
        Some((plan.buffer_sub_ranges, plan.decode_info))
    };
    let bytes = |bytes, rows| {
        Some((vec![BufferSubRange::Range(bytes)], RangeDecodeInfo::Rows(rows)))
    };
    assert_eq!(plan(10, 0, false, 1030..1040), bytes(1280..2560, 1024..1040));
    assert_eq!(plan(10, 0, false, 1023..1025), bytes(0..2560, 0..1025));
    assert_eq!(plan(4, 100, false, 1100..1110), bytes(512..1024, 1024..1110));
    // Row 2000 lies in the third block when the first one begins a hundred rows earlier.
    assert_eq!(plan(4, 100, false, 1100..2001), bytes(512..1536, 1024..2001));
    assert_eq!(plan(0, 0, false, 100..108), bytes(0..0, 0..108));
    assert_eq!(plan(10, 0, true, 1030..1040), None);
    assert_eq!(plan(10, 1, false, 0..usize::MAX), None);
    assert_eq!(plan(10, 0, false, 5000..1000), None);
}
