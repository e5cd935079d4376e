//! Range reads from planning to assembly, with encodings that an application adds.

use std::mem::size_of;
use std::ops::Range;

use flatbuffers::{FlatBufferBuilder, WIPOffset};
use vortex_buffer::ByteBuffer;
use vortex_flatbuffers::array as fba;
use vortex_range_read::alignment::Alignment;
use vortex_range_read::analyze::{ReadContext, Session};
use vortex_range_read::arrays::bool::{BoolMetadata, BoolVTable};
use vortex_range_read::arrays::fixed_size_list::FixedSizeListEncoding;
use vortex_range_read::arrays::primitive::PrimitiveEncoding;
use vortex_range_read::assemble::assemble_buffers;
use vortex_range_read::dtype::{DType, Nullability, PType};
use vortex_range_read::encoding::{
    ArrayRegistry, BufferSubRange, ChildRangeRead, EncodingRangeRead, RangeDecodeInfo, VTable,
    ValidityRangeRead,
};
use vortex_range_read::error::VortexResult;
use vortex_range_read::fastlanes::bitpacking::{BitPackedMetadata, BitPackedVTable};
use vortex_range_read::fastlanes::delta::Delta;
use vortex_range_read::fastlanes::metadata::DeltaMetadata;
use vortex_range_read::plan::{try_plan_located_range_read, RangeReadPlan};
use vortex_range_read::segments::{BufferSegmentSource, SegmentId, SegmentSpec};

const NON_NULLABLE: Nullability = Nullability::NonNullable;
const NULLABLE: Nullability = Nullability::Nullable;

/// The encodings of the tests. Bools keep their offset in four metadata bytes; bit-packed arrays
/// their width, their offset and whether there are patches in one byte, four bytes and one byte.
enum TestEncoding {
    Primitive(PrimitiveEncoding),
    FixedSizeList(FixedSizeListEncoding),
    Delta(Delta),
    Bool,
    BitPacked,
    ByteBool,
    /// Values of as many bytes as the metadata byte says.
    Decimal,
    /// Wrappers round one child of the type in the field.
    Wrapper(DType),
    /// Codes of type `u8` or `u32`, and values that are read as a whole.
    Dict(DType),
    /// Two row-aligned children.
    AlpRd,
    /// Three row-aligned children.
    DateTimeParts,
    /// Nothing is stored for the rows.
    Rows,
}

fn range_of(row_range: &Range<usize>, width: usize) -> BufferSubRange {
    BufferSubRange::Range(row_range.start * width..row_range.end * width)
}

impl VTable for TestEncoding {
    fn plan_range_read(
        &self,
        metadata: &[u8],
        row_range: Range<usize>,
        row_count: usize,
        dtype: &DType,
    ) -> VortexResult<Option<EncodingRangeRead>> {
        match self {
            TestEncoding::Primitive(e) => e.plan_range_read(metadata, row_range, row_count, dtype),
            TestEncoding::FixedSizeList(e) => {
                e.plan_range_read(metadata, row_range, row_count, dtype)
            }
            TestEncoding::Delta(e) => e.plan_range_read(metadata, row_range, row_count, dtype),
            TestEncoding::Bool => {
                let offset = u32::from_le_bytes([metadata[0], metadata[1], metadata[2], metadata[3]]);
                Ok(BoolVTable::plan_range_read(
                    &BoolMetadata { offset },
                    row_range,
                    row_count,
                    dtype,
                ))
            }
            TestEncoding::BitPacked => {
                let metadata = BitPackedMetadata {
                    bit_width: u32::from(metadata[0]),
                    offset: u32::from_le_bytes([
                        metadata[1],
                        metadata[2],
                        metadata[3],
                        metadata[4],
                    ]),
                    has_patches: metadata[5] != 0,
                };
                Ok(BitPackedVTable::plan_range_read(&metadata, row_range, row_count, dtype))
            }
            TestEncoding::ByteBool => Ok(Some(EncodingRangeRead {
                buffer_sub_ranges: vec![range_of(&row_range, 1)],
                children: vec![],
                decode_info: RangeDecodeInfo::Rows(row_range),
                validity: ValidityRangeRead::Optional,
            })),
            TestEncoding::Decimal => Ok(Some(EncodingRangeRead {
                buffer_sub_ranges: vec![range_of(&row_range, usize::from(metadata[0]))],
                children: vec![],
                decode_info: RangeDecodeInfo::Rows(row_range),
                validity: ValidityRangeRead::Optional,
            })),
            TestEncoding::Wrapper(child) => Ok(Some(EncodingRangeRead {
                buffer_sub_ranges: vec![],
                children: vec![ChildRangeRead::Recurse {
                    row_range,
                    row_count,
                    dtype: child.clone(),
                }],
                decode_info: RangeDecodeInfo::FromChild { child_idx: 0, divisor: 1 },
                validity: ValidityRangeRead::Absent,
            })),
            TestEncoding::Dict(codes) => Ok(Some(EncodingRangeRead {
                buffer_sub_ranges: vec![],
                children: vec![
                    ChildRangeRead::Recurse { row_range, row_count, dtype: codes.clone() },
                    ChildRangeRead::Full,
                ],
                decode_info: RangeDecodeInfo::FromChild { child_idx: 0, divisor: 1 },
                validity: ValidityRangeRead::Absent,
            })),
            TestEncoding::AlpRd => Ok(Some(EncodingRangeRead {
                buffer_sub_ranges: vec![],
                children: vec![
                    ChildRangeRead::Recurse {
                        row_range,
                        row_count,
                        dtype: DType::Primitive(PType::U16, NON_NULLABLE),
                    },
                    ChildRangeRead::RecurseWithDecodedRange {
                        child_idx: 0,
                        row_count,
                        dtype: DType::Primitive(PType::U64, NON_NULLABLE),
                    },
                ],
                decode_info: RangeDecodeInfo::FromChild { child_idx: 0, divisor: 1 },
                validity: ValidityRangeRead::Absent,
            })),
            TestEncoding::DateTimeParts => Ok(Some(EncodingRangeRead {
                buffer_sub_ranges: vec![],
                children: vec![
                    ChildRangeRead::Recurse {
                        row_range,
                        row_count,
                        dtype: DType::Primitive(PType::I64, NON_NULLABLE),
                    },
                    ChildRangeRead::RecurseWithDecodedRange {
                        child_idx: 0,
                        row_count,
                        dtype: DType::Primitive(PType::I64, NON_NULLABLE),
                    },
                    ChildRangeRead::RecurseWithDecodedRange {
                        child_idx: 0,
                        row_count,
                        dtype: DType::Primitive(PType::I64, NON_NULLABLE),
                    },
                ],
                decode_info: RangeDecodeInfo::FromChild { child_idx: 0, divisor: 1 },
                validity: ValidityRangeRead::Absent,
            })),
            TestEncoding::Rows => Ok(Some(EncodingRangeRead {
                buffer_sub_ranges: vec![],
                children: vec![],
                decode_info: RangeDecodeInfo::Rows(row_range),
                validity: ValidityRangeRead::Absent,
            })),
        }
    }
}

fn test_session() -> Session<TestEncoding> {
    let mut arrays = ArrayRegistry::new();
    let i32_type = DType::Primitive(PType::I32, NULLABLE);
    arrays.register("vortex.primitive".to_string(), TestEncoding::Primitive(PrimitiveEncoding));
    arrays.register(
        "vortex.fixed_size_list".to_string(),
        TestEncoding::FixedSizeList(FixedSizeListEncoding),
    );
    arrays.register("fastlanes.delta".to_string(), TestEncoding::Delta(Delta));
    arrays.register("vortex.bool".to_string(), TestEncoding::Bool);
    arrays.register("fastlanes.bitpacked".to_string(), TestEncoding::BitPacked);
    arrays.register("vortex.bytebool".to_string(), TestEncoding::ByteBool);
    arrays.register("vortex.decimal".to_string(), TestEncoding::Decimal);
    arrays.register("fastlanes.for".to_string(), TestEncoding::Wrapper(i32_type.clone()));
    arrays.register(
        "vortex.zigzag".to_string(),
        TestEncoding::Wrapper(DType::Primitive(PType::U32, NULLABLE)),
    );
    arrays.register("vortex.alp".to_string(), TestEncoding::Wrapper(i32_type.clone()));
    arrays.register("vortex.decimal_byte_parts".to_string(), TestEncoding::Wrapper(i32_type));
    arrays.register(
        "vortex.dict".to_string(),
        TestEncoding::Dict(DType::Primitive(PType::U8, NON_NULLABLE)),
    );
    arrays.register(
        "vortex.dict_u32".to_string(),
        TestEncoding::Dict(DType::Primitive(PType::U32, NULLABLE)),
    );
    arrays.register("vortex.alprd".to_string(), TestEncoding::AlpRd);
    arrays.register("vortex.datetimeparts".to_string(), TestEncoding::DateTimeParts);
    arrays.register("vortex.null".to_string(), TestEncoding::Rows);
    arrays.register("vortex.sequence".to_string(), TestEncoding::Rows);
    Session::new(arrays)
}

fn test_session_with_separate_validity_reads() -> Session<TestEncoding> {
    test_session().with_separate_validity_reads(true)
}

/// A node of an array tree with the bytes of its buffers.
struct Node {
    encoding: &'static str,
    metadata: Vec<u8>,
    buffers: Vec<(Vec<u8>, u8)>,
    children: Vec<Node>,
}

fn node(
    encoding: &'static str,
    metadata: Vec<u8>,
    buffers: Vec<(Vec<u8>, u8)>,
    children: Vec<Node>,
) -> Node {
    Node { encoding, metadata, buffers, children }
}

#[derive(Default)]
struct Writer {
    ids: Vec<String>,
    buffers: Vec<fba::Buffer>,
    segment: Vec<u8>,
}

impl Writer {
    fn add_buffer(&mut self, bytes: &[u8], alignment_exponent: u8) -> u16 {
        let alignment = 1usize << alignment_exponent;
        let padding = (alignment - self.segment.len() % alignment) % alignment;
        self.segment.extend(vec![0xEEu8; padding]);
        self.segment.extend_from_slice(bytes);
        self.buffers.push(fba::Buffer::new(
            padding as u16,
            alignment_exponent,
            fba::Compression::None,
            bytes.len() as u32,
        ));
        (self.buffers.len() - 1) as u16
    }

    fn encoding(&mut self, id: &str) -> u16 {
        if let Some(position) = self.ids.iter().position(|known| known == id) {
            return position as u16;
        }
        self.ids.push(id.to_string());
        (self.ids.len() - 1) as u16
    }

    fn write<'a>(
        &mut self,
        builder: &mut FlatBufferBuilder<'a>,
        node: &Node,
    ) -> WIPOffset<fba::ArrayNode<'a>> {
        let encoding = self.encoding(node.encoding);
        let buffers: Vec<u16> = node
            .buffers
            .iter()
            .map(|(bytes, alignment)| self.add_buffer(bytes, *alignment))
            .collect();
        let children: Vec<_> =
            node.children.iter().map(|child| self.write(builder, child)).collect();
        let metadata = builder.create_vector(&node.metadata);
        let buffers = builder.create_vector(&buffers);
        let children = builder.create_vector(&children);
        fba::ArrayNode::create(
            builder,
            &fba::ArrayNodeArgs {
                encoding,
                metadata: Some(metadata),
                children: Some(children),
                buffers: Some(buffers),
                stats: None,
            },
        )
    }
}

struct WrittenArray {
    array_tree: Vec<u8>,
    segment: Vec<u8>,
    ctx: ReadContext,
}

fn write_array(root: &Node) -> WrittenArray {
    let mut writer = Writer::default();
    let mut builder = FlatBufferBuilder::new();
    let root = writer.write(&mut builder, root);
    let buffers = builder.create_vector(&writer.buffers);
    let array = fba::Array::create(
        &mut builder,
        &fba::ArrayArgs { root: Some(root), buffers: Some(buffers) },
    );
    builder.finish_minimal(array);
    WrittenArray {
        array_tree: builder.finished_data().to_vec(),
        segment: writer.segment,
        ctx: ReadContext { ids: writer.ids },
    }
}

/// What a read of a range of rows did.
struct Read {
    ranges: Vec<Range<usize>>,
    full_requests: usize,
    full_size: usize,
    plan: Option<RangeReadPlan>,
    buffers: Vec<ByteBuffer>,
}

fn read_range(
    root: &Node,
    row_count: usize,
    dtype: &DType,
    row_range: Range<usize>,
    session: &Session<TestEncoding>,
) -> Read {
    let written = write_array(root);
    let full_size = written.segment.len() + written.array_tree.len();
    let plan = try_plan_located_range_read(
        &written.array_tree,
        row_range,
        row_count,
        dtype,
        &written.ctx,
        session,
    )
    .expect("the buffers can be located")
    .expect("the array tree is valid");
    let Some(plan) = plan else {
        return Read { ranges: vec![], full_requests: 1, full_size, plan: None, buffers: vec![] };
    };
    let source = BufferSegmentSource::new(
        ByteBuffer::copy_from(&written.segment),
        vec![SegmentSpec {
            offset: 0,
            length: written.segment.len() as u32,
            alignment: Alignment::none(),
        }],
    );
    let ranges = plan.requests();
    let replies: Vec<ByteBuffer> = ranges
        .iter()
        .map(|range| {
            source.request_range(SegmentId::from(0), range.clone()).expect("the range is there")
        })
        .collect();
    assert!(plan.can_be_assembled());
    let buffers = assemble_buffers(&plan, &replies).expect("the replies fit the plan");
    Read { ranges, full_requests: 0, full_size, plan: Some(plan), buffers }
}

fn assert_range_read(
    root: &Node,
    row_count: usize,
    dtype: &DType,
    row_range: Range<usize>,
    session: &Session<TestEncoding>,
) -> Read {
    let read = read_range(root, row_count, dtype, row_range, session);
    assert_eq!(read.full_requests, 0, "unexpected full-segment read");
    let requested_bytes: usize = read.ranges.iter().map(Range::len).sum();
    assert!(requested_bytes < read.full_size);
    read
}

/// The rows to keep of those that decoding yields.
fn kept(plan: &RangeReadPlan) -> Range<usize> {
    match &plan.post_slice {
        Some(range) => range.clone(),
        None => 0..plan.decode_len,
    }
}

fn i32_bytes(values: impl Iterator<Item = i32>) -> Vec<u8> {
    values.flat_map(i32::to_le_bytes).collect()
}

fn i32_values(bytes: &[u8]) -> Vec<i32> {
    bytes.chunks(4).map(|b| i32::from_le_bytes([b[0], b[1], b[2], b[3]])).collect()
}

fn bit_bytes(bits: impl Iterator<Item = bool>) -> Vec<u8> {
    let mut bytes: Vec<u8> = vec![];
    for (i, bit) in bits.enumerate() {
        if i % 8 == 0 {
            bytes.push(0);
        }
        if bit {
            bytes[i / 8] |= 1 << (i % 8);
        }
    }
    bytes
}

fn bit_at(bytes: &[u8], i: usize) -> bool {
    bytes[i / 8] >> (i % 8) & 1 == 1
}

fn bool_node(offset: u32, bits: Vec<u8>) -> Node {
    node("vortex.bool", offset.to_le_bytes().to_vec(), vec![(bits, 0)], vec![])
}

fn primitive_node(bytes: Vec<u8>, alignment_exponent: u8, validity: Option<Vec<u8>>) -> Node {
    let children = validity.into_iter().map(|bits| bool_node(0, bits)).collect();
    node("vortex.primitive", vec![], vec![(bytes, alignment_exponent)], children)
}

fn bitpacked_node(
    bit_width: u8,
    offset: u32,
    has_patches: bool,
    packed: Vec<u8>,
    validity: Option<Vec<u8>>,
) -> Node {
    let mut metadata = vec![bit_width];
    metadata.extend_from_slice(&offset.to_le_bytes());
    metadata.push(u8::from(has_patches));
    let children = validity.into_iter().map(|bits| bool_node(0, bits)).collect();
    node("fastlanes.bitpacked", metadata, vec![(packed, 2)], children)
}

/// The values of a primitive array that was read, `None` for nulls.
fn decoded_i32(read: &Read) -> Vec<Option<i32>> {
    let plan = read.plan.as_ref().expect("a range was read");
    let values = i32_values(read.buffers[0].as_slice());
    assert_eq!(values.len(), plan.decode_len);
    kept(plan)
        .map(|i| {
            let valid = read.buffers.len() < 2 || bit_at(read.buffers[1].as_slice(), i);
            valid.then_some(values[i])
        })
        .collect()
}

fn i32_type(nullability: Nullability) -> DType {
    DType::Primitive(PType::I32, nullability)
}

#[test]
fn non_nullable_primitive_uses_one_contiguous_request() {
    let array = primitive_node(i32_bytes(0..4096), 2, None);
    let read = assert_range_read(&array, 4096, &i32_type(NON_NULLABLE), 100..101, &test_session());
    assert_eq!(read.ranges.len(), 1);
    assert_eq!(read.ranges[0].len(), size_of::<i32>());
    assert_eq!(decoded_i32(&read), vec![Some(100)]);
}

#[test]
fn range_read_does_not_restore_full_array_statistics() {
    let row_range = 104usize..112;
    let selected_values = 104i32..112;
    let valid = |value: i32| value % 2 == 0 || selected_values.contains(&value);
    let array =
        primitive_node(i32_bytes(0i32..4096), 2, Some(bit_bytes((0i32..4096).map(valid))));
    let session = test_session_with_separate_validity_reads();

    let read = read_range(&array, 4096, &i32_type(NULLABLE), row_range, &session);
    assert_eq!(read.full_requests, 0);

    let actual = decoded_i32(&read);
    assert_eq!(actual.iter().flatten().min(), Some(&104));
    assert_eq!(actual.iter().flatten().max(), Some(&111));
    assert_eq!(actual.iter().flatten().map(|value| i64::from(*value)).sum::<i64>(), 860);
    assert_eq!(actual.iter().filter(|value| value.is_none()).count(), 0);
}

#[test]
fn range_read_does_not_restore_child_statistics() {
    let row_range = 104usize..112;
    let encoded = primitive_node(i32_bytes(0..4096), 2, None);
    let array = node("fastlanes.for", vec![], vec![], vec![encoded]);

    let read = read_range(&array, 4096, &i32_type(NON_NULLABLE), row_range, &test_session());
    assert_eq!(read.full_requests, 0);

    let encoded = decoded_i32(&read);
    assert_eq!(encoded.iter().flatten().min(), Some(&104));
    assert_eq!(encoded.iter().flatten().max(), Some(&111));
    assert_eq!(encoded.iter().flatten().map(|value| i64::from(*value)).sum::<i64>(), 860);
    // The frame of reference is 1000.
    assert_eq!(encoded[0].map(|value| value + 1000), Some(1104));
}

#[test]
fn range_read_dict_min_max_ignores_unreferenced_values() {
    let codes = primitive_node((0..4096).map(|idx| u8::from(idx >= 2048)).collect(), 0, None);
    let values = primitive_node(i32_bytes([10i32, 1000i32].into_iter()), 2, None);
    let array = node("vortex.dict", vec![], vec![], vec![codes, values]);

    let read = read_range(&array, 4096, &i32_type(NON_NULLABLE), 4000..4008, &test_session());
    assert_eq!(read.full_requests, 0);

    let values = i32_values(read.buffers[1].as_slice());
    let actual: Vec<i32> =
        read.buffers[0].as_slice().iter().map(|code| values[usize::from(*code)]).collect();
    assert_eq!(actual.iter().min(), Some(&1000));
    assert_eq!(actual.iter().max(), Some(&1000));
}

#[test]
fn range_read_preserves_alignment_for_empty_dict_values() {
    let bits = bit_bytes((0..4096).map(|_| false));
    let codes = primitive_node(vec![0u8; 4096 * size_of::<u32>()], 2, Some(bits));
    let values = primitive_node(vec![], 2, None);
    let array = node("vortex.dict_u32", vec![], vec![], vec![codes, values]);

    let read = assert_range_read(
        &array,
        4096,
        &i32_type(NULLABLE),
        100..108,
        &test_session_with_separate_validity_reads(),
    );
    assert_eq!(read.buffers.len(), 3);
    assert!(read.buffers[2].is_empty());
    assert_eq!(read.buffers[2].alignment(), vortex_buffer::Alignment::of::<i32>());
    assert_eq!(read.buffers[0].alignment(), vortex_buffer::Alignment::of::<u32>());
}

#[test]
fn non_nullable_decimal_uses_serialized_value_width() {
    let values: Vec<u8> = (0..4096).flat_map(|idx| i128::from(idx % 100).to_le_bytes()).collect();
    let array = node("vortex.decimal", vec![16], vec![(values, 4)], vec![]);
    let dtype = DType::Decimal(2, 0, NON_NULLABLE);

    let read = assert_range_read(&array, 4096, &dtype, 100..101, &test_session());
    assert_eq!(read.ranges, vec![100 * size_of::<i128>()..101 * size_of::<i128>()]);
    assert_eq!(read.buffers[0].as_slice(), 0i128.to_le_bytes());
}

#[test]
fn nullable_decimal_reads_values_and_validity_ranges() {
    let row_count = 4096;
    let values: Vec<u8> = (0i64..4096).flat_map(i64::to_le_bytes).collect();
    let validity = bool_node(0, bit_bytes((0..row_count).map(|idx| idx % 3 != 0)));
    let array = node("vortex.decimal", vec![8], vec![(values, 3)], vec![validity]);
    let dtype = DType::Decimal(12, 2, NULLABLE);

    let session = test_session_with_separate_validity_reads();
    let read = assert_range_read(&array, row_count, &dtype, 5..13, &session);
    let values_end = 13 * size_of::<i64>();
    let validity_offset = row_count * size_of::<i64>();
    assert_eq!(read.ranges, vec![0..values_end, validity_offset..validity_offset + 2]);
}

fn every_third_null() -> Node {
    primitive_node(i32_bytes(0..4096), 2, Some(bit_bytes((0..4096).map(|value| value % 3 != 0))))
}

#[test]
fn nullable_primitive_reads_values_and_validity_ranges() {
    let array = every_third_null();
    let session = test_session_with_separate_validity_reads();
    let read = assert_range_read(&array, 4096, &i32_type(NULLABLE), 5..13, &session);
    let values_end = 13 * size_of::<i32>();
    let validity_offset = 4096 * size_of::<i32>();
    assert_eq!(read.ranges, vec![0..values_end, validity_offset..validity_offset + 2]);
    let expected: Vec<Option<i32>> = (5..13).map(|v| (v % 3 != 0).then_some(v)).collect();
    assert_eq!(decoded_i32(&read), expected);
}

#[test]
fn separate_validity_reads_are_disabled_by_default() {
    let array = every_third_null();
    let read = read_range(&array, 4096, &i32_type(NULLABLE), 5..13, &test_session());
    assert_eq!(read.full_requests, 1);
    assert!(read.ranges.is_empty());
}

#[test]
fn all_valid_nullable_primitive_still_uses_range_io_by_default() {
    let array = primitive_node(i32_bytes(0..4096), 2, None);
    let dtype = i32_type(NULLABLE);
    assert_eq!(dtype.nullability(), Nullability::Nullable);

    let read = assert_range_read(&array, 4096, &dtype, 100..101, &test_session());
    assert_eq!(read.ranges.len(), 1);
    assert_eq!(decoded_i32(&read), vec![Some(100)]);
}

#[test]
fn bool_supports_unaligned_rows_and_nonzero_metadata_offset() {
    // The rows 3..8990 of 9000: the buffer keeps its bits, and the offset skips three of them.
    let bits = bit_bytes((0..8990).map(|idx| idx % 3 == 0));
    let array = bool_node(3, bits);
    let row_count = 8990 - 3;

    let dtype = DType::Bool(NON_NULLABLE);
    let read = assert_range_read(&array, row_count, &dtype, 101..109, &test_session());
    assert_eq!(read.ranges.len(), 1);

    let plan = read.plan.as_ref().expect("a range was read");
    let actual: Vec<bool> =
        kept(plan).map(|i| bit_at(read.buffers[0].as_slice(), 3 + i)).collect();
    let expected: Vec<bool> = (101..109).map(|row| (row + 3) % 3 == 0).collect();
    assert_eq!(actual, expected);
}

#[test]
fn nullable_fixed_size_list_uses_range_io() {
    let row_count = 4096;
    let list_size = 4u32;
    let element_count = row_count * list_size as usize;
    let elements: Vec<u8> =
        (0u32..16).cycle().take(element_count).flat_map(u32::to_le_bytes).collect();
    let validity = || bool_node(0, bit_bytes((0..row_count).map(|idx| idx % 5 != 0)));
    let dtype = DType::FixedSizeList(
        Box::new(DType::Primitive(PType::U32, NON_NULLABLE)),
        list_size,
        NULLABLE,
    );
    let array = node(
        "vortex.fixed_size_list",
        vec![],
        vec![],
        vec![primitive_node(elements, 2, None), validity()],
    );

    let session = test_session_with_separate_validity_reads();
    let read = assert_range_read(&array, row_count, &dtype, 5..11, &session);
    assert_eq!(read.ranges.len(), 2);

    // Sixteen values of four bits each in eight bytes.
    let packed: Vec<u8> = (0..element_count / 2).map(|i| (i % 251) as u8).collect();
    let packed_list = node(
        "vortex.fixed_size_list",
        vec![],
        vec![],
        vec![bitpacked_node(4, 0, false, packed.clone(), None), validity()],
    );
    let read = assert_range_read(&packed_list, row_count, &dtype, 260..265, &session);
    // The elements 1040..1060 lie in the second block, which begins with row 256.
    assert_eq!(read.buffers[0].as_slice(), &packed[512..1024]);
    let plan = read.plan.as_ref().expect("a range was read");
    assert_eq!(kept(plan), 4..9);
}

/// A list of three numbers, `None` for nulls: decoded from the numbers, the bits of their validity
/// and the bits of the validity of the lists.
fn list_of_three(buffers: &[&[u8]], row: usize) -> Option<Vec<Option<i32>>> {
    let values = i32_values(buffers[0]);
    let element = |i: usize| bit_at(buffers[1], i).then_some(values[i]);
    bit_at(buffers[2], row).then(|| (3 * row..3 * row + 3).map(element).collect())
}

#[test]
fn lists_of_nullable_numbers_are_given_back() {
    let row_count = 4096;
    let whole = [
        i32_bytes(0..3 * row_count as i32),
        bit_bytes((0..3 * row_count).map(|idx| idx % 5 != 0)),
        bit_bytes((0..row_count).map(|idx| idx % 7 != 0)),
    ];
    let array = node(
        "vortex.fixed_size_list",
        vec![],
        vec![],
        vec![
            primitive_node(whole[0].clone(), 2, Some(whole[1].clone())),
            bool_node(0, whole[2].clone()),
        ],
    );
    let dtype = DType::FixedSizeList(Box::new(i32_type(NULLABLE)), 3, NULLABLE);
    let session = test_session_with_separate_validity_reads();
    let all: Vec<&[u8]> = whole.iter().map(Vec::as_slice).collect();
    for rows in [0..5, 8..9, 13..14, 16..40, 1001..1010, 4090..4096] {
        let read = read_range(&array, row_count, &dtype, rows.clone(), &session);
        let Some(plan) = &read.plan else {
            // Without a multiple of eight elements at the start of a list the elements that are
            // decoded are no lists.
            assert_ne!(rows.start % 8, 0);
            continue;
        };
        let parts: Vec<&[u8]> = read.buffers.iter().map(ByteBuffer::as_slice).collect();
        let actual: Vec<_> = kept(plan).map(|row| list_of_three(&parts, row)).collect();
        let expected: Vec<_> = rows.map(|row| list_of_three(&all, row)).collect();
        assert_eq!(actual, expected);
    }
}

#[test]
fn nullable_bitpacked_supports_nonzero_offset() {
    // The rows 100..8500 of 9000, in four bits each.
    let packed: Vec<u8> = (0..9 * 512).map(|i| (i % 253) as u8).collect();
    let validity = bit_bytes((100..8500).map(|value| value % 7 != 0));
    let array = bitpacked_node(4, 100, false, packed.clone(), Some(validity));

    let session = test_session_with_separate_validity_reads();
    let dtype = DType::Primitive(PType::U32, NULLABLE);
    let read = assert_range_read(&array, 8400, &dtype, 1100..1110, &session);
    assert_eq!(read.ranges.len(), 2);
    assert_eq!(read.buffers[0].as_slice(), &packed[512..1024]);
    let plan = read.plan.as_ref().expect("a range was read");
    assert_eq!(kept(plan), 76..86);
}

#[test]
fn zero_width_bitpacked_range_read_preserves_buffer_alignment() {
    let array = bitpacked_node(0, 0, false, vec![], None);
    let dtype = DType::Primitive(PType::U32, NON_NULLABLE);

    let read = read_range(&array, 4096, &dtype, 100..108, &test_session());
    assert!(read.buffers[0].is_aligned(vortex_buffer::Alignment::of::<u32>()));
    assert_eq!(read.buffers[0].alignment(), vortex_buffer::Alignment::of::<u32>());
    assert!(read.buffers[0].is_empty());
    assert_eq!(read.full_requests, 0);
    assert!(read.ranges.is_empty());
}

#[test]
fn nullable_wrappers_and_dict_use_pr_compatible_io() {
    let row_count = 4096;
    let validity = || bit_bytes((0..row_count).map(|idx| idx % 5 != 0));
    let shifted = primitive_node(i32_bytes(0..4096i32), 2, Some(validity()));
    let for_array = node("fastlanes.for", vec![], vec![], vec![shifted]);
    let session = test_session_with_separate_validity_reads();
    let read = assert_range_read(&for_array, row_count, &i32_type(NULLABLE), 13..21, &session);
    assert_eq!(read.ranges.len(), 2);
    let expected: Vec<Option<i32>> =
        (13..21).map(|v| (v % 5 != 0).then_some(v + 1000)).collect();
    let actual: Vec<Option<i32>> =
        decoded_i32(&read).into_iter().map(|value| value.map(|v| v + 1000)).collect();
    assert_eq!(actual, expected);

    let doubled: Vec<u8> = (0u32..4096).flat_map(|idx| (idx * 2).to_le_bytes()).collect();
    let zigzag =
        node("vortex.zigzag", vec![], vec![], vec![primitive_node(doubled, 2, Some(validity()))]);
    let read = assert_range_read(&zigzag, row_count, &i32_type(NULLABLE), 13..21, &session);
    assert_eq!(read.ranges.len(), 2);

    let codes = primitive_node((0u8..4).cycle().take(row_count).collect(), 0, None);
    let values = primitive_node(i32_bytes([10i32, 20, 30, 40].into_iter()), 2, None);
    let dict = node("vortex.dict", vec![], vec![], vec![codes, values]);
    let read =
        assert_range_read(&dict, row_count, &i32_type(NON_NULLABLE), 4000..4008, &test_session());
    let values_end = row_count * size_of::<u8>() + 4 * size_of::<i32>();
    assert_eq!(read.ranges, vec![4000..values_end]);
}

#[test]
fn bytebool_alp_decimal_and_null_range_reads() {
    let row_count = 4096;

    let bytebool = node(
        "vortex.bytebool",
        vec![],
        vec![((0..row_count).map(|idx| u8::from(idx % 3 == 0)).collect(), 0)],
        vec![bool_node(0, bit_bytes((0..row_count).map(|idx| idx % 5 != 0)))],
    );
    let session = test_session_with_separate_validity_reads();
    assert_range_read(&bytebool, row_count, &DType::Bool(NULLABLE), 13..21, &session);

    let packed: Vec<u8> = (0..row_count * 10 / 8).map(|i| (i % 241) as u8).collect();
    let alp =
        node("vortex.alp", vec![], vec![], vec![bitpacked_node(10, 0, false, packed, None)]);
    let float = DType::Primitive(PType::F32, NON_NULLABLE);
    let read = assert_range_read(&alp, row_count, &float, 1030..1040, &test_session());
    let chunk_bytes = 1024 * 10 / 8;
    assert_eq!(read.ranges, vec![chunk_bytes..2 * chunk_bytes]);

    let decimal_values = primitive_node(
        i32_bytes(0i32..4096),
        2,
        Some(bit_bytes((0i32..4096).map(|idx| idx % 6 != 0))),
    );
    let decimal = node("vortex.decimal_byte_parts", vec![], vec![], vec![decimal_values]);
    let decimal_dtype = DType::Decimal(12, 2, NULLABLE);
    assert_range_read(&decimal, row_count, &decimal_dtype, 13..21, &session);

    let nulls = node("vortex.null", vec![], vec![], vec![]);
    let read = read_range(&nulls, row_count, &DType::Null, 100..105, &test_session());
    assert_eq!(read.full_requests, 0);
    assert!(read.ranges.is_empty());
    assert_eq!(read.plan.as_ref().map(|plan| plan.decode_len), Some(5));
}

#[test]
fn alprd_wide_contiguous_span_falls_back_to_full_segment() {
    // The left parts take one bit, the right parts 49 bits of each value. The span from the second
    // block of the left parts to the second block of the right parts is more than half of the data.
    let left = bitpacked_node(1, 0, false, vec![1u8; 4 * 128], None);
    let right = bitpacked_node(49, 0, false, vec![2u8; 4 * 128 * 49], None);
    let array = node("vortex.alprd", vec![], vec![], vec![left, right]);
    let dtype = DType::Primitive(PType::F64, NON_NULLABLE);

    let read = read_range(&array, 4096, &dtype, 1030..1040, &test_session());
    assert_eq!(read.full_requests, 1);
    assert!(read.ranges.is_empty());

    // From the first block of the left parts to that of the right parts the span is short enough.
    let read = read_range(&array, 4096, &dtype, 10..20, &test_session());
    assert_eq!(read.full_requests, 0);
    assert_eq!(read.ranges, vec![0..512 + 128 * 49]);
}

#[test]
fn datetime_parts_wide_contiguous_span_falls_back_to_full_segment() {
    let days = bitpacked_node(12, 0, false, vec![3u8; 4 * 128 * 12], None);
    let seconds: Vec<u8> = (0i64..4096).flat_map(|idx| (idx * 86_400).to_le_bytes()).collect();
    let subseconds: Vec<u8> = (0i64..4096).flat_map(|idx| (idx % 1000).to_le_bytes()).collect();
    let array = node(
        "vortex.datetimeparts",
        vec![],
        vec![],
        vec![days, primitive_node(seconds, 3, None), primitive_node(subseconds, 3, None)],
    );
    let dtype = DType::Opaque(7, NON_NULLABLE);

    let read = read_range(&array, 4096, &dtype, 1030..1040, &test_session());
    assert_eq!(read.full_requests, 1);
    assert!(read.ranges.is_empty());
}

#[test]
fn delta_with_nullable_bitpacked_deltas_reads_last_padded_chunk() {
    let row_count = 5000;
    let chunks = 5;
    let lanes = 32;
    let validity = bit_bytes((0..chunks * 1024).map(|v| v >= row_count || v % 7 != 0));
    let bases = primitive_node(vec![0u8; chunks * lanes * size_of::<u32>()], 2, None);
    let deltas = bitpacked_node(1, 0, false, vec![0u8; chunks * 128], Some(validity));
    let metadata = DeltaMetadata { deltas_len: (chunks * 1024) as u64, offset: 0 };
    let array = node("fastlanes.delta", metadata.encode_to_vec(), vec![], vec![bases, deltas]);

    let session = test_session_with_separate_validity_reads();
    let dtype = DType::Primitive(PType::U32, NULLABLE);
    let read = read_range(&array, row_count, &dtype, 4901..4911, &session);
    assert_eq!(read.full_requests, 0);
    assert!(!read.ranges.is_empty());
    let plan = read.plan.as_ref().expect("a range was read");
    assert_eq!(plan.decode_len, 1024);
    assert_eq!(kept(plan), 805..815);
    for (kept_row, row) in kept(plan).zip(4901..4911) {
        assert_eq!(bit_at(read.buffers[2].as_slice(), kept_row), row % 7 != 0);
    }
}

#[test]
fn sequence_preserves_absolute_row_values_without_segment_io() {
    let array = node("vortex.sequence", vec![10, 2], vec![], vec![]);
    let dtype = DType::Primitive(PType::I64, NON_NULLABLE);
    let read = read_range(&array, 4096, &dtype, 123..129, &test_session());

    assert_eq!(read.full_requests, 0);
    assert!(read.ranges.is_empty());
    let plan = read.plan.expect("a range was read");
    assert_eq!(plan.decode_len, 6);
    assert_eq!(plan.post_slice, None);
}

#[test]
fn unsupported_and_disabled_paths_fall_back_to_full_segment() {
    let patched = bitpacked_node(1, 0, true, vec![0u8; 4 * 128], None);
    let dtype = DType::Primitive(PType::U32, NON_NULLABLE);
    let read = read_range(&patched, 4096, &dtype, 2000..2001, &test_session());
    assert_eq!(read.full_requests, 1);
    assert!(read.ranges.is_empty());

    let primitive = primitive_node(i32_bytes(0..4096), 2, None);
    let no_encodings: Session<TestEncoding> = Session::new(ArrayRegistry::new());
    let read = read_range(&primitive, 4096, &i32_type(NON_NULLABLE), 100..101, &no_encodings);
    assert_eq!(read.full_requests, 1);
    assert!(read.ranges.is_empty());

    // All rows, and none.
    let read = read_range(&primitive, 4096, &i32_type(NON_NULLABLE), 0..4096, &test_session());
    assert_eq!(read.full_requests, 1);
    let read = read_range(&primitive, 4096, &i32_type(NON_NULLABLE), 100..100, &test_session());
    assert_eq!(read.full_requests, 1);
}
