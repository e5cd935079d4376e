//! Planning and assembly, case by case.

use std::cell::Cell;
use std::ops::Range;

use flatbuffers::FlatBufferBuilder;
use vortex_buffer::ByteBuffer;
use vortex_flatbuffers::array as fba;
use vortex_range_read::alignment::Alignment;
use vortex_range_read::analyze::{
    analyze_encoding, ReadContext, Session, SubtreePlan, MAX_REPLAN_ATTEMPTS,
};
use vortex_range_read::assemble::assemble_buffers;
use vortex_range_read::dtype::{DType, Nullability, PType};
use vortex_range_read::encoding::{
    ArrayRegistry, BufferSubRange, ChildRangeRead, EncodingRangeRead, RangeDecodeInfo, VTable,
    ValidityRangeRead,
};
use vortex_range_read::error::{VortexError, VortexResult};
use vortex_range_read::flatbuffer::parse_array_tree;
use vortex_range_read::needed::{NeededBuffer, NeededBuffers};
use vortex_range_read::plan::{
    build_plan, plan_tree, try_plan_located_range_read, try_plan_range_read, BufferSlice, DataRead,
    RangeReadPlan, SegmentRead, ValidityRead,
};
use vortex_range_read::ranges::{contains_range, union_ranges};
use vortex_range_read::tree::{
    buffers_can_be_located, compute_buffer_locations, ArrayTree, BufferLocation, BufferSpec,
    TreeNode,
};

/// Answers with the plan that the function makes of the rows.
struct Scripted {
    answer: fn(Range<usize>) -> VortexResult<Option<EncodingRangeRead>>,
    asked: Cell<usize>,
}

impl VTable for Scripted {
    fn plan_range_read(
        &self,
        _metadata: &[u8],
        row_range: Range<usize>,
        _row_count: usize,
        _dtype: &DType,
    ) -> VortexResult<Option<EncodingRangeRead>> {
        self.asked.set(self.asked.get() + 1);
        (self.answer)(row_range)
    }
}

fn scripted(answer: fn(Range<usize>) -> VortexResult<Option<EncodingRangeRead>>) -> Scripted {
    Scripted { answer, asked: Cell::new(0) }
}

fn read_of(
    buffer_sub_ranges: Vec<BufferSubRange>,
    children: Vec<ChildRangeRead>,
    decode_info: RangeDecodeInfo,
    validity: ValidityRangeRead,
) -> VortexResult<Option<EncodingRangeRead>> {
    Ok(Some(EncodingRangeRead { buffer_sub_ranges, children, decode_info, validity }))
}

fn bool_type() -> DType {
    DType::Bool(Nullability::NonNullable)
}

fn recurse(row_range: Range<usize>) -> ChildRangeRead {
    ChildRangeRead::Recurse { row_range, row_count: 100, dtype: bool_type() }
}

/// One byte to a row.
fn bytes_answer(rows: Range<usize>) -> VortexResult<Option<EncodingRangeRead>> {
    read_of(
        vec![BufferSubRange::Range(rows.clone())],
        vec![],
        RangeDecodeInfo::Rows(rows),
        ValidityRangeRead::Optional,
    )
}

/// One byte to a row, in blocks of ten.
fn tens_answer(rows: Range<usize>) -> VortexResult<Option<EncodingRangeRead>> {
    let rows = rows.start / 10 * 10..rows.end.div_ceil(10) * 10;
    bytes_answer(rows)
}

/// One byte to a row, and the row before.
fn greedy_answer(rows: Range<usize>) -> VortexResult<Option<EncodingRangeRead>> {
    bytes_answer(rows.start - 1..rows.end)
}

fn none_answer(_: Range<usize>) -> VortexResult<Option<EncodingRangeRead>> {
    Ok(None)
}

fn error_answer(_: Range<usize>) -> VortexResult<Option<EncodingRangeRead>> {
    Err(VortexError::InvalidMetadata)
}

fn exact_answer(rows: Range<usize>) -> VortexResult<Option<EncodingRangeRead>> {
    read_of(
        vec![],
        vec![ChildRangeRead::RecurseExact { row_range: rows, row_count: 100, dtype: bool_type() }],
        RangeDecodeInfo::FromChild { child_idx: 0, divisor: 1 },
        ValidityRangeRead::Absent,
    )
}

fn pair_answer(rows: Range<usize>) -> VortexResult<Option<EncodingRangeRead>> {
    read_of(
        vec![],
        vec![
            recurse(rows),
            ChildRangeRead::RecurseWithDecodedRange {
                child_idx: 0,
                row_count: 100,
                dtype: bool_type(),
            },
        ],
        RangeDecodeInfo::FromChild { child_idx: 0, divisor: 1 },
        ValidityRangeRead::Absent,
    )
}

fn forward_answer(rows: Range<usize>) -> VortexResult<Option<EncodingRangeRead>> {
    read_of(
        vec![],
        vec![
            ChildRangeRead::RecurseWithDecodedRange {
                child_idx: 1,
                row_count: 100,
                dtype: bool_type(),
            },
            recurse(rows),
        ],
        RangeDecodeInfo::FromChild { child_idx: 1, divisor: 1 },
        ValidityRangeRead::Absent,
    )
}

fn whole_child_answer(rows: Range<usize>) -> VortexResult<Option<EncodingRangeRead>> {
    read_of(
        vec![],
        vec![ChildRangeRead::Full],
        RangeDecodeInfo::Rows(rows),
        ValidityRangeRead::Absent,
    )
}

fn triple_answer(rows: Range<usize>) -> VortexResult<Option<EncodingRangeRead>> {
    read_of(
        vec![],
        vec![recurse(rows.start * 3..rows.end * 3)],
        RangeDecodeInfo::FromChild { child_idx: 0, divisor: 3 },
        ValidityRangeRead::Absent,
    )
}

fn undivided_answer(rows: Range<usize>) -> VortexResult<Option<EncodingRangeRead>> {
    read_of(
        vec![],
        vec![recurse(rows)],
        RangeDecodeInfo::FromChild { child_idx: 0, divisor: 0 },
        ValidityRangeRead::Absent,
    )
}

fn full_answer(rows: Range<usize>) -> VortexResult<Option<EncodingRangeRead>> {
    read_of(
        vec![BufferSubRange::Full],
        vec![],
        RangeDecodeInfo::Rows(rows),
        ValidityRangeRead::Absent,
    )
}

/// The encodings by the numbers that nodes use.
fn session() -> (Session<Scripted>, ReadContext) {
    let answers: Vec<(&str, fn(Range<usize>) -> VortexResult<Option<EncodingRangeRead>>)> = vec![
        ("bytes", bytes_answer),
        ("tens", tens_answer),
        ("greedy", greedy_answer),
        ("none", none_answer),
        ("error", error_answer),
        ("exact", exact_answer),
        ("pair", pair_answer),
        ("forward", forward_answer),
        ("whole_child", whole_child_answer),
        ("triple", triple_answer),
        ("undivided", undivided_answer),
        ("full", full_answer),
    ];
    let mut arrays = ArrayRegistry::new();
    let mut ids = vec![];
    for (id, answer) in answers {
        arrays.register(id.to_string(), scripted(answer));
        ids.push(id.to_string());
    }
    ids.push("unknown".to_string());
    (Session::new(arrays), ReadContext { ids })
}

const BYTES: u16 = 0;
const TENS: u16 = 1;
const GREEDY: u16 = 2;
const NONE: u16 = 3;
const ERROR: u16 = 4;
const EXACT: u16 = 5;
const PAIR: u16 = 6;
const FORWARD: u16 = 7;
const WHOLE_CHILD: u16 = 8;
const TRIPLE: u16 = 9;
const UNDIVIDED: u16 = 10;
const FULL: u16 = 11;
const UNKNOWN: u16 = 12;

fn node(encoding: u16, buffers: Vec<u16>, children: Vec<TreeNode>) -> TreeNode {
    TreeNode { encoding, metadata: vec![], buffers, children }
}

fn analyze(root: &TreeNode, rows: Range<usize>, num_buffers: usize) -> VortexResult<Option<SubtreePlan>> {
    let (session, ctx) = session();
    analyze_encoding(root, rows, 100, &bool_type(), &ctx, &session, num_buffers)
}

fn needs(needed: &NeededBuffers) -> Vec<Option<NeededBuffer>> {
    needed.entries.clone()
}

fn bytes(range: Range<usize>) -> Option<NeededBuffer> {
    Some(NeededBuffer::Range(range))
}

#[test]
fn a_leaf_needs_what_its_encoding_names() {
    let plan = analyze(&node(BYTES, vec![1], vec![]), 3..7, 3).expect("valid").expect("planned");
    assert_eq!(plan.decoded_range, 3..7);
    assert_eq!(needs(&plan.data_needed), vec![None, bytes(3..7), None]);
    assert_eq!(needs(&plan.validity_needed), vec![None, None, None]);
}

#[test]
fn validity_follows_its_node() {
    // The validity decodes tens of rows, so the node is planned again from a multiple of ten on.
    let root = node(BYTES, vec![0], vec![node(TENS, vec![1], vec![])]);
    let plan = analyze(&root, 13..17, 2).expect("valid").expect("planned");
    assert_eq!(plan.decoded_range, 10..20);
    assert_eq!(needs(&plan.data_needed), vec![bytes(10..20), None]);
    assert_eq!(needs(&plan.validity_needed), vec![None, bytes(10..20)]);
}

#[test]
fn planning_gives_up_when_rows_keep_growing() {
    let (session, ctx) = session();
    let root = node(BYTES, vec![0], vec![node(GREEDY, vec![1], vec![])]);
    let plan = analyze_encoding(&root, 50..60, 100, &bool_type(), &ctx, &session, 2);
    assert!(plan.expect("valid").is_none());
    let asked = session.arrays.find(&"bytes".to_string()).map(|plugin| plugin.asked.get());
    assert_eq!(asked, Some(MAX_REPLAN_ATTEMPTS));
}

#[test]
fn exact_children_have_to_decode_exactly() {
    let exact = |child| node(EXACT, vec![], vec![node(child, vec![0], vec![])]);
    let plan = analyze(&exact(BYTES), 13..17, 1).expect("valid").expect("planned");
    assert_eq!(plan.decoded_range, 13..17);
    assert!(analyze(&exact(TENS), 13..17, 1).expect("valid").is_none());
    assert!(analyze(&exact(TENS), 10..20, 1).expect("valid").is_some());
}

#[test]
fn row_aligned_children_decode_the_same_rows() {
    let pair = |first, second| {
        node(PAIR, vec![], vec![node(first, vec![0], vec![]), node(second, vec![1], vec![])])
    };
    for root in [pair(TENS, BYTES), pair(BYTES, TENS)] {
        let plan = analyze(&root, 13..17, 2).expect("valid").expect("planned");
        assert_eq!(plan.decoded_range, 10..20);
        assert_eq!(needs(&plan.data_needed), vec![bytes(10..20), bytes(10..20)]);
    }
    // A child can only follow an earlier one.
    let forward = node(
        FORWARD,
        vec![],
        vec![node(BYTES, vec![0], vec![]), node(BYTES, vec![1], vec![])],
    );
    assert!(analyze(&forward, 13..17, 2).expect("valid").is_none());
}

#[test]
fn a_whole_child_needs_all_its_buffers() {
    let child = node(UNKNOWN, vec![2, 0], vec![node(UNKNOWN, vec![3], vec![])]);
    let plan = analyze(&node(WHOLE_CHILD, vec![], vec![child]), 3..7, 4)
        .expect("valid")
        .expect("planned");
    let full = Some(NeededBuffer::Full);
    assert_eq!(needs(&plan.data_needed), vec![full.clone(), None, full.clone(), full]);
}

#[test]
fn child_rows_are_divided_exactly() {
    let triple = |child| node(TRIPLE, vec![], vec![node(child, vec![0], vec![])]);
    let plan = analyze(&triple(BYTES), 3..7, 1).expect("valid").expect("planned");
    assert_eq!(plan.decoded_range, 3..7);
    assert_eq!(needs(&plan.data_needed), vec![bytes(9..21)]);
    // The child decodes 0..30, which are the rows 0..10.
    let plan = analyze(&triple(TENS), 3..7, 1).expect("valid").expect("planned");
    assert_eq!(plan.decoded_range, 0..10);
    // The child decodes 10..30, and 10 is no multiple of 3.
    assert!(analyze(&triple(TENS), 4..7, 1).expect("valid").is_none());
    let undivided = node(UNDIVIDED, vec![], vec![node(BYTES, vec![0], vec![])]);
    assert!(analyze(&undivided, 3..7, 1).expect("valid").is_none());
}

#[test]
fn what_cannot_be_planned_is_read_as_a_whole() {
    for root in [
        node(NONE, vec![0], vec![]),
        node(UNKNOWN, vec![0], vec![]),
        node(500, vec![0], vec![]),
        // No entry for the second buffer, one child too many, two children too many.
        node(BYTES, vec![0, 1], vec![]),
        node(FULL, vec![0], vec![node(BYTES, vec![1], vec![])]),
        node(BYTES, vec![0], vec![node(BYTES, vec![1], vec![]), node(BYTES, vec![1], vec![])]),
        // One child too few.
        node(PAIR, vec![], vec![node(BYTES, vec![0], vec![])]),
        // A child that cannot be planned.
        node(EXACT, vec![], vec![node(NONE, vec![0], vec![])]),
        node(BYTES, vec![0], vec![node(NONE, vec![1], vec![])]),
    ] {
        assert!(analyze(&root, 3..7, 2).expect("valid").is_none());
    }
}

#[test]
fn errors_in_the_tree_are_reported() {
    let error = |root: &TreeNode| analyze(root, 3..7, 2).map(|_| ()).expect_err("an error");
    assert_eq!(error(&node(ERROR, vec![0], vec![])), VortexError::InvalidMetadata);
    let missing = VortexError::BufferIndexOutOfRange { buffer_idx: 2, num_buffers: 2 };
    assert_eq!(error(&node(BYTES, vec![2], vec![])), missing);
    assert_eq!(error(&node(FULL, vec![2], vec![])), missing);
    let child = node(UNKNOWN, vec![0], vec![node(UNKNOWN, vec![2], vec![])]);
    assert_eq!(error(&node(WHOLE_CHILD, vec![], vec![child])), missing);
    let bad_validity = node(BYTES, vec![0], vec![node(ERROR, vec![1], vec![])]);
    assert_eq!(error(&bad_validity), VortexError::InvalidMetadata);
}

fn locations(lengths: &[usize]) -> Vec<BufferLocation> {
    let mut offset = 0;
    lengths
        .iter()
        .map(|length| {
            let location = BufferLocation { offset, length: *length, alignment: Alignment::none() };
            offset += length;
            location
        })
        .collect()
}

fn subtree(
    decoded_range: Range<usize>,
    data: Vec<Option<NeededBuffer>>,
    validity: Vec<Option<NeededBuffer>>,
) -> SubtreePlan {
    SubtreePlan {
        decoded_range,
        data_needed: NeededBuffers { entries: data },
        validity_needed: NeededBuffers { entries: validity },
    }
}

fn slices(read: &SegmentRead) -> Vec<(usize, Range<usize>)> {
    read.buffer_slices.iter().map(|slice| (slice.buffer_idx, slice.range.clone())).collect()
}

#[test]
fn data_is_read_in_one_span_with_the_validity_inside_it() {
    let subtree = subtree(
        10..20,
        vec![bytes(90..100), None, bytes(0..10), None],
        vec![None, bytes(2..4), None, None],
    );
    let plan = build_plan(&subtree, &locations(&[100, 20, 100, 300]), 12..15, false)
        .expect("there is a plan");
    assert_eq!(plan.requests(), vec![90..130]);
    let data = plan.data_read.as_ref().expect("there is data");
    assert_eq!(slices(&data.segment), vec![(0, 0..10), (2, 30..40), (1, 12..14)]);
    assert!(plan.validity_reads.is_empty());
    assert_eq!(plan.decode_len, 10);
    assert_eq!(plan.post_slice, Some(2..5));
}

#[test]
fn validity_apart_from_the_data_takes_reads_of_its_own() {
    let needs = || {
        subtree(
            10..20,
            vec![bytes(10..20), None, None, None],
            vec![None, bytes(0..2), None, Some(NeededBuffer::Full)],
        )
    };
    let locations = locations(&[100, 20, 300, 6]);
    assert!(build_plan(&needs(), &locations, 10..20, false).is_none());
    let plan = build_plan(&needs(), &locations, 10..20, true).expect("there is a plan");
    assert_eq!(plan.requests(), vec![10..20, 100..102, 420..426]);
    assert_eq!(slices(&plan.validity_reads[1].segment), vec![(3, 0..6)]);
    assert_eq!(plan.post_slice, None);
}

#[test]
fn a_buffer_for_data_and_validity_is_provided_once() {
    let both = |data: Range<usize>, validity: Range<usize>| {
        let subtree = subtree(0..10, vec![bytes(data)], vec![bytes(validity)]);
        build_plan(&subtree, &locations(&[100]), 0..10, true)
    };
    let plan = both(0..10, 2..5).expect("there is a plan");
    assert_eq!(plan.requests(), vec![0..10]);
    assert_eq!(slices(&plan.data_read.expect("there is data").segment), vec![(0, 0..10)]);
    assert!(both(0..10, 8..12).is_none());
}

#[test]
fn needs_past_the_end_of_a_buffer_are_not_planned() {
    for need in [bytes(90..101), bytes(10..9)] {
        let data = subtree(0..10, vec![need.clone()], vec![None]);
        assert!(build_plan(&data, &locations(&[100]), 0..10, true).is_none());
        let validity = subtree(0..10, vec![None], vec![need]);
        assert!(build_plan(&validity, &locations(&[100]), 0..10, true).is_none());
    }
}

#[test]
fn no_more_than_half_is_read() {
    let read = |len: usize| {
        let subtree = subtree(0..10, vec![bytes(0..len)], vec![None]);
        build_plan(&subtree, &locations(&[101]), 0..10, true).is_some()
    };
    assert!(read(50));
    assert!(!read(51));
    // Separate reads count too.
    let apart = |len: usize| {
        let subtree = subtree(
            0..10,
            vec![bytes(0..30), None, None],
            vec![None, None, bytes(0..len)],
        );
        build_plan(&subtree, &locations(&[40, 20, 40]), 0..10, true).is_some()
    };
    assert!(apart(20));
    assert!(!apart(21));
    // Nothing is always worth reading.
    let nothing = subtree(0..10, vec![bytes(7..7)], vec![None]);
    let plan = build_plan(&nothing, &locations(&[10]), 0..10, true).expect("there is a plan");
    assert!(plan.requests().is_empty());
}

#[test]
fn buffers_are_located_after_their_padding() {
    let specs = vec![
        BufferSpec { padding: 3, alignment_exponent: 2, length: 10 },
        BufferSpec { padding: 0, alignment_exponent: 0, length: 0 },
        BufferSpec { padding: 1, alignment_exponent: 63, length: 5 },
    ];
    assert!(buffers_can_be_located(&specs));
    let located: Vec<(usize, usize)> = compute_buffer_locations(&specs)
        .iter()
        .map(|location| (location.offset, location.length))
        .collect();
    assert_eq!(located, vec![(3, 10), (13, 0), (14, 5)]);
    let wide = vec![BufferSpec { padding: 0, alignment_exponent: 64, length: 1 }];
    assert!(!buffers_can_be_located(&wide));
}

fn flat_tree(root: Option<(u16, Vec<u16>)>, buffers: &[(u16, u8, u32)]) -> Vec<u8> {
    let mut builder = FlatBufferBuilder::new();
    let root = root.map(|(encoding, buffers)| {
        let buffers = builder.create_vector(&buffers);
        fba::ArrayNode::create(
            &mut builder,
            &fba::ArrayNodeArgs {
                encoding,
                metadata: None,
                children: None,
                buffers: Some(buffers),
                stats: None,
            },
        )
    });
    let buffers: Vec<fba::Buffer> = buffers
        .iter()
        .map(|(padding, exponent, length)| {
            fba::Buffer::new(*padding, *exponent, fba::Compression::None, *length)
        })
        .collect();
    let buffers = builder.create_vector(&buffers);
    let array =
        fba::Array::create(&mut builder, &fba::ArrayArgs { root, buffers: Some(buffers) });
    builder.finish_minimal(array);
    builder.finished_data().to_vec()
}

#[test]
fn a_tree_is_read_from_its_flatbuffer() {
    let tree = parse_array_tree(&flat_tree(Some((7, vec![1, 0])), &[(1, 2, 3), (4, 5, 6)]))
        .expect("valid");
    assert_eq!(
        tree.buffers,
        vec![
            BufferSpec { padding: 1, alignment_exponent: 2, length: 3 },
            BufferSpec { padding: 4, alignment_exponent: 5, length: 6 },
        ]
    );
    let root = tree.root.expect("there is a root");
    assert_eq!(root.encoding, 7);
    assert_eq!(root.buffers, vec![1, 0]);
    assert!(root.metadata.is_empty() && root.children.is_empty());
}

#[test]
fn nested_nodes_keep_their_order_and_their_metadata() {
    let mut builder = FlatBufferBuilder::new();
    let mut leaves = vec![];
    for i in 0..3u16 {
        let metadata = builder.create_vector(&[i as u8, 9]);
        leaves.push(fba::ArrayNode::create(
            &mut builder,
            &fba::ArrayNodeArgs {
                encoding: i,
                metadata: Some(metadata),
                children: None,
                buffers: None,
                stats: None,
            },
        ));
    }
    let children = builder.create_vector(&leaves);
    let root = fba::ArrayNode::create(
        &mut builder,
        &fba::ArrayNodeArgs {
            encoding: 8,
            metadata: None,
            children: Some(children),
            buffers: None,
            stats: None,
        },
    );
    let array =
        fba::Array::create(&mut builder, &fba::ArrayArgs { root: Some(root), buffers: None });
    builder.finish_minimal(array);
    let tree = parse_array_tree(builder.finished_data()).expect("valid");
    assert!(tree.buffers.is_empty());
    let root = tree.root.expect("there is a root");
    let children: Vec<(u16, Vec<u8>)> =
        root.children.iter().map(|child| (child.encoding, child.metadata.clone())).collect();
    assert_eq!(children, vec![(0, vec![0, 9]), (1, vec![1, 9]), (2, vec![2, 9])]);
}

#[test]
fn malformed_trees_are_refused() {
    let (session, ctx) = session();
    let plan = |bytes: &[u8], rows: Range<usize>| {
        try_plan_located_range_read(bytes, rows, 100, &bool_type(), &ctx, &session)
            .map(|planned| planned.map(|plan| plan.is_some()))
    };
    assert_eq!(plan(&[1, 2, 3], 1..2), Some(Err(VortexError::InvalidArrayTree)));
    // The bytes do not matter for rows that are not a part.
    assert_eq!(plan(&[1, 2, 3], 0..100), Some(Ok(false)));
    assert_eq!(plan(&[1, 2, 3], 5..5), Some(Ok(false)));
    assert_eq!(plan(&[1, 2, 3], 5..4), Some(Ok(false)));
    assert_eq!(plan(&[1, 2, 3], 5..101), Some(Ok(false)));
    assert_eq!(plan(&flat_tree(None, &[]), 1..2), Some(Err(VortexError::MissingRootNode)));
    assert_eq!(plan(&flat_tree(Some((BYTES, vec![0])), &[(0, 64, 100)]), 1..2), None);
    assert_eq!(plan(&flat_tree(Some((BYTES, vec![0])), &[(0, 3, 100)]), 1..2), Some(Ok(true)));
}

#[test]
fn a_plan_of_a_flatbuffer_is_that_of_its_tree() {
    let (session, ctx) = session();
    let bytes = flat_tree(Some((TENS, vec![1])), &[(0, 0, 50), (6, 3, 100)]);
    let from_bytes = try_plan_range_read(&bytes, 13..17, 100, &bool_type(), &ctx, &session)
        .expect("valid")
        .expect("planned");
    let tree: ArrayTree = parse_array_tree(&bytes).expect("valid");
    let from_tree = plan_tree(&tree, 13..17, 100, &bool_type(), &ctx, &session)
        .expect("valid")
        .expect("planned");
    for plan in [from_bytes, from_tree] {
        assert_eq!(plan.requests(), vec![66..76]);
        assert_eq!((plan.decode_len, plan.post_slice.clone()), (10, Some(3..7)));
        let exponents: Vec<u8> =
            plan.buffer_alignments.iter().map(|alignment| alignment.exponent).collect();
        assert_eq!(exponents, vec![0, 3]);
    }
}

fn slice(buffer_idx: usize, range: Range<usize>, exponent: u8) -> BufferSlice {
    BufferSlice { buffer_idx, range, alignment: Alignment::from_exponent(exponent) }
}

fn manual_plan(data: Vec<BufferSlice>, validity: Vec<BufferSlice>) -> RangeReadPlan {
    RangeReadPlan {
        data_read: Some(DataRead {
            segment: SegmentRead { segment_range: 10..20, buffer_slices: data },
        }),
        validity_reads: vec![ValidityRead {
            segment: SegmentRead { segment_range: 30..34, buffer_slices: validity },
        }],
        buffer_alignments: vec![Alignment::from_exponent(3), Alignment::from_exponent(2)],
        decode_len: 1,
        post_slice: None,
    }
}

#[test]
fn buffers_are_put_together_from_replies() {
    let plan = manual_plan(vec![slice(1, 2..6, 2)], vec![]);
    let replies =
        vec![ByteBuffer::copy_from((0u8..10).collect::<Vec<_>>()), ByteBuffer::copy_from([7u8; 4])];
    let buffers = assemble_buffers(&plan, &replies).expect("the replies fit");
    assert!(buffers[0].is_empty());
    assert_eq!(buffers[0].alignment(), vortex_buffer::Alignment::new(8));
    assert_eq!(buffers[1].as_slice(), &[2, 3, 4, 5]);
    assert_eq!(buffers[1].alignment(), vortex_buffer::Alignment::new(4));
}

#[test]
fn replies_and_plans_that_do_not_fit_are_refused() {
    let reply = |len: usize| ByteBuffer::copy_from(vec![1u8; len]);
    let error = |plan: &RangeReadPlan, replies: Vec<ByteBuffer>| {
        assemble_buffers(plan, &replies).map(|_| ()).expect_err("an error")
    };
    let plan = manual_plan(vec![slice(0, 0..4, 0)], vec![slice(1, 0..4, 0)]);
    assert_eq!(
        error(&plan, vec![reply(9), reply(4)]),
        VortexError::UnexpectedReadLength { expected: 10, received: 9 }
    );
    assert_eq!(
        error(&plan, vec![reply(10), reply(5)]),
        VortexError::UnexpectedReadLength { expected: 4, received: 5 }
    );
    let twice = manual_plan(vec![slice(1, 0..4, 0)], vec![slice(1, 0..4, 0)]);
    assert_eq!(
        error(&twice, vec![reply(10), reply(4)]),
        VortexError::BufferProvidedTwice { buffer_idx: 1 }
    );
    let missing = manual_plan(vec![slice(2, 0..4, 0)], vec![]);
    assert_eq!(
        error(&missing, vec![reply(10), reply(4)]),
        VortexError::PlanReferencesMissingBuffer { buffer_idx: 2 }
    );
    // A wrong length is found before a buffer without a slot.
    assert_eq!(
        error(&missing, vec![reply(10), reply(3)]),
        VortexError::UnexpectedReadLength { expected: 4, received: 3 }
    );
}

#[test]
fn unusable_plans_are_recognized() {
    assert!(manual_plan(vec![slice(0, 0..10, 5)], vec![]).can_be_assembled());
    assert!(!manual_plan(vec![slice(0, 0..11, 5)], vec![]).can_be_assembled());
    assert!(!manual_plan(vec![], vec![slice(0, 3..2, 0)]).can_be_assembled());
    // No allocation is that large, but no bytes need none.
    assert!(!manual_plan(vec![slice(0, 0..1, 63)], vec![]).can_be_assembled());
    assert!(manual_plan(vec![slice(0, 1..1, 63)], vec![]).can_be_assembled());
}

#[test]
fn needs_are_merged() {
    let mut needed = NeededBuffers::new(3);
    assert_eq!(needed.need_range(0, 5..9), Ok(()));
    assert_eq!(needed.need_range(0, 2..6), Ok(()));
    assert_eq!(needed.need_full(1), Ok(()));
    assert_eq!(needed.need_range(1, 2..6), Ok(()));
    assert_eq!(needs(&needed), vec![bytes(2..9), Some(NeededBuffer::Full), None]);
    let missing = VortexError::BufferIndexOutOfRange { buffer_idx: 3, num_buffers: 3 };
    assert_eq!(needed.need_full(3), Err(missing));
    assert_eq!(needed.need_range(3, 0..1), Err(missing));

    let mut other = NeededBuffers::new(3);
    assert_eq!(other.need_range(0, 20..30), Ok(()));
    assert_eq!(other.need_range(2, 1..2), Ok(()));
    needed.merge(other);
    assert_eq!(needs(&needed), vec![bytes(2..30), Some(NeededBuffer::Full), bytes(1..2)]);
}

#[test]
fn ranges_are_united_and_compared() {
    assert_eq!(union_ranges(&(2..5), &(4..9)), 2..9);
    assert_eq!(union_ranges(&(7..8), &(1..2)), 1..8);
    assert!(contains_range(&(1..8), &(1..8)));
    assert!(contains_range(&(1..8), &(3..4)));
    assert!(!contains_range(&(1..8), &(0..4)));
    assert!(!contains_range(&(1..8), &(3..9)));
}

#[test]
fn the_latest_registration_counts() {
    let mut arrays = ArrayRegistry::new();
    assert!(arrays.find(&"a".to_string()).is_none());
    arrays.register("a".to_string(), scripted(none_answer));
    arrays.register("b".to_string(), scripted(error_answer));
    arrays.register("a".to_string(), scripted(bytes_answer));
    let answer = |id: &str| {
        arrays
            .find(&id.to_string())
            .map(|plugin| plugin.plan_range_read(&[], 1..2, 9, &bool_type()).map(|p| p.is_some()))
    };
    assert_eq!(answer("a"), Some(Ok(true)));
    assert_eq!(answer("b"), Some(Err(VortexError::InvalidMetadata)));
    assert_eq!(answer("c"), None);
}

#[test]
fn sessions_keep_validity_with_the_data_unless_told_otherwise() {
    let (default_session, _) = session();
    assert!(!default_session.separate_validity_reads);
    assert!(default_session.with_separate_validity_reads(true).separate_validity_reads);
}

#[test]
fn types_are_compared_with_and_without_nullability() {
    let list = |element: Nullability, outer: Nullability| {
        DType::List(Box::new(DType::Primitive(PType::U8, element)), outer)
    };
    let (n, y) = (Nullability::NonNullable, Nullability::Nullable);
    assert!(list(n, n).eq_ignore_nullability(&list(y, y)));
    assert!(list(n, n) != list(y, n));
    assert!(list(n, n).with_nullability(y) == list(n, y));
    assert!(!DType::Opaque(1, n).eq_ignore_nullability(&DType::Opaque(2, n)));
    assert!(DType::Primitive(PType::I8, n).is_int());
    assert!(!DType::Primitive(PType::F16, n).is_int());
    assert_eq!(DType::Null.nullability(), y);
    assert_eq!(PType::F64.byte_width(), 8);
}

#[test]
fn unions_and_merges_do_not_depend_on_the_order() {
    let ranges = [0..3, 2..7, 9..9, 5..4];
    for a in &ranges {
        assert_eq!(union_ranges(a, a), *a);
        for b in &ranges {
            let union = union_ranges(a, b);
            assert_eq!(union, union_ranges(b, a));
            assert!(contains_range(&union, a) && contains_range(&union, b));
            for c in &ranges {
                assert_eq!(union_ranges(&union, c), union_ranges(a, &union_ranges(b, c)));
            }
        }
    }
    let entries = [None, bytes(0..3), bytes(2..7), Some(NeededBuffer::Full)];
    for a in &entries {
        for b in &entries {
            let merged = |first: &Option<NeededBuffer>, second: &Option<NeededBuffer>| {
                let mut needed = NeededBuffers { entries: vec![first.clone()] };
                needed.merge(NeededBuffers { entries: vec![second.clone()] });
                needs(&needed)
            };
            assert_eq!(merged(a, b), merged(b, a));
            assert_eq!(merged(a, b) == vec![None], a.is_none() && b.is_none());
        }
    }
}

#[test]
fn requests_do_not_overlap_and_ask_for_half_at_most() {
    let lengths = [40usize, 8, 40, 8, 40, 8];
    let locations = locations(&lengths);
    for first in [None, bytes(30..40), bytes(0..2)] {
        for second in [None, bytes(0..5), bytes(39..40)] {
            for validity in [None, Some(NeededBuffer::Full), bytes(3..4)] {
                let subtree = subtree(
                    0..10,
                    vec![first.clone(), None, None, None, second.clone(), None],
                    vec![None, validity.clone(), None, validity.clone(), None, validity.clone()],
                );
                let Some(plan) = build_plan(&subtree, &locations, 0..10, true) else { continue };
                let requests = plan.requests();
                let total: usize = requests.iter().map(Range::len).sum();
                assert!(total * 2 <= lengths.iter().sum());
                for (k, late) in requests.iter().enumerate() {
                    assert!(late.start < late.end && late.end <= lengths.iter().sum());
                    for early in &requests[..k] {
                        assert!(early.end <= late.start || late.end <= early.start);
                    }
                }
            }
        }
    }
}
