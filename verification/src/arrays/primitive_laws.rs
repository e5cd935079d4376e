//! What range reads of primitive arrays give back.

use crate::analyze::{
    need_each, need_one, spec_analyze_attempts, spec_analyze_encoding, spec_analyze_once,
    spec_walk_children, OutcomeView, SubtreeView, WalkOutcome, WalkView, MAX_REPLAN_ATTEMPTS,
};
use crate::analyze_laws::law_leaf_needs_what_its_encoding_names;
use crate::arrays::bool::{bool_plan, BoolMetadata};
use crate::arrays::primitive::{law_primitive_plan_is_exact, primitive_plan};
use crate::assemble::{plan_requests, spec_assemble};
use crate::decoding::lemma_buffer_of_read;
use crate::dtype::{DType, Nullability};
use crate::encoding::{BufferSubRange, EncodingRangeReadView, VTable};
use crate::error::VortexError;
use crate::needed::{merge_needed, nothing_needed, NeededBuffer};
use crate::plan::{lemma_locations_valid, spec_plan_tree};
use crate::plan_laws::{faithful_replies, law_range_read_from_tree_to_buffers, provided_range};
use crate::ranges::spec_union_ranges;
use crate::tree::{
    buffers_end, lemma_buffers_end_monotonic, locations_fit, spec_locations, ArrayTreeView,
    TreeNodeView,
};
use std::ops::Range;
use vstd::prelude::*;

verus! {

/// A single need, added to none.
pub proof fn lemma_single_need(num_buffers: nat, buffer_idx: u16, sub_range: BufferSubRange)
    ensures
        need_each(nothing_needed(num_buffers), seq![buffer_idx], seq![sub_range]) == need_one(
            nothing_needed(num_buffers),
            buffer_idx,
            sub_range,
        ),
{
    assert(seq![buffer_idx].drop_last() =~= Seq::<u16>::empty());
    assert(seq![sub_range].drop_last() =~= Seq::<BufferSubRange>::empty());
    assert(need_each(
        nothing_needed(num_buffers),
        seq![buffer_idx].drop_last(),
        seq![sub_range].drop_last(),
    ) == Ok::<Seq<Option<NeededBuffer>>, VortexError>(nothing_needed(num_buffers)));
}

/// Whether the tree is a primitive array without nulls: a node with one buffer and no children.
pub open spec fn is_primitive_tree<P: VTable>(
    registry: Map<Seq<char>, P>,
    ids: Seq<Seq<char>>,
    tree: ArrayTreeView,
    row_range: Range<usize>,
    row_count: usize,
    dtype: DType,
) -> bool {
    tree.root matches Some(root) && {
        &&& root.encoding < ids.len()
        &&& registry.contains_key(ids[root.encoding as int])
        &&& registry[ids[root.encoding as int]].planned(
            root.metadata,
            row_range,
            row_count,
            dtype,
        ) == Ok::<Option<EncodingRangeReadView>, VortexError>(primitive_plan(row_range, dtype))
        &&& root.children.len() == 0
        &&& root.buffers.len() == 1
    }
}

/// A range read of a primitive array gives back the values of the rows that were asked for: each
/// value is found, in the buffer that is put together, as far from the start as its row is from
/// the first row, and consists of the bytes that it has in the segment. No row has to be cut off.
pub proof fn law_primitive_range_read_gives_back_values<P: VTable>(
    registry: Map<Seq<char>, P>,
    ids: Seq<Seq<char>>,
    tree: ArrayTreeView,
    row_range: Range<usize>,
    row_count: usize,
    dtype: DType,
    separate_reads: bool,
    segment: Seq<u8>,
    k: int,
)
    requires
        locations_fit(tree.buffers),
        tree.buffers.len() <= usize::MAX,
        buffers_end(tree.buffers, tree.buffers.len() as int) <= segment.len(),
        is_primitive_tree(registry, ids, tree, row_range, row_count, dtype),
        spec_plan_tree(
            registry,
            ids,
            tree,
            row_range,
            row_count,
            dtype,
            separate_reads,
        ) matches Ok(Some(_)),
        row_range.start <= k < row_range.end,
    ensures
        ({
            let plan = spec_plan_tree(
                registry,
                ids,
                tree,
                row_range,
                row_count,
                dtype,
                separate_reads,
            )->Ok_0->0;
            let width = (dtype->Primitive_0).spec_byte_width() as int;
            let b = (tree.root->0).buffers[0] as int;
            let offset = spec_locations(tree.buffers)[b].offset as int;
            let position = (k - row_range.start) * width;
            &&& spec_assemble(plan, faithful_replies(segment, plan_requests(plan))) matches Ok(
                buffers,
            )
            &&& buffers[b].bytes.subrange(position, position + width) == segment.subrange(
                offset + k * width,
                offset + (k + 1) * width,
            )
            &&& plan.post_slice is None
        }),
{
    let root = tree.root->0;
    let b = root.buffers[0];
    let n = tree.buffers.len();
    let plan = spec_plan_tree(
        registry,
        ids,
        tree,
        row_range,
        row_count,
        dtype,
        separate_reads,
    )->Ok_0->0;
    law_range_read_from_tree_to_buffers(
        registry,
        ids,
        tree,
        row_range,
        row_count,
        dtype,
        separate_reads,
        segment,
    );
    let width = (dtype->Primitive_0).spec_byte_width() as int;
    let encoding = primitive_plan(row_range, dtype);
    if encoding is None {
        assert(spec_analyze_once(registry, ids, root, row_range, row_count, dtype, n) == Ok::<
            Option<OutcomeView>,
            VortexError,
        >(None));
        assert(spec_analyze_attempts(
            registry,
            ids,
            root,
            row_range,
            row_range,
            row_count,
            dtype,
            n,
            MAX_REPLAN_ATTEMPTS as nat,
        ) == Ok::<Option<SubtreeView>, VortexError>(None));
        assert(false);
    }
    law_primitive_plan_is_exact(row_range, dtype, k);
    let sub_range = (encoding->0).buffer_sub_ranges[0];
    let bytes = sub_range->Range_0;
    law_leaf_needs_what_its_encoding_names(
        registry,
        ids,
        root,
        row_range,
        row_count,
        dtype,
        n,
        encoding->0,
        row_range,
    );
    assert(root.buffers =~= seq![b]);
    assert((encoding->0).buffer_sub_ranges =~= seq![sub_range]);
    lemma_single_need(n, b, sub_range);
    let needed = need_one(nothing_needed(n), b, sub_range);
    assert(needed is Ok);
    let subtree = SubtreeView {
        decoded_range: row_range,
        data_needed: needed->Ok_0,
        validity_needed: nothing_needed(n),
    };
    let locations = spec_locations(tree.buffers);
    lemma_locations_valid(tree.buffers);
    lemma_buffers_end_monotonic(tree.buffers, b + 1, n as int);
    assert(subtree.data_needed[b as int] == Some(NeededBuffer::Range(bytes)));
    assert(locations[b as int].offset + locations[b as int].length <= segment.len());
    let start = row_range.start as int;
    let position = (k - start) * width;
    assert(start * width <= k * width && position == k * width - start * width && (k + 1) * width
        == k * width + width) by (nonlinear_arith)
        requires
            start <= k,
            width > 0,
            position == (k - start) * width,
    ;
    let range = provided_range(subtree, locations, b as int)->0;
    let offset = locations[b as int].offset as int;
    assert(range.start == offset + bytes.start && range.end == offset + bytes.end);
    let whole = segment.subrange(range.start as int, range.end as int);
    assert(whole.subrange(position, position + width) =~= segment.subrange(
        offset + k * width,
        offset + (k + 1) * width,
    ));
}

/// The rows from the last multiple of eight before the given ones on.
pub open spec fn from_multiple_of_eight(row_range: Range<usize>) -> Range<usize> {
    Range { start: (row_range.start / 8 * 8) as usize, end: row_range.end }
}

/// Whether the node is a primitive array with nulls: a node with one buffer and one child, a bool
/// array with one buffer and no children.
pub open spec fn is_nullable_primitive<P: VTable>(
    registry: Map<Seq<char>, P>,
    ids: Seq<Seq<char>>,
    node: TreeNodeView,
    validity: BoolMetadata,
    row_count: usize,
    dtype: DType,
) -> bool {
    let child = node.children[0];
    &&& node.encoding < ids.len()
    &&& registry.contains_key(ids[node.encoding as int])
    &&& forall|rows: Range<usize>|
        #[trigger] registry[ids[node.encoding as int]].planned(
            node.metadata,
            rows,
            row_count,
            dtype,
        ) == Ok::<Option<EncodingRangeReadView>, VortexError>(primitive_plan(rows, dtype))
    &&& node.children.len() == 1
    &&& node.buffers.len() == 1
    &&& child.encoding < ids.len()
    &&& registry.contains_key(ids[child.encoding as int])
    &&& forall|rows: Range<usize>|
        #[trigger] registry[ids[child.encoding as int]].planned(
            child.metadata,
            rows,
            row_count,
            DType::Bool(Nullability::NonNullable),
        ) == Ok::<Option<EncodingRangeReadView>, VortexError>(bool_plan(validity, rows))
    &&& child.children.len() == 0
    &&& child.buffers.len() == 1
}

/// The bytes of a plan with a single buffer.
pub open spec fn only_bytes(plan: EncodingRangeReadView) -> Range<usize> {
    plan.buffer_sub_ranges[0]->Range_0
}

proof fn lemma_validity_analysis<P: VTable>(
    registry: Map<Seq<char>, P>,
    ids: Seq<Seq<char>>,
    node: TreeNodeView,
    validity: BoolMetadata,
    rows: Range<usize>,
    row_count: usize,
    dtype: DType,
    num_buffers: nat,
)
    requires
        is_nullable_primitive(registry, ids, node, validity, row_count, dtype),
        bool_plan(validity, rows) is Some,
        node.children[0].buffers[0] < num_buffers,
    ensures
        spec_analyze_encoding(
            registry,
            ids,
            node.children[0],
            rows,
            row_count,
            DType::Bool(Nullability::NonNullable),
            num_buffers,
        ) == Ok::<Option<SubtreeView>, VortexError>(
            Some(
                SubtreeView {
                    decoded_range: from_multiple_of_eight(rows),
                    data_needed: nothing_needed(num_buffers).update(
                        node.children[0].buffers[0] as int,
                        Some(NeededBuffer::Range(only_bytes(bool_plan(validity, rows)->0))),
                    ),
                    validity_needed: nothing_needed(num_buffers),
                },
            ),
        ),
{
    let child = node.children[0];
    let plan = bool_plan(validity, rows)->0;
    let b = child.buffers[0];
    let bool_type = DType::Bool(Nullability::NonNullable);
    assert(registry[ids[child.encoding as int]].planned(child.metadata, rows, row_count, bool_type)
        == Ok::<Option<EncodingRangeReadView>, VortexError>(Some(plan)));
    law_leaf_needs_what_its_encoding_names(
        registry,
        ids,
        child,
        rows,
        row_count,
        bool_type,
        num_buffers,
        plan,
        from_multiple_of_eight(rows),
    );
    assert(child.buffers =~= seq![b]);
    assert(plan.buffer_sub_ranges =~= seq![plan.buffer_sub_ranges[0]]);
    lemma_single_need(num_buffers, b, plan.buffer_sub_ranges[0]);
}

/// What one round of planning a nullable primitive array leads to: a plan if the rows begin at a
/// multiple of eight, else another round from such a multiple on.
proof fn lemma_nullable_primitive_once<P: VTable>(
    registry: Map<Seq<char>, P>,
    ids: Seq<Seq<char>>,
    node: TreeNodeView,
    validity: BoolMetadata,
    rows: Range<usize>,
    row_count: usize,
    dtype: DType,
    num_buffers: nat,
)
    requires
        is_nullable_primitive(registry, ids, node, validity, row_count, dtype),
        primitive_plan(rows, dtype) is Some,
        bool_plan(validity, rows) is Some,
        node.buffers[0] < num_buffers,
        node.children[0].buffers[0] < num_buffers,
    ensures
        ({
            let once = spec_analyze_once(registry, ids, node, rows, row_count, dtype, num_buffers);
            let from = from_multiple_of_eight(rows);
            if from == rows {
                once == Ok::<Option<OutcomeView>, VortexError>(
                    Some(
                        OutcomeView::Complete(
                            SubtreeView {
                                decoded_range: rows,
                                data_needed: nothing_needed(num_buffers).update(
                                    node.buffers[0] as int,
                                    Some(
                                        NeededBuffer::Range(
                                            only_bytes(primitive_plan(rows, dtype)->0),
                                        ),
                                    ),
                                ),
                                validity_needed: nothing_needed(num_buffers).update(
                                    node.children[0].buffers[0] as int,
                                    Some(
                                        NeededBuffer::Range(
                                            only_bytes(bool_plan(validity, rows)->0),
                                        ),
                                    ),
                                ),
                            },
                        ),
                    ),
                )
            } else {
                once == Ok::<Option<OutcomeView>, VortexError>(Some(OutcomeView::Replan(from)))
            }
        }),
{
    let plan = primitive_plan(rows, dtype)->0;
    let b = node.buffers[0];
    lemma_validity_analysis(
        registry,
        ids,
        node,
        validity,
        rows,
        row_count,
        dtype,
        num_buffers,
    );
    assert(registry[ids[node.encoding as int]].planned(node.metadata, rows, row_count, dtype)
        == Ok::<Option<EncodingRangeReadView>, VortexError>(Some(plan)));
    assert(node.buffers =~= seq![b]);
    assert(plan.buffer_sub_ranges =~= seq![plan.buffer_sub_ranges[0]]);
    lemma_single_need(num_buffers, b, plan.buffer_sub_ranges[0]);
    let own = nothing_needed(num_buffers).update(
        b as int,
        Some(NeededBuffer::Range(only_bytes(plan))),
    );
    let walk = WalkView {
        data_needed: own,
        validity_needed: nothing_needed(num_buffers),
        child_plans: Seq::empty(),
    };
    assert(spec_walk_children(registry, ids, node, plan, own, 0) == Ok::<WalkOutcome, VortexError>(
        WalkOutcome::Done(walk),
    ));
    let needed = nothing_needed(num_buffers).update(
        node.children[0].buffers[0] as int,
        Some(NeededBuffer::Range(only_bytes(bool_plan(validity, rows)->0))),
    );
    assert(merge_needed(nothing_needed(num_buffers), needed) =~= needed);
    assert(merge_needed(needed, nothing_needed(num_buffers)) =~= needed);
}

/// A primitive array with nulls is read from a multiple of eight rows on, where the bits of its
/// validity begin a byte: from there its values are needed as data, and the bytes that hold the
/// bits of those rows are needed for validity.
pub proof fn law_nullable_primitive_is_read_from_a_multiple_of_eight<P: VTable>(
    registry: Map<Seq<char>, P>,
    ids: Seq<Seq<char>>,
    node: TreeNodeView,
    validity: BoolMetadata,
    row_range: Range<usize>,
    row_count: usize,
    dtype: DType,
    num_buffers: nat,
)
    requires
        is_nullable_primitive(registry, ids, node, validity, row_count, dtype),
        primitive_plan(row_range, dtype) is Some,
        bool_plan(validity, row_range) is Some,
        node.buffers[0] < num_buffers,
        node.children[0].buffers[0] < num_buffers,
    ensures
        ({
            let from = from_multiple_of_eight(row_range);
            let width = (dtype->Primitive_0).spec_byte_width();
            spec_analyze_encoding(
                registry,
                ids,
                node,
                row_range,
                row_count,
                dtype,
                num_buffers,
            ) == Ok::<Option<SubtreeView>, VortexError>(
                Some(
                    SubtreeView {
                        decoded_range: from,
                        data_needed: nothing_needed(num_buffers).update(
                            node.buffers[0] as int,
                            Some(
                                NeededBuffer::Range(
                                    Range {
                                        start: (from.start * width) as usize,
                                        end: (from.end * width) as usize,
                                    },
                                ),
                            ),
                        ),
                        validity_needed: nothing_needed(num_buffers).update(
                            node.children[0].buffers[0] as int,
                            Some(
                                NeededBuffer::Range(
                                    Range {
                                        start: (from.start / 8) as usize,
                                        end: ((validity.offset + from.end + 7) / 8) as usize,
                                    },
                                ),
                            ),
                        ),
                    },
                ),
            )
        }),
{
    let from = from_multiple_of_eight(row_range);
    let width = (dtype->Primitive_0).spec_byte_width();
    assert(from.start * width <= row_range.start * width) by (nonlinear_arith)
        requires
            from.start <= row_range.start,
    ;
    lemma_nullable_primitive_once(
        registry,
        ids,
        node,
        validity,
        row_range,
        row_count,
        dtype,
        num_buffers,
    );
    lemma_nullable_primitive_once(
        registry,
        ids,
        node,
        validity,
        from,
        row_count,
        dtype,
        num_buffers,
    );
    assert(from_multiple_of_eight(from) == from);
    assert(spec_union_ranges(row_range, from) == from);
    let result = spec_analyze_encoding(
        registry,
        ids,
        node,
        row_range,
        row_count,
        dtype,
        num_buffers,
    );
    let second = spec_analyze_attempts(
        registry,
        ids,
        node,
        row_range,
        from,
        row_count,
        dtype,
        num_buffers,
        3,
    );
    let complete = spec_analyze_once(registry, ids, node, from, row_count, dtype, num_buffers);
    assert(second == Ok::<Option<SubtreeView>, VortexError>(
        Some(complete->Ok_0->0->Complete_0),
    ));
    assert(spec_analyze_attempts(
        registry,
        ids,
        node,
        row_range,
        row_range,
        row_count,
        dtype,
        num_buffers,
        4,
    ) == second);
}

/// A primitive array with nulls is planned only if its values and the bits of its validity can be
/// found.
proof fn lemma_nullable_primitive_can_be_found<P: VTable>(
    registry: Map<Seq<char>, P>,
    ids: Seq<Seq<char>>,
    node: TreeNodeView,
    validity: BoolMetadata,
    row_range: Range<usize>,
    row_count: usize,
    dtype: DType,
    num_buffers: nat,
)
    requires
        is_nullable_primitive(registry, ids, node, validity, row_count, dtype),
        spec_analyze_encoding(
            registry,
            ids,
            node,
            row_range,
            row_count,
            dtype,
            num_buffers,
        ) matches Ok(Some(_)),
    ensures
        primitive_plan(row_range, dtype) is Some,
        bool_plan(validity, row_range) is Some,
        node.buffers[0] < num_buffers,
        node.children[0].buffers[0] < num_buffers,
{
    let once = spec_analyze_once(registry, ids, node, row_range, row_count, dtype, num_buffers);
    assert(once matches Ok(Some(_)));
    assert(registry[ids[node.encoding as int]].planned(node.metadata, row_range, row_count, dtype)
        == Ok::<Option<EncodingRangeReadView>, VortexError>(primitive_plan(row_range, dtype)));
    let plan = primitive_plan(row_range, dtype)->0;
    let b = node.buffers[0];
    assert(node.buffers =~= seq![b]);
    assert(plan.buffer_sub_ranges =~= seq![plan.buffer_sub_ranges[0]]);
    lemma_single_need(num_buffers, b, plan.buffer_sub_ranges[0]);
    let own = need_one(nothing_needed(num_buffers), b, plan.buffer_sub_ranges[0])->Ok_0;
    assert(spec_walk_children(registry, ids, node, plan, own, 0) == Ok::<WalkOutcome, VortexError>(
        WalkOutcome::Done(
            WalkView {
                data_needed: own,
                validity_needed: nothing_needed(num_buffers),
                child_plans: Seq::empty(),
            },
        ),
    ));

    let child = node.children[0];
    let bool_type = DType::Bool(Nullability::NonNullable);
    let of_child = spec_analyze_encoding(
        registry,
        ids,
        child,
        row_range,
        row_count,
        bool_type,
        num_buffers,
    );
    assert(of_child matches Ok(Some(_)));
    assert(spec_analyze_once(
        registry,
        ids,
        child,
        row_range,
        row_count,
        bool_type,
        num_buffers,
    ) matches Ok(Some(_)));
    assert(registry[ids[child.encoding as int]].planned(
        child.metadata,
        row_range,
        row_count,
        bool_type,
    ) == Ok::<Option<EncodingRangeReadView>, VortexError>(bool_plan(validity, row_range)));
    let bits = bool_plan(validity, row_range)->0;
    assert(child.buffers =~= seq![child.buffers[0]]);
    assert(bits.buffer_sub_ranges =~= seq![bits.buffer_sub_ranges[0]]);
    lemma_single_need(num_buffers, child.buffers[0], bits.buffer_sub_ranges[0]);
}

/// A range read of a primitive array with nulls gives back, for each row that was asked for, its
/// value and its validity: the value lies, in the buffer that is put together, as far from the
/// start as the row is from the first decoded row, and the byte that holds the bit of its validity
/// lies where the offset puts it. The decoded rows before those that were asked for are cut off.
pub proof fn law_nullable_primitive_range_read_gives_back_values<P: VTable>(
    registry: Map<Seq<char>, P>,
    ids: Seq<Seq<char>>,
    tree: ArrayTreeView,
    validity: BoolMetadata,
    row_range: Range<usize>,
    row_count: usize,
    dtype: DType,
    separate_reads: bool,
    segment: Seq<u8>,
    k: int,
)
    requires
        locations_fit(tree.buffers),
        tree.buffers.len() <= usize::MAX,
        buffers_end(tree.buffers, tree.buffers.len() as int) <= segment.len(),
        tree.root matches Some(root) && is_nullable_primitive(
            registry,
            ids,
            root,
            validity,
            row_count,
            dtype,
        ) && root.buffers[0] != root.children[0].buffers[0],
        spec_plan_tree(
            registry,
            ids,
            tree,
            row_range,
            row_count,
            dtype,
            separate_reads,
        ) matches Ok(Some(_)),
        row_range.start <= k < row_range.end,
    ensures
        ({
            let plan = spec_plan_tree(
                registry,
                ids,
                tree,
                row_range,
                row_count,
                dtype,
                separate_reads,
            )->Ok_0->0;
            let root = tree.root->0;
            let locations = spec_locations(tree.buffers);
            let from = from_multiple_of_eight(row_range);
            let width = (dtype->Primitive_0).spec_byte_width() as int;
            let values = root.buffers[0] as int;
            let bits = root.children[0].buffers[0] as int;
            let position = (k - from.start) * width;
            let byte = (validity.offset + k) / 8;
            &&& spec_assemble(plan, faithful_replies(segment, plan_requests(plan))) matches Ok(
                buffers,
            )
            &&& buffers[values].bytes.subrange(position, position + width) == segment.subrange(
                locations[values].offset + k * width,
                locations[values].offset + (k + 1) * width,
            )
            &&& buffers[bits].bytes[byte - from.start / 8] == segment[locations[bits].offset + byte]
            &&& plan.post_slice == if from == row_range {
                None
            } else {
                Some(
                    Range {
                        start: (row_range.start - from.start) as usize,
                        end: (row_range.end - from.start) as usize,
                    },
                )
            }
        }),
{
    let root = tree.root->0;
    let n = tree.buffers.len();
    let from = from_multiple_of_eight(row_range);
    let width = (dtype->Primitive_0).spec_byte_width() as int;
    lemma_nullable_primitive_can_be_found(
        registry,
        ids,
        root,
        validity,
        row_range,
        row_count,
        dtype,
        n,
    );
    law_nullable_primitive_is_read_from_a_multiple_of_eight(
        registry,
        ids,
        root,
        validity,
        row_range,
        row_count,
        dtype,
        n,
    );
    let subtree = spec_analyze_encoding(
        registry,
        ids,
        root,
        row_range,
        row_count,
        dtype,
        n,
    )->Ok_0->0;
    let (values, bits) = (root.buffers[0], root.children[0].buffers[0]);
    let value_bytes = subtree.data_needed[values as int]->0->Range_0;
    let bit_bytes = subtree.validity_needed[bits as int]->0->Range_0;
    lemma_buffer_of_read(
        registry,
        ids,
        tree,
        row_range,
        row_count,
        dtype,
        separate_reads,
        segment,
        subtree,
        values,
        value_bytes,
    );
    lemma_buffer_of_read(
        registry,
        ids,
        tree,
        row_range,
        row_count,
        dtype,
        separate_reads,
        segment,
        subtree,
        bits,
        bit_bytes,
    );
    let first = from.start as int;
    let end = from.end as int;
    let position = (k - first) * width;
    assert(first * width <= k * width && (k + 1) * width <= end * width && position == k * width
        - first * width && (k + 1) * width == k * width + width) by (nonlinear_arith)
        requires
            first <= k < end,
            width > 0,
            position == (k - first) * width,
    ;
    assert(first * width <= row_range.start * width) by (nonlinear_arith)
        requires
            first <= row_range.start,
            width > 0,
    ;
    let offset = spec_locations(tree.buffers)[values as int].offset as int;
    let whole = segment.subrange(offset + value_bytes.start, offset + value_bytes.end);
    assert(whole.subrange(position, position + width) =~= segment.subrange(
        offset + k * width,
        offset + (k + 1) * width,
    ));
}

} // verus!
