//! What range reads of arrays of fixed-size lists give back.

use crate::analyze::{
    asked_of_child, need_each, need_one, spec_analyze_attempts, spec_analyze_encoding,
    spec_analyze_once, spec_walk_children, OutcomeView, SubtreeView, WalkOutcome, WalkView,
    MAX_REPLAN_ATTEMPTS,
};
use crate::analyze_laws::law_leaf_needs_what_its_encoding_names;
use crate::arrays::fixed_size_list::{
    fixed_size_list_plan, law_fixed_size_list_maps_elements_to_lists,
};
use crate::arrays::primitive::{law_primitive_plan_is_exact, primitive_plan};
use crate::arrays::primitive_laws::{lemma_single_need, only_bytes};
use crate::assemble::{plan_requests, spec_assemble};
use crate::decoding::lemma_buffer_of_read;
use crate::dtype::DType;
use crate::encoding::{EncodingRangeReadView, VTable};
use crate::error::VortexError;
use crate::needed::{merge_needed, nothing_needed, NeededBuffer};
use crate::plan::spec_plan_tree;
use crate::plan_laws::faithful_replies;
use crate::tree::{buffers_end, locations_fit, spec_locations, ArrayTreeView, TreeNodeView};
use std::ops::Range;
use vstd::prelude::*;

verus! {

/// Whether the node is an array of fixed-size lists of numbers without nulls: a node without
/// buffers, whose only child is a primitive array with one buffer and no children.
pub open spec fn is_list_of_numbers<P: VTable>(
    registry: Map<Seq<char>, P>,
    ids: Seq<Seq<char>>,
    node: TreeNodeView,
    row_range: Range<usize>,
    row_count: usize,
    dtype: DType,
) -> bool {
    let child = node.children[0];
    &&& dtype is FixedSizeList
    &&& node.encoding < ids.len()
    &&& registry.contains_key(ids[node.encoding as int])
    &&& registry[ids[node.encoding as int]].planned(node.metadata, row_range, row_count, dtype)
        == Ok::<Option<EncodingRangeReadView>, VortexError>(
        fixed_size_list_plan(row_range, row_count, dtype),
    )
    &&& node.children.len() == 1
    &&& node.buffers.len() == 0
    &&& child.encoding < ids.len()
    &&& registry.contains_key(ids[child.encoding as int])
    &&& forall|rows: Range<usize>, count: usize|
        #[trigger] registry[ids[child.encoding as int]].planned(
            child.metadata,
            rows,
            count,
            *dtype->FixedSizeList_0,
        ) == Ok::<Option<EncodingRangeReadView>, VortexError>(
            primitive_plan(rows, *dtype->FixedSizeList_0),
        )
    &&& child.children.len() == 0
    &&& child.buffers.len() == 1
}

/// The elements of some lists.
pub open spec fn elements_in(row_range: Range<usize>, dtype: DType) -> Range<usize> {
    Range {
        start: (row_range.start * dtype->FixedSizeList_1) as usize,
        end: (row_range.end * dtype->FixedSizeList_1) as usize,
    }
}

/// A plan for lists of numbers decodes exactly the lists that are asked for, from exactly the
/// bytes of their elements.
proof fn lemma_list_of_numbers<P: VTable>(
    registry: Map<Seq<char>, P>,
    ids: Seq<Seq<char>>,
    node: TreeNodeView,
    row_range: Range<usize>,
    row_count: usize,
    dtype: DType,
    num_buffers: nat,
)
    requires
        is_list_of_numbers(registry, ids, node, row_range, row_count, dtype),
        spec_analyze_encoding(
            registry,
            ids,
            node,
            row_range,
            row_count,
            dtype,
            num_buffers,
        ) matches Ok(Some(_)),
    ensures
        ({
            let elements = elements_in(row_range, dtype);
            let b = node.children[0].buffers[0];
            &&& fixed_size_list_plan(row_range, row_count, dtype) is Some
            &&& dtype->FixedSizeList_1 > 0
            &&& b < num_buffers
            &&& primitive_plan(elements, *dtype->FixedSizeList_0) matches Some(of_elements)
            &&& spec_analyze_encoding(
                registry,
                ids,
                node,
                row_range,
                row_count,
                dtype,
                num_buffers,
            ) == Ok::<Option<SubtreeView>, VortexError>(
                Some(
                    SubtreeView {
                        decoded_range: row_range,
                        data_needed: nothing_needed(num_buffers).update(
                            b as int,
                            Some(NeededBuffer::Range(only_bytes(of_elements))),
                        ),
                        validity_needed: nothing_needed(num_buffers),
                    },
                ),
            )
        }),
{
    let once = spec_analyze_once(registry, ids, node, row_range, row_count, dtype, num_buffers);
    assert(once matches Ok(Some(_)));
    let plan = fixed_size_list_plan(row_range, row_count, dtype)->0;
    let child = node.children[0];
    let b = child.buffers[0];
    let element_type = *dtype->FixedSizeList_0;
    let elements = elements_in(row_range, dtype);
    let count = (row_count * dtype->FixedSizeList_1) as usize;
    let nothing = nothing_needed(num_buffers);
    assert(node.buffers =~= Seq::<u16>::empty());
    assert(need_each(nothing, node.buffers, plan.buffer_sub_ranges) == Ok::<
        Seq<Option<NeededBuffer>>,
        VortexError,
    >(nothing));
    let start = WalkView {
        data_needed: nothing,
        validity_needed: nothing,
        child_plans: Seq::empty(),
    };
    assert(spec_walk_children(registry, ids, node, plan, nothing, 0) == Ok::<
        WalkOutcome,
        VortexError,
    >(WalkOutcome::Done(start)));
    assert(asked_of_child(plan.children[0], 0, start.child_plans) == Some(elements));
    let walked = spec_walk_children(registry, ids, node, plan, nothing, 1);
    let of_child = spec_analyze_encoding(
        registry,
        ids,
        child,
        elements,
        count,
        element_type,
        num_buffers,
    );
    assert(of_child matches Ok(Some(_)));
    assert(spec_analyze_once(
        registry,
        ids,
        child,
        elements,
        count,
        element_type,
        num_buffers,
    ) matches Ok(Some(_)));
    assert(registry[ids[child.encoding as int]].planned(
        child.metadata,
        elements,
        count,
        element_type,
    ) == Ok::<Option<EncodingRangeReadView>, VortexError>(primitive_plan(elements, element_type)));
    let of_elements = primitive_plan(elements, element_type)->0;
    law_leaf_needs_what_its_encoding_names(
        registry,
        ids,
        child,
        elements,
        count,
        element_type,
        num_buffers,
        of_elements,
        elements,
    );
    assert(child.buffers =~= seq![b]);
    assert(of_elements.buffer_sub_ranges =~= seq![of_elements.buffer_sub_ranges[0]]);
    lemma_single_need(num_buffers, b, of_elements.buffer_sub_ranges[0]);
    let needed = nothing.update(b as int, Some(NeededBuffer::Range(only_bytes(of_elements))));
    assert(need_one(nothing, b, of_elements.buffer_sub_ranges[0]) is Ok);
    let child_plan = SubtreeView {
        decoded_range: elements,
        data_needed: needed,
        validity_needed: nothing,
    };
    assert(of_child == Ok::<Option<SubtreeView>, VortexError>(Some(child_plan)));
    assert(merge_needed(nothing, needed) =~= needed);
    assert(merge_needed(nothing, nothing) =~= nothing);
    let walk = WalkView {
        data_needed: needed,
        validity_needed: nothing,
        child_plans: Seq::<Option<SubtreeView>>::empty().push(Some(child_plan)),
    };
    assert(walked == Ok::<WalkOutcome, VortexError>(WalkOutcome::Done(walk)));
    assert(walk.child_plans =~= seq![Some(child_plan)]);
    law_fixed_size_list_maps_elements_to_lists(row_range, row_count, dtype, child_plan);
    let complete = SubtreeView {
        decoded_range: row_range,
        data_needed: needed,
        validity_needed: nothing,
    };
    assert(once == Ok::<Option<OutcomeView>, VortexError>(Some(OutcomeView::Complete(complete))));
    assert(spec_analyze_attempts(
        registry,
        ids,
        node,
        row_range,
        row_range,
        row_count,
        dtype,
        num_buffers,
        MAX_REPLAN_ATTEMPTS as nat,
    ) == Ok::<Option<SubtreeView>, VortexError>(Some(complete)));
}

/// A range read of fixed-size lists of numbers gives back the elements of the lists that were
/// asked for: each element lies, in the buffer that is put together, as far from the start as it
/// is from the first element of the first list, and consists of the bytes that it has in the
/// segment. No list has to be cut off.
pub proof fn law_fixed_size_list_range_read_gives_back_elements<P: VTable>(
    registry: Map<Seq<char>, P>,
    ids: Seq<Seq<char>>,
    tree: ArrayTreeView,
    row_range: Range<usize>,
    row_count: usize,
    dtype: DType,
    separate_reads: bool,
    segment: Seq<u8>,
    k: int,
    i: int,
)
    requires
        locations_fit(tree.buffers),
        tree.buffers.len() <= usize::MAX,
        buffers_end(tree.buffers, tree.buffers.len() as int) <= segment.len(),
        tree.root matches Some(root) && is_list_of_numbers(
            registry,
            ids,
            root,
            row_range,
            row_count,
            dtype,
        ),
        spec_plan_tree(
            registry,
            ids,
            tree,
            row_range,
            row_count,
            dtype,
            separate_reads,
        ) matches Ok(Some(_)),
        row_range.start <= k < row_range.end,
        0 <= i < dtype->FixedSizeList_1,
    ensures
        ({
            let plan = spec_plan_tree(
                registry,
                ids,
                tree,
                row_range,
                row_count,
                dtype,
                separate_reads,
            )->Ok_0->0;
            let b = (tree.root->0).children[0].buffers[0] as int;
            let offset = spec_locations(tree.buffers)[b].offset as int;
            let size = dtype->FixedSizeList_1;
            let width = ((*dtype->FixedSizeList_0)->Primitive_0).spec_byte_width() as int;
            let element = k * size + i;
            let position = ((k - row_range.start) * size + i) * width;
            &&& spec_assemble(plan, faithful_replies(segment, plan_requests(plan))) matches Ok(
                buffers,
            )
            &&& buffers[b].bytes.subrange(position, position + width) == segment.subrange(
                offset + element * width,
                offset + (element + 1) * width,
            )
            &&& plan.post_slice is None
        }),
{
    let root = tree.root->0;
    let n = tree.buffers.len();
    lemma_list_of_numbers(registry, ids, root, row_range, row_count, dtype, n);
    let b = root.children[0].buffers[0];
    let element_type = *dtype->FixedSizeList_0;
    let elements = elements_in(row_range, dtype);
    let bytes = only_bytes(primitive_plan(elements, element_type)->0);
    let subtree = spec_analyze_encoding(
        registry,
        ids,
        root,
        row_range,
        row_count,
        dtype,
        n,
    )->Ok_0->0;
    lemma_buffer_of_read(
        registry,
        ids,
        tree,
        row_range,
        row_count,
        dtype,
        separate_reads,
        segment,
        subtree,
        b,
        bytes,
    );
    let size = (dtype->FixedSizeList_1) as int;
    let width = (element_type->Primitive_0).spec_byte_width() as int;
    let (start, end) = (row_range.start as int, row_range.end as int);
    let element = k * size + i;
    let first = start * size;
    assert(first <= element < end * size && (k - start) * size + i == element - first)
        by (nonlinear_arith)
        requires
            start <= k < end,
            0 <= i < size,
            element == k * size + i,
            first == start * size,
    ;
    law_primitive_plan_is_exact(elements, element_type, element);
    let position = (element - first) * width;
    assert(position == element * width - first * width && (element + 1) * width == element * width
        + width && 0 <= position) by (nonlinear_arith)
        requires
            position == (element - first) * width,
            first <= element,
            width > 0,
    ;
    let offset = spec_locations(tree.buffers)[b as int].offset as int;
    let whole = segment.subrange(offset + bytes.start, offset + bytes.end);
    assert(whole.subrange(position, position + width) =~= segment.subrange(
        offset + element * width,
        offset + (element + 1) * width,
    ));
}

} // verus!
