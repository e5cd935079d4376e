//! What decoding part of an array gives back.
//!
//! An array is decoded by its encoding from the metadata and the buffers of its node and from the
//! rows of its children. Here a decoder is any function of these. An encoding answers rightly if
//! its decoder, given the bytes and the child rows that the answer names, computes the rows that
//! the answer promises. If all encodings of a session answer rightly, a range read of an array
//! gives back the rows that were asked for.

use crate::analyze::{
    asked_of_child, child_shape, spec_analyze_encoding, spec_has_validity_child,
    spec_resolve_decode_range, SubtreeView,
};
use crate::analyze_laws::lemma_walk_len;
use crate::assemble::{plan_requests, spec_assemble};
use crate::buffer::BufferView;
use crate::dtype::{DType, Nullability};
use crate::encoding::{BufferSubRange, ChildRangeRead, EncodingRangeReadView, VTable};
use crate::error::VortexError;
use crate::needed::{merge_needed, NeededBuffer};
use crate::plan::{
    absolute_range, lemma_locations_valid, need_is_valid, needed_bytes, spec_plan_tree,
    spec_post_slice, PlanView,
};
use crate::plan_laws::{
    faithful_replies, law_post_slice_keeps_the_requested_rows, law_range_read_from_tree_to_buffers,
    provided_buffer,
};
use crate::ranges::{spec_contains_range, spec_range_len};
use crate::tree::{
    buffers_end, lemma_buffers_end_monotonic, locations_fit, spec_locations, ArrayTreeView,
    TreeNodeView,
};
use crate::unshared::{
    as_need, child_was_planned, entry_after_children, lemma_children_were_planned,
    lemma_entry_after_children, lemma_entry_of_plan, lemma_need_each_unshared, lemma_plan_parts,
    lemma_unshared, owns, unshared, validity_plan,
};
use std::ops::Range;
use vstd::prelude::*;

verus! {

/// What an array is decoded from.
#[verifier::reject_recursive_types(V)]
pub struct ArraySource<V> {
    /// The identifier of the encoding.
    pub encoding: Seq<char>,
    /// The metadata of the node.
    pub metadata: Seq<u8>,
    /// The type of the array.
    pub dtype: DType,
    /// The buffers of the node.
    pub buffers: Seq<Seq<u8>>,
    /// The number of children of the node.
    pub num_children: nat,
    /// The value of a row of a child: of the child with a number, taken as an array of a type.
    pub child: spec_fn(int, DType, int) -> V,
}

/// The buffers that a node refers to, out of those of the tree.
pub open spec fn own_buffers(node: TreeNodeView, buffers: Seq<Seq<u8>>) -> Seq<Seq<u8>> {
    Seq::new(node.buffers.len(), |j: int| buffers[node.buffers[j] as int])
}

/// The value of a row of the array of a node, as its decoder computes it.
pub open spec fn row_value<V>(
    decode: spec_fn(ArraySource<V>, int) -> V,
    ids: Seq<Seq<char>>,
    node: TreeNodeView,
    dtype: DType,
    buffers: Seq<Seq<u8>>,
    row: int,
) -> V
    decreases node, 1nat,
{
    decode(
        ArraySource {
            encoding: ids[node.encoding as int],
            metadata: node.metadata,
            dtype,
            buffers: own_buffers(node, buffers),
            num_children: node.children.len(),
            child: child_values(decode, ids, node, buffers),
        },
        row,
    )
}

/// The values of the rows of the children of a node.
pub open spec fn child_values<V>(
    decode: spec_fn(ArraySource<V>, int) -> V,
    ids: Seq<Seq<char>>,
    node: TreeNodeView,
    buffers: Seq<Seq<u8>>,
) -> spec_fn(int, DType, int) -> V
    decreases node, 0nat,
{
    |c: int, dtype: DType, row: int|
        if 0 <= c < node.children.len() {
            row_value(decode, ids, node.children[c], dtype, buffers, row)
        } else {
            arbitrary()
        }
}

/// Whether a buffer has the bytes that an encoding asks for.
pub open spec fn has_bytes(bytes: Seq<u8>, sub_range: BufferSubRange) -> bool {
    match sub_range {
        BufferSubRange::Full => true,
        BufferSubRange::Range(range) => range.start <= range.end <= bytes.len(),
    }
}

/// The bytes of a buffer that an encoding asks for.
pub open spec fn cut(bytes: Seq<u8>, sub_range: BufferSubRange) -> Seq<u8> {
    match sub_range {
        BufferSubRange::Full => bytes,
        BufferSubRange::Range(range) => bytes.subrange(range.start as int, range.end as int),
    }
}

/// The bytes of several buffers that an encoding asks for.
pub open spec fn cut_all(buffers: Seq<Seq<u8>>, sub_ranges: Seq<BufferSubRange>) -> Seq<Seq<u8>> {
    Seq::new(buffers.len(), |j: int| cut(buffers[j], sub_ranges[j]))
}

/// A row of an array that is decoded once from all of its node's buffers and children, and once
/// from the parts that an encoding asked for.
#[verifier::reject_recursive_types(V)]
pub struct RowCase<V> {
    /// The metadata of the node.
    pub metadata: Seq<u8>,
    /// The rows that were asked for.
    pub requested: Range<usize>,
    /// The number of rows of the array.
    pub row_count: usize,
    /// The type of the array.
    pub dtype: DType,
    /// All bytes of the buffers of the node.
    pub buffers: Seq<Seq<u8>>,
    /// The number of children of the node.
    pub num_children: nat,
    /// What was planned for the children, where they are not read whole.
    pub child_plans: Seq<Option<SubtreeView>>,
    /// The rows of the whole children.
    pub whole: spec_fn(int, DType, int) -> V,
    /// The rows of the children as they are decoded from part of their bytes.
    pub part: spec_fn(int, DType, int) -> V,
    /// The row of the array.
    pub row: int,
}

impl<V> RowCase<V> {
    /// Whether a child that was decoded for `rows` has the values of these rows.
    pub open spec fn rows_agree(self, c: int, dtype: DType, rows: Range<usize>) -> bool {
        forall|r: int|
            rows.start <= r < rows.end ==> #[trigger] (self.whole)(c, dtype, r) == (self.part)(
                c,
                dtype,
                r - rows.start,
            )
    }

    /// Whether a child was planned and decoded as the answer of the encoding says.
    pub open spec fn child_agrees(self, action: ChildRangeRead, c: int) -> bool {
        match self.child_plans[c] {
            None => action is Full && forall|dtype: DType, r: int| #[trigger]
                (self.whole)(c, dtype, r) == (self.part)(c, dtype, r),
            Some(plan) => {
                &&& !(action is Full)
                &&& asked_of_child(action, c as nat, self.child_plans) matches Some(asked)
                &&& spec_contains_range(plan.decoded_range, asked)
                &&& !(action is Recurse) ==> plan.decoded_range == asked
                &&& self.rows_agree(c, child_shape(action).1, plan.decoded_range)
            },
        }
    }

    /// Whether the buffers and the children of the node are as the answer of the encoding says,
    /// and the row is one of those that are decoded.
    pub open spec fn fits(self, answer: EncodingRangeReadView, decoded: Range<usize>) -> bool {
        let num_data = answer.children.len();
        &&& spec_has_validity_child(answer.validity, self.num_children, num_data) is Some
        &&& self.buffers.len() == answer.buffer_sub_ranges.len()
        &&& forall|j: int|
            0 <= j < self.buffers.len() ==> has_bytes(
                #[trigger] self.buffers[j],
                answer.buffer_sub_ranges[j],
            )
        &&& self.child_plans.len() == num_data
        &&& forall|c: int|
            0 <= c < num_data ==> self.child_agrees(#[trigger] answer.children[c], c)
        &&& self.num_children > num_data ==> self.rows_agree(
            num_data as int,
            DType::Bool(Nullability::NonNullable),
            decoded,
        )
        &&& spec_contains_range(decoded, self.requested)
        &&& decoded.start <= self.row < decoded.end
    }

    /// The array with all of its buffers and children.
    pub open spec fn whole_source(self, encoding: Seq<char>) -> ArraySource<V> {
        ArraySource {
            encoding,
            metadata: self.metadata,
            dtype: self.dtype,
            buffers: self.buffers,
            num_children: self.num_children,
            child: self.whole,
        }
    }

    /// The array with the parts that were asked for.
    pub open spec fn part_source(
        self,
        encoding: Seq<char>,
        answer: EncodingRangeReadView,
    ) -> ArraySource<V> {
        ArraySource {
            buffers: cut_all(self.buffers, answer.buffer_sub_ranges),
            child: self.part,
            ..self.whole_source(encoding)
        }
    }
}

/// Whether the value of the row is the same, decoded from the parts and from the whole.
pub open spec fn row_is_right<P: VTable, V>(
    decode: spec_fn(ArraySource<V>, int) -> V,
    plugin: P,
    encoding: Seq<char>,
    case: RowCase<V>,
) -> bool {
    plugin.planned(case.metadata, case.requested, case.row_count, case.dtype) matches Ok(
        Some(answer),
    ) ==> (spec_resolve_decode_range(answer.decode_info, case.child_plans) matches Some(decoded)
        ==> case.fits(answer, decoded) ==> decode(
        case.part_source(encoding, answer),
        case.row - decoded.start,
    ) == decode(case.whole_source(encoding), case.row))
}

/// Whether an encoding answers rightly: whatever it is asked, the value of a row that the answer
/// promises is the same, decoded from the parts and from the whole.
pub open spec fn answers_rightly<P: VTable, V>(
    decode: spec_fn(ArraySource<V>, int) -> V,
    plugin: P,
    encoding: Seq<char>,
) -> bool {
    forall|case: RowCase<V>| #[trigger] row_is_right(decode, plugin, encoding, case)
}

/// Whether all encodings answer rightly.
pub open spec fn all_answer_rightly<P: VTable, V>(
    decode: spec_fn(ArraySource<V>, int) -> V,
    registry: Map<Seq<char>, P>,
) -> bool {
    forall|id: Seq<char>|
        registry.contains_key(id) ==> answers_rightly(decode, #[trigger] registry[id], id)
}

/// What a plan needs of a buffer.
pub open spec fn planned_need(plan: SubtreeView, b: u16) -> Option<NeededBuffer> {
    match plan.data_needed[b as int] {
        Some(needed) => Some(needed),
        None => plan.validity_needed[b as int],
    }
}

/// Whether `part` holds the bytes of a buffer that are needed of it.
pub open spec fn is_kept(
    need: Option<NeededBuffer>,
    full: Seq<Seq<u8>>,
    part: Seq<Seq<u8>>,
    b: u16,
) -> bool {
    match need {
        None => true,
        Some(NeededBuffer::Full) => part[b as int] == full[b as int],
        Some(NeededBuffer::Range(range)) => range.start <= range.end <= full[b as int].len()
            && part[b as int] == full[b as int].subrange(range.start as int, range.end as int),
    }
}

proof fn lemma_same_buffers<V>(
    decode: spec_fn(ArraySource<V>, int) -> V,
    ids: Seq<Seq<char>>,
    node: TreeNodeView,
    full: Seq<Seq<u8>>,
    part: Seq<Seq<u8>>,
)
    requires
        unshared(node),
        forall|b: u16| #[trigger] owns(node, b) ==> part[b as int] == full[b as int],
    ensures
        forall|dtype: DType, row: int| #[trigger]
            row_value(decode, ids, node, dtype, full, row) == row_value(
                decode,
                ids,
                node,
                dtype,
                part,
                row,
            ),
    decreases node,
{
    assert forall|j: int| 0 <= j < node.buffers.len() implies own_buffers(node, full)[j]
        == own_buffers(node, part)[j] by {
        lemma_unshared(node, node.buffers[j]);
        assert(owns(node, node.buffers[j]));
    }
    assert(own_buffers(node, full) =~= own_buffers(node, part));
    assert forall|c: int, dtype: DType, row: int| #[trigger]
        child_values(decode, ids, node, full)(c, dtype, row) == child_values(
            decode,
            ids,
            node,
            part,
        )(c, dtype, row) by {
        if 0 <= c < node.children.len() {
            let child = node.children[c];
            assert forall|b: u16| #[trigger] owns(child, b) implies part[b as int]
                == full[b as int] by {
                lemma_unshared(node, b);
                assert(owns(node, b));
            }
            lemma_unshared(node, 0);
            lemma_same_buffers(decode, ids, child, full, part);
            assert(row_value(decode, ids, child, dtype, full, row) == row_value(
                decode,
                ids,
                child,
                dtype,
                part,
                row,
            ));
        }
    }
    assert(child_values(decode, ids, node, full) =~= child_values(decode, ids, node, part));
}

/// A row of a node has the same value, decoded from the bytes that the plan of the node needs and
/// decoded from all bytes, if all encodings answer rightly and no two nodes share a buffer.
pub proof fn law_planned_rows_have_their_values<P: VTable, V>(
    decode: spec_fn(ArraySource<V>, int) -> V,
    registry: Map<Seq<char>, P>,
    ids: Seq<Seq<char>>,
    node: TreeNodeView,
    requested: Range<usize>,
    row_count: usize,
    dtype: DType,
    num_buffers: nat,
    full: Seq<Seq<u8>>,
    part: Seq<Seq<u8>>,
    row: int,
)
    requires
        all_answer_rightly(decode, registry),
        unshared(node),
        spec_analyze_encoding(
            registry,
            ids,
            node,
            requested,
            row_count,
            dtype,
            num_buffers,
        ) matches Ok(Some(_)),
        ({
            let plan = spec_analyze_encoding(
                registry,
                ids,
                node,
                requested,
                row_count,
                dtype,
                num_buffers,
            )->Ok_0->0;
            &&& plan.decoded_range.start <= row < plan.decoded_range.end
            &&& forall|b: u16| #[trigger]
                owns(node, b) ==> is_kept(planned_need(plan, b), full, part, b)
        }),
    ensures
        ({
            let plan = spec_analyze_encoding(
                registry,
                ids,
                node,
                requested,
                row_count,
                dtype,
                num_buffers,
            )->Ok_0->0;
            row_value(decode, ids, node, dtype, part, row - plan.decoded_range.start) == row_value(
                decode,
                ids,
                node,
                dtype,
                full,
                row,
            )
        }),
    decreases node,
{
    let plan = spec_analyze_encoding(
        registry,
        ids,
        node,
        requested,
        row_count,
        dtype,
        num_buffers,
    )->Ok_0->0;
    let parts = lemma_plan_parts(registry, ids, node, requested, row_count, dtype, num_buffers);
    let answer = parts.answer;
    let n = answer.children.len();
    let walk = parts.walk;
    lemma_unshared(node, 0);
    lemma_need_each_unshared(num_buffers, node.buffers, answer.buffer_sub_ranges);
    lemma_walk_len(registry, ids, node, answer, parts.own, n);
    lemma_children_were_planned(registry, ids, node, answer, parts.own, n);
    let case = RowCase {
        metadata: node.metadata,
        requested: parts.requested,
        row_count,
        dtype,
        buffers: own_buffers(node, full),
        num_children: node.children.len(),
        child_plans: walk.child_plans,
        whole: child_values(decode, ids, node, full),
        part: child_values(decode, ids, node, part),
        row,
    };
    let id = ids[node.encoding as int];
    assert(answers_rightly(decode, registry[id], id));
    assert(row_is_right(decode, registry[id], id, case));

    // The buffers of the node itself.
    assert forall|j: int| 0 <= j < node.buffers.len() implies has_bytes(
        #[trigger] case.buffers[j],
        answer.buffer_sub_ranges[j],
    ) && own_buffers(node, part)[j] == cut(case.buffers[j], answer.buffer_sub_ranges[j]) by {
        let b = node.buffers[j];
        lemma_unshared(node, b);
        lemma_entry_after_children(registry, ids, node, answer, num_buffers, n, b);
        assert(owns(node, b));
        assert(planned_need(plan, b) == Some(as_need(answer.buffer_sub_ranges[j])));
    }
    assert(own_buffers(node, part) =~= cut_all(case.buffers, answer.buffer_sub_ranges));

    // The children that hold data.
    assert forall|c: int| 0 <= c < n implies case.child_agrees(
        #[trigger] answer.children[c],
        c,
    ) by {
        let action = answer.children[c];
        let child = node.children[c];
        assert(child_was_planned(
            registry,
            ids,
            node,
            answer,
            walk.child_plans,
            num_buffers,
            c,
        ));
        assert forall|b: u16| #[trigger] owns(child, b) implies owns(node, b) && b < num_buffers
            && (match walk.child_plans[c] {
            Some(child_plan) => planned_need(plan, b) == planned_need(child_plan, b),
            None => planned_need(plan, b) == Some(NeededBuffer::Full),
        }) by {
            lemma_unshared(node, b);
            lemma_entry_after_children(registry, ids, node, answer, num_buffers, n, b);
            assert(entry_after_children(node, parts.own, walk, n, b));
            if node.children.len() > n {
                lemma_unaffected_by_validity(
                    registry,
                    ids,
                    node,
                    plan.decoded_range,
                    row_count,
                    num_buffers,
                    walk.validity_needed,
                    c,
                    b,
                );
            }
        }
        match walk.child_plans[c] {
            None => {
                lemma_same_buffers(decode, ids, child, full, part);
                assert forall|dt: DType, r: int| #[trigger] (case.whole)(c, dt, r) == (case.part)(
                    c,
                    dt,
                    r,
                ) by {
                    assert(row_value(decode, ids, child, dt, full, r) == row_value(
                        decode,
                        ids,
                        child,
                        dt,
                        part,
                        r,
                    ));
                }
            },
            Some(child_plan) => {
                let asked = asked_of_child(action, c as nat, walk.child_plans)->0;
                let (child_count, child_type) = child_shape(action);
                assert forall|r: int|
                    child_plan.decoded_range.start <= r
                        < child_plan.decoded_range.end implies #[trigger] (case.whole)(
                    c,
                    child_type,
                    r,
                ) == (case.part)(c, child_type, r - child_plan.decoded_range.start) by {
                    law_planned_rows_have_their_values(
                        decode,
                        registry,
                        ids,
                        child,
                        asked,
                        child_count,
                        child_type,
                        num_buffers,
                        full,
                        part,
                        r,
                    );
                }
            },
        }
    }

    // The validity.
    if node.children.len() > n {
        let child = node.children[n as int];
        let bool_type = DType::Bool(Nullability::NonNullable);
        let validity = validity_plan(
            registry,
            ids,
            node,
            plan.decoded_range,
            row_count,
            num_buffers,
        );
        assert forall|b: u16| #[trigger] owns(child, b) implies owns(node, b) && b < num_buffers
            && planned_need(plan, b) == planned_need(validity, b) by {
            lemma_unshared(node, b);
            lemma_entry_of_plan(
                registry,
                ids,
                child,
                plan.decoded_range,
                row_count,
                bool_type,
                num_buffers,
                b,
            );
            lemma_entry_after_children(registry, ids, node, answer, num_buffers, n, b);
            assert(entry_after_children(node, parts.own, walk, n, b));
            assert(forall|k: int| 0 <= k < n ==> !#[trigger] owns(node.children[k], b));
            let merged = merge_needed(walk.validity_needed, validity.data_needed);
            assert(merged[b as int] == validity.data_needed[b as int]);
        }
        assert forall|r: int|
            plan.decoded_range.start <= r < plan.decoded_range.end implies #[trigger] (case.whole)(
            n as int,
            bool_type,
            r,
        ) == (case.part)(n as int, bool_type, r - plan.decoded_range.start) by {
            law_planned_rows_have_their_values(
                decode,
                registry,
                ids,
                child,
                plan.decoded_range,
                row_count,
                bool_type,
                num_buffers,
                full,
                part,
                r,
            );
        }
    }
    assert(case.fits(answer, plan.decoded_range));
    assert(case.part_source(id, answer).buffers == own_buffers(node, part));
}

/// What a node needs for its validity leaves the buffers of its other children alone.
proof fn lemma_unaffected_by_validity<P: VTable>(
    registry: Map<Seq<char>, P>,
    ids: Seq<Seq<char>>,
    node: TreeNodeView,
    decoded: Range<usize>,
    row_count: usize,
    num_buffers: nat,
    needed: Seq<Option<NeededBuffer>>,
    c: int,
    b: u16,
)
    requires
        unshared(node),
        0 <= c < node.children.len() - 1,
        owns(node.children[c], b),
        b < num_buffers,
        needed.len() == num_buffers,
        spec_analyze_encoding(
            registry,
            ids,
            node.children[node.children.len() - 1],
            decoded,
            row_count,
            DType::Bool(Nullability::NonNullable),
            num_buffers,
        ) matches Ok(Some(_)),
    ensures
        ({
            let validity = validity_plan(registry, ids, node, decoded, row_count, num_buffers);
            merge_needed(
                merge_needed(needed, validity.data_needed),
                validity.validity_needed,
            )[b as int] == needed[b as int]
        }),
{
    lemma_unshared(node, b);
    let last = node.children[node.children.len() - 1];
    assert(!owns(last, b));
    lemma_entry_of_plan(
        registry,
        ids,
        last,
        decoded,
        row_count,
        DType::Bool(Nullability::NonNullable),
        num_buffers,
        b,
    );
    let validity = validity_plan(registry, ids, node, decoded, row_count, num_buffers);
    let merged = merge_needed(needed, validity.data_needed);
    assert(merged[b as int] == needed[b as int]);
}

/// The buffers of a tree with all of their bytes, as they lie in the segment.
pub open spec fn whole_buffers(tree: ArrayTreeView, segment: Seq<u8>) -> Seq<Seq<u8>> {
    Seq::new(
        tree.buffers.len(),
        |i: int|
            {
                let location = spec_locations(tree.buffers)[i];
                segment.subrange(
                    location.offset as int,
                    location.offset + location.length,
                )
            },
    )
}

/// The bytes of buffers.
pub open spec fn bytes_of(buffers: Seq<BufferView>) -> Seq<Seq<u8>> {
    Seq::new(buffers.len(), |i: int| buffers[i].bytes)
}

/// The decoded rows that a plan keeps.
pub open spec fn kept_rows(plan: PlanView) -> Range<usize> {
    match plan.post_slice {
        None => Range { start: 0, end: plan.decode_len },
        Some(kept) => kept,
    }
}

/// A buffer of which a plan needs something is put together from just these bytes.
proof fn lemma_provided_is_kept(
    plan: SubtreeView,
    tree: ArrayTreeView,
    segment: Seq<u8>,
    part: Seq<Seq<u8>>,
    b: u16,
)
    requires
        locations_fit(tree.buffers),
        buffers_end(tree.buffers, tree.buffers.len() as int) <= segment.len(),
        b < tree.buffers.len(),
        plan.data_needed[b as int] is None || plan.validity_needed[b as int] is None,
        need_is_valid(plan.data_needed[b as int], spec_locations(tree.buffers)[b as int]),
        need_is_valid(plan.validity_needed[b as int], spec_locations(tree.buffers)[b as int]),
        part[b as int] == provided_buffer(
            plan,
            spec_locations(tree.buffers),
            segment,
            b as int,
        ).bytes,
    ensures
        is_kept(planned_need(plan, b), whole_buffers(tree, segment), part, b),
{
    lemma_locations_valid(tree.buffers);
    lemma_buffers_end_monotonic(tree.buffers, b + 1, tree.buffers.len() as int);
    let location = spec_locations(tree.buffers)[b as int];
    let whole = whole_buffers(tree, segment)[b as int];
    assert(location.offset + location.length <= segment.len());
    if let Some(needed) = planned_need(plan, b) {
        let range = needed_bytes(needed, location.length);
        assert(whole.subrange(range.start as int, range.end as int) =~= segment.subrange(
            location.offset + range.start,
            location.offset + range.end,
        ));
        assert(whole.subrange(0, location.length as int) =~= whole);
        if range.start < range.end {
            assert(absolute_range(Some(needed), location) is Some);
        } else {
            assert(part[b as int] =~= whole.subrange(range.start as int, range.end as int));
        }
    }
}

/// A buffer of which a plan needs one range comes out of a range read with the bytes of that
/// range.
pub proof fn lemma_buffer_of_read<P: VTable>(
    registry: Map<Seq<char>, P>,
    ids: Seq<Seq<char>>,
    tree: ArrayTreeView,
    row_range: Range<usize>,
    row_count: usize,
    dtype: DType,
    separate_reads: bool,
    segment: Seq<u8>,
    subtree: SubtreeView,
    b: u16,
    range: Range<usize>,
)
    requires
        locations_fit(tree.buffers),
        tree.buffers.len() <= usize::MAX,
        buffers_end(tree.buffers, tree.buffers.len() as int) <= segment.len(),
        spec_plan_tree(
            registry,
            ids,
            tree,
            row_range,
            row_count,
            dtype,
            separate_reads,
        ) matches Ok(Some(_)),
        spec_analyze_encoding(
            registry,
            ids,
            tree.root->0,
            row_range,
            row_count,
            dtype,
            tree.buffers.len(),
        ) == Ok::<Option<SubtreeView>, VortexError>(Some(subtree)),
        b < tree.buffers.len(),
        subtree.data_needed[b as int] is None || subtree.validity_needed[b as int] is None,
        planned_need(subtree, b) == Some(NeededBuffer::Range(range)),
    ensures
        ({
            let plan = spec_plan_tree(
                registry,
                ids,
                tree,
                row_range,
                row_count,
                dtype,
                separate_reads,
            )->Ok_0->0;
            let offset = spec_locations(tree.buffers)[b as int].offset as int;
            &&& plan.post_slice == spec_post_slice(subtree.decoded_range, row_range)
            &&& spec_assemble(plan, faithful_replies(segment, plan_requests(plan))) matches Ok(
                buffers,
            )
            &&& range.start <= range.end
            &&& offset + range.end <= segment.len()
            &&& buffers[b as int].bytes == segment.subrange(
                offset + range.start,
                offset + range.end,
            )
        }),
{
    let plan = spec_plan_tree(
        registry,
        ids,
        tree,
        row_range,
        row_count,
        dtype,
        separate_reads,
    )->Ok_0->0;
    law_range_read_from_tree_to_buffers(
        registry,
        ids,
        tree,
        row_range,
        row_count,
        dtype,
        separate_reads,
        segment,
    );
    let buffers = spec_assemble(plan, faithful_replies(segment, plan_requests(plan)))->Ok_0;
    let part = bytes_of(buffers);
    let location = spec_locations(tree.buffers)[b as int];
    let needs = (subtree.data_needed[b as int], subtree.validity_needed[b as int]);
    assert(need_is_valid(needs.0, location) && need_is_valid(needs.1, location));
    lemma_provided_is_kept(subtree, tree, segment, part, b);
    lemma_locations_valid(tree.buffers);
    lemma_buffers_end_monotonic(tree.buffers, b + 1, tree.buffers.len() as int);
    assert(whole_buffers(tree, segment)[b as int].subrange(range.start as int, range.end as int)
        =~= segment.subrange(location.offset + range.start, location.offset + range.end));
}

/// A range read gives back the rows that were asked for: as many as were asked for are kept, and
/// each has the value, null or not, that it has when the whole array is decoded from its segment.
/// This holds if all encodings answer rightly and no two nodes share a buffer.
pub proof fn law_range_read_gives_back_the_rows<P: VTable, V>(
    decode: spec_fn(ArraySource<V>, int) -> V,
    registry: Map<Seq<char>, P>,
    ids: Seq<Seq<char>>,
    tree: ArrayTreeView,
    row_range: Range<usize>,
    row_count: usize,
    dtype: DType,
    separate_reads: bool,
    segment: Seq<u8>,
    row: int,
)
    requires
        all_answer_rightly(decode, registry),
        tree.root matches Some(root) && unshared(root),
        locations_fit(tree.buffers),
        tree.buffers.len() <= usize::MAX,
        buffers_end(tree.buffers, tree.buffers.len() as int) <= segment.len(),
        spec_plan_tree(
            registry,
            ids,
            tree,
            row_range,
            row_count,
            dtype,
            separate_reads,
        ) matches Ok(Some(_)),
        row_range.start <= row < row_range.end,
    ensures
        ({
            let plan = spec_plan_tree(
                registry,
                ids,
                tree,
                row_range,
                row_count,
                dtype,
                separate_reads,
            )->Ok_0->0;
            let root = tree.root->0;
            let kept = kept_rows(plan);
            &&& kept.start <= kept.end <= plan.decode_len
            &&& spec_range_len(kept) == spec_range_len(row_range)
            &&& spec_assemble(plan, faithful_replies(segment, plan_requests(plan))) matches Ok(
                buffers,
            )
            &&& row_value(
                decode,
                ids,
                root,
                dtype,
                bytes_of(buffers),
                kept.start + (row - row_range.start),
            ) == row_value(decode, ids, root, dtype, whole_buffers(tree, segment), row)
        }),
{
    let root = tree.root->0;
    let n = tree.buffers.len();
    let subtree = spec_analyze_encoding(
        registry,
        ids,
        root,
        row_range,
        row_count,
        dtype,
        n,
    )->Ok_0->0;
    let plan = spec_plan_tree(
        registry,
        ids,
        tree,
        row_range,
        row_count,
        dtype,
        separate_reads,
    )->Ok_0->0;
    law_range_read_from_tree_to_buffers(
        registry,
        ids,
        tree,
        row_range,
        row_count,
        dtype,
        separate_reads,
        segment,
    );
    law_post_slice_keeps_the_requested_rows(
        subtree,
        spec_locations(tree.buffers),
        row_range,
        separate_reads,
    );
    let buffers = spec_assemble(plan, faithful_replies(segment, plan_requests(plan)))->Ok_0;
    let part = bytes_of(buffers);
    let full = whole_buffers(tree, segment);
    assert forall|b: u16| #[trigger] owns(root, b) implies is_kept(
        planned_need(subtree, b),
        full,
        part,
        b,
    ) by {
        lemma_entry_of_plan(registry, ids, root, row_range, row_count, dtype, n, b);
        lemma_provided_is_kept(subtree, tree, segment, part, b);
    }
    law_planned_rows_have_their_values(
        decode,
        registry,
        ids,
        root,
        row_range,
        row_count,
        dtype,
        n,
        full,
        part,
        row,
    );
}

} // verus!
