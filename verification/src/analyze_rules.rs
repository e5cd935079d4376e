//! How the plan of a node follows from the answer of its encoding and the plans of its children.

use crate::analyze::{
    after_child, after_validity, asked_of_child, child_shape, children_buffers, need_all,
    need_each, optional_view, plan_len_ok, plans_view, result_view, spec_analyze_attempts,
    spec_analyze_encoding, spec_analyze_once, spec_has_validity_child, spec_resolve_decode_range,
    spec_walk_children, subtree_buffers, OutcomeView, ReadContext, SubtreePlan, SubtreeView,
    WalkOutcome, WalkView, MAX_REPLAN_ATTEMPTS,
};
use crate::dtype::{DType, Nullability};
use crate::encoding::{
    planned_view, BufferSubRange, ChildRangeRead, EncodingRangeRead, EncodingRangeReadView,
    RangeDecodeInfo, VTable, ValidityRangeRead,
};
use crate::error::{VortexError, VortexResult};
use crate::needed::{missing_buffer, nothing_needed, NeededBuffer};
use crate::tree::TreeNodeView;
use std::ops::Range;
use vstd::arithmetic::div_mod::{lemma_div_multiples_vanish, lemma_fundamental_div_mod};
use vstd::prelude::*;

verus! {

/// A node decodes the rows that its encoding names, or else as many as the rows of a child make:
/// the child was planned, and its rows begin and end at a multiple of the number of child rows to
/// a row.
pub proof fn law_decoded_rows(
    decode_info: RangeDecodeInfo,
    child_plans: Seq<Option<SubtreeView>>,
    rows: Range<usize>,
)
    ensures
        decode_info matches RangeDecodeInfo::Rows(named) ==> spec_resolve_decode_range(
            decode_info,
            child_plans,
        ) == Some(named),
        decode_info matches RangeDecodeInfo::FromChild { child_idx, divisor } ==> (
        spec_resolve_decode_range(decode_info, child_plans) == Some(rows) <==> {
            &&& divisor > 0
            &&& child_idx < child_plans.len()
            &&& child_plans[child_idx as int] matches Some(child)
            &&& child.decoded_range.start == rows.start * divisor
            &&& child.decoded_range.end == rows.end * divisor
        }),
{
    if let RangeDecodeInfo::FromChild { child_idx, divisor } = decode_info {
        if divisor > 0 && child_idx < child_plans.len() {
            if let Some(child) = child_plans[child_idx as int] {
                let d = divisor as int;
                let (start, end) = (
                    child.decoded_range.start as int,
                    child.decoded_range.end as int,
                );
                lemma_fundamental_div_mod(start, d);
                lemma_fundamental_div_mod(end, d);
                lemma_div_multiples_vanish(rows.start as int, d);
                lemma_div_multiples_vanish(rows.end as int, d);
                lemma_fundamental_div_mod(rows.start * d, d);
                lemma_fundamental_div_mod(rows.end * d, d);
                assert(d * rows.start == rows.start * d) by (nonlinear_arith);
                assert(d * rows.end == rows.end * d) by (nonlinear_arith);
                assert(d * (start / d) == (start / d) * d) by (nonlinear_arith);
                assert(d * (end / d) == (end / d) * d) by (nonlinear_arith);
            }
        }
    }
}

/// A node has the children that its encoding accounts for, and one more for its validity if the
/// encoding may have one; a node with any other number of children is not planned.
pub proof fn law_validity_is_the_last_child(
    validity: ValidityRangeRead,
    num_children: nat,
    data_children: nat,
)
    ensures
        spec_has_validity_child(validity, num_children, data_children) == Some(false)
            <==> num_children == data_children,
        spec_has_validity_child(validity, num_children, data_children) == Some(true)
            <==> num_children == data_children + 1 && validity is Optional,
        spec_has_validity_child(validity, num_children, data_children) is None <==> !(num_children
            == data_children || num_children == data_children + 1 && validity is Optional),
{
}

/// A child is asked for the rows that the encoding of its parent names, or for those that an
/// earlier child decodes, and taken to have the number of rows and the type that are named.
pub proof fn law_what_children_are_asked_for(
    action: ChildRangeRead,
    child_idx: nat,
    child_plans: Seq<Option<SubtreeView>>,
)
    ensures
        action matches ChildRangeRead::Recurse { row_range, row_count, dtype } ==> asked_of_child(
            action,
            child_idx,
            child_plans,
        ) == Some(row_range) && child_shape(action) == (row_count, dtype),
        action matches ChildRangeRead::RecurseExact { row_range, row_count, dtype }
            ==> asked_of_child(action, child_idx, child_plans) == Some(row_range) && child_shape(
            action,
        ) == (row_count, dtype),
        action matches ChildRangeRead::RecurseWithDecodedRange {
            child_idx: source,
            row_count,
            dtype,
        } ==> {
            &&& child_shape(action) == (row_count, dtype)
            &&& source < child_idx && source < child_plans.len() ==> match child_plans[
                source as int
            ] {
                Some(plan) => asked_of_child(action, child_idx, child_plans) == Some(
                    plan.decoded_range,
                ),
                None => asked_of_child(action, child_idx, child_plans) is None,
            }
            &&& source >= child_idx || source >= child_plans.len() ==> asked_of_child(
                action,
                child_idx,
                child_plans,
            ) is None
        },
        action is Full ==> asked_of_child(action, child_idx, child_plans) is None,
{
}

/// A planned child is taken as it is, unless it had to decode exactly the rows that it was asked
/// for, and decodes others: then the node is not planned, or is planned again for all rows of both
/// where these were the rows of an earlier child.
pub proof fn law_how_a_planned_child_is_taken(
    action: ChildRangeRead,
    asked: Range<usize>,
    child: SubtreeView,
    walk: WalkView,
)
    requires
        !(action is Full),
    ensures
        ({
            let outcome = after_child(action, asked, child, walk);
            let same = child.decoded_range.start == asked.start && child.decoded_range.end
                == asked.end;
            &&& outcome is Done <==> same || action is Recurse
            &&& outcome is Stuck <==> !same && action is RecurseExact
            &&& outcome is Replan <==> !same && action is RecurseWithDecodedRange
            &&& outcome matches WalkOutcome::Replan(rows) ==> {
                &&& rows.start <= asked.start && rows.start <= child.decoded_range.start
                &&& rows.start == asked.start || rows.start == child.decoded_range.start
                &&& rows.end >= asked.end && rows.end >= child.decoded_range.end
                &&& rows.end == asked.end || rows.end == child.decoded_range.end
            }
            &&& outcome matches WalkOutcome::Done(after) ==> after.child_plans
                == walk.child_plans.push(Some(child))
        }),
{
}

/// The plan of the validity has to decode the rows of the node. If it decodes others, the node is
/// planned again for all rows of both; if not, the plan of the node is complete.
pub proof fn law_validity_decodes_the_rows_of_the_node(
    decoded: Range<usize>,
    validity: SubtreeView,
    walk: WalkView,
)
    ensures
        ({
            let outcome = after_validity(decoded, validity, walk);
            let same = validity.decoded_range.start == decoded.start && validity.decoded_range.end
                == decoded.end;
            &&& outcome is Complete <==> same
            &&& outcome matches OutcomeView::Complete(plan) ==> plan.decoded_range == decoded
                && plan.data_needed == walk.data_needed
            &&& outcome matches OutcomeView::Replan(rows) ==> {
                &&& rows.start <= decoded.start && rows.start <= validity.decoded_range.start
                &&& rows.start == decoded.start || rows.start == validity.decoded_range.start
                &&& rows.end >= decoded.end && rows.end >= validity.decoded_range.end
                &&& rows.end == decoded.end || rows.end == validity.decoded_range.end
            }
        }),
{
}

/// The buffers of a tree are those of its root, and then those of each child in turn.
pub proof fn law_buffers_of_a_tree(node: TreeNodeView, n: nat)
    requires
        n < node.children.len(),
    ensures
        subtree_buffers(node) == node.buffers + children_buffers(node, node.children.len()),
        children_buffers(node, 0).len() == 0,
        children_buffers(node, n + 1) == children_buffers(node, n) + subtree_buffers(
            node.children[n as int],
        ),
{
}

/// What is needed of buffers is refused for the first buffer that is not there.
pub proof fn law_missing_buffers_are_refused(
    needed: Seq<Option<NeededBuffer>>,
    buffers: Seq<u16>,
    sub_ranges: Seq<BufferSubRange>,
    j: int,
)
    requires
        buffers.len() == sub_ranges.len(),
        0 <= j < buffers.len(),
        forall|i: int| 0 <= i < j ==> (#[trigger] buffers[i]) < needed.len(),
        buffers[j] >= needed.len(),
    ensures
        need_each(needed, buffers, sub_ranges) == Err::<Seq<Option<NeededBuffer>>, VortexError>(
            missing_buffer(buffers[j], needed.len()),
        ),
        need_all(needed, buffers) == Err::<Seq<Option<NeededBuffer>>, VortexError>(
            missing_buffer(buffers[j], needed.len()),
        ),
    decreases buffers.len(),
{
    if j < buffers.len() - 1 {
        law_missing_buffers_are_refused(needed, buffers.drop_last(), sub_ranges.drop_last(), j);
    } else {
        law_present_buffers_are_accepted(needed, buffers.drop_last(), sub_ranges.drop_last());
    }
}

/// Needs of buffers that are there are accepted, and speak of the same buffers.
pub proof fn law_present_buffers_are_accepted(
    needed: Seq<Option<NeededBuffer>>,
    buffers: Seq<u16>,
    sub_ranges: Seq<BufferSubRange>,
)
    requires
        buffers.len() == sub_ranges.len(),
        forall|i: int| 0 <= i < buffers.len() ==> (#[trigger] buffers[i]) < needed.len(),
    ensures
        need_each(needed, buffers, sub_ranges) matches Ok(after) && after.len() == needed.len(),
        need_all(needed, buffers) matches Ok(after) && after.len() == needed.len(),
    decreases buffers.len(),
{
    if buffers.len() > 0 {
        let before = buffers.drop_last();
        assert forall|i: int| 0 <= i < before.len() implies (#[trigger] before[i])
            < needed.len() by {
            assert(before[i] == buffers[i]);
        }
        assert(buffers[buffers.len() - 1] == buffers.last());
        law_present_buffers_are_accepted(needed, before, sub_ranges.drop_last());
    }
}

/// A node is not planned if its encoding is not known, or if its encoding finds that it cannot be
/// read in part, or has another number of children or buffers than the encoding accounts for. What
/// the encoding refuses is refused, and so is a buffer that is not there.
pub proof fn law_when_a_node_is_not_planned<P: VTable>(
    registry: Map<Seq<char>, P>,
    ids: Seq<Seq<char>>,
    node: TreeNodeView,
    requested: Range<usize>,
    row_count: usize,
    dtype: DType,
    num_buffers: nat,
)
    ensures
        ({
            let planned = spec_analyze_encoding(
                registry,
                ids,
                node,
                requested,
                row_count,
                dtype,
                num_buffers,
            );
            let known = node.encoding < ids.len() && registry.contains_key(
                ids[node.encoding as int],
            );
            let answer = registry[ids[node.encoding as int]].planned(
                node.metadata,
                requested,
                row_count,
                dtype,
            );
            &&& !known ==> planned == Ok::<Option<SubtreeView>, VortexError>(None)
            &&& known ==> (answer matches Err(e) ==> planned == Err::<
                Option<SubtreeView>,
                VortexError,
            >(e))
            &&& known ==> (answer matches Ok(None) ==> planned == Ok::<
                Option<SubtreeView>,
                VortexError,
            >(None))
            &&& known ==> (answer matches Ok(Some(plan)) ==> {
                let children_fit = node.children.len() == plan.children.len() || plan.validity
                    is Optional && node.children.len() == plan.children.len() + 1;
                let buffers_fit = node.buffers.len() == plan.buffer_sub_ranges.len();
                &&& !children_fit || !buffers_fit ==> planned == Ok::<
                    Option<SubtreeView>,
                    VortexError,
                >(None)
                &&& children_fit && buffers_fit ==> (need_each(
                    nothing_needed(num_buffers),
                    node.buffers,
                    plan.buffer_sub_ranges,
                ) matches Err(e) ==> planned == Err::<Option<SubtreeView>, VortexError>(e))
            })
        }),
{
    let attempts = spec_analyze_attempts(
        registry,
        ids,
        node,
        requested,
        requested,
        row_count,
        dtype,
        num_buffers,
        MAX_REPLAN_ATTEMPTS as nat,
    );
    let once = spec_analyze_once(registry, ids, node, requested, row_count, dtype, num_buffers);
    assert(once matches Err(e) ==> attempts == Err::<Option<SubtreeView>, VortexError>(e));
    assert(once matches Ok(None) ==> attempts == Ok::<Option<SubtreeView>, VortexError>(None));
}

/// A node is planned at most four times: first for the rows that are asked for, and each further
/// time for all rows of the time before and those that turned out to be required. It is given up if
/// these are no more than before. A plan is taken if it decodes all rows that were asked for.
pub proof fn law_nodes_are_planned_again<P: VTable>(
    registry: Map<Seq<char>, P>,
    ids: Seq<Seq<char>>,
    node: TreeNodeView,
    requested: Range<usize>,
    planning: Range<usize>,
    wider: Range<usize>,
    row_count: usize,
    dtype: DType,
    num_buffers: nat,
    attempts: nat,
)
    ensures
        spec_analyze_encoding(
            registry,
            ids,
            node,
            requested,
            row_count,
            dtype,
            num_buffers,
        ) == spec_analyze_attempts(
            registry,
            ids,
            node,
            requested,
            requested,
            row_count,
            dtype,
            num_buffers,
            4,
        ),
        spec_analyze_attempts(
            registry,
            ids,
            node,
            requested,
            planning,
            row_count,
            dtype,
            num_buffers,
            0,
        ) == Ok::<Option<SubtreeView>, VortexError>(None),
        ({
            let once = spec_analyze_once(
                registry,
                ids,
                node,
                planning,
                row_count,
                dtype,
                num_buffers,
            );
            let now = spec_analyze_attempts(
                registry,
                ids,
                node,
                requested,
                planning,
                row_count,
                dtype,
                num_buffers,
                attempts + 1,
            );
            &&& once matches Err(e) ==> now == Err::<Option<SubtreeView>, VortexError>(e)
            &&& once matches Ok(None) ==> now == Ok::<Option<SubtreeView>, VortexError>(None)
            &&& once matches Ok(Some(OutcomeView::Complete(plan))) ==> now == Ok::<
                Option<SubtreeView>,
                VortexError,
            >(
                if plan.decoded_range.start <= requested.start && requested.end
                    <= plan.decoded_range.end {
                    Some(plan)
                } else {
                    None
                },
            )
            &&& once matches Ok(Some(OutcomeView::Replan(required))) ==> {
                let no_wider = planning.start <= required.start && required.end <= planning.end;
                let is_wider = wider.start <= planning.start && wider.start <= required.start && (
                wider.start == planning.start || wider.start == required.start) && wider.end
                    >= planning.end && wider.end >= required.end && (wider.end == planning.end
                    || wider.end == required.end);
                &&& no_wider ==> now == Ok::<Option<SubtreeView>, VortexError>(None)
                &&& !no_wider && is_wider ==> now == spec_analyze_attempts(
                    registry,
                    ids,
                    node,
                    requested,
                    wider,
                    row_count,
                    dtype,
                    num_buffers,
                    attempts,
                )
            }
        }),
{
}

/// One round of planning a node: if its children can be planned and the rows that come out include
/// those that were asked for, there is a plan, or, where the validity needs other rows, another
/// round. The plan needs what the node and its children need; what the validity needs comes beside
/// that.
pub proof fn law_one_round_of_planning<P: VTable>(
    registry: Map<Seq<char>, P>,
    ids: Seq<Seq<char>>,
    node: TreeNodeView,
    requested: Range<usize>,
    row_count: usize,
    dtype: DType,
    num_buffers: nat,
    answer: EncodingRangeReadView,
    own: Seq<Option<NeededBuffer>>,
)
    requires
        node.encoding < ids.len(),
        registry.contains_key(ids[node.encoding as int]),
        registry[ids[node.encoding as int]].planned(node.metadata, requested, row_count, dtype)
            == Ok::<Option<EncodingRangeReadView>, VortexError>(Some(answer)),
        node.children.len() == answer.children.len() || answer.validity is Optional
            && node.children.len() == answer.children.len() + 1,
        node.buffers.len() == answer.buffer_sub_ranges.len(),
        need_each(nothing_needed(num_buffers), node.buffers, answer.buffer_sub_ranges) == Ok::<
            Seq<Option<NeededBuffer>>,
            VortexError,
        >(own),
    ensures
        ({
            let once = spec_analyze_once(
                registry,
                ids,
                node,
                requested,
                row_count,
                dtype,
                num_buffers,
            );
            match spec_walk_children(registry, ids, node, answer, own, answer.children.len()) {
                Err(e) => once == Err::<Option<OutcomeView>, VortexError>(e),
                Ok(WalkOutcome::Stuck) => once == Ok::<Option<OutcomeView>, VortexError>(None),
                Ok(WalkOutcome::Replan(rows)) => once == Ok::<Option<OutcomeView>, VortexError>(
                    Some(OutcomeView::Replan(rows)),
                ),
                Ok(WalkOutcome::Done(walk)) => {
                    match spec_resolve_decode_range(answer.decode_info, walk.child_plans) {
                        None => once == Ok::<Option<OutcomeView>, VortexError>(None),
                        Some(decoded) => {
                            let enough = decoded.start <= requested.start && requested.end
                                <= decoded.end;
                            let of_validity = spec_analyze_encoding(
                                registry,
                                ids,
                                node.children[node.children.len() - 1],
                                decoded,
                                row_count,
                                DType::Bool(Nullability::NonNullable),
                                num_buffers,
                            );
                            &&& !enough ==> once == Ok::<Option<OutcomeView>, VortexError>(None)
                            &&& enough && node.children.len() == answer.children.len() ==> once
                                == Ok::<Option<OutcomeView>, VortexError>(
                                Some(
                                    OutcomeView::Complete(
                                        SubtreeView {
                                            decoded_range: decoded,
                                            data_needed: walk.data_needed,
                                            validity_needed: walk.validity_needed,
                                        },
                                    ),
                                ),
                            )
                            &&& enough && node.children.len() > answer.children.len() ==> {
                                &&& of_validity matches Err(e) ==> once == Err::<
                                    Option<OutcomeView>,
                                    VortexError,
                                >(e)
                                &&& of_validity matches Ok(None) ==> once == Ok::<
                                    Option<OutcomeView>,
                                    VortexError,
                                >(None)
                                &&& of_validity matches Ok(Some(plan)) ==> once == Ok::<
                                    Option<OutcomeView>,
                                    VortexError,
                                >(Some(after_validity(decoded, plan, walk)))
                            }
                        },
                    }
                },
            }
        }),
{
}

/// Children are planned one after another, each after those before it: a child that is read whole
/// adds all bytes of its buffers, and another is planned for the rows that it is asked for. What is
/// wrong with a child stops the planning of the node.
pub proof fn law_children_are_planned_in_turn<P: VTable>(
    registry: Map<Seq<char>, P>,
    ids: Seq<Seq<char>>,
    node: TreeNodeView,
    answer: EncodingRangeReadView,
    own: Seq<Option<NeededBuffer>>,
    n: nat,
)
    requires
        n < node.children.len(),
        n < answer.children.len(),
    ensures
        spec_walk_children(registry, ids, node, answer, own, 0) matches Ok(WalkOutcome::Done(walk))
            && walk.data_needed == own && walk.validity_needed == nothing_needed(own.len())
            && walk.child_plans.len() == 0,
        ({
            let now = spec_walk_children(registry, ids, node, answer, own, n + 1);
            let action = answer.children[n as int];
            let child = node.children[n as int];
            match spec_walk_children(registry, ids, node, answer, own, n) {
                Err(e) => now == Err::<WalkOutcome, VortexError>(e),
                Ok(WalkOutcome::Stuck) => now == Ok::<WalkOutcome, VortexError>(WalkOutcome::Stuck),
                Ok(WalkOutcome::Replan(rows)) => now == Ok::<WalkOutcome, VortexError>(
                    WalkOutcome::Replan(rows),
                ),
                Ok(WalkOutcome::Done(walk)) => {
                    &&& action is Full ==> match need_all(
                        walk.data_needed,
                        subtree_buffers(child),
                    ) {
                        Err(e) => now == Err::<WalkOutcome, VortexError>(e),
                        Ok(needed) => now matches Ok(WalkOutcome::Done(after)) && after.data_needed
                            == needed && after.validity_needed == walk.validity_needed
                            && after.child_plans == walk.child_plans.push(None),
                    }
                    &&& !(action is Full) ==> match asked_of_child(action, n, walk.child_plans) {
                        None => now == Ok::<WalkOutcome, VortexError>(WalkOutcome::Stuck),
                        Some(asked) => match spec_analyze_encoding(
                            registry,
                            ids,
                            child,
                            asked,
                            child_shape(action).0,
                            child_shape(action).1,
                            own.len(),
                        ) {
                            Err(e) => now == Err::<WalkOutcome, VortexError>(e),
                            Ok(None) => now == Ok::<WalkOutcome, VortexError>(WalkOutcome::Stuck),
                            Ok(Some(plan)) => now == Ok::<WalkOutcome, VortexError>(
                                after_child(action, asked, plan, walk),
                            ),
                        },
                    }
                },
            }
        }),
{
}

/// Plans, answers and contexts are seen as they are.
pub proof fn law_analysis_is_seen_as_it_is(
    plan: SubtreePlan,
    plans: Seq<Option<SubtreePlan>>,
    r: VortexResult<Option<SubtreePlan>>,
    answer: EncodingRangeRead,
    a: VortexResult<Option<EncodingRangeRead>>,
    ctx: ReadContext,
    i: int,
)
    ensures
        plan@.decoded_range == plan.decoded_range,
        plan@.data_needed == plan.data_needed.entries@,
        plan@.validity_needed == plan.validity_needed.entries@,
        plans_view(plans).len() == plans.len(),
        0 <= i < plans.len() ==> plans_view(plans)[i] == optional_view(plans[i]),
        optional_view(None) is None,
        optional_view(Some(plan)) == Some(plan@),
        r matches Err(e) ==> result_view(r) == Err::<Option<SubtreeView>, VortexError>(e),
        r matches Ok(p) ==> result_view(r) == Ok::<Option<SubtreeView>, VortexError>(
            optional_view(p),
        ),
        answer@.buffer_sub_ranges == answer.buffer_sub_ranges@,
        answer@.children == answer.children@,
        answer@.decode_info == answer.decode_info,
        answer@.validity == answer.validity,
        a matches Err(e) ==> planned_view(a) == Err::<Option<EncodingRangeReadView>, VortexError>(
            e,
        ),
        a matches Ok(None) ==> planned_view(a) == Ok::<Option<EncodingRangeReadView>, VortexError>(
            None,
        ),
        a matches Ok(Some(p)) ==> planned_view(a) == Ok::<
            Option<EncodingRangeReadView>,
            VortexError,
        >(Some(p@)),
        ctx@.len() == ctx.ids@.len(),
        0 <= i < ctx.ids@.len() ==> ctx@[i] == ctx.ids@[i]@,
        forall|n: nat| #[trigger]
            plan_len_ok(plan@, n) <==> plan.data_needed.entries@.len() == n
                && plan.validity_needed.entries@.len() == n,
{
}

} // verus!
