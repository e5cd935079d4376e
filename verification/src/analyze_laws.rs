//! What holds of the analysis of an array tree as a whole.

use crate::analyze::{
    asked_of_child, need_all, need_each, plan_len_ok, spec_analyze_attempts, spec_analyze_encoding,
    spec_analyze_once, spec_has_validity_child, spec_walk_children, subtree_buffers, OutcomeView,
    SubtreeView, WalkOutcome, WalkView, MAX_REPLAN_ATTEMPTS,
};
use crate::dtype::{DType, Nullability};
use crate::encoding::{
    BufferSubRange, ChildRangeRead, EncodingRangeReadView, RangeDecodeInfo, VTable,
};
use crate::error::VortexError;
use crate::needed::{needs_byte, nothing_needed, NeededBuffer};
use crate::ranges::{in_range, spec_contains_range, spec_union_ranges};
use crate::tree::TreeNodeView;
use std::ops::Range;
use vstd::prelude::*;

verus! {

proof fn lemma_need_each_len(
    needed: Seq<Option<NeededBuffer>>,
    buffers: Seq<u16>,
    sub_ranges: Seq<BufferSubRange>,
)
    ensures
        need_each(needed, buffers, sub_ranges) matches Ok(after) ==> after.len() == needed.len(),
    decreases buffers.len(),
{
    if buffers.len() > 0 {
        lemma_need_each_len(needed, buffers.drop_last(), sub_ranges.drop_last());
    }
}

proof fn lemma_need_all_len(needed: Seq<Option<NeededBuffer>>, buffers: Seq<u16>)
    ensures
        need_all(needed, buffers) matches Ok(after) ==> after.len() == needed.len(),
    decreases buffers.len(),
{
    if buffers.len() > 0 {
        lemma_need_all_len(needed, buffers.drop_last());
    }
}

pub(crate) proof fn lemma_walk_len<P: VTable>(
    registry: Map<Seq<char>, P>,
    ids: Seq<Seq<char>>,
    node: TreeNodeView,
    plan: EncodingRangeReadView,
    data_needed: Seq<Option<NeededBuffer>>,
    n: nat,
)
    ensures
        spec_walk_children(registry, ids, node, plan, data_needed, n) matches Ok(
            WalkOutcome::Done(walk),
        ) ==> walk.data_needed.len() == data_needed.len() && walk.validity_needed.len()
            == data_needed.len() && walk.child_plans.len() == n,
    decreases n,
{
    if n > 0 {
        lemma_walk_len(registry, ids, node, plan, data_needed, (n - 1) as nat);
        if let Ok(WalkOutcome::Done(walk)) = spec_walk_children(
            registry,
            ids,
            node,
            plan,
            data_needed,
            (n - 1) as nat,
        ) {
            if n <= node.children.len() {
                lemma_need_all_len(walk.data_needed, subtree_buffers(node.children[n - 1]));
            }
        }
    }
}

proof fn lemma_once_len<P: VTable>(
    registry: Map<Seq<char>, P>,
    ids: Seq<Seq<char>>,
    node: TreeNodeView,
    requested: Range<usize>,
    row_count: usize,
    dtype: DType,
    num_buffers: nat,
)
    ensures
        spec_analyze_once(registry, ids, node, requested, row_count, dtype, num_buffers) matches Ok(
            Some(OutcomeView::Complete(plan)),
        ) ==> plan_len_ok(plan, num_buffers) && spec_contains_range(plan.decoded_range, requested),
{
    if node.encoding < ids.len() && registry.contains_key(ids[node.encoding as int]) {
        if let Ok(Some(plan)) = registry[ids[node.encoding as int]].planned(
            node.metadata,
            requested,
            row_count,
            dtype,
        ) {
            lemma_need_each_len(
                nothing_needed(num_buffers),
                node.buffers,
                plan.buffer_sub_ranges,
            );
            if let Ok(own) = need_each(
                nothing_needed(num_buffers),
                node.buffers,
                plan.buffer_sub_ranges,
            ) {
                lemma_walk_len(registry, ids, node, plan, own, plan.children.len());
            }
        }
    }
}

proof fn lemma_attempts_cover<P: VTable>(
    registry: Map<Seq<char>, P>,
    ids: Seq<Seq<char>>,
    node: TreeNodeView,
    requested: Range<usize>,
    planning: Range<usize>,
    row_count: usize,
    dtype: DType,
    num_buffers: nat,
    attempts: nat,
)
    ensures
        spec_analyze_attempts(
            registry,
            ids,
            node,
            requested,
            planning,
            row_count,
            dtype,
            num_buffers,
            attempts,
        ) matches Ok(Some(plan)) ==> plan_len_ok(plan, num_buffers) && spec_contains_range(
            plan.decoded_range,
            requested,
        ),
    decreases attempts,
{
    if attempts > 0 {
        lemma_once_len(registry, ids, node, planning, row_count, dtype, num_buffers);
        if let Ok(Some(OutcomeView::Replan(required))) = spec_analyze_once(
            registry,
            ids,
            node,
            planning,
            row_count,
            dtype,
            num_buffers,
        ) {
            lemma_attempts_cover(
                registry,
                ids,
                node,
                requested,
                spec_union_ranges(planning, required),
                row_count,
                dtype,
                num_buffers,
                (attempts - 1) as nat,
            );
        }
    }
}

/// The rows that a plan decodes include all that were asked for, and the plan speaks of every
/// buffer of the tree.
pub proof fn law_analysis_covers_the_request<P: VTable>(
    registry: Map<Seq<char>, P>,
    ids: Seq<Seq<char>>,
    node: TreeNodeView,
    requested: Range<usize>,
    row_count: usize,
    dtype: DType,
    num_buffers: nat,
)
    ensures
        spec_analyze_encoding(
            registry,
            ids,
            node,
            requested,
            row_count,
            dtype,
            num_buffers,
        ) matches Ok(Some(plan)) ==> plan_len_ok(plan, num_buffers) && spec_contains_range(
            plan.decoded_range,
            requested,
        ),
{
    lemma_attempts_cover(
        registry,
        ids,
        node,
        requested,
        requested,
        row_count,
        dtype,
        num_buffers,
        MAX_REPLAN_ATTEMPTS as nat,
    );
}

/// Needing all bytes of some buffers takes back no need.
proof fn lemma_need_all_keeps_needs(
    needed: Seq<Option<NeededBuffer>>,
    buffers: Seq<u16>,
    i: int,
    length: int,
    pos: int,
)
    requires
        0 <= i < needed.len(),
        0 <= pos < length,
        needs_byte(needed[i], length, pos),
    ensures
        need_all(needed, buffers) matches Ok(after) ==> needs_byte(after[i], length, pos),
    decreases buffers.len(),
{
    if buffers.len() > 0 {
        lemma_need_all_len(needed, buffers.drop_last());
        lemma_need_all_keeps_needs(needed, buffers.drop_last(), i, length, pos);
    }
}

/// A need for data, of the node or of one of the first `k` children, is a need once `n` children
/// were planned; so is a need for validity.
proof fn lemma_walk_keeps_needs<P: VTable>(
    registry: Map<Seq<char>, P>,
    ids: Seq<Seq<char>>,
    node: TreeNodeView,
    plan: EncodingRangeReadView,
    own: Seq<Option<NeededBuffer>>,
    k: nat,
    n: nat,
    i: int,
    length: int,
    pos: int,
)
    requires
        k <= n,
        0 <= i < own.len(),
        0 <= pos < length,
        spec_walk_children(registry, ids, node, plan, own, n) matches Ok(WalkOutcome::Done(_)),
    ensures
        ({
            let before = spec_walk_children(registry, ids, node, plan, own, k)->Ok_0->Done_0;
            let after = spec_walk_children(registry, ids, node, plan, own, n)->Ok_0->Done_0;
            &&& needs_byte(before.data_needed[i], length, pos) ==> needs_byte(
                after.data_needed[i],
                length,
                pos,
            )
            &&& needs_byte(before.validity_needed[i], length, pos) ==> needs_byte(
                after.validity_needed[i],
                length,
                pos,
            )
        }),
    decreases n - k,
{
    if k < n {
        lemma_walk_prefix(registry, ids, node, plan, own, (n - 1) as nat, n);
        lemma_walk_keeps_needs(
            registry,
            ids,
            node,
            plan,
            own,
            k,
            (n - 1) as nat,
            i,
            length,
            pos,
        );
        lemma_walk_len(registry, ids, node, plan, own, (n - 1) as nat);
        let walk = spec_walk_children(
            registry,
            ids,
            node,
            plan,
            own,
            (n - 1) as nat,
        )->Ok_0->Done_0;
        if plan.children[n - 1] is Full && needs_byte(walk.data_needed[i], length, pos) {
            lemma_need_all_keeps_needs(
                walk.data_needed,
                subtree_buffers(node.children[n - 1]),
                i,
                length,
                pos,
            );
        }
    }
}

/// The analysis of a node loses no need of its children: what a planned child needs for data, the
/// node needs for data, and what it needs for validity, the node needs for validity.
pub proof fn law_needs_of_children_are_kept<P: VTable>(
    registry: Map<Seq<char>, P>,
    ids: Seq<Seq<char>>,
    node: TreeNodeView,
    plan: EncodingRangeReadView,
    own: Seq<Option<NeededBuffer>>,
    child_idx: int,
    i: int,
    length: int,
    pos: int,
)
    requires
        0 <= i < own.len(),
        0 <= pos < length,
        0 <= child_idx < plan.children.len(),
        spec_walk_children(registry, ids, node, plan, own, plan.children.len()) matches Ok(
            WalkOutcome::Done(walk),
        ) && walk.child_plans[child_idx] is Some,
    ensures
        ({
            let walk = spec_walk_children(
                registry,
                ids,
                node,
                plan,
                own,
                plan.children.len(),
            )->Ok_0->Done_0;
            let child = walk.child_plans[child_idx]->0;
            &&& needs_byte(child.data_needed[i], length, pos) ==> needs_byte(
                walk.data_needed[i],
                length,
                pos,
            )
            &&& needs_byte(child.validity_needed[i], length, pos) ==> needs_byte(
                walk.validity_needed[i],
                length,
                pos,
            )
        }),
{
    let n = plan.children.len();
    let k = (child_idx + 1) as nat;
    lemma_walk_prefix(registry, ids, node, plan, own, k, n);
    lemma_walk_len(registry, ids, node, plan, own, k);
    lemma_walk_prefix(registry, ids, node, plan, own, child_idx as nat, n);
    lemma_walk_len(registry, ids, node, plan, own, child_idx as nat);
    lemma_walk_len(registry, ids, node, plan, own, n);
    let whole = (spec_walk_children(registry, ids, node, plan, own, n)->Ok_0->Done_0).child_plans;
    let upto = spec_walk_children(registry, ids, node, plan, own, k)->Ok_0->Done_0;
    assert(upto.child_plans[child_idx] == whole[child_idx]);
    lemma_walk_keeps_needs(registry, ids, node, plan, own, k, n, i, length, pos);
}

/// Whether an encoding asks for byte `pos` of a buffer of `length` bytes.
pub open spec fn asks_for_byte(sub_range: BufferSubRange, length: int, pos: int) -> bool {
    match sub_range {
        BufferSubRange::Full => 0 <= pos < length,
        BufferSubRange::Range(range) => in_range(range, pos),
    }
}

proof fn lemma_need_each_adds(
    needed: Seq<Option<NeededBuffer>>,
    buffers: Seq<u16>,
    sub_ranges: Seq<BufferSubRange>,
    j: int,
    length: int,
    pos: int,
)
    requires
        buffers.len() == sub_ranges.len(),
        0 <= j < buffers.len(),
        0 <= pos < length,
        asks_for_byte(sub_ranges[j], length, pos),
    ensures
        need_each(needed, buffers, sub_ranges) matches Ok(after) ==> buffers[j] < after.len()
            && needs_byte(after[buffers[j] as int], length, pos),
    decreases buffers.len(),
{
    lemma_need_each_len(needed, buffers.drop_last(), sub_ranges.drop_last());
    if j < buffers.len() - 1 {
        lemma_need_each_adds(
            needed,
            buffers.drop_last(),
            sub_ranges.drop_last(),
            j,
            length,
            pos,
        );
    }
}

/// The analysis of a node keeps what its encoding asks for: every byte of every buffer that the
/// encoding names is needed for data.
pub proof fn law_bytes_that_an_encoding_asks_for_are_needed<P: VTable>(
    registry: Map<Seq<char>, P>,
    ids: Seq<Seq<char>>,
    node: TreeNodeView,
    requested: Range<usize>,
    row_count: usize,
    dtype: DType,
    num_buffers: nat,
    plan: EncodingRangeReadView,
    j: int,
    length: int,
    pos: int,
)
    requires
        node.encoding < ids.len(),
        registry.contains_key(ids[node.encoding as int]),
        registry[ids[node.encoding as int]].planned(node.metadata, requested, row_count, dtype)
            == Ok::<Option<EncodingRangeReadView>, VortexError>(Some(plan)),
        spec_analyze_once(registry, ids, node, requested, row_count, dtype, num_buffers) matches Ok(
            Some(OutcomeView::Complete(_)),
        ),
        0 <= j < node.buffers.len(),
        0 <= pos < length,
        asks_for_byte(plan.buffer_sub_ranges[j], length, pos),
    ensures
        ({
            let whole = spec_analyze_once(
                registry,
                ids,
                node,
                requested,
                row_count,
                dtype,
                num_buffers,
            )->Ok_0->0->Complete_0;
            &&& node.buffers[j] < num_buffers
            &&& needs_byte(whole.data_needed[node.buffers[j] as int], length, pos)
        }),
{
    let nothing = nothing_needed(num_buffers);
    let own = need_each(nothing, node.buffers, plan.buffer_sub_ranges)->Ok_0;
    lemma_need_each_len(nothing, node.buffers, plan.buffer_sub_ranges);
    lemma_need_each_adds(nothing, node.buffers, plan.buffer_sub_ranges, j, length, pos);
    let b = node.buffers[j] as int;
    lemma_walk_keeps_needs(
        registry,
        ids,
        node,
        plan,
        own,
        0,
        plan.children.len(),
        b,
        length,
        pos,
    );
    assert((spec_walk_children(registry, ids, node, plan, own, 0)->Ok_0->Done_0).data_needed
        == own);
}

/// A walk that gets past `n` children has got past the first `k`, with the same plans for them.
proof fn lemma_walk_prefix<P: VTable>(
    registry: Map<Seq<char>, P>,
    ids: Seq<Seq<char>>,
    node: TreeNodeView,
    plan: EncodingRangeReadView,
    own: Seq<Option<NeededBuffer>>,
    k: nat,
    n: nat,
)
    requires
        k <= n,
        spec_walk_children(registry, ids, node, plan, own, n) matches Ok(WalkOutcome::Done(_)),
    ensures
        spec_walk_children(registry, ids, node, plan, own, k) matches Ok(WalkOutcome::Done(walk))
            && walk.child_plans == (spec_walk_children(
            registry,
            ids,
            node,
            plan,
            own,
            n,
        )->Ok_0->Done_0).child_plans.take(k as int),
    decreases n - k,
{
    lemma_walk_len(registry, ids, node, plan, own, n);
    let whole = (spec_walk_children(registry, ids, node, plan, own, n)->Ok_0->Done_0).child_plans;
    if k == n {
        assert(whole.take(k as int) =~= whole);
    } else {
        lemma_walk_prefix(registry, ids, node, plan, own, k, (n - 1) as nat);
        lemma_walk_len(registry, ids, node, plan, own, (n - 1) as nat);
        let before = (spec_walk_children(
            registry,
            ids,
            node,
            plan,
            own,
            (n - 1) as nat,
        )->Ok_0->Done_0).child_plans;
        assert(before.take(k as int) =~= whole.take(k as int));
    }
}

/// Children that have to decode given rows decode exactly those: a child that was asked for exact
/// rows, and a child that follows an earlier one and decodes the rows which that one decodes.
pub proof fn law_exact_children_decode_exactly<P: VTable>(
    registry: Map<Seq<char>, P>,
    ids: Seq<Seq<char>>,
    node: TreeNodeView,
    plan: EncodingRangeReadView,
    own: Seq<Option<NeededBuffer>>,
    child_idx: int,
)
    requires
        0 <= child_idx < plan.children.len(),
        spec_walk_children(registry, ids, node, plan, own, plan.children.len()) matches Ok(
            WalkOutcome::Done(_),
        ),
    ensures
        spec_walk_children(registry, ids, node, plan, own, plan.children.len()) matches Ok(
            WalkOutcome::Done(walk),
        ) && (match plan.children[child_idx] {
            ChildRangeRead::Recurse { row_range, .. } => walk.child_plans[child_idx] matches Some(
                child,
            ) && spec_contains_range(child.decoded_range, row_range),
            ChildRangeRead::RecurseExact { row_range, .. } =>
                walk.child_plans[child_idx] matches Some(child) && child.decoded_range
                    == row_range,
            ChildRangeRead::RecurseWithDecodedRange { child_idx: source, .. } => {
                &&& source < child_idx
                &&& walk.child_plans[child_idx] matches Some(child)
                &&& walk.child_plans[source as int] matches Some(followed)
                &&& child.decoded_range == followed.decoded_range
            },
            ChildRangeRead::Full => walk.child_plans[child_idx] is None,
        }),
{
    let n = plan.children.len();
    let k = (child_idx + 1) as nat;
    lemma_walk_prefix(registry, ids, node, plan, own, k, n);
    lemma_walk_prefix(registry, ids, node, plan, own, child_idx as nat, n);
    lemma_walk_len(registry, ids, node, plan, own, child_idx as nat);
    lemma_walk_len(registry, ids, node, plan, own, k);
    lemma_walk_len(registry, ids, node, plan, own, n);
    let whole = (spec_walk_children(registry, ids, node, plan, own, n)->Ok_0->Done_0).child_plans;
    let upto = (spec_walk_children(registry, ids, node, plan, own, k)->Ok_0->Done_0).child_plans;
    let before = (spec_walk_children(
        registry,
        ids,
        node,
        plan,
        own,
        child_idx as nat,
    )->Ok_0->Done_0).child_plans;
    assert(upto[child_idx] == whole[child_idx]);
    let action = plan.children[child_idx];
    if let ChildRangeRead::RecurseWithDecodedRange { child_idx: source, .. } = action {
        assert(asked_of_child(action, child_idx as nat, before) is Some);
        assert(before[source as int] == whole[source as int]);
    }
    if let ChildRangeRead::Recurse { row_range, row_count, dtype } = action {
        law_analysis_covers_the_request(
            registry,
            ids,
            node.children[child_idx],
            row_range,
            row_count,
            dtype,
            own.len(),
        );
    }
}

/// The validity child of a node decodes the rows that the node decodes, and whatever it needs is
/// needed for validity.
pub proof fn law_validity_follows_the_node<P: VTable>(
    registry: Map<Seq<char>, P>,
    ids: Seq<Seq<char>>,
    node: TreeNodeView,
    requested: Range<usize>,
    row_count: usize,
    dtype: DType,
    num_buffers: nat,
    plan: EncodingRangeReadView,
    i: int,
    length: int,
    pos: int,
)
    requires
        node.encoding < ids.len(),
        registry.contains_key(ids[node.encoding as int]),
        registry[ids[node.encoding as int]].planned(node.metadata, requested, row_count, dtype)
            == Ok::<Option<EncodingRangeReadView>, VortexError>(Some(plan)),
        spec_has_validity_child(plan.validity, node.children.len(), plan.children.len()) == Some(
            true,
        ),
        spec_analyze_once(registry, ids, node, requested, row_count, dtype, num_buffers) matches Ok(
            Some(OutcomeView::Complete(_)),
        ),
        0 <= i < num_buffers,
        0 <= pos < length,
    ensures
        ({
            let whole = spec_analyze_once(
                registry,
                ids,
                node,
                requested,
                row_count,
                dtype,
                num_buffers,
            )->Ok_0->0->Complete_0;
            &&& spec_analyze_encoding(
                registry,
                ids,
                node.children[plan.children.len() as int],
                whole.decoded_range,
                row_count,
                DType::Bool(Nullability::NonNullable),
                num_buffers,
            ) matches Ok(Some(validity))
            &&& validity.decoded_range == whole.decoded_range
            &&& needs_byte(validity.data_needed[i], length, pos) || needs_byte(
                validity.validity_needed[i],
                length,
                pos,
            ) ==> needs_byte(whole.validity_needed[i], length, pos)
        }),
{
    let whole = spec_analyze_once(
        registry,
        ids,
        node,
        requested,
        row_count,
        dtype,
        num_buffers,
    )->Ok_0->0->Complete_0;
    let own = need_each(
        nothing_needed(num_buffers),
        node.buffers,
        plan.buffer_sub_ranges,
    )->Ok_0;
    lemma_need_each_len(nothing_needed(num_buffers), node.buffers, plan.buffer_sub_ranges);
    lemma_walk_len(registry, ids, node, plan, own, plan.children.len());
    law_analysis_covers_the_request(
        registry,
        ids,
        node.children[plan.children.len() as int],
        whole.decoded_range,
        row_count,
        DType::Bool(Nullability::NonNullable),
        num_buffers,
    );
}

/// A node without children is planned in one round: it decodes the rows and needs the bytes that
/// its encoding names, and nothing for validity.
pub proof fn law_leaf_needs_what_its_encoding_names<P: VTable>(
    registry: Map<Seq<char>, P>,
    ids: Seq<Seq<char>>,
    node: TreeNodeView,
    requested: Range<usize>,
    row_count: usize,
    dtype: DType,
    num_buffers: nat,
    plan: EncodingRangeReadView,
    decoded: Range<usize>,
)
    requires
        node.encoding < ids.len(),
        registry.contains_key(ids[node.encoding as int]),
        registry[ids[node.encoding as int]].planned(node.metadata, requested, row_count, dtype)
            == Ok::<Option<EncodingRangeReadView>, VortexError>(Some(plan)),
        node.children.len() == 0,
        plan.children.len() == 0,
        plan.buffer_sub_ranges.len() == node.buffers.len(),
        plan.decode_info == RangeDecodeInfo::Rows(decoded),
        spec_contains_range(decoded, requested),
    ensures
        spec_analyze_encoding(registry, ids, node, requested, row_count, dtype, num_buffers) == (
        match need_each(nothing_needed(num_buffers), node.buffers, plan.buffer_sub_ranges) {
            Ok(needed) => Ok(
                Some(
                    SubtreeView {
                        decoded_range: decoded,
                        data_needed: needed,
                        validity_needed: nothing_needed(num_buffers),
                    },
                ),
            ),
            Err(e) => Err(e),
        }),
{
    let own = need_each(nothing_needed(num_buffers), node.buffers, plan.buffer_sub_ranges);
    lemma_need_each_len(nothing_needed(num_buffers), node.buffers, plan.buffer_sub_ranges);
    let once = spec_analyze_once(
        registry,
        ids,
        node,
        requested,
        row_count,
        dtype,
        num_buffers,
    );
    if let Ok(needed) = own {
        let walk = WalkView {
            data_needed: needed,
            validity_needed: nothing_needed(num_buffers),
            child_plans: Seq::empty(),
        };
        assert(spec_walk_children(registry, ids, node, plan, needed, 0) == Ok::<
            WalkOutcome,
            VortexError,
        >(WalkOutcome::Done(walk)));
        assert(once matches Ok(Some(OutcomeView::Complete(_))));
    } else {
        assert(once is Err);
    }
    assert(spec_analyze_attempts(
        registry,
        ids,
        node,
        requested,
        requested,
        row_count,
        dtype,
        num_buffers,
        MAX_REPLAN_ATTEMPTS as nat,
    ) == (match once {
        Ok(Some(OutcomeView::Complete(subtree))) => Ok(Some(subtree)),
        Ok(_) => Ok(None),
        Err(e) => Err(e),
    }));
}

} // verus!
