//! What is needed of each buffer of a tree in which no two nodes share a buffer.

use crate::analyze::{
    asked_of_child, child_shape, children_buffers, need_all, need_each, spec_analyze_attempts,
    spec_analyze_encoding, spec_analyze_once, spec_has_validity_child, spec_resolve_decode_range,
    spec_walk_children, subtree_buffers, OutcomeView, SubtreeView, WalkOutcome, WalkView,
    MAX_REPLAN_ATTEMPTS,
};
use crate::analyze_laws::{law_analysis_covers_the_request, lemma_walk_len};
use crate::dtype::{DType, Nullability};
use crate::encoding::{BufferSubRange, EncodingRangeReadView, VTable};
use crate::error::VortexError;
use crate::needed::{merge_needed, nothing_needed, NeededBuffer};
use crate::ranges::{spec_contains_range, spec_union_ranges};
use crate::tree::TreeNodeView;
use std::ops::Range;
use vstd::prelude::*;

verus! {

/// Whether the node, or one below it, refers to the buffer.
pub open spec fn owns(node: TreeNodeView, buffer_idx: u16) -> bool {
    subtree_buffers(node).contains(buffer_idx)
}

/// Whether no buffer is referred to twice by the node and those below it.
pub open spec fn unshared(node: TreeNodeView) -> bool {
    subtree_buffers(node).no_duplicates()
}

proof fn lemma_append_unshared(a: Seq<u16>, b: Seq<u16>)
    ensures
        (a + b).no_duplicates() ==> a.no_duplicates() && b.no_duplicates(),
        forall|x: u16|
            (a + b).no_duplicates() ==> !(#[trigger] a.contains(x) && #[trigger] b.contains(x)),
        forall|x: u16| #[trigger]
            (a + b).contains(x) <==> a.contains(x) || b.contains(x),
{
    let s = a + b;
    assert forall|x: u16| #[trigger] s.contains(x) <==> a.contains(x) || b.contains(x) by {
        if a.contains(x) {
            let i = choose|i: int| 0 <= i < a.len() && a[i] == x;
            assert(s[i] == x);
        }
        if b.contains(x) {
            let i = choose|i: int| 0 <= i < b.len() && b[i] == x;
            assert(s[a.len() + i] == x);
        }
        if s.contains(x) {
            let i = choose|i: int| 0 <= i < s.len() && s[i] == x;
            if i < a.len() {
                assert(a[i] == x);
            } else {
                assert(b[i - a.len()] == x);
            }
        }
    }
    if s.no_duplicates() {
        assert forall|i: int, j: int| 0 <= i < a.len() && 0 <= j < a.len() && i != j implies a[i]
            != a[j] by {
            assert(s[i] == a[i] && s[j] == a[j]);
        }
        assert forall|i: int, j: int| 0 <= i < b.len() && 0 <= j < b.len() && i != j implies b[i]
            != b[j] by {
            assert(s[a.len() + i] == b[i] && s[a.len() + j] == b[j]);
        }
        assert forall|x: u16|
            #[trigger] a.contains(x) && #[trigger] b.contains(x) implies false by {
            let i = choose|i: int| 0 <= i < a.len() && a[i] == x;
            let j = choose|j: int| 0 <= j < b.len() && b[j] == x;
            assert(s[i] == x && s[a.len() + j] == x);
        }
    }
}

proof fn lemma_children_unshared(node: TreeNodeView, n: nat, b: u16)
    requires
        n <= node.children.len(),
        children_buffers(node, n).no_duplicates(),
    ensures
        forall|c: int| 0 <= c < n ==> unshared(#[trigger] node.children[c]),
        children_buffers(node, n).contains(b) <==> exists|c: int|
            0 <= c < n && #[trigger] owns(node.children[c], b),
        forall|c: int, d: int|
            0 <= c < d < n ==> !(#[trigger] owns(node.children[c], b) && #[trigger] owns(
                node.children[d],
                b,
            )),
    decreases n,
{
    if n > 0 {
        let before = children_buffers(node, (n - 1) as nat);
        let last = subtree_buffers(node.children[n - 1]);
        lemma_append_unshared(before, last);
        lemma_children_unshared(node, (n - 1) as nat, b);
        assert(owns(node.children[n - 1], b) == last.contains(b));
    }
}

/// In a tree without shared buffers a buffer belongs to a node itself or to one of its children.
pub proof fn lemma_unshared(node: TreeNodeView, b: u16)
    requires
        unshared(node),
    ensures
        node.buffers.no_duplicates(),
        forall|c: int| 0 <= c < node.children.len() ==> unshared(#[trigger] node.children[c]),
        owns(node, b) <==> node.buffers.contains(b) || exists|c: int|
            0 <= c < node.children.len() && #[trigger] owns(node.children[c], b),
        forall|c: int|
            0 <= c < node.children.len() && node.buffers.contains(b) ==> !#[trigger] owns(
                node.children[c],
                b,
            ),
        forall|c: int, d: int|
            0 <= c < d < node.children.len() ==> !(#[trigger] owns(node.children[c], b)
                && #[trigger] owns(node.children[d], b)),
{
    let below = children_buffers(node, node.children.len());
    lemma_append_unshared(node.buffers, below);
    lemma_children_unshared(node, node.children.len(), b);
    if node.buffers.contains(b) {
        assert(!below.contains(b));
    }
}

/// What an encoding needs of a buffer.
pub open spec fn as_need(sub_range: BufferSubRange) -> NeededBuffer {
    match sub_range {
        BufferSubRange::Full => NeededBuffer::Full,
        BufferSubRange::Range(range) => NeededBuffer::Range(range),
    }
}

/// Of distinct buffers exactly what was asked for is needed.
pub proof fn lemma_need_each_unshared(
    num_buffers: nat,
    buffers: Seq<u16>,
    sub_ranges: Seq<BufferSubRange>,
)
    requires
        buffers.no_duplicates(),
        buffers.len() == sub_ranges.len(),
        need_each(nothing_needed(num_buffers), buffers, sub_ranges) is Ok,
    ensures
        ({
            let own = need_each(nothing_needed(num_buffers), buffers, sub_ranges)->Ok_0;
            &&& own.len() == num_buffers
            &&& forall|j: int|
                0 <= j < buffers.len() ==> #[trigger] buffers[j] < num_buffers
                    && own[buffers[j] as int] == Some(as_need(sub_ranges[j]))
            &&& forall|b: u16|
                b < num_buffers && !#[trigger] buffers.contains(b) ==> own[b as int] is None
        }),
    decreases buffers.len(),
{
    if buffers.len() > 0 {
        let before = buffers.drop_last();
        let ranges = sub_ranges.drop_last();
        assert forall|i: int, j: int| 0 <= i < before.len() && 0 <= j < before.len() && i
            != j implies before[i] != before[j] by {
            assert(before[i] == buffers[i] && before[j] == buffers[j]);
        }
        lemma_need_each_unshared(num_buffers, before, ranges);
        let own = need_each(nothing_needed(num_buffers), buffers, sub_ranges)->Ok_0;
        let earlier = need_each(nothing_needed(num_buffers), before, ranges)->Ok_0;
        let last = buffers.last();
        assert(!before.contains(last)) by {
            if before.contains(last) {
                let i = choose|i: int| 0 <= i < before.len() && before[i] == last;
                assert(buffers[i] == buffers[buffers.len() - 1]);
            }
        }
        assert(earlier[last as int] is None);
        assert forall|j: int| 0 <= j < buffers.len() implies #[trigger] buffers[j] < num_buffers
            && own[buffers[j] as int] == Some(as_need(sub_ranges[j])) by {
            if j < before.len() {
                assert(before[j] == buffers[j]);
                assert(buffers[j] != last);
                assert(ranges[j] == sub_ranges[j]);
            }
        }
        assert forall|b: u16| b < num_buffers && !#[trigger] buffers.contains(b) implies own[
            b as int
        ] is None by {
            assert(buffers[buffers.len() - 1] == last);
            assert(!before.contains(b)) by {
                if before.contains(b) {
                    let i = choose|i: int| 0 <= i < before.len() && before[i] == b;
                    assert(buffers[i] == b);
                }
            }
        }
    }
}

proof fn lemma_need_all_entry(needed: Seq<Option<NeededBuffer>>, buffers: Seq<u16>, b: u16)
    requires
        need_all(needed, buffers) is Ok,
    ensures
        ({
            let after = need_all(needed, buffers)->Ok_0;
            &&& after.len() == needed.len()
            &&& buffers.contains(b) ==> b < needed.len() && after[b as int] == Some(
                NeededBuffer::Full,
            )
            &&& b < needed.len() && !buffers.contains(b) ==> after[b as int] == needed[b as int]
        }),
    decreases buffers.len(),
{
    if buffers.len() > 0 {
        let before = buffers.drop_last();
        lemma_need_all_entry(needed, before, b);
        assert(buffers[buffers.len() - 1] == buffers.last());
        if before.contains(b) {
            let i = choose|i: int| 0 <= i < before.len() && before[i] == b;
            assert(buffers[i] == b);
        }
        if buffers.contains(b) && buffers.last() != b {
            let i = choose|i: int| 0 <= i < buffers.len() && buffers[i] == b;
            assert(before[i] == b);
        }
    }
}

/// A plan comes from one round of planning.
proof fn lemma_round<P: VTable>(
    registry: Map<Seq<char>, P>,
    ids: Seq<Seq<char>>,
    node: TreeNodeView,
    requested: Range<usize>,
    planning: Range<usize>,
    row_count: usize,
    dtype: DType,
    num_buffers: nat,
    attempts: nat,
) -> (round: Range<usize>)
    requires
        spec_analyze_attempts(
            registry,
            ids,
            node,
            requested,
            planning,
            row_count,
            dtype,
            num_buffers,
            attempts,
        ) matches Ok(Some(_)),
    ensures
        spec_analyze_once(registry, ids, node, round, row_count, dtype, num_buffers) == Ok::<
            Option<OutcomeView>,
            VortexError,
        >(
            Some(
                OutcomeView::Complete(
                    spec_analyze_attempts(
                        registry,
                        ids,
                        node,
                        requested,
                        planning,
                        row_count,
                        dtype,
                        num_buffers,
                        attempts,
                    )->Ok_0->0,
                ),
            ),
        ),
    decreases attempts,
{
    match spec_analyze_once(registry, ids, node, planning, row_count, dtype, num_buffers) {
        Ok(Some(OutcomeView::Replan(required))) => lemma_round(
            registry,
            ids,
            node,
            requested,
            spec_union_ranges(planning, required),
            row_count,
            dtype,
            num_buffers,
            (attempts - 1) as nat,
        ),
        _ => planning,
    }
}

/// What the plan of a node was made from: the rows that its encoding was asked for, the answer,
/// what is needed of its own buffers, and what planning its children led to.
pub struct PlanParts {
    pub requested: Range<usize>,
    pub answer: EncodingRangeReadView,
    pub own: Seq<Option<NeededBuffer>>,
    pub walk: WalkView,
}

/// The plan of the validity child of a node.
pub open spec fn validity_plan<P: VTable>(
    registry: Map<Seq<char>, P>,
    ids: Seq<Seq<char>>,
    node: TreeNodeView,
    decoded: Range<usize>,
    row_count: usize,
    num_buffers: nat,
) -> SubtreeView {
    spec_analyze_encoding(
        registry,
        ids,
        node.children[node.children.len() - 1],
        decoded,
        row_count,
        DType::Bool(Nullability::NonNullable),
        num_buffers,
    )->Ok_0->0
}

/// Whether a plan was made from the given parts.
pub open spec fn made_from<P: VTable>(
    registry: Map<Seq<char>, P>,
    ids: Seq<Seq<char>>,
    node: TreeNodeView,
    row_count: usize,
    dtype: DType,
    num_buffers: nat,
    plan: SubtreeView,
    parts: PlanParts,
) -> bool {
    let answer = parts.answer;
    let num_data = answer.children.len();
    &&& node.encoding < ids.len()
    &&& registry.contains_key(ids[node.encoding as int])
    &&& registry[ids[node.encoding as int]].planned(
        node.metadata,
        parts.requested,
        row_count,
        dtype,
    ) == Ok::<Option<EncodingRangeReadView>, VortexError>(Some(answer))
    &&& node.buffers.len() == answer.buffer_sub_ranges.len()
    &&& need_each(nothing_needed(num_buffers), node.buffers, answer.buffer_sub_ranges) == Ok::<
        Seq<Option<NeededBuffer>>,
        VortexError,
    >(parts.own)
    &&& spec_walk_children(registry, ids, node, answer, parts.own, num_data) == Ok::<
        WalkOutcome,
        VortexError,
    >(WalkOutcome::Done(parts.walk))
    &&& spec_resolve_decode_range(answer.decode_info, parts.walk.child_plans) == Some(
        plan.decoded_range,
    )
    &&& spec_contains_range(plan.decoded_range, parts.requested)
    &&& plan.data_needed == parts.walk.data_needed
    &&& spec_has_validity_child(answer.validity, node.children.len(), num_data) is Some
    &&& if node.children.len() == num_data {
        plan.validity_needed == parts.walk.validity_needed
    } else {
        let validity = validity_plan(
            registry,
            ids,
            node,
            plan.decoded_range,
            row_count,
            num_buffers,
        );
        &&& node.children.len() == num_data + 1
        &&& spec_analyze_encoding(
            registry,
            ids,
            node.children[num_data as int],
            plan.decoded_range,
            row_count,
            DType::Bool(Nullability::NonNullable),
            num_buffers,
        ) == Ok::<Option<SubtreeView>, VortexError>(Some(validity))
        &&& validity.decoded_range == plan.decoded_range
        &&& plan.validity_needed == merge_needed(
            merge_needed(parts.walk.validity_needed, validity.data_needed),
            validity.validity_needed,
        )
    }
}

/// The parts that the plan of a node was made from.
pub proof fn lemma_plan_parts<P: VTable>(
    registry: Map<Seq<char>, P>,
    ids: Seq<Seq<char>>,
    node: TreeNodeView,
    requested: Range<usize>,
    row_count: usize,
    dtype: DType,
    num_buffers: nat,
) -> (parts: PlanParts)
    requires
        spec_analyze_encoding(
            registry,
            ids,
            node,
            requested,
            row_count,
            dtype,
            num_buffers,
        ) matches Ok(Some(_)),
    ensures
        made_from(
            registry,
            ids,
            node,
            row_count,
            dtype,
            num_buffers,
            spec_analyze_encoding(
                registry,
                ids,
                node,
                requested,
                row_count,
                dtype,
                num_buffers,
            )->Ok_0->0,
            parts,
        ),
{
    let round = lemma_round(
        registry,
        ids,
        node,
        requested,
        requested,
        row_count,
        dtype,
        num_buffers,
        MAX_REPLAN_ATTEMPTS as nat,
    );
    let answer = registry[ids[node.encoding as int]].planned(
        node.metadata,
        round,
        row_count,
        dtype,
    )->Ok_0->0;
    let own = need_each(
        nothing_needed(num_buffers),
        node.buffers,
        answer.buffer_sub_ranges,
    )->Ok_0;
    let walked = spec_walk_children(registry, ids, node, answer, own, answer.children.len());
    PlanParts { requested: round, answer, own, walk: walked->Ok_0->Done_0 }
}

/// Whether child number `k` of a node was planned as the answer of its encoding says.
pub open spec fn child_was_planned<P: VTable>(
    registry: Map<Seq<char>, P>,
    ids: Seq<Seq<char>>,
    node: TreeNodeView,
    answer: EncodingRangeReadView,
    child_plans: Seq<Option<SubtreeView>>,
    num_buffers: nat,
    k: int,
) -> bool {
    let action = answer.children[k];
    match child_plans[k] {
        None => action is Full,
        Some(plan) => {
            &&& !(action is Full)
            &&& asked_of_child(action, k as nat, child_plans) matches Some(asked)
            &&& spec_analyze_encoding(
                registry,
                ids,
                node.children[k],
                asked,
                child_shape(action).0,
                child_shape(action).1,
                num_buffers,
            ) == Ok::<Option<SubtreeView>, VortexError>(Some(plan))
            &&& spec_contains_range(plan.decoded_range, asked)
            &&& !(action is Recurse) ==> plan.decoded_range == asked
        },
    }
}

/// Each child was planned as the answer of the encoding says.
pub proof fn lemma_children_were_planned<P: VTable>(
    registry: Map<Seq<char>, P>,
    ids: Seq<Seq<char>>,
    node: TreeNodeView,
    answer: EncodingRangeReadView,
    own: Seq<Option<NeededBuffer>>,
    n: nat,
)
    requires
        spec_walk_children(registry, ids, node, answer, own, n) matches Ok(WalkOutcome::Done(_)),
    ensures
        ({
            let walk = spec_walk_children(registry, ids, node, answer, own, n)->Ok_0->Done_0;
            &&& n <= node.children.len() && n <= answer.children.len()
            &&& walk.child_plans.len() == n
            &&& forall|k: int|
                0 <= k < n ==> #[trigger] child_was_planned(
                    registry,
                    ids,
                    node,
                    answer,
                    walk.child_plans,
                    own.len(),
                    k,
                )
        }),
    decreases n,
{
    lemma_walk_len(registry, ids, node, answer, own, n);
    if n > 0 {
        let m = (n - 1) as nat;
        lemma_children_were_planned(registry, ids, node, answer, own, m);
        let before = spec_walk_children(registry, ids, node, answer, own, m)->Ok_0->Done_0;
        let walk = spec_walk_children(registry, ids, node, answer, own, n)->Ok_0->Done_0;
        let action = answer.children[n - 1];
        if !(action is Full) {
            law_analysis_covers_the_request(
                registry,
                ids,
                node.children[n - 1],
                asked_of_child(action, m, before.child_plans)->0,
                child_shape(action).0,
                child_shape(action).1,
                own.len(),
            );
        }
        assert forall|k: int| 0 <= k < n implies #[trigger] child_was_planned(
            registry,
            ids,
            node,
            answer,
            walk.child_plans,
            own.len(),
            k,
        ) by {
            if k < n - 1 {
                assert(child_was_planned(
                    registry,
                    ids,
                    node,
                    answer,
                    before.child_plans,
                    own.len(),
                    k,
                ));
                assert(walk.child_plans[k] == before.child_plans[k]);
                assert(asked_of_child(answer.children[k], k as nat, walk.child_plans)
                    == asked_of_child(answer.children[k], k as nat, before.child_plans));
            }
        }
    }
}

/// What is needed of one buffer after `n` children were planned.
pub open spec fn entry_after_children(
    node: TreeNodeView,
    own: Seq<Option<NeededBuffer>>,
    walk: WalkView,
    n: nat,
    b: u16,
) -> bool {
    let data = walk.data_needed[b as int];
    let validity = walk.validity_needed[b as int];
    &&& node.buffers.contains(b) ==> data == own[b as int] && validity is None
    &&& forall|k: int|
        0 <= k < n && #[trigger] owns(node.children[k], b) ==> match walk.child_plans[k] {
            Some(plan) => data == plan.data_needed[b as int] && validity
                == plan.validity_needed[b as int],
            None => data == Some(NeededBuffer::Full) && validity is None,
        }
    &&& !node.buffers.contains(b) && (forall|k: int|
        0 <= k < n ==> !#[trigger] owns(node.children[k], b)) ==> data is None && validity is None
}

/// Planning children adds what each of them needs of its own buffers.
pub proof fn lemma_entry_after_children<P: VTable>(
    registry: Map<Seq<char>, P>,
    ids: Seq<Seq<char>>,
    node: TreeNodeView,
    answer: EncodingRangeReadView,
    num_buffers: nat,
    n: nat,
    b: u16,
)
    requires
        unshared(node),
        node.buffers.len() == answer.buffer_sub_ranges.len(),
        need_each(nothing_needed(num_buffers), node.buffers, answer.buffer_sub_ranges) is Ok,
        ({
            let own = need_each(
                nothing_needed(num_buffers),
                node.buffers,
                answer.buffer_sub_ranges,
            )->Ok_0;
            spec_walk_children(registry, ids, node, answer, own, n) matches Ok(WalkOutcome::Done(_))
        }),
    ensures
        ({
            let own = need_each(
                nothing_needed(num_buffers),
                node.buffers,
                answer.buffer_sub_ranges,
            )->Ok_0;
            let walk = spec_walk_children(registry, ids, node, answer, own, n)->Ok_0->Done_0;
            &&& node.buffers.contains(b) ==> b < num_buffers
            &&& forall|k: int|
                0 <= k < n && #[trigger] owns(node.children[k], b) ==> b < num_buffers
            &&& b < num_buffers ==> entry_after_children(node, own, walk, n, b)
        }),
    decreases node, 0nat, n,
{
    let own = need_each(nothing_needed(num_buffers), node.buffers, answer.buffer_sub_ranges)->Ok_0;
    let walk = spec_walk_children(registry, ids, node, answer, own, n)->Ok_0->Done_0;
    lemma_unshared(node, b);
    lemma_need_each_unshared(num_buffers, node.buffers, answer.buffer_sub_ranges);
    lemma_children_were_planned(registry, ids, node, answer, own, n);
    lemma_walk_len(registry, ids, node, answer, own, n);
    if n > 0 {
        let m = (n - 1) as nat;
        lemma_entry_after_children(registry, ids, node, answer, num_buffers, m, b);
        lemma_walk_len(registry, ids, node, answer, own, m);
        let before = spec_walk_children(registry, ids, node, answer, own, m)->Ok_0->Done_0;
        let action = answer.children[m as int];
        let child = node.children[m as int];
        assert(child_was_planned(
            registry,
            ids,
            node,
            answer,
            walk.child_plans,
            num_buffers,
            m as int,
        ));
        assert(owns(child, b) == subtree_buffers(child).contains(b));
        if action is Full {
            lemma_need_all_entry(before.data_needed, subtree_buffers(child), b);
        } else {
            let asked = asked_of_child(action, m, walk.child_plans)->0;
            assert(asked_of_child(action, m, walk.child_plans) == asked_of_child(
                action,
                m,
                before.child_plans,
            ));
            law_analysis_covers_the_request(
                registry,
                ids,
                child,
                asked,
                child_shape(action).0,
                child_shape(action).1,
                num_buffers,
            );
            lemma_entry_of_plan(
                registry,
                ids,
                child,
                asked,
                child_shape(action).0,
                child_shape(action).1,
                num_buffers,
                b,
            );
        }
        if b < num_buffers {
            assert forall|k: int| 0 <= k < n && #[trigger] owns(
                node.children[k],
                b,
            ) implies match walk.child_plans[k] {
                Some(plan) => walk.data_needed[b as int] == plan.data_needed[b as int]
                    && walk.validity_needed[b as int] == plan.validity_needed[b as int],
                None => walk.data_needed[b as int] == Some(NeededBuffer::Full)
                    && walk.validity_needed[b as int] is None,
            } by {
                if k < m {
                    assert(!owns(child, b));
                    assert(walk.child_plans[k] == before.child_plans[k]);
                } else {
                    assert(forall|j: int| 0 <= j < m ==> !#[trigger] owns(node.children[j], b));
                }
            }
        }
    }
}

/// A plan needs something of a buffer only where the node or one below it refers to the buffer,
/// and then either as data or for validity.
pub proof fn lemma_entry_of_plan<P: VTable>(
    registry: Map<Seq<char>, P>,
    ids: Seq<Seq<char>>,
    node: TreeNodeView,
    requested: Range<usize>,
    row_count: usize,
    dtype: DType,
    num_buffers: nat,
    b: u16,
)
    requires
        unshared(node),
        spec_analyze_encoding(
            registry,
            ids,
            node,
            requested,
            row_count,
            dtype,
            num_buffers,
        ) matches Ok(Some(_)),
    ensures
        ({
            let plan = spec_analyze_encoding(
                registry,
                ids,
                node,
                requested,
                row_count,
                dtype,
                num_buffers,
            )->Ok_0->0;
            &&& owns(node, b) ==> b < num_buffers
            &&& b < num_buffers && !owns(node, b) ==> plan.data_needed[b as int] is None
                && plan.validity_needed[b as int] is None
            &&& b < num_buffers ==> plan.data_needed[b as int] is None
                || plan.validity_needed[b as int] is None
        }),
    decreases node, 1nat, 0nat,
{
    let plan = spec_analyze_encoding(
        registry,
        ids,
        node,
        requested,
        row_count,
        dtype,
        num_buffers,
    )->Ok_0->0;
    let parts = lemma_plan_parts(
        registry,
        ids,
        node,
        requested,
        row_count,
        dtype,
        num_buffers,
    );
    let n = parts.answer.children.len();
    lemma_unshared(node, b);
    lemma_need_each_unshared(num_buffers, node.buffers, parts.answer.buffer_sub_ranges);
    lemma_walk_len(registry, ids, node, parts.answer, parts.own, n);
    lemma_children_were_planned(registry, ids, node, parts.answer, parts.own, n);
    lemma_entry_after_children(registry, ids, node, parts.answer, num_buffers, n, b);
    assert forall|k: int| 0 <= k < n && b < num_buffers && #[trigger] owns(
        node.children[k],
        b,
    ) implies parts.walk.data_needed[b as int] is None
        || parts.walk.validity_needed[b as int] is None by {
        assert(child_was_planned(
            registry,
            ids,
            node,
            parts.answer,
            parts.walk.child_plans,
            num_buffers,
            k,
        ));
        let action = parts.answer.children[k];
        if !(action is Full) {
            lemma_entry_of_plan(
                registry,
                ids,
                node.children[k],
                asked_of_child(action, k as nat, parts.walk.child_plans)->0,
                child_shape(action).0,
                child_shape(action).1,
                num_buffers,
                b,
            );
        }
    }
    if node.children.len() > n {
        let child = node.children[n as int];
        let bool_type = DType::Bool(Nullability::NonNullable);
        lemma_entry_of_plan(
            registry,
            ids,
            child,
            plan.decoded_range,
            row_count,
            bool_type,
            num_buffers,
            b,
        );
        law_analysis_covers_the_request(
            registry,
            ids,
            child,
            plan.decoded_range,
            row_count,
            bool_type,
            num_buffers,
        );
    }
}

} // verus!
