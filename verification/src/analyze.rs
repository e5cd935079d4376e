//! Finding out which bytes of which buffers are needed to decode a range of rows.
//!
//! Every node asks its encoding what it needs of its own buffers and of its children. The answers
//! of the children are combined; where the children of a node would decode different rows, the
//! node is planned again for a wider range.

use crate::dtype::{DType, Nullability};
use crate::encoding::{
    ArrayRegistry, BufferSubRange, ChildRangeRead, EncodingRangeRead, EncodingRangeReadView,
    RangeDecodeInfo, VTable, ValidityRangeRead,
};
use crate::error::{VortexError, VortexResult};
use crate::needed::{
    merge_entry, merge_needed, missing_buffer, nothing_needed, NeededBuffer, NeededBuffers,
};
use crate::ranges::{
    contains_range, copy_range, same_range, spec_contains_range, spec_union_ranges, union_ranges,
};
use crate::tree::{lemma_children_view, TreeNode, TreeNodeView};
use std::ops::Range;
use vstd::prelude::*;

verus! {

/// How often a node may be planned, each time for a wider range, before the whole segment is read
/// instead.
pub const MAX_REPLAN_ATTEMPTS: usize = 4;

/// The encoding identifiers that the nodes of an array tree refer to by number.
#[derive(Debug)]
pub struct ReadContext {
    pub ids: Vec<String>,
}

impl View for ReadContext {
    type V = Seq<Seq<char>>;

    open spec fn view(&self) -> Seq<Seq<char>> {
        self.ids@.map_values(|id: String| id@)
    }
}

impl ReadContext {
    /// Returns the identifier with the given number, if there is one.
    pub fn resolve(&self, encoding: u16) -> (r: Option<&String>)
        ensures
            r is Some <==> encoding < self@.len(),
            r matches Some(id) ==> id@ == self@[encoding as int],
    {
        let idx: usize = encoding as usize;
        if idx < self.ids.len() {
            Some(&self.ids[idx])
        } else {
            None
        }
    }
}

/// The encodings to plan with, and the options of planning.
#[derive(Debug)]
pub struct Session<P: VTable> {
    /// The encodings.
    pub arrays: ArrayRegistry<P>,
    /// Whether a plan may read validity buffers with requests of their own.
    pub separate_validity_reads: bool,
}

impl<P: VTable> Session<P> {
    /// Returns a session that does not read validity buffers separately.
    pub fn new(arrays: ArrayRegistry<P>) -> (r: Self)
        ensures
            r.arrays == arrays,
            !r.separate_validity_reads,
    {
        Session { arrays, separate_validity_reads: false }
    }

    /// Allows or forbids separate reads of validity buffers.
    pub fn with_separate_validity_reads(self, enabled: bool) -> (r: Self)
        ensures
            r.arrays == self.arrays,
            r.separate_validity_reads == enabled,
    {
        Session { arrays: self.arrays, separate_validity_reads: enabled }
    }
}

/// What is needed to decode rows of a node and of everything below it.
#[derive(Debug)]
pub struct SubtreePlan {
    /// The rows that will be decoded.
    pub decoded_range: Range<usize>,
    /// What is needed of the buffers, other than for validity.
    pub data_needed: NeededBuffers,
    /// What is needed of the buffers for validity.
    pub validity_needed: NeededBuffers,
}

/// The mathematical content of a [`SubtreePlan`].
#[verifier::ext_equal]
pub struct SubtreeView {
    pub decoded_range: Range<usize>,
    pub data_needed: Seq<Option<NeededBuffer>>,
    pub validity_needed: Seq<Option<NeededBuffer>>,
}

impl View for SubtreePlan {
    type V = SubtreeView;

    open spec fn view(&self) -> SubtreeView {
        SubtreeView {
            decoded_range: self.decoded_range,
            data_needed: self.data_needed@,
            validity_needed: self.validity_needed@,
        }
    }
}

/// What planning a node once leads to.
enum AnalyzeOutcome {
    /// A plan.
    Complete(SubtreePlan),
    /// The node has to be planned again, for at least these rows.
    Replan(Range<usize>),
}

/// The mathematical content of planning a node once.
pub enum OutcomeView {
    Complete(SubtreeView),
    Replan(Range<usize>),
}

/// The content of an optional plan.
pub open spec fn optional_view(plan: Option<SubtreePlan>) -> Option<SubtreeView> {
    match plan {
        Some(p) => Some(p@),
        None => None,
    }
}

/// The content of the plans of the children of a node.
pub open spec fn plans_view(plans: Seq<Option<SubtreePlan>>) -> Seq<Option<SubtreeView>> {
    Seq::new(plans.len(), |i: int| optional_view(plans[i]))
}

/// The content of a result of planning.
pub open spec fn result_view(r: VortexResult<Option<SubtreePlan>>) -> VortexResult<
    Option<SubtreeView>,
> {
    match r {
        Ok(p) => Ok(optional_view(p)),
        Err(e) => Err(e),
    }
}

closed spec fn outcome_view(r: VortexResult<Option<AnalyzeOutcome>>) -> VortexResult<
    Option<OutcomeView>,
> {
    match r {
        Ok(Some(AnalyzeOutcome::Complete(p))) => Ok(Some(OutcomeView::Complete(p@))),
        Ok(Some(AnalyzeOutcome::Replan(range))) => Ok(Some(OutcomeView::Replan(range))),
        Ok(None) => Ok(None),
        Err(e) => Err(e),
    }
}

/// Adds one need to what is needed.
pub open spec fn need_one(
    needed: Seq<Option<NeededBuffer>>,
    buffer_idx: u16,
    sub_range: BufferSubRange,
) -> VortexResult<Seq<Option<NeededBuffer>>> {
    if buffer_idx < needed.len() {
        Ok(
            needed.update(
                buffer_idx as int,
                match sub_range {
                    BufferSubRange::Full => Some(NeededBuffer::Full),
                    BufferSubRange::Range(range) => merge_entry(
                        needed[buffer_idx as int],
                        Some(NeededBuffer::Range(range)),
                    ),
                },
            ),
        )
    } else {
        Err(missing_buffer(buffer_idx, needed.len()))
    }
}

/// Adds needs one after another; the first index that no buffer has is an error.
pub open spec fn need_each(
    needed: Seq<Option<NeededBuffer>>,
    buffers: Seq<u16>,
    sub_ranges: Seq<BufferSubRange>,
) -> VortexResult<Seq<Option<NeededBuffer>>>
    decreases buffers.len(),
{
    if buffers.len() == 0 {
        Ok(needed)
    } else {
        match need_each(needed, buffers.drop_last(), sub_ranges.drop_last()) {
            Ok(before) => need_one(before, buffers.last(), sub_ranges.last()),
            Err(e) => Err(e),
        }
    }
}

/// Adds all bytes of several buffers; the first index that no buffer has is an error.
pub open spec fn need_all(needed: Seq<Option<NeededBuffer>>, buffers: Seq<u16>) -> VortexResult<
    Seq<Option<NeededBuffer>>,
>
    decreases buffers.len(),
{
    if buffers.len() == 0 {
        Ok(needed)
    } else {
        match need_all(needed, buffers.drop_last()) {
            Ok(before) => need_one(before, buffers.last(), BufferSubRange::Full),
            Err(e) => Err(e),
        }
    }
}

/// The buffers of a node and of everything below it, each node before its children.
pub open spec fn subtree_buffers(node: TreeNodeView) -> Seq<u16>
    decreases node, 1nat, 0nat,
{
    node.buffers + children_buffers(node, node.children.len())
}

/// The buffers of the first `n` children of a node and of everything below them.
pub open spec fn children_buffers(node: TreeNodeView, n: nat) -> Seq<u16>
    decreases node, 0nat, n,
{
    if n == 0 || n > node.children.len() {
        Seq::empty()
    } else {
        children_buffers(node, (n - 1) as nat) + subtree_buffers(node.children[n - 1])
    }
}

proof fn lemma_need_all_append(
    needed: Seq<Option<NeededBuffer>>,
    first: Seq<u16>,
    second: Seq<u16>,
)
    ensures
        need_all(needed, first + second) == (match need_all(needed, first) {
            Ok(before) => need_all(before, second),
            Err(e) => Err(e),
        }),
    decreases second.len(),
{
    if second.len() == 0 {
        assert(first + second =~= first);
    } else {
        assert((first + second).drop_last() =~= first + second.drop_last());
        lemma_need_all_append(needed, first, second.drop_last());
    }
}

fn apply_buffer_sub_ranges(
    node: &TreeNode,
    sub_ranges: &Vec<BufferSubRange>,
    needed: &mut NeededBuffers,
) -> (r: VortexResult<bool>)
    ensures
        final(needed)@.len() == old(needed)@.len(),
        node.buffers@.len() != sub_ranges@.len() ==> r == Ok::<bool, VortexError>(false)
            && final(needed)@ == old(needed)@,
        node.buffers@.len() == sub_ranges@.len() ==> match need_each(
            old(needed)@,
            node.buffers@,
            sub_ranges@,
        ) {
            Ok(after) => r == Ok::<bool, VortexError>(true) && final(needed)@ == after,
            Err(e) => r == Err::<bool, VortexError>(e),
        },
{
    let buffers = &node.buffers;
    if buffers.len() != sub_ranges.len() {
        return Ok(false);
    }
    let ghost before = needed@;
    let mut i: usize = 0;
    while i < sub_ranges.len()
        invariant
            i <= sub_ranges@.len() == buffers@.len(),
            *buffers == node.buffers,
            before == old(needed)@,
            needed@.len() == before.len(),
            need_each(before, buffers@.take(i as int), sub_ranges@.take(i as int))
                == Ok::<Seq<Option<NeededBuffer>>, VortexError>(needed@),
        decreases sub_ranges@.len() - i,
    {
        let global_idx: u16 = buffers[i];
        assert(buffers@.take(i + 1).drop_last() =~= buffers@.take(i as int));
        assert(sub_ranges@.take(i + 1).drop_last() =~= sub_ranges@.take(i as int));
        let outcome = match &sub_ranges[i] {
            BufferSubRange::Full => needed.need_full(global_idx),
            BufferSubRange::Range(range) => needed.need_range(global_idx, copy_range(range)),
        };
        if let Err(e) = outcome {
            proof {
                lemma_need_each_error(before, buffers@, sub_ranges@, i + 1);
            }
            return Err(e);
        }
        i = i + 1;
    }
    assert(buffers@.take(i as int) =~= buffers@);
    assert(sub_ranges@.take(i as int) =~= sub_ranges@);
    Ok(true)
}

proof fn lemma_need_each_error(
    needed: Seq<Option<NeededBuffer>>,
    buffers: Seq<u16>,
    sub_ranges: Seq<BufferSubRange>,
    i: int,
)
    requires
        buffers.len() == sub_ranges.len(),
        0 <= i <= buffers.len(),
        need_each(needed, buffers.take(i), sub_ranges.take(i)) is Err,
    ensures
        need_each(needed, buffers, sub_ranges) == need_each(
            needed,
            buffers.take(i),
            sub_ranges.take(i),
        ),
    decreases buffers.len() - i,
{
    if i == buffers.len() {
        assert(buffers.take(i) =~= buffers);
        assert(sub_ranges.take(i) =~= sub_ranges);
    } else {
        assert(buffers.take(i + 1).drop_last() =~= buffers.take(i));
        assert(sub_ranges.take(i + 1).drop_last() =~= sub_ranges.take(i));
        lemma_need_each_error(needed, buffers, sub_ranges, i + 1);
    }
}

proof fn lemma_need_all_error(needed: Seq<Option<NeededBuffer>>, buffers: Seq<u16>, i: int)
    requires
        0 <= i <= buffers.len(),
        need_all(needed, buffers.take(i)) is Err,
    ensures
        need_all(needed, buffers) == need_all(needed, buffers.take(i)),
{
    assert(buffers =~= buffers.take(i) + buffers.skip(i));
    lemma_need_all_append(needed, buffers.take(i), buffers.skip(i));
}

proof fn lemma_children_buffers_prefix(node: TreeNodeView, n: nat)
    requires
        n <= node.children.len(),
    ensures
        children_buffers(node, n).len() <= children_buffers(node, node.children.len()).len(),
        children_buffers(node, n) == children_buffers(node, node.children.len()).take(
            children_buffers(node, n).len() as int,
        ),
    decreases node.children.len() - n,
{
    let all = children_buffers(node, node.children.len());
    if n == node.children.len() {
        assert(all.take(all.len() as int) =~= all);
    } else {
        lemma_children_buffers_prefix(node, n + 1);
        let next = children_buffers(node, n + 1);
        let here = children_buffers(node, n);
        assert(next =~= here + subtree_buffers(node.children[n as int]));
        assert(next.take(here.len() as int) =~= here);
        assert(all.take(next.len() as int).take(here.len() as int) =~= all.take(
            here.len() as int,
        ));
    }
}

fn need_all_node_buffers(node: &TreeNode, needed: &mut NeededBuffers) -> (r: VortexResult<()>)
    ensures
        final(needed)@.len() == old(needed)@.len(),
        match need_all(old(needed)@, subtree_buffers(node@)) {
            Ok(after) => r is Ok && final(needed)@ == after,
            Err(e) => r == Err::<(), VortexError>(e),
        },
    decreases node,
{
    proof {
        lemma_children_view(*node);
    }
    let ghost before = needed@;
    let ghost all = subtree_buffers(node@);
    let mut i: usize = 0;
    while i < node.buffers.len()
        invariant
            i <= node.buffers@.len(),
            before == old(needed)@,
            needed@.len() == before.len(),
            all == subtree_buffers(node@),
            node@.buffers == node.buffers@,
            need_all(before, node.buffers@.take(i as int)) == Ok::<
                Seq<Option<NeededBuffer>>,
                VortexError,
            >(needed@),
        decreases node.buffers@.len() - i,
    {
        assert(node.buffers@.take(i + 1).drop_last() =~= node.buffers@.take(i as int));
        if let Err(e) = needed.need_full(node.buffers[i]) {
            proof {
                assert(all.take(i + 1) =~= node.buffers@.take(i + 1));
                lemma_need_all_error(before, all, i + 1);
            }
            return Err(e);
        }
        i = i + 1;
    }
    assert(node.buffers@.take(i as int) =~= node.buffers@);
    assert(node@.buffers + children_buffers(node@, 0) =~= node@.buffers);
    let mut j: usize = 0;
    while j < node.children.len()
        invariant
            j <= node.children@.len() == node@.children.len(),
            forall|k: int|
                0 <= k < node.children@.len() ==> #[trigger] node@.children[k]
                    == node.children@[k]@,
            before == old(needed)@,
            needed@.len() == before.len(),
            all == subtree_buffers(node@),
            need_all(before, node@.buffers + children_buffers(node@, j as nat)) == Ok::<
                Seq<Option<NeededBuffer>>,
                VortexError,
            >(needed@),
        decreases node.children@.len() - j,
    {
        let ghost here = node@.buffers + children_buffers(node@, j as nat);
        let ghost child = subtree_buffers(node@.children[j as int]);
        proof {
            lemma_need_all_append(before, here, child);
            assert(here + child =~= node@.buffers + children_buffers(node@, (j + 1) as nat));
        }
        if let Err(e) = need_all_node_buffers(&node.children[j], needed) {
            proof {
                lemma_children_buffers_prefix(node@, (j + 1) as nat);
                assert(all.take((here + child).len() as int) =~= here + child);
                lemma_need_all_error(before, all, (here + child).len() as int);
            }
            return Err(e);
        }
        j = j + 1;
    }
    Ok(())
}

/// The rows that a node decodes, given what its children decode: those that its encoding names,
/// or those of a child, where both bounds have to be multiples of the divisor.
pub open spec fn spec_resolve_decode_range(
    decode_info: RangeDecodeInfo,
    child_plans: Seq<Option<SubtreeView>>,
) -> Option<Range<usize>> {
    match decode_info {
        RangeDecodeInfo::Rows(range) => Some(range),
        RangeDecodeInfo::FromChild { child_idx, divisor } => {
            if divisor == 0 || child_idx >= child_plans.len() {
                None
            } else {
                match child_plans[child_idx as int] {
                    None => None,
                    Some(child) => {
                        let range = child.decoded_range;
                        if range.start % divisor == 0 && range.end % divisor == 0 {
                            Some(Range { start: range.start / divisor, end: range.end / divisor })
                        } else {
                            None
                        }
                    },
                }
            }
        },
    }
}

fn resolve_decode_range(
    decode_info: &RangeDecodeInfo,
    child_plans: &Vec<Option<SubtreePlan>>,
) -> (r: Option<Range<usize>>)
    ensures
        r == spec_resolve_decode_range(*decode_info, plans_view(child_plans@)),
{
    match decode_info {
        RangeDecodeInfo::Rows(range) => Some(copy_range(range)),
        RangeDecodeInfo::FromChild { child_idx, divisor } => {
            let divisor: usize = *divisor;
            if divisor == 0 || *child_idx >= child_plans.len() {
                return None;
            }
            match &child_plans[*child_idx] {
                None => None,
                Some(child) => {
                    let range = &child.decoded_range;
                    if range.start % divisor != 0 || range.end % divisor != 0 {
                        return None;
                    }
                    Some(range.start / divisor..range.end / divisor)
                },
            }
        },
    }
}

/// Whether a node with `num_children` children has a validity child beside the
/// `data_children` that its encoding accounts for; `None` if the numbers do not fit.
pub open spec fn spec_has_validity_child(
    validity: ValidityRangeRead,
    num_children: nat,
    data_children: nat,
) -> Option<bool> {
    if num_children == data_children {
        Some(false)
    } else if validity is Optional && num_children == data_children + 1 {
        Some(true)
    } else {
        None
    }
}

/// What is known of a node after some of its children were planned.
#[verifier::ext_equal]
pub struct WalkView {
    pub data_needed: Seq<Option<NeededBuffer>>,
    pub validity_needed: Seq<Option<NeededBuffer>>,
    pub child_plans: Seq<Option<SubtreeView>>,
}

/// How far planning the children of a node comes.
pub enum WalkOutcome {
    /// To the end.
    Done(WalkView),
    /// To a child that needs the node to be planned again, for at least these rows.
    Replan(Range<usize>),
    /// To a child that cannot be read in part.
    Stuck,
}

/// The rows that child number `child_idx` is asked for; `None` if they come from a child that
/// is not planned earlier.
pub open spec fn asked_of_child(
    action: ChildRangeRead,
    child_idx: nat,
    child_plans: Seq<Option<SubtreeView>>,
) -> Option<Range<usize>> {
    match action {
        ChildRangeRead::Recurse { row_range, .. } => Some(row_range),
        ChildRangeRead::RecurseExact { row_range, .. } => Some(row_range),
        ChildRangeRead::RecurseWithDecodedRange { child_idx: source, .. } => {
            if source >= child_idx || source >= child_plans.len() {
                None
            } else {
                match child_plans[source as int] {
                    Some(plan) => Some(plan.decoded_range),
                    None => None,
                }
            }
        },
        ChildRangeRead::Full => None,
    }
}

/// The number of rows and the type of a child that is planned.
pub open spec fn child_shape(action: ChildRangeRead) -> (usize, DType) {
    match action {
        ChildRangeRead::Recurse { row_count, dtype, .. } => (row_count, dtype),
        ChildRangeRead::RecurseExact { row_count, dtype, .. } => (row_count, dtype),
        ChildRangeRead::RecurseWithDecodedRange { row_count, dtype, .. } => (row_count, dtype),
        ChildRangeRead::Full => (0, DType::Null),
    }
}

/// What is known of a node once a child was planned that was asked for `asked`.
pub open spec fn after_child(
    action: ChildRangeRead,
    asked: Range<usize>,
    child: SubtreeView,
    walk: WalkView,
) -> WalkOutcome {
    if action is RecurseExact && child.decoded_range != asked {
        WalkOutcome::Stuck
    } else if action is RecurseWithDecodedRange && child.decoded_range != asked {
        WalkOutcome::Replan(spec_union_ranges(asked, child.decoded_range))
    } else {
        WalkOutcome::Done(
            WalkView {
                data_needed: merge_needed(walk.data_needed, child.data_needed),
                validity_needed: merge_needed(walk.validity_needed, child.validity_needed),
                child_plans: walk.child_plans.push(Some(child)),
            },
        )
    }
}

/// What planning the first `n` children of a node leads to. `data_needed` is what the node needs
/// of its own buffers.
pub open spec fn spec_walk_children<P: VTable>(
    registry: Map<Seq<char>, P>,
    ids: Seq<Seq<char>>,
    node: TreeNodeView,
    plan: EncodingRangeReadView,
    data_needed: Seq<Option<NeededBuffer>>,
    n: nat,
) -> VortexResult<WalkOutcome>
    decreases node, 0nat, n,
{
    if n == 0 {
        Ok(
            WalkOutcome::Done(
                WalkView {
                    data_needed,
                    validity_needed: nothing_needed(data_needed.len()),
                    child_plans: Seq::empty(),
                },
            ),
        )
    } else if n > node.children.len() || n > plan.children.len() {
        Ok(WalkOutcome::Stuck)
    } else {
        match spec_walk_children(registry, ids, node, plan, data_needed, (n - 1) as nat) {
            Ok(WalkOutcome::Done(walk)) => {
                let action = plan.children[n - 1];
                let child = node.children[n - 1];
                if action is Full {
                    match need_all(walk.data_needed, subtree_buffers(child)) {
                        Ok(needed) => Ok(
                            WalkOutcome::Done(
                                WalkView {
                                    data_needed: needed,
                                    validity_needed: walk.validity_needed,
                                    child_plans: walk.child_plans.push(None),
                                },
                            ),
                        ),
                        Err(e) => Err(e),
                    }
                } else {
                    match asked_of_child(action, (n - 1) as nat, walk.child_plans) {
                        None => Ok(WalkOutcome::Stuck),
                        Some(asked) => match spec_analyze_encoding(
                            registry,
                            ids,
                            child,
                            asked,
                            child_shape(action).0,
                            child_shape(action).1,
                            data_needed.len(),
                        ) {
                            Ok(Some(child_plan)) => Ok(
                                after_child(action, asked, child_plan, walk),
                            ),
                            Ok(None) => Ok(WalkOutcome::Stuck),
                            Err(e) => Err(e),
                        },
                    }
                }
            },
            other => other,
        }
    }
}

/// What planning a node once leads to.
pub open spec fn spec_analyze_once<P: VTable>(
    registry: Map<Seq<char>, P>,
    ids: Seq<Seq<char>>,
    node: TreeNodeView,
    requested: Range<usize>,
    row_count: usize,
    dtype: DType,
    num_buffers: nat,
) -> VortexResult<Option<OutcomeView>>
    decreases node, 1nat, 0nat,
{
    if node.encoding >= ids.len() || !registry.contains_key(ids[node.encoding as int]) {
        Ok(None)
    } else {
        match registry[ids[node.encoding as int]].planned(
            node.metadata,
            requested,
            row_count,
            dtype,
        ) {
            Err(e) => Err(e),
            Ok(None) => Ok(None),
            Ok(Some(plan)) => {
                let num_data = plan.children.len();
                match spec_has_validity_child(plan.validity, node.children.len(), num_data) {
                    None => Ok(None),
                    Some(has_validity) => {
                        if node.buffers.len() != plan.buffer_sub_ranges.len() {
                            Ok(None)
                        } else {
                            match need_each(
                                nothing_needed(num_buffers),
                                node.buffers,
                                plan.buffer_sub_ranges,
                            ) {
                                Err(e) => Err(e),
                                Ok(own) => match spec_walk_children(
                                    registry,
                                    ids,
                                    node,
                                    plan,
                                    own,
                                    num_data,
                                ) {
                                    Err(e) => Err(e),
                                    Ok(WalkOutcome::Stuck) => Ok(None),
                                    Ok(WalkOutcome::Replan(range)) => Ok(
                                        Some(OutcomeView::Replan(range)),
                                    ),
                                    Ok(WalkOutcome::Done(walk)) => {
                                        match spec_resolve_decode_range(
                                            plan.decode_info,
                                            walk.child_plans,
                                        ) {
                                            None => Ok(None),
                                            Some(decoded) => {
                                                if !spec_contains_range(decoded, requested) {
                                                    Ok(None)
                                                } else if !has_validity {
                                                    Ok(
                                                        Some(
                                                            OutcomeView::Complete(
                                                                SubtreeView {
                                                                    decoded_range: decoded,
                                                                    data_needed: walk.data_needed,
                                                                    validity_needed:
                                                                        walk.validity_needed,
                                                                },
                                                            ),
                                                        ),
                                                    )
                                                } else {
                                                    match spec_analyze_encoding(
                                                        registry,
                                                        ids,
                                                        node.children[num_data as int],
                                                        decoded,
                                                        row_count,
                                                        DType::Bool(Nullability::NonNullable),
                                                        num_buffers,
                                                    ) {
                                                        Err(e) => Err(e),
                                                        Ok(None) => Ok(None),
                                                        Ok(Some(validity)) => Ok(
                                                            Some(
                                                                after_validity(
                                                                    decoded,
                                                                    validity,
                                                                    walk,
                                                                ),
                                                            ),
                                                        ),
                                                    }
                                                }
                                            },
                                        }
                                    },
                                },
                            }
                        }
                    },
                }
            },
        }
    }
}

/// What planning a node leads to once its validity child was planned for the rows that the node
/// decodes.
pub open spec fn after_validity(
    decoded: Range<usize>,
    validity: SubtreeView,
    walk: WalkView,
) -> OutcomeView {
    if validity.decoded_range != decoded {
        OutcomeView::Replan(spec_union_ranges(decoded, validity.decoded_range))
    } else {
        OutcomeView::Complete(
            SubtreeView {
                decoded_range: decoded,
                data_needed: walk.data_needed,
                validity_needed: merge_needed(
                    merge_needed(walk.validity_needed, validity.data_needed),
                    validity.validity_needed,
                ),
            },
        )
    }
}

/// The plan for a node after at most `attempts` more rounds of planning, the first of them for
/// `planning`.
pub open spec fn spec_analyze_attempts<P: VTable>(
    registry: Map<Seq<char>, P>,
    ids: Seq<Seq<char>>,
    node: TreeNodeView,
    requested: Range<usize>,
    planning: Range<usize>,
    row_count: usize,
    dtype: DType,
    num_buffers: nat,
    attempts: nat,
) -> VortexResult<Option<SubtreeView>>
    decreases node, 2nat, attempts,
{
    if attempts == 0 {
        Ok(None)
    } else {
        match spec_analyze_once(registry, ids, node, planning, row_count, dtype, num_buffers) {
            Err(e) => Err(e),
            Ok(None) => Ok(None),
            Ok(Some(OutcomeView::Complete(plan))) => {
                if spec_contains_range(plan.decoded_range, requested) {
                    Ok(Some(plan))
                } else {
                    Ok(None)
                }
            },
            Ok(Some(OutcomeView::Replan(required))) => {
                let expanded = spec_union_ranges(planning, required);
                if expanded == planning {
                    Ok(None)
                } else {
                    spec_analyze_attempts(
                        registry,
                        ids,
                        node,
                        requested,
                        expanded,
                        row_count,
                        dtype,
                        num_buffers,
                        (attempts - 1) as nat,
                    )
                }
            },
        }
    }
}

/// The plan for a node and everything below it: `None` if the rows cannot be read in part, an
/// error if the tree or the metadata of a node is not valid.
pub open spec fn spec_analyze_encoding<P: VTable>(
    registry: Map<Seq<char>, P>,
    ids: Seq<Seq<char>>,
    node: TreeNodeView,
    requested: Range<usize>,
    row_count: usize,
    dtype: DType,
    num_buffers: nat,
) -> VortexResult<Option<SubtreeView>>
    decreases node, 3nat, 0nat,
{
    spec_analyze_attempts(
        registry,
        ids,
        node,
        requested,
        requested,
        row_count,
        dtype,
        num_buffers,
        MAX_REPLAN_ATTEMPTS as nat,
    )
}

/// What planning the children of a node leads to.
enum Walk {
    Done {
        data_needed: NeededBuffers,
        validity_needed: NeededBuffers,
        child_plans: Vec<Option<SubtreePlan>>,
    },
    Replan(Range<usize>),
    Stuck,
}

spec fn walk_view(r: VortexResult<Walk>) -> VortexResult<WalkOutcome> {
    match r {
        Ok(Walk::Done { data_needed, validity_needed, child_plans }) => Ok(
            WalkOutcome::Done(
                WalkView {
                    data_needed: data_needed@,
                    validity_needed: validity_needed@,
                    child_plans: plans_view(child_plans@),
                },
            ),
        ),
        Ok(Walk::Replan(range)) => Ok(WalkOutcome::Replan(range)),
        Ok(Walk::Stuck) => Ok(WalkOutcome::Stuck),
        Err(e) => Err(e),
    }
}

/// Whether the plan speaks of `num_buffers` buffers.
pub open spec fn plan_len_ok(plan: SubtreeView, num_buffers: nat) -> bool {
    plan.data_needed.len() == num_buffers && plan.validity_needed.len() == num_buffers
}

fn asked_rows(
    action: &ChildRangeRead,
    child_idx: usize,
    child_plans: &Vec<Option<SubtreePlan>>,
) -> (r: Option<Range<usize>>)
    ensures
        r == asked_of_child(*action, child_idx as nat, plans_view(child_plans@)),
{
    match action {
        ChildRangeRead::Recurse { row_range, .. } => Some(copy_range(row_range)),
        ChildRangeRead::RecurseExact { row_range, .. } => Some(copy_range(row_range)),
        ChildRangeRead::RecurseWithDecodedRange { child_idx: source, .. } => {
            if *source >= child_idx || *source >= child_plans.len() {
                return None;
            }
            match &child_plans[*source] {
                Some(plan) => Some(copy_range(&plan.decoded_range)),
                None => None,
            }
        },
        ChildRangeRead::Full => None,
    }
}

fn shape_of_child(action: &ChildRangeRead) -> (r: (usize, DType))
    ensures
        r == child_shape(*action),
{
    match action {
        ChildRangeRead::Recurse { row_count, dtype, .. } => (*row_count, dtype.clone()),
        ChildRangeRead::RecurseExact { row_count, dtype, .. } => (*row_count, dtype.clone()),
        ChildRangeRead::RecurseWithDecodedRange { row_count, dtype, .. } => (
            *row_count,
            dtype.clone(),
        ),
        ChildRangeRead::Full => (0, DType::Null),
    }
}

/// A walk that did not get past the first `k` children gets no further.
proof fn lemma_walk_stops<P: VTable>(
    registry: Map<Seq<char>, P>,
    ids: Seq<Seq<char>>,
    node: TreeNodeView,
    plan: EncodingRangeReadView,
    data_needed: Seq<Option<NeededBuffer>>,
    k: nat,
    n: nat,
)
    requires
        k <= n <= plan.children.len(),
        n <= node.children.len(),
        !(spec_walk_children(registry, ids, node, plan, data_needed, k) matches Ok(
            WalkOutcome::Done(_),
        )),
    ensures
        spec_walk_children(registry, ids, node, plan, data_needed, n) == spec_walk_children(
            registry,
            ids,
            node,
            plan,
            data_needed,
            k,
        ),
    decreases n - k,
{
    if k < n {
        lemma_walk_stops(registry, ids, node, plan, data_needed, k, (n - 1) as nat);
    }
}

fn walk_children<P: VTable>(
    node: &TreeNode,
    plan: &EncodingRangeRead,
    ctx: &ReadContext,
    session: &Session<P>,
    own_needed: NeededBuffers,
) -> (r: VortexResult<Walk>)
    requires
        plan.children@.len() <= node@.children.len(),
    ensures
        walk_view(r) == spec_walk_children(
            session.arrays@,
            ctx@,
            node@,
            plan@,
            own_needed@,
            plan.children@.len(),
        ),
        r matches Ok(Walk::Done { data_needed, validity_needed, child_plans })
            ==> data_needed@.len() == own_needed@.len() && validity_needed@.len()
            == own_needed@.len(),
    decreases node, 0int,
{
    proof {
        lemma_children_view(*node);
    }
    let num_buffers: usize = own_needed.entries.len();
    let ghost own = own_needed@;
    let mut data_needed = own_needed;
    let mut validity_needed = NeededBuffers::new(num_buffers);
    let mut child_plans: Vec<Option<SubtreePlan>> = Vec::new();
    assert(plans_view(child_plans@) =~= Seq::<Option<SubtreeView>>::empty());
    let mut i: usize = 0;
    while i < plan.children.len()
        invariant
            i <= plan.children@.len() <= node@.children.len(),
            node@.children.len() == node.children@.len(),
            forall|k: int|
                0 <= k < node.children@.len() ==> #[trigger] node@.children[k]
                    == node.children@[k]@,
            num_buffers == own.len(),
            data_needed@.len() == own.len(),
            validity_needed@.len() == own.len(),
            own == own_needed@,
            spec_walk_children(session.arrays@, ctx@, node@, plan@, own, i as nat) == Ok::<
                WalkOutcome,
                VortexError,
            >(
                WalkOutcome::Done(
                    WalkView {
                        data_needed: data_needed@,
                        validity_needed: validity_needed@,
                        child_plans: plans_view(child_plans@),
                    },
                ),
            ),
        decreases plan.children@.len() - i,
    {
        let action = &plan.children[i];
        let child_node = &node.children[i];
        let ghost next = spec_walk_children(
            session.arrays@,
            ctx@,
            node@,
            plan@,
            own,
            (i + 1) as nat,
        );
        proof {
            if !(next matches Ok(WalkOutcome::Done(_))) {
                lemma_walk_stops(
                    session.arrays@,
                    ctx@,
                    node@,
                    plan@,
                    own,
                    (i + 1) as nat,
                    plan.children@.len(),
                );
            }
        }
        if let ChildRangeRead::Full = action {
            if let Err(e) = need_all_node_buffers(child_node, &mut data_needed) {
                return Err(e);
            }
            let ghost before = child_plans@;
            child_plans.push(None);
            assert(plans_view(child_plans@) =~= plans_view(before).push(None));
        } else {
            let asked = match asked_rows(action, i, &child_plans) {
                Some(asked) => asked,
                None => return Ok(Walk::Stuck),
            };
            let (row_count, dtype) = shape_of_child(action);
            let child_plan = match analyze_encoding(
                child_node,
                copy_range(&asked),
                row_count,
                &dtype,
                ctx,
                session,
                num_buffers,
            ) {
                Ok(Some(child_plan)) => child_plan,
                Ok(None) => return Ok(Walk::Stuck),
                Err(e) => return Err(e),
            };
            if !same_range(&child_plan.decoded_range, &asked) {
                match action {
                    ChildRangeRead::RecurseExact { .. } => return Ok(Walk::Stuck),
                    ChildRangeRead::RecurseWithDecodedRange { .. } => {
                        return Ok(Walk::Replan(union_ranges(&asked, &child_plan.decoded_range)));
                    },
                    _ => {},
                }
            }
            data_needed.merge(child_plan.data_needed.clone());
            validity_needed.merge(child_plan.validity_needed.clone());
            let ghost before = child_plans@;
            let ghost planned = child_plan@;
            child_plans.push(Some(child_plan));
            assert(plans_view(child_plans@) =~= plans_view(before).push(Some(planned)));
        }
        i = i + 1;
    }
    Ok(Walk::Done { data_needed, validity_needed, child_plans })
}

fn analyze_encoding_once<P: VTable>(
    node: &TreeNode,
    requested_range: Range<usize>,
    row_count: usize,
    dtype: &DType,
    ctx: &ReadContext,
    session: &Session<P>,
    num_buffers: usize,
) -> (r: VortexResult<Option<AnalyzeOutcome>>)
    ensures
        outcome_view(r) == spec_analyze_once(
            session.arrays@,
            ctx@,
            node@,
            requested_range,
            row_count,
            *dtype,
            num_buffers as nat,
        ),
        r matches Ok(Some(AnalyzeOutcome::Complete(plan))) ==> plan_len_ok(
            plan@,
            num_buffers as nat,
        ),
    decreases node, 1int,
{
    proof {
        lemma_children_view(*node);
    }
    let encoding_id = match ctx.resolve(node.encoding) {
        Some(encoding_id) => encoding_id,
        None => return Ok(None),
    };
    let plugin = match session.arrays.find(encoding_id) {
        Some(plugin) => plugin,
        None => return Ok(None),
    };
    let plan = match plugin.plan_range_read(
        node.metadata.as_slice(),
        copy_range(&requested_range),
        row_count,
        dtype,
    ) {
        Ok(Some(plan)) => plan,
        Ok(None) => return Ok(None),
        Err(e) => return Err(e),
    };

    let num_children: usize = node.children.len();
    let data_children: usize = plan.children.len();
    let has_validity_child = if num_children == data_children {
        false
    } else {
        match plan.validity {
            ValidityRangeRead::Absent => return Ok(None),
            ValidityRangeRead::Optional => {
                if num_children == 0 || num_children - 1 != data_children {
                    return Ok(None);
                }
                true
            },
        }
    };

    let mut own_needed = NeededBuffers::new(num_buffers);
    match apply_buffer_sub_ranges(node, &plan.buffer_sub_ranges, &mut own_needed) {
        Ok(true) => {},
        Ok(false) => return Ok(None),
        Err(e) => return Err(e),
    }

    let (data_needed, mut validity_needed, child_plans) = match walk_children(
        node,
        &plan,
        ctx,
        session,
        own_needed,
    ) {
        Ok(Walk::Done { data_needed, validity_needed, child_plans }) => (
            data_needed,
            validity_needed,
            child_plans,
        ),
        Ok(Walk::Replan(range)) => return Ok(Some(AnalyzeOutcome::Replan(range))),
        Ok(Walk::Stuck) => return Ok(None),
        Err(e) => return Err(e),
    };

    let decoded_range = match resolve_decode_range(&plan.decode_info, &child_plans) {
        Some(decoded_range) => decoded_range,
        None => return Ok(None),
    };
    if !contains_range(&decoded_range, &requested_range) {
        return Ok(None);
    }

    if has_validity_child {
        let validity_node = &node.children[data_children];
        let validity_dtype = DType::Bool(Nullability::NonNullable);
        let validity_plan = match analyze_encoding(
            validity_node,
            copy_range(&decoded_range),
            row_count,
            &validity_dtype,
            ctx,
            session,
            num_buffers,
        ) {
            Ok(Some(validity_plan)) => validity_plan,
            Ok(None) => return Ok(None),
            Err(e) => return Err(e),
        };
        if !same_range(&validity_plan.decoded_range, &decoded_range) {
            return Ok(
                Some(
                    AnalyzeOutcome::Replan(
                        union_ranges(&decoded_range, &validity_plan.decoded_range),
                    ),
                ),
            );
        }
        validity_needed.merge(validity_plan.data_needed);
        validity_needed.merge(validity_plan.validity_needed);
    }
    Ok(Some(AnalyzeOutcome::Complete(SubtreePlan { decoded_range, data_needed, validity_needed })))
}

/// Says which bytes are needed to decode `requested_range` of a node of `row_count` rows.
///
/// Where the children of a node would decode different rows, the node is planned again for a
/// wider range, [`MAX_REPLAN_ATTEMPTS`] times at most.
pub fn analyze_encoding<P: VTable>(
    node: &TreeNode,
    requested_range: Range<usize>,
    row_count: usize,
    dtype: &DType,
    ctx: &ReadContext,
    session: &Session<P>,
    num_buffers: usize,
) -> (r: VortexResult<Option<SubtreePlan>>)
    ensures
        result_view(r) == spec_analyze_encoding(
            session.arrays@,
            ctx@,
            node@,
            requested_range,
            row_count,
            *dtype,
            num_buffers as nat,
        ),
        r matches Ok(Some(plan)) ==> plan_len_ok(plan@, num_buffers as nat)
            && spec_contains_range(plan.decoded_range, requested_range),
    decreases node, 2int,
{
    let mut planning_range = copy_range(&requested_range);
    let mut attempts: usize = MAX_REPLAN_ATTEMPTS;
    while attempts > 0
        invariant
            spec_analyze_encoding(
                session.arrays@,
                ctx@,
                node@,
                requested_range,
                row_count,
                *dtype,
                num_buffers as nat,
            ) == spec_analyze_attempts(
                session.arrays@,
                ctx@,
                node@,
                requested_range,
                planning_range,
                row_count,
                *dtype,
                num_buffers as nat,
                attempts as nat,
            ),
        decreases attempts,
    {
        let outcome = match analyze_encoding_once(
            node,
            copy_range(&planning_range),
            row_count,
            dtype,
            ctx,
            session,
            num_buffers,
        ) {
            Ok(Some(outcome)) => outcome,
            Ok(None) => return Ok(None),
            Err(e) => return Err(e),
        };
        match outcome {
            AnalyzeOutcome::Complete(plan) => {
                if contains_range(&plan.decoded_range, &requested_range) {
                    return Ok(Some(plan));
                }
                return Ok(None);
            },
            AnalyzeOutcome::Replan(required_range) => {
                let expanded = union_ranges(&planning_range, &required_range);
                if same_range(&expanded, &planning_range) {
                    return Ok(None);
                }
                planning_range = expanded;
            },
        }
        attempts = attempts - 1;
    }
    Ok(None)
}

} // verus!
