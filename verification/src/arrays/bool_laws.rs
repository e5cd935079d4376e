//! What range reads of bool arrays give back.

use crate::analyze::{need_one, spec_analyze_encoding, spec_analyze_once};
use crate::analyze_laws::law_leaf_needs_what_its_encoding_names;
use crate::arrays::bool::{bool_plan, law_bool_plan_covers_rows, BoolMetadata};
use crate::arrays::primitive_laws::{from_multiple_of_eight, lemma_single_need, only_bytes};
use crate::assemble::{plan_requests, spec_assemble};
use crate::decoding::lemma_buffer_of_read;
use crate::dtype::DType;
use crate::encoding::{EncodingRangeReadView, VTable};
use crate::error::VortexError;
use crate::needed::nothing_needed;
use crate::plan::spec_plan_tree;
use crate::plan_laws::faithful_replies;
use crate::tree::{buffers_end, locations_fit, spec_locations, ArrayTreeView, TreeNodeView};
use std::ops::Range;
use vstd::prelude::*;

verus! {

/// Whether the node is a bool array without nulls: a node with one buffer and no children.
pub open spec fn is_bool_leaf<P: VTable>(
    registry: Map<Seq<char>, P>,
    ids: Seq<Seq<char>>,
    node: TreeNodeView,
    metadata: BoolMetadata,
    row_range: Range<usize>,
    row_count: usize,
    dtype: DType,
) -> bool {
    &&& node.encoding < ids.len()
    &&& registry.contains_key(ids[node.encoding as int])
    &&& registry[ids[node.encoding as int]].planned(node.metadata, row_range, row_count, dtype)
        == Ok::<Option<EncodingRangeReadView>, VortexError>(bool_plan(metadata, row_range))
    &&& node.children.len() == 0
    &&& node.buffers.len() == 1
}

/// A range read of a bool array gives back the bits of the rows that were asked for: the byte that
/// holds the bit of a row lies, in the buffer that is put together, where the offset and the
/// number of the row among the decoded rows put it, and the bit has the same position in it. The
/// decoded rows before those that were asked for are cut off.
pub proof fn law_bool_range_read_gives_back_bits<P: VTable>(
    registry: Map<Seq<char>, P>,
    ids: Seq<Seq<char>>,
    tree: ArrayTreeView,
    metadata: BoolMetadata,
    row_range: Range<usize>,
    row_count: usize,
    dtype: DType,
    separate_reads: bool,
    segment: Seq<u8>,
    k: int,
)
    requires
        locations_fit(tree.buffers),
        tree.buffers.len() <= usize::MAX,
        buffers_end(tree.buffers, tree.buffers.len() as int) <= segment.len(),
        tree.root matches Some(root) && is_bool_leaf(
            registry,
            ids,
            root,
            metadata,
            row_range,
            row_count,
            dtype,
        ),
        spec_plan_tree(
            registry,
            ids,
            tree,
            row_range,
            row_count,
            dtype,
            separate_reads,
        ) matches Ok(Some(_)),
        row_range.start <= k < row_range.end,
    ensures
        ({
            let plan = spec_plan_tree(
                registry,
                ids,
                tree,
                row_range,
                row_count,
                dtype,
                separate_reads,
            )->Ok_0->0;
            let from = from_multiple_of_eight(row_range);
            let b = (tree.root->0).buffers[0] as int;
            let bit = metadata.offset + k;
            let bit_in_part = metadata.offset + (k - from.start);
            &&& spec_assemble(plan, faithful_replies(segment, plan_requests(plan))) matches Ok(
                buffers,
            )
            &&& buffers[b].bytes[bit_in_part / 8] == segment[spec_locations(tree.buffers)[b].offset
                + bit / 8]
            &&& bit_in_part % 8 == bit % 8
            &&& plan.post_slice == if from == row_range {
                None
            } else {
                Some(
                    Range {
                        start: (row_range.start - from.start) as usize,
                        end: (row_range.end - from.start) as usize,
                    },
                )
            }
        }),
{
    let root = tree.root->0;
    let n = tree.buffers.len();
    let b = root.buffers[0];
    let from = from_multiple_of_eight(row_range);
    assert(spec_analyze_once(registry, ids, root, row_range, row_count, dtype, n) matches Ok(
        Some(_),
    ));
    let plan = bool_plan(metadata, row_range)->0;
    law_leaf_needs_what_its_encoding_names(
        registry,
        ids,
        root,
        row_range,
        row_count,
        dtype,
        n,
        plan,
        from,
    );
    assert(root.buffers =~= seq![b]);
    assert(plan.buffer_sub_ranges =~= seq![plan.buffer_sub_ranges[0]]);
    lemma_single_need(n, b, plan.buffer_sub_ranges[0]);
    assert(need_one(nothing_needed(n), b, plan.buffer_sub_ranges[0]) is Ok);
    let subtree = spec_analyze_encoding(
        registry,
        ids,
        root,
        row_range,
        row_count,
        dtype,
        n,
    )->Ok_0->0;
    lemma_buffer_of_read(
        registry,
        ids,
        tree,
        row_range,
        row_count,
        dtype,
        separate_reads,
        segment,
        subtree,
        b,
        only_bytes(plan),
    );
    law_bool_plan_covers_rows(metadata, row_range, k);
}

} // verus!
