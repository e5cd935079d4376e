//! What holds of plans as a whole, and of the buffers that are put together from them.

use crate::analyze::{plan_len_ok, spec_analyze_encoding, SubtreeView};
use crate::analyze_laws::law_analysis_covers_the_request;
use crate::assemble::{
    buffers_in_replies, buffers_in_reply, fill_slots, finish_slots, plan_is_usable, plan_reads,
    plan_requests, read_is_usable, slice_is_usable, spec_assemble, PlacedBuffer,
};
use crate::buffer::BufferView;
use crate::dtype::DType;
use crate::encoding::VTable;
use crate::error::{VortexError, VortexResult};
use crate::needed::{needs_byte, NeededBuffer};
use crate::plan::{
    absolute_range, absolute_ranges, alignments_of, below_threshold, bytes_in, covered_validity,
    full_size, is_partial, lemma_locations_valid, lemma_span_contains, locations_valid,
    need_is_valid, needs_are_valid, plan_result_view, reads_in, separate_validity, slices_in, span,
    spec_build_plan, spec_plan_tree, spec_try_plan, tree_is_located, validity_fits_data,
    BufferSlice, PlanView, RangeReadPlan,
};
use crate::ranges::{spec_contains_range, spec_range_len};
use crate::tree::{
    buffers_end, lemma_buffers_end_monotonic, locations_fit, spec_locations, ArrayTreeView,
    BufferLocation, BufferSpec,
};
use std::ops::Range;
use vstd::prelude::*;

verus! {

/// The numbers of the buffers, among the first `n`, that have a range.
pub open spec fn present(ranges: Seq<Option<Range<usize>>>, n: int) -> Seq<int>
    decreases n,
{
    if n <= 0 {
        Seq::empty()
    } else if ranges[n - 1] is Some {
        present(ranges, n - 1).push(n - 1)
    } else {
        present(ranges, n - 1)
    }
}

proof fn lemma_present(ranges: Seq<Option<Range<usize>>>, n: int)
    requires
        0 <= n <= ranges.len(),
    ensures
        forall|k: int|
            0 <= k < present(ranges, n).len() ==> 0 <= #[trigger] present(ranges, n)[k] < n
                && ranges[present(ranges, n)[k]] is Some,
        forall|i: int|
            0 <= i < n && #[trigger] ranges[i] is Some ==> present(ranges, n).contains(i),
        present(ranges, n).no_duplicates(),
    decreases n,
{
    if n > 0 {
        lemma_present(ranges, n - 1);
        let before = present(ranges, n - 1);
        if ranges[n - 1] is Some {
            assert forall|i: int| 0 <= i < n && #[trigger] ranges[i] is Some implies present(
                ranges,
                n,
            ).contains(i) by {
                if i == n - 1 {
                    assert(present(ranges, n)[before.len() as int] == i);
                } else {
                    assert(before.contains(i));
                    let k = choose|k: int| 0 <= k < before.len() && before[k] == i;
                    assert(present(ranges, n)[k] == i);
                }
            }
        }
    }
}

/// The slice of a read that starts at `start` which holds a range of buffer `i`.
pub open spec fn slice_for(
    range: Range<usize>,
    location: BufferLocation,
    start: usize,
    i: int,
) -> BufferSlice {
    BufferSlice {
        buffer_idx: i as usize,
        range: Range { start: (range.start - start) as usize, end: (range.end - start) as usize },
        alignment: location.alignment,
    }
}

proof fn lemma_slices_in(
    ranges: Seq<Option<Range<usize>>>,
    locations: Seq<BufferLocation>,
    start: usize,
    n: int,
)
    requires
        0 <= n <= ranges.len(),
    ensures
        slices_in(ranges, locations, start, n).len() == present(ranges, n).len(),
        forall|k: int|
            0 <= k < present(ranges, n).len() ==> #[trigger] slices_in(
                ranges,
                locations,
                start,
                n,
            )[k] == slice_for(
                ranges[present(ranges, n)[k]]->0,
                locations[present(ranges, n)[k]],
                start,
                present(ranges, n)[k],
            ),
    decreases n,
{
    if n > 0 {
        lemma_slices_in(ranges, locations, start, n - 1);
    }
}

proof fn lemma_reads_in(
    ranges: Seq<Option<Range<usize>>>,
    locations: Seq<BufferLocation>,
    n: int,
)
    requires
        0 <= n <= ranges.len(),
    ensures
        reads_in(ranges, locations, n).len() == present(ranges, n).len(),
        forall|k: int|
            0 <= k < present(ranges, n).len() ==> (#[trigger] reads_in(
                ranges,
                locations,
                n,
            )[k]).segment_range == ranges[present(ranges, n)[k]]->0,
        forall|k: int|
            0 <= k < present(ranges, n).len() ==> (#[trigger] reads_in(
                ranges,
                locations,
                n,
            )[k]).buffer_slices == seq![
                BufferSlice {
                    buffer_idx: present(ranges, n)[k] as usize,
                    range: Range {
                        start: 0,
                        end: spec_range_len(ranges[present(ranges, n)[k]]->0) as usize,
                    },
                    alignment: locations[present(ranges, n)[k]].alignment,
                },
            ],
    decreases n,
{
    if n > 0 {
        lemma_reads_in(ranges, locations, n - 1);
    }
}

/// The span of non-empty ranges that end by `limit` is not empty and ends by it too. It begins
/// where one of them begins and ends where one of them ends.
proof fn lemma_span_bounds(ranges: Seq<Option<Range<usize>>>, limit: int)
    requires
        forall|i: int|
            0 <= i < ranges.len() && (#[trigger] ranges[i]) is Some ==> ranges[i]->0.start
                < ranges[i]->0.end <= limit,
        span(ranges) is Some,
    ensures
        span(ranges)->0.start < span(ranges)->0.end <= limit,
        exists|i: int|
            0 <= i < ranges.len() && (#[trigger] ranges[i]) is Some && ranges[i]->0.start == span(
                ranges,
            )->0.start,
        exists|i: int|
            0 <= i < ranges.len() && (#[trigger] ranges[i]) is Some && ranges[i]->0.end == span(
                ranges,
            )->0.end,
    decreases ranges.len(),
{
    let before = ranges.drop_last();
    let last = ranges.len() - 1;
    assert(ranges[last] == ranges.last());
    assert forall|i: int| 0 <= i < before.len() && (
    #[trigger] before[i]) is Some implies before[i]->0.start < before[i]->0.end <= limit by {
        assert(ranges[i] is Some);
    }
    if span(before) is Some {
        lemma_span_bounds(before, limit);
        let a = choose|i: int|
            0 <= i < before.len() && (#[trigger] before[i]) is Some && before[i]->0.start == span(
                before,
            )->0.start;
        let b = choose|i: int|
            0 <= i < before.len() && (#[trigger] before[i]) is Some && before[i]->0.end == span(
                before,
            )->0.end;
        assert(ranges[a] == before[a]);
        assert(ranges[b] == before[b]);
    }
}

/// The bytes of the segment that a plan provides of buffer `i`, if any: those that are needed for
/// data, or else those that are needed for validity.
pub open spec fn provided_range(
    subtree: SubtreeView,
    locations: Seq<BufferLocation>,
    i: int,
) -> Option<Range<usize>> {
    match absolute_range(subtree.data_needed[i], locations[i]) {
        Some(range) => Some(range),
        None => absolute_range(subtree.validity_needed[i], locations[i]),
    }
}

/// Buffer `i` as it comes out of a segment: the bytes that are provided of it, or none.
pub open spec fn provided_buffer(
    subtree: SubtreeView,
    locations: Seq<BufferLocation>,
    segment: Seq<u8>,
    i: int,
) -> BufferView {
    BufferView {
        bytes: match provided_range(subtree, locations, i) {
            Some(range) => segment.subrange(range.start as int, range.end as int),
            None => Seq::empty(),
        },
        alignment: locations[i].alignment,
    }
}

/// The replies of a source that returns the bytes that it is asked for.
pub open spec fn faithful_replies(segment: Seq<u8>, requests: Seq<Range<usize>>) -> Seq<Seq<u8>> {
    Seq::new(
        requests.len(),
        |i: int| segment.subrange(requests[i].start as int, requests[i].end as int),
    )
}

spec fn placed_in(
    subtree: SubtreeView,
    locations: Seq<BufferLocation>,
    segment: Seq<u8>,
    order: Seq<int>,
) -> Seq<PlacedBuffer> {
    Seq::new(
        order.len(),
        |k: int|
            PlacedBuffer {
                buffer_idx: order[k] as usize,
                buffer: provided_buffer(subtree, locations, segment, order[k]),
            },
    )
}

proof fn lemma_fill_order(
    subtree: SubtreeView,
    locations: Seq<BufferLocation>,
    segment: Seq<u8>,
    order: Seq<int>,
    num_buffers: nat,
)
    requires
        num_buffers <= usize::MAX,
        order.no_duplicates(),
        forall|k: int| 0 <= k < order.len() ==> 0 <= #[trigger] order[k] < num_buffers,
    ensures
        fill_slots(placed_in(subtree, locations, segment, order), num_buffers) == Ok::<
            Seq<Option<BufferView>>,
            VortexError,
        >(
            Seq::new(
                num_buffers,
                |i: int|
                    if order.contains(i) {
                        Some(provided_buffer(subtree, locations, segment, i))
                    } else {
                        None
                    },
            ),
        ),
    decreases order.len(),
{
    let placed = placed_in(subtree, locations, segment, order);
    let slots = Seq::new(
        num_buffers,
        |i: int|
            if order.contains(i) {
                Some(provided_buffer(subtree, locations, segment, i))
            } else {
                None
            },
    );
    if order.len() == 0 {
        assert(slots =~= Seq::new(num_buffers, |i: int| None));
    } else {
        let before = order.drop_last();
        let last = order.last();
        assert(before.no_duplicates());
        lemma_fill_order(subtree, locations, segment, before, num_buffers);
        assert(placed.drop_last() =~= placed_in(subtree, locations, segment, before));
        assert(!before.contains(last)) by {
            if before.contains(last) {
                let k = choose|k: int| 0 <= k < before.len() && before[k] == last;
                assert(order[k] == order[order.len() - 1]);
            }
        }
        assert(order[order.len() - 1] == last);
        let earlier = Seq::new(
            num_buffers,
            |i: int|
                if before.contains(i) {
                    Some(provided_buffer(subtree, locations, segment, i))
                } else {
                    None
                },
        );
        assert forall|i: int| 0 <= i < num_buffers implies order.contains(i) == (before.contains(i)
            || i == last) by {
            if order.contains(i) && i != last {
                let k = choose|k: int| 0 <= k < order.len() && order[k] == i;
                assert(before[k] == i);
            }
            if before.contains(i) {
                let k = choose|k: int| 0 <= k < before.len() && before[k] == i;
                assert(order[k] == i);
            }
        }
        assert(slots =~= earlier.update(
            last,
            Some(provided_buffer(subtree, locations, segment, last)),
        ));
    }
}

/// What is known of the buffers and the plan in the proofs below.
spec fn planned_from(
    subtree: SubtreeView,
    locations: Seq<BufferLocation>,
    row_range: Range<usize>,
    separate_reads: bool,
    segment: Seq<u8>,
) -> bool {
    &&& plan_len_ok(subtree, locations.len())
    &&& locations.len() <= usize::MAX
    &&& locations_valid(locations)
    &&& forall|i: int|
        0 <= i < locations.len() ==> (#[trigger] locations[i]).offset + locations[i].length
            <= segment.len()
    &&& spec_build_plan(subtree, locations, row_range, separate_reads) is Some
}

spec fn data_ranges(subtree: SubtreeView, locations: Seq<BufferLocation>) -> Seq<
    Option<Range<usize>>,
> {
    absolute_ranges(subtree.data_needed, locations)
}

spec fn covered_ranges(subtree: SubtreeView, locations: Seq<BufferLocation>) -> Seq<
    Option<Range<usize>>,
> {
    covered_validity(
        data_ranges(subtree, locations),
        absolute_ranges(subtree.validity_needed, locations),
        span(data_ranges(subtree, locations)),
    )
}

spec fn separate_ranges(subtree: SubtreeView, locations: Seq<BufferLocation>) -> Seq<
    Option<Range<usize>>,
> {
    separate_validity(
        data_ranges(subtree, locations),
        absolute_ranges(subtree.validity_needed, locations),
        span(data_ranges(subtree, locations)),
    )
}

/// The ranges of a plan are not empty and lie in their buffers.
proof fn lemma_range_bounds(
    subtree: SubtreeView,
    locations: Seq<BufferLocation>,
    row_range: Range<usize>,
    separate_reads: bool,
    segment: Seq<u8>,
    i: int,
)
    requires
        planned_from(subtree, locations, row_range, separate_reads, segment),
        0 <= i < locations.len(),
    ensures
        provided_range(subtree, locations, i) matches Some(range) ==> locations[i].offset
            <= range.start < range.end <= locations[i].offset + locations[i].length
            <= segment.len(),
        data_ranges(subtree, locations)[i] is Some ==> provided_range(subtree, locations, i)
            == data_ranges(subtree, locations)[i],
        covered_ranges(subtree, locations)[i] is Some ==> provided_range(subtree, locations, i)
            == covered_ranges(subtree, locations)[i] && data_ranges(subtree, locations)[i] is None
            && separate_ranges(subtree, locations)[i] is None,
        separate_ranges(subtree, locations)[i] is Some ==> provided_range(subtree, locations, i)
            == separate_ranges(subtree, locations)[i] && data_ranges(subtree, locations)[i] is None,
        provided_range(subtree, locations, i) is Some <==> data_ranges(subtree, locations)[i] is Some
            || covered_ranges(subtree, locations)[i] is Some || separate_ranges(
            subtree,
            locations,
        )[i] is Some,
{
    assert(subtree.data_needed[i] == subtree.data_needed[i]);
    assert(subtree.validity_needed[i] == subtree.validity_needed[i]);
    assert(locations[i].offset + locations[i].length <= segment.len());
    assert(locations[i].offset + locations[i].length <= usize::MAX);
}

proof fn lemma_data_span(
    subtree: SubtreeView,
    locations: Seq<BufferLocation>,
    row_range: Range<usize>,
    separate_reads: bool,
    segment: Seq<u8>,
)
    requires
        planned_from(subtree, locations, row_range, separate_reads, segment),
    ensures
        span(data_ranges(subtree, locations)) matches Some(s) ==> s.start < s.end <= segment.len(),
        span(data_ranges(subtree, locations)) is None ==> forall|i: int|
            0 <= i < locations.len() ==> (#[trigger] data_ranges(subtree, locations)[i]) is None
                && covered_ranges(subtree, locations)[i] is None,
{
    let data = data_ranges(subtree, locations);
    assert forall|i: int| 0 <= i < data.len() && (
    #[trigger] data[i]) is Some implies data[i]->0.start < data[i]->0.end <= segment.len() by {
        lemma_range_bounds(subtree, locations, row_range, separate_reads, segment, i);
    }
    if span(data) is Some {
        lemma_span_bounds(data, segment.len() as int);
    } else {
        assert forall|i: int| 0 <= i < locations.len() implies (#[trigger] data[i]) is None
            && covered_ranges(subtree, locations)[i] is None by {
            if data[i] is Some {
                lemma_span_contains(data, i);
            }
        }
    }
}

/// The buffers in the reply to the read of the data.
proof fn lemma_data_reply(
    subtree: SubtreeView,
    locations: Seq<BufferLocation>,
    row_range: Range<usize>,
    separate_reads: bool,
    segment: Seq<u8>,
)
    requires
        planned_from(subtree, locations, row_range, separate_reads, segment),
        span(data_ranges(subtree, locations)) is Some,
    ensures
        ({
            let n = locations.len() as int;
            let s = span(data_ranges(subtree, locations))->0;
            let plan = spec_build_plan(subtree, locations, row_range, separate_reads)->0;
            buffers_in_reply(
                plan.data_read->0,
                segment.subrange(s.start as int, s.end as int),
            ) == placed_in(
                subtree,
                locations,
                segment,
                present(data_ranges(subtree, locations), n) + present(
                    covered_ranges(subtree, locations),
                    n,
                ),
            )
        }),
{
    let n = locations.len() as int;
    let data = data_ranges(subtree, locations);
    let covered = covered_ranges(subtree, locations);
    let s = span(data)->0;
    let plan = spec_build_plan(subtree, locations, row_range, separate_reads)->0;
    let read = plan.data_read->0;
    let reply = segment.subrange(s.start as int, s.end as int);
    let order = present(data, n) + present(covered, n);
    lemma_present(data, n);
    lemma_present(covered, n);
    lemma_slices_in(data, locations, s.start, n);
    lemma_slices_in(covered, locations, s.start, n);
    lemma_data_span(subtree, locations, row_range, separate_reads, segment);
    assert(read.buffer_slices =~= slices_in(data, locations, s.start, n) + slices_in(
        covered,
        locations,
        s.start,
        n,
    ));
    let found = buffers_in_reply(read, reply);
    let expected = placed_in(subtree, locations, segment, order);
    assert forall|k: int| 0 <= k < order.len() implies found[k] == expected[k] by {
        let i = order[k];
        if k < present(data, n).len() {
            assert(i == present(data, n)[k]);
            lemma_span_contains(data, i);
        } else {
            assert(i == present(covered, n)[k - present(data, n).len()]);
            assert(covered[i] is Some);
        }
        lemma_range_bounds(subtree, locations, row_range, separate_reads, segment, i);
        let range = provided_range(subtree, locations, i)->0;
        assert(spec_contains_range(s, range));
        assert(read.buffer_slices[k] == slice_for(range, locations[i], s.start, i));
        assert(reply.subrange(range.start - s.start, range.end - s.start) =~= segment.subrange(
            range.start as int,
            range.end as int,
        ));
        assert(found[k].buffer =~= expected[k].buffer);
    }
    assert(found =~= expected);
}

/// The buffers in the replies to the read of the data and to the first `m` separate reads.
proof fn lemma_separate_replies(
    subtree: SubtreeView,
    locations: Seq<BufferLocation>,
    row_range: Range<usize>,
    separate_reads: bool,
    segment: Seq<u8>,
    m: int,
)
    requires
        planned_from(subtree, locations, row_range, separate_reads, segment),
        0 <= m <= present(separate_ranges(subtree, locations), locations.len() as int).len(),
    ensures
        ({
            let n = locations.len() as int;
            let data = data_ranges(subtree, locations);
            let plan = spec_build_plan(subtree, locations, row_range, separate_reads)->0;
            let first = if plan.data_read is Some { 1int } else { 0int };
            let order = present(data, n) + present(covered_ranges(subtree, locations), n) + present(
                separate_ranges(subtree, locations),
                n,
            ).take(m);
            buffers_in_replies(
                plan_reads(plan),
                faithful_replies(segment, plan_requests(plan)),
                first + m,
            ) == Ok::<Seq<PlacedBuffer>, VortexError>(
                placed_in(subtree, locations, segment, order),
            )
        }),
    decreases m,
{
    let n = locations.len() as int;
    let data = data_ranges(subtree, locations);
    let covered = covered_ranges(subtree, locations);
    let separate = separate_ranges(subtree, locations);
    let plan = spec_build_plan(subtree, locations, row_range, separate_reads)->0;
    let first = if plan.data_read is Some { 1int } else { 0int };
    let reads = plan_reads(plan);
    let replies = faithful_replies(segment, plan_requests(plan));
    let base = present(data, n) + present(covered, n);
    lemma_present(data, n);
    lemma_present(covered, n);
    lemma_present(separate, n);
    lemma_reads_in(separate, locations, n);
    lemma_data_span(subtree, locations, row_range, separate_reads, segment);
    assert(plan.validity_reads == reads_in(separate, locations, n));
    if m == 0 {
        assert(base + present(separate, n).take(0) =~= base);
        assert(buffers_in_replies(reads, replies, 0) == Ok::<Seq<PlacedBuffer>, VortexError>(
            Seq::empty(),
        ));
        if plan.data_read is Some {
            lemma_data_reply(subtree, locations, row_range, separate_reads, segment);
            let s = span(data)->0;
            assert(reads[0] == plan.data_read->0);
            assert(plan_requests(plan)[0] == s);
            assert(replies[0] == segment.subrange(s.start as int, s.end as int));
            assert(Seq::<PlacedBuffer>::empty() + buffers_in_reply(reads[0], replies[0])
                =~= placed_in(subtree, locations, segment, base));
        } else {
            if present(data, n).len() > 0 {
                let i = present(data, n)[0];
                assert(data[i] is Some);
            }
            if present(covered, n).len() > 0 {
                let i = present(covered, n)[0];
                assert(covered[i] is Some);
                assert(data[i] is None);
            }
            assert(placed_in(subtree, locations, segment, base) =~= Seq::<PlacedBuffer>::empty());
        }
    } else {
        lemma_separate_replies(
            subtree,
            locations,
            row_range,
            separate_reads,
            segment,
            m - 1,
        );
        let i = present(separate, n)[m - 1];
        let r = first + m - 1;
        assert(reads[r] == plan.validity_reads[m - 1]);
        assert(separate[i] is Some);
        lemma_range_bounds(subtree, locations, row_range, separate_reads, segment, i);
        let range = separate[i]->0;
        assert(plan_requests(plan)[r] == range);
        let reply = segment.subrange(range.start as int, range.end as int);
        assert(replies[r] == reply);
        assert(reply.subrange(0, spec_range_len(range) as int) =~= reply);
        let before = base + present(separate, n).take(m - 1);
        let order = base + present(separate, n).take(m);
        assert(order =~= before.push(i));
        let found = buffers_in_reply(reads[r], replies[r]);
        assert(found.len() == 1);
        assert(found[0].buffer =~= provided_buffer(subtree, locations, segment, i));
        assert(placed_in(subtree, locations, segment, order) =~= placed_in(
            subtree,
            locations,
            segment,
            before,
        ) + found);
        assert(buffers_in_replies(reads, replies, first + m) == Ok::<
            Seq<PlacedBuffer>,
            VortexError,
        >(placed_in(subtree, locations, segment, order)));
    }
}

/// A range read gives back what the segment holds: when every request is answered with the bytes
/// that it asks for, the buffers are put together without error, and each one consists of exactly
/// the bytes of the segment that are needed of it. A buffer of which nothing is needed is empty.
pub proof fn law_assembly_gives_back_the_needed_bytes(
    subtree: SubtreeView,
    locations: Seq<BufferLocation>,
    row_range: Range<usize>,
    separate_reads: bool,
    segment: Seq<u8>,
)
    requires
        plan_len_ok(subtree, locations.len()),
        locations.len() <= usize::MAX,
        locations_valid(locations),
        forall|i: int|
            0 <= i < locations.len() ==> (#[trigger] locations[i]).offset + locations[i].length
                <= segment.len(),
        spec_build_plan(subtree, locations, row_range, separate_reads) is Some,
    ensures
        ({
            let plan = spec_build_plan(subtree, locations, row_range, separate_reads)->0;
            spec_assemble(plan, faithful_replies(segment, plan_requests(plan))) == Ok::<
                Seq<BufferView>,
                VortexError,
            >(
                Seq::new(
                    locations.len(),
                    |i: int| provided_buffer(subtree, locations, segment, i),
                ),
            )
        }),
{
    let n = locations.len() as int;
    let data = data_ranges(subtree, locations);
    let covered = covered_ranges(subtree, locations);
    let separate = separate_ranges(subtree, locations);
    let plan = spec_build_plan(subtree, locations, row_range, separate_reads)->0;
    lemma_present(data, n);
    lemma_present(covered, n);
    lemma_present(separate, n);
    lemma_reads_in(separate, locations, n);
    let last = present(separate, n);
    lemma_separate_replies(
        subtree,
        locations,
        row_range,
        separate_reads,
        segment,
        last.len() as int,
    );
    assert(last.take(last.len() as int) =~= last);
    let order = present(data, n) + present(covered, n) + last;
    let nd = present(data, n).len();
    let nc = present(covered, n).len();
    assert forall|k: int| 0 <= k < order.len() implies 0 <= #[trigger] order[k] < n
        && provided_range(subtree, locations, order[k]) is Some by {
        if k < nd {
            assert(order[k] == present(data, n)[k]);
        } else if k < nd + nc {
            assert(order[k] == present(covered, n)[k - nd]);
        } else {
            assert(order[k] == last[k - nd - nc]);
        }
        lemma_range_bounds(subtree, locations, row_range, separate_reads, segment, order[k]);
    }
    assert forall|j: int, k: int| 0 <= j < k < order.len() implies order[j] != order[k] by {
        lemma_range_bounds(subtree, locations, row_range, separate_reads, segment, order[j]);
        lemma_range_bounds(subtree, locations, row_range, separate_reads, segment, order[k]);
        if k < nd {
            assert(order[j] == present(data, n)[j] && order[k] == present(data, n)[k]);
        } else if k < nd + nc {
            assert(order[k] == present(covered, n)[k - nd]);
            if j < nd {
                assert(order[j] == present(data, n)[j]);
            } else {
                assert(order[j] == present(covered, n)[j - nd]);
            }
        } else {
            assert(order[k] == last[k - nd - nc]);
            if j < nd {
                assert(order[j] == present(data, n)[j]);
            } else if j < nd + nc {
                assert(order[j] == present(covered, n)[j - nd]);
            } else {
                assert(order[j] == last[j - nd - nc]);
            }
        }
    }
    assert(order.no_duplicates());
    lemma_fill_order(subtree, locations, segment, order, locations.len());
    let slots = Seq::new(
        locations.len(),
        |i: int|
            if order.contains(i) {
                Some(provided_buffer(subtree, locations, segment, i))
            } else {
                None
            },
    );
    let expected = Seq::new(
        locations.len(),
        |i: int| provided_buffer(subtree, locations, segment, i),
    );
    let buffers = finish_slots(slots, alignments_of(locations));
    assert forall|i: int| 0 <= i < n implies buffers[i] == expected[i] by {
        lemma_range_bounds(subtree, locations, row_range, separate_reads, segment, i);
        if provided_range(subtree, locations, i) is Some {
            if data[i] is Some {
                let k = choose|k: int| 0 <= k < nd && present(data, n)[k] == i;
                assert(present(data, n).contains(i));
                assert(order[k] == i);
            } else if covered[i] is Some {
                assert(present(covered, n).contains(i));
                let k = choose|k: int| 0 <= k < nc && present(covered, n)[k] == i;
                assert(order[nd + k] == i);
            } else {
                assert(last.contains(i));
                let k = choose|k: int| 0 <= k < last.len() && last[k] == i;
                assert(order[nd + nc + k] == i);
            }
            assert(order.contains(i));
        } else if order.contains(i) {
            let k = choose|k: int| 0 <= k < order.len() && order[k] == i;
            assert(provided_range(subtree, locations, order[k]) is Some);
        }
        assert(buffers[i] =~= expected[i]);
    }
    assert(buffers =~= expected);
    assert(plan_reads(plan).len() == (if plan.data_read is Some { 1int } else { 0int })
        + last.len());
}

/// A range read of part of an array, from planning to assembly: the rows to decode include those
/// that were asked for, and the buffers to decode them from consist of exactly the bytes of the
/// segment that the analysis found to be needed.
pub proof fn law_range_read_from_tree_to_buffers<P: VTable>(
    registry: Map<Seq<char>, P>,
    ids: Seq<Seq<char>>,
    tree: ArrayTreeView,
    row_range: Range<usize>,
    row_count: usize,
    dtype: DType,
    separate_reads: bool,
    segment: Seq<u8>,
)
    requires
        locations_fit(tree.buffers),
        tree.buffers.len() <= usize::MAX,
        buffers_end(tree.buffers, tree.buffers.len() as int) <= segment.len(),
        spec_plan_tree(
            registry,
            ids,
            tree,
            row_range,
            row_count,
            dtype,
            separate_reads,
        ) matches Ok(Some(_)),
    ensures
        ({
            let plan = spec_plan_tree(
                registry,
                ids,
                tree,
                row_range,
                row_count,
                dtype,
                separate_reads,
            )->Ok_0->0;
            let subtree = spec_analyze_encoding(
                registry,
                ids,
                tree.root->0,
                row_range,
                row_count,
                dtype,
                tree.buffers.len(),
            )->Ok_0->0;
            &&& spec_contains_range(subtree.decoded_range, row_range)
            &&& plan.decode_len == spec_range_len(subtree.decoded_range)
            &&& spec_assemble(plan, faithful_replies(segment, plan_requests(plan))) == Ok::<
                Seq<BufferView>,
                VortexError,
            >(
                Seq::new(
                    tree.buffers.len(),
                    |i: int|
                        provided_buffer(subtree, spec_locations(tree.buffers), segment, i),
                ),
            )
        }),
{
    law_analysis_covers_the_request(
        registry,
        ids,
        tree.root->0,
        row_range,
        row_count,
        dtype,
        tree.buffers.len(),
    );
    let subtree = spec_analyze_encoding(
        registry,
        ids,
        tree.root->0,
        row_range,
        row_count,
        dtype,
        tree.buffers.len(),
    )->Ok_0->0;
    let locations = spec_locations(tree.buffers);
    lemma_locations_valid(tree.buffers);
    assert forall|i: int| 0 <= i < locations.len() implies (#[trigger] locations[i]).offset
        + locations[i].length <= segment.len() by {
        lemma_buffers_end_monotonic(tree.buffers, i + 1, tree.buffers.len() as int);
    }
    law_assembly_gives_back_the_needed_bytes(
        subtree,
        locations,
        row_range,
        separate_reads,
        segment,
    );
}

/// Every byte that is needed, for data or for validity, is among those that are provided.
pub proof fn law_needed_bytes_are_provided(
    subtree: SubtreeView,
    locations: Seq<BufferLocation>,
    row_range: Range<usize>,
    separate_reads: bool,
    i: int,
    pos: int,
)
    requires
        plan_len_ok(subtree, locations.len()),
        locations_valid(locations),
        spec_build_plan(subtree, locations, row_range, separate_reads) is Some,
        0 <= i < locations.len(),
        needs_byte(subtree.data_needed[i], locations[i].length as int, pos) || needs_byte(
            subtree.validity_needed[i],
            locations[i].length as int,
            pos,
        ),
    ensures
        provided_range(subtree, locations, i) matches Some(range) && range.start
            <= locations[i].offset + pos < range.end,
{
    let data = data_ranges(subtree, locations);
    let validity = absolute_ranges(subtree.validity_needed, locations);
    assert(locations[i].offset + locations[i].length <= usize::MAX);
    assert(need_is_valid(subtree.data_needed[i], locations[i]));
    assert(need_is_valid(subtree.validity_needed[i], locations[i]));
    assert(data[i] == absolute_range(subtree.data_needed[i], locations[i]));
    assert(validity[i] == absolute_range(subtree.validity_needed[i], locations[i]));
}

/// Every read asks for some bytes that lie in the segment, and every slice lies in its read,
/// belongs to a buffer of the tree and has the alignment of that buffer.
pub proof fn law_reads_lie_in_the_segment(
    subtree: SubtreeView,
    specs: Seq<BufferSpec>,
    row_range: Range<usize>,
    separate_reads: bool,
    r: int,
)
    requires
        locations_fit(specs),
        specs.len() <= usize::MAX,
        plan_len_ok(subtree, specs.len()),
        spec_build_plan(subtree, spec_locations(specs), row_range, separate_reads) is Some,
        0 <= r < plan_reads(
            spec_build_plan(subtree, spec_locations(specs), row_range, separate_reads)->0,
        ).len(),
    ensures
        ({
            let plan = spec_build_plan(
                subtree,
                spec_locations(specs),
                row_range,
                separate_reads,
            )->0;
            let read = plan_reads(plan)[r];
            &&& read.segment_range.start < read.segment_range.end <= buffers_end(
                specs,
                specs.len() as int,
            )
            &&& forall|k: int|
                0 <= k < read.buffer_slices.len() ==> {
                    let slice = #[trigger] read.buffer_slices[k];
                    &&& slice.range.start < slice.range.end <= spec_range_len(read.segment_range)
                    &&& slice.buffer_idx < specs.len()
                    &&& slice.alignment == spec_locations(specs)[slice.buffer_idx as int].alignment
                    &&& slice.alignment.valid()
                    &&& slice.range.end - slice.range.start <= spec_locations(
                        specs,
                    )[slice.buffer_idx as int].length
                }
        }),
{
    let locations = spec_locations(specs);
    let n = locations.len() as int;
    let plan = spec_build_plan(subtree, locations, row_range, separate_reads)->0;
    let end = buffers_end(specs, specs.len() as int);
    let segment = Seq::new(end, |i: int| 0u8);
    let data = data_ranges(subtree, locations);
    let covered = covered_ranges(subtree, locations);
    let separate = separate_ranges(subtree, locations);
    lemma_locations_valid(specs);
    assert forall|i: int| 0 <= i < locations.len() implies (#[trigger] locations[i]).offset
        + locations[i].length <= segment.len() by {
        lemma_buffers_end_monotonic(specs, i + 1, specs.len() as int);
    }
    assert(planned_from(subtree, locations, row_range, separate_reads, segment));
    lemma_data_span(subtree, locations, row_range, separate_reads, segment);
    lemma_present(data, n);
    lemma_present(covered, n);
    lemma_present(separate, n);
    let read = plan_reads(plan)[r];
    if plan.data_read is Some && r == 0 {
        let s = span(data)->0;
        lemma_slices_in(data, locations, s.start, n);
        lemma_slices_in(covered, locations, s.start, n);
        let nd = present(data, n).len();
        assert(read.buffer_slices == slices_in(data, locations, s.start, n) + slices_in(
            covered,
            locations,
            s.start,
            n,
        ));
        assert forall|k: int| 0 <= k < read.buffer_slices.len() implies {
            let slice = #[trigger] read.buffer_slices[k];
            &&& slice.range.start < slice.range.end <= spec_range_len(read.segment_range)
            &&& slice.buffer_idx < specs.len()
            &&& slice.alignment == locations[slice.buffer_idx as int].alignment
            &&& slice.alignment.valid()
            &&& slice.range.end - slice.range.start <= locations[slice.buffer_idx as int].length
        } by {
            let i = if k < nd { present(data, n)[k] } else { present(covered, n)[k - nd] };
            if k < nd {
                lemma_span_contains(data, i);
            } else {
                assert(covered[i] is Some);
            }
            lemma_range_bounds(subtree, locations, row_range, separate_reads, segment, i);
            assert(specs[i].alignment_exponent < usize::BITS);
        }
    } else {
        let first = if plan.data_read is Some { 1int } else { 0int };
        lemma_reads_in(separate, locations, n);
        let i = present(separate, n)[r - first];
        assert(read == plan.validity_reads[r - first]);
        assert(separate[i] is Some);
        lemma_range_bounds(subtree, locations, row_range, separate_reads, segment, i);
        assert(specs[i].alignment_exponent < usize::BITS);
    }
}

/// The buffers of a plan can be put together from its reads as long as each buffer of the tree can
/// be allocated with its alignment.
pub proof fn law_plans_can_be_assembled(
    subtree: SubtreeView,
    specs: Seq<BufferSpec>,
    row_range: Range<usize>,
    separate_reads: bool,
)
    requires
        locations_fit(specs),
        specs.len() <= usize::MAX,
        plan_len_ok(subtree, specs.len()),
        spec_build_plan(subtree, spec_locations(specs), row_range, separate_reads) is Some,
        forall|i: int|
            0 <= i < specs.len() ==> (#[trigger] spec_locations(specs)[i]).alignment.can_hold(
                spec_locations(specs)[i].length as nat,
            ),
    ensures
        plan_is_usable(
            spec_build_plan(subtree, spec_locations(specs), row_range, separate_reads)->0,
        ),
{
    let locations = spec_locations(specs);
    let plan = spec_build_plan(subtree, locations, row_range, separate_reads)->0;
    assert forall|r: int| 0 <= r < plan_reads(plan).len() implies read_is_usable(
        #[trigger] plan_reads(plan)[r],
    ) by {
        law_reads_lie_in_the_segment(subtree, specs, row_range, separate_reads, r);
        let read = plan_reads(plan)[r];
        assert forall|k: int| 0 <= k < read.buffer_slices.len() implies slice_is_usable(
            #[trigger] read.buffer_slices[k],
            spec_range_len(read.segment_range),
        ) by {
            let slice = read.buffer_slices[k];
            let location = locations[slice.buffer_idx as int];
            assert(location.alignment.can_hold(location.length as nat));
        }
    }
    assert forall|i: int| 0 <= i < plan.buffer_alignments.len() implies (
    #[trigger] plan.buffer_alignments[i]).valid() by {
        assert(specs[i].alignment_exponent < usize::BITS);
    }
}

/// Without separate reads of validity a plan makes one request at most.
pub proof fn law_one_request_unless_separate_reads_are_allowed(
    subtree: SubtreeView,
    locations: Seq<BufferLocation>,
    row_range: Range<usize>,
)
    ensures
        spec_build_plan(subtree, locations, row_range, false) matches Some(plan)
            ==> plan.validity_reads.len() == 0 && plan_requests(plan).len() <= 1,
{
}

/// The number of bytes in some ranges.
pub open spec fn total_len(ranges: Seq<Range<usize>>) -> nat
    decreases ranges.len(),
{
    if ranges.len() == 0 {
        0
    } else {
        total_len(ranges.drop_last()) + spec_range_len(ranges.last())
    }
}

proof fn lemma_total_of_reads(
    ranges: Seq<Option<Range<usize>>>,
    locations: Seq<BufferLocation>,
    prefix: Seq<Range<usize>>,
    n: int,
)
    ensures
        total_len(
            prefix + Seq::new(
                reads_in(ranges, locations, n).len(),
                |k: int| reads_in(ranges, locations, n)[k].segment_range,
            ),
        ) == total_len(prefix) + bytes_in(ranges, n),
    decreases n,
{
    let now = Seq::new(
        reads_in(ranges, locations, n).len(),
        |k: int| reads_in(ranges, locations, n)[k].segment_range,
    );
    if n <= 0 {
        assert(prefix + now =~= prefix);
    } else {
        lemma_total_of_reads(ranges, locations, prefix, n - 1);
        let before = Seq::new(
            reads_in(ranges, locations, n - 1).len(),
            |k: int| reads_in(ranges, locations, n - 1)[k].segment_range,
        );
        if ranges[n - 1] is Some {
            assert((prefix + now).drop_last() =~= prefix + before);
        } else {
            assert(now =~= before);
        }
    }
}

/// A plan requests no more than half of the bytes up to the end of the last buffer.
pub proof fn law_no_more_than_half_is_requested(
    subtree: SubtreeView,
    locations: Seq<BufferLocation>,
    row_range: Range<usize>,
    separate_reads: bool,
)
    ensures
        spec_build_plan(subtree, locations, row_range, separate_reads) matches Some(plan)
            ==> full_size(locations) == 0 || total_len(plan_requests(plan)) * 2 <= full_size(
            locations,
        ),
{
    if let Some(plan) = spec_build_plan(subtree, locations, row_range, separate_reads) {
        let n = locations.len() as int;
        let separate = separate_ranges(subtree, locations);
        let reads = Seq::new(
            reads_in(separate, locations, n).len(),
            |k: int| reads_in(separate, locations, n)[k].segment_range,
        );
        if let Some(s) = span(data_ranges(subtree, locations)) {
            assert(seq![s].drop_last() =~= Seq::<Range<usize>>::empty());
            assert(total_len(seq![s]) == total_len(seq![s].drop_last()) + spec_range_len(s));
            lemma_total_of_reads(separate, locations, seq![s], n);
            assert(plan_requests(plan) =~= seq![s] + reads);
        } else {
            lemma_total_of_reads(separate, locations, Seq::empty(), n);
            assert(plan_requests(plan) =~= Seq::<Range<usize>>::empty() + reads);
        }
    }
}

/// No byte of the segment is requested twice.
pub proof fn law_requests_do_not_overlap(
    subtree: SubtreeView,
    specs: Seq<BufferSpec>,
    row_range: Range<usize>,
    separate_reads: bool,
    j: int,
    k: int,
)
    requires
        locations_fit(specs),
        specs.len() <= usize::MAX,
        plan_len_ok(subtree, specs.len()),
        spec_build_plan(subtree, spec_locations(specs), row_range, separate_reads) is Some,
        0 <= j < k < plan_requests(
            spec_build_plan(subtree, spec_locations(specs), row_range, separate_reads)->0,
        ).len(),
    ensures
        ({
            let requests = plan_requests(
                spec_build_plan(subtree, spec_locations(specs), row_range, separate_reads)->0,
            );
            requests[j].end <= requests[k].start || requests[k].end <= requests[j].start
        }),
{
    let locations = spec_locations(specs);
    let n = locations.len() as int;
    let plan = spec_build_plan(subtree, locations, row_range, separate_reads)->0;
    let end = buffers_end(specs, specs.len() as int);
    let segment = Seq::new(end, |i: int| 0u8);
    let data = data_ranges(subtree, locations);
    let separate = separate_ranges(subtree, locations);
    lemma_locations_valid(specs);
    assert forall|i: int| 0 <= i < locations.len() implies (#[trigger] locations[i]).offset
        + locations[i].length <= segment.len() by {
        lemma_buffers_end_monotonic(specs, i + 1, specs.len() as int);
    }
    assert(planned_from(subtree, locations, row_range, separate_reads, segment));
    lemma_present(separate, n);
    lemma_reads_in(separate, locations, n);
    let first = if plan.data_read is Some { 1int } else { 0int };
    let b = present(separate, n)[k - first];
    assert(plan_reads(plan)[k] == plan.validity_reads[k - first]);
    assert(separate[b] is Some);
    lemma_range_bounds(subtree, locations, row_range, separate_reads, segment, b);
    let requests = plan_requests(plan);
    if first == 1 && j == 0 {
        let s = span(data)->0;
        assert forall|i: int| 0 <= i < data.len() && (
        #[trigger] data[i]) is Some implies data[i]->0.start < data[i]->0.end <= segment.len() by {
            lemma_range_bounds(subtree, locations, row_range, separate_reads, segment, i);
        }
        lemma_span_bounds(data, segment.len() as int);
        let lo = choose|i: int|
            0 <= i < data.len() && (#[trigger] data[i]) is Some && data[i]->0.start == s.start;
        let hi = choose|i: int|
            0 <= i < data.len() && (#[trigger] data[i]) is Some && data[i]->0.end == s.end;
        lemma_range_bounds(subtree, locations, row_range, separate_reads, segment, lo);
        lemma_range_bounds(subtree, locations, row_range, separate_reads, segment, hi);
        lemma_buffer_order(specs, lo, b);
        lemma_buffer_order(specs, hi, b);
        assert(requests[0] == s);
    } else {
        let a = present(separate, n)[j - first];
        assert(plan_reads(plan)[j] == plan.validity_reads[j - first]);
        assert(separate[a] is Some);
        lemma_range_bounds(subtree, locations, row_range, separate_reads, segment, a);
        assert(a != b);
        lemma_buffer_order(specs, a, b);
    }
}

/// Of two buffers, one ends before the other begins.
proof fn lemma_buffer_order(specs: Seq<BufferSpec>, a: int, b: int)
    requires
        locations_fit(specs),
        0 <= a < specs.len(),
        0 <= b < specs.len(),
    ensures
        ({
            let locations = spec_locations(specs);
            &&& a < b ==> locations[a].offset + locations[a].length <= locations[b].offset
            &&& b < a ==> locations[b].offset + locations[b].length <= locations[a].offset
        }),
{
    lemma_locations_valid(specs);
    lemma_buffers_end_monotonic(specs, a + 1, specs.len() as int);
    lemma_buffers_end_monotonic(specs, b + 1, specs.len() as int);
    let locations = spec_locations(specs);
    assert(locations[a].offset + locations[a].length == buffers_end(specs, a + 1));
    assert(locations[b].offset + locations[b].length == buffers_end(specs, b + 1));
    if a < b {
        lemma_buffers_end_monotonic(specs, a + 1, b);
    } else if b < a {
        lemma_buffers_end_monotonic(specs, b + 1, a);
    }
}

/// The decoded rows that a plan keeps are the rows that were asked for: all decoded rows if those
/// are the same, else as many as were asked for, beginning at the first of them.
pub proof fn law_post_slice_keeps_the_requested_rows(
    subtree: SubtreeView,
    locations: Seq<BufferLocation>,
    row_range: Range<usize>,
    separate_reads: bool,
)
    requires
        row_range.start <= row_range.end,
        spec_contains_range(subtree.decoded_range, row_range),
        spec_build_plan(subtree, locations, row_range, separate_reads) is Some,
    ensures
        ({
            let plan = spec_build_plan(subtree, locations, row_range, separate_reads)->0;
            match plan.post_slice {
                None => subtree.decoded_range == row_range && plan.decode_len == spec_range_len(
                    row_range,
                ),
                Some(kept) => {
                    &&& subtree.decoded_range != row_range
                    &&& kept.start <= kept.end <= plan.decode_len
                    &&& spec_range_len(kept) == spec_range_len(row_range)
                    &&& subtree.decoded_range.start + kept.start == row_range.start
                },
            }
        }),
{
}

/// Nothing is planned for all rows, for none, or for rows that the array does not have, whatever
/// the bytes of the tree are.
pub proof fn law_only_parts_are_planned<P: VTable>(
    registry: Map<Seq<char>, P>,
    ids: Seq<Seq<char>>,
    parsed: Option<ArrayTreeView>,
    row_range: Range<usize>,
    row_count: usize,
    dtype: DType,
    separate_reads: bool,
)
    requires
        !is_partial(row_range, row_count),
    ensures
        spec_try_plan(
            registry,
            ids,
            parsed,
            row_range,
            row_count,
            dtype,
            separate_reads,
        ) == Ok::<Option<PlanView>, VortexError>(None),
{
}

/// The bytes of the segment that are needed of a buffer lie where the buffer lies: all of its
/// bytes, or those of a range, counted from where it begins. No bytes make no range. A buffer does
/// not have the bytes of a range that ends before it starts, or past the end of the buffer.
pub proof fn law_needs_lie_in_their_buffer(
    entry: Option<NeededBuffer>,
    location: BufferLocation,
)
    requires
        location.offset + location.length <= usize::MAX,
    ensures
        entry is None ==> need_is_valid(entry, location) && absolute_range(entry, location) is None,
        entry == Some(NeededBuffer::Full) ==> {
            &&& need_is_valid(entry, location)
            &&& location.length == 0 ==> absolute_range(entry, location) is None
            &&& location.length > 0 ==> {
                &&& absolute_range(entry, location) matches Some(bytes)
                &&& bytes.start == location.offset
                &&& bytes.end == location.offset + location.length
            }
        },
        entry matches Some(NeededBuffer::Range(range)) ==> {
            &&& need_is_valid(entry, location) <==> range.start <= range.end && range.end
                <= location.length
            &&& range.start >= range.end ==> absolute_range(entry, location) is None
            &&& range.start < range.end <= location.length ==> {
                &&& absolute_range(entry, location) matches Some(bytes)
                &&& bytes.start == location.offset + range.start
                &&& bytes.end == location.offset + range.end
            }
        },
{
}

/// The span of some ranges is the smallest that contains all of them: it begins where one of them
/// begins and ends where one of them ends. There is one if there is a range.
pub proof fn law_span_is_the_smallest(ranges: Seq<Option<Range<usize>>>)
    ensures
        span(ranges) is None <==> forall|i: int|
            0 <= i < ranges.len() ==> (#[trigger] ranges[i]) is None,
        span(ranges) matches Some(s) ==> {
            &&& forall|i: int|
                0 <= i < ranges.len() && (#[trigger] ranges[i]) is Some ==> s.start
                    <= ranges[i]->0.start && ranges[i]->0.end <= s.end
            &&& exists|i: int|
                0 <= i < ranges.len() && (#[trigger] ranges[i]) is Some && ranges[i]->0.start
                    == s.start
            &&& exists|i: int|
                0 <= i < ranges.len() && (#[trigger] ranges[i]) is Some && ranges[i]->0.end == s.end
        },
    decreases ranges.len(),
{
    if ranges.len() > 0 {
        let before = ranges.drop_last();
        let last = ranges.len() - 1;
        law_span_is_the_smallest(before);
        assert(ranges[last] == ranges.last());
        assert forall|i: int| 0 <= i < before.len() implies before[i] == #[trigger] ranges[i] by {}
        if let Some(s) = span(before) {
            let a = choose|i: int|
                0 <= i < before.len() && (#[trigger] before[i]) is Some && before[i]->0.start
                    == s.start;
            let b = choose|i: int|
                0 <= i < before.len() && (#[trigger] before[i]) is Some && before[i]->0.end
                    == s.end;
            assert(ranges[a] is Some && ranges[b] is Some);
        }
        if span(ranges) is None {
            assert forall|i: int| 0 <= i < ranges.len() implies (#[trigger] ranges[i]) is None by {
                if i < last {
                    assert(before[i] is None);
                }
            }
        } else {
            assert forall|i: int|
                0 <= i < ranges.len() && (#[trigger] ranges[i]) is Some implies (
            span(ranges)->0).start <= ranges[i]->0.start && ranges[i]->0.end <= (
            span(ranges)->0).end by {
                if i < last {
                    assert(before[i] is Some);
                }
            }
        }
    }
}

/// The bytes of some ranges are those of each of them; no range has no bytes.
pub proof fn law_bytes_are_counted_by_range(ranges: Seq<Option<Range<usize>>>, n: int)
    requires
        0 <= n < ranges.len(),
    ensures
        bytes_in(ranges, 0) == 0,
        ranges[n] is None ==> bytes_in(ranges, n + 1) == bytes_in(ranges, n),
        ranges[n] matches Some(range) ==> range.start <= range.end ==> bytes_in(ranges, n + 1)
            == bytes_in(ranges, n) + (range.end - range.start),
{
}

/// Reading is worth it if at most half of the bytes up to the end of the last buffer are read, or
/// there are none.
pub proof fn law_half_is_the_limit(
    requested: nat,
    locations: Seq<BufferLocation>,
    last: BufferLocation,
)
    ensures
        full_size(Seq::empty()) == 0,
        full_size(locations.push(last)) == last.offset + last.length,
        below_threshold(requested, 0),
        forall|full: nat|
            full > 0 ==> (#[trigger] below_threshold(requested, full) <==> requested + requested
                <= full),
{
    assert(locations.push(last).last() == last);
}

/// Validity is read along with the data if it lies in the bytes that the data spans; else it takes
/// a read of its own. A buffer that is read as data is not read for validity again.
pub proof fn law_validity_is_read_once(
    data: Seq<Option<Range<usize>>>,
    validity: Seq<Option<Range<usize>>>,
    segment: Option<Range<usize>>,
    i: int,
)
    requires
        data.len() == validity.len(),
        0 <= i < data.len(),
    ensures
        ({
            let covered = covered_validity(data, validity, segment);
            let separate = separate_validity(data, validity, segment);
            let inside = segment is Some && validity[i] is Some && (segment->0).start
                <= validity[i]->0.start && validity[i]->0.end <= (segment->0).end;
            &&& covered.len() == data.len() && separate.len() == data.len()
            &&& validity[i] is None || data[i] is Some ==> covered[i] is None && separate[i] is None
            &&& validity[i] is Some && data[i] is None && inside ==> covered[i] == validity[i]
                && separate[i] is None
            &&& validity[i] is Some && data[i] is None && !inside ==> separate[i] == validity[i]
                && covered[i] is None
        }),
        validity_fits_data(data, validity) ==> (data[i] is Some && validity[i] is Some
            ==> data[i]->0.start <= validity[i]->0.start && validity[i]->0.end <= data[i]->0.end),
        !validity_fits_data(data, validity) ==> exists|j: int|
            #![trigger data[j]]
            0 <= j < data.len() && data[j] is Some && validity[j] is Some && !(data[j]->0.start
                <= validity[j]->0.start && validity[j]->0.end <= data[j]->0.end),
{
}

/// A part of the segment is read exactly if every buffer has the bytes that are needed of it, no
/// buffer is needed for validity beyond what is needed of it as data, no read of its own is needed
/// for validity or such reads are allowed, and it is at most half of the bytes up to the end of the
/// last buffer.
pub proof fn law_when_a_part_is_read(
    subtree: SubtreeView,
    locations: Seq<BufferLocation>,
    row_range: Range<usize>,
    separate_reads: bool,
)
    requires
        plan_len_ok(subtree, locations.len()),
        locations_valid(locations),
    ensures
        ({
            let data = absolute_ranges(subtree.data_needed, locations);
            let validity = absolute_ranges(subtree.validity_needed, locations);
            let separate = separate_validity(data, validity, span(data));
            let requested = bytes_in(separate, separate.len() as int) + match span(data) {
                Some(range) => range.end - range.start,
                None => 0,
            };
            let full: int = if locations.len() == 0 {
                0
            } else {
                locations[locations.len() - 1].offset + locations[locations.len() - 1].length
            };
            spec_build_plan(subtree, locations, row_range, separate_reads) is Some <==> {
                &&& forall|i: int|
                    #![trigger locations[i]]
                    0 <= i < locations.len() ==> need_is_valid(subtree.data_needed[i], locations[i])
                        && need_is_valid(subtree.validity_needed[i], locations[i])
                &&& forall|i: int|
                    #![trigger locations[i]]
                    0 <= i < locations.len() && data[i] is Some && validity[i] is Some
                        ==> data[i]->0.start <= validity[i]->0.start && validity[i]->0.end
                        <= data[i]->0.end
                &&& !separate_reads ==> forall|i: int|
                    0 <= i < locations.len() ==> (#[trigger] separate[i]) is None
                &&& requested <= usize::MAX
                &&& full == 0 || requested * 2 <= full
            }
        }),
{
    let data = absolute_ranges(subtree.data_needed, locations);
    let validity = absolute_ranges(subtree.validity_needed, locations);
    let separate = separate_validity(data, validity, span(data));
    let n = locations.len() as int;
    law_span_is_the_smallest(data);
    lemma_present(separate, n);
    lemma_reads_in(separate, locations, n);
    assert(locations.len() > 0 ==> locations.last() == locations[n - 1]);
    assert forall|i: int| 0 <= i < n implies #[trigger] data[i] == absolute_range(
        subtree.data_needed[i],
        locations[i],
    ) && validity[i] == absolute_range(subtree.validity_needed[i], locations[i]) by {}
    if reads_in(separate, locations, n).len() == 0 {
        assert forall|i: int| 0 <= i < n implies (#[trigger] separate[i]) is None by {
            if separate[i] is Some {
                assert(present(separate, n).contains(i));
            }
        }
    } else {
        assert(separate[present(separate, n)[0]] is Some);
    }
    if needs_are_valid(subtree.data_needed, locations) {
        assert forall|i: int| #![trigger locations[i]] 0 <= i < n implies need_is_valid(
            subtree.data_needed[i],
            locations[i],
        ) by {
            assert(need_is_valid(subtree.data_needed[i], locations[i]));
        }
    }
    if needs_are_valid(subtree.validity_needed, locations) {
        assert forall|i: int| #![trigger locations[i]] 0 <= i < n implies need_is_valid(
            subtree.validity_needed[i],
            locations[i],
        ) by {
            assert(need_is_valid(subtree.validity_needed[i], locations[i]));
        }
    }
    if let Some(s) = span(data) {
        let a = choose|i: int|
            0 <= i < data.len() && (#[trigger] data[i]) is Some && data[i]->0.start == s.start;
        assert(data[a] is Some);
        assert(locations[a].offset + locations[a].length <= usize::MAX);
        if forall|i: int|
            #![trigger locations[i]]
            0 <= i < locations.len() ==> need_is_valid(subtree.data_needed[i], locations[i]) {
            assert(need_is_valid(subtree.data_needed[a], locations[a]));
            assert(s.start < s.end);
        }
    }
    assert((forall|i: int|
        #![trigger locations[i]]
        0 <= i < n && data[i] is Some && validity[i] is Some ==> data[i]->0.start
            <= validity[i]->0.start && validity[i]->0.end <= data[i]->0.end)
        <==> validity_fits_data(data, validity)) by {
        if !validity_fits_data(data, validity) {
            let j = choose|j: int|
                #![trigger data[j]]
                0 <= j < data.len() && data[j] is Some && validity[j] is Some
                    && !spec_contains_range(data[j]->0, validity[j]->0);
            assert(locations[j] == locations[j]);
        }
    }
    assert((forall|i: int|
        #![trigger locations[i]]
        0 <= i < n ==> need_is_valid(subtree.data_needed[i], locations[i]) && need_is_valid(
            subtree.validity_needed[i],
            locations[i],
        )) <==> needs_are_valid(subtree.data_needed, locations) && needs_are_valid(
        subtree.validity_needed,
        locations,
    )) by {
        if !needs_are_valid(subtree.data_needed, locations) {
            let j = choose|j: int|
                #![trigger subtree.data_needed[j]]
                0 <= j < n && !need_is_valid(subtree.data_needed[j], locations[j]);
            assert(locations[j] == locations[j]);
        }
        if !needs_are_valid(subtree.validity_needed, locations) {
            let j = choose|j: int|
                #![trigger subtree.validity_needed[j]]
                0 <= j < n && !need_is_valid(subtree.validity_needed[j], locations[j]);
            assert(locations[j] == locations[j]);
        }
    }
}

/// The data is read at once: from the first byte that is needed as data to the last. Each buffer
/// whose validity lies elsewhere is read by itself, in the order of the buffers, and nothing else
/// is read.
pub proof fn law_what_is_read(
    subtree: SubtreeView,
    locations: Seq<BufferLocation>,
    row_range: Range<usize>,
    separate_reads: bool,
)
    requires
        plan_len_ok(subtree, locations.len()),
        spec_build_plan(subtree, locations, row_range, separate_reads) is Some,
    ensures
        ({
            let plan = spec_build_plan(subtree, locations, row_range, separate_reads)->0;
            let data = absolute_ranges(subtree.data_needed, locations);
            let validity = absolute_ranges(subtree.validity_needed, locations);
            let separate = separate_validity(data, validity, span(data));
            let n = locations.len() as int;
            &&& data.len() == n && forall|i: int|
                0 <= i < n ==> #[trigger] data[i] == absolute_range(
                    subtree.data_needed[i],
                    locations[i],
                )
            &&& validity.len() == n && forall|i: int|
                0 <= i < n ==> #[trigger] validity[i] == absolute_range(
                    subtree.validity_needed[i],
                    locations[i],
                )
            &&& plan.data_read is Some <==> span(data) is Some
            &&& plan.data_read matches Some(read) ==> span(data) == Some(read.segment_range)
            &&& plan.validity_reads.len() == present(separate, n).len()
            &&& forall|r: int|
                0 <= r < plan.validity_reads.len() ==> Some(
                    (#[trigger] plan.validity_reads[r]).segment_range,
                ) == separate[present(separate, n)[r]]
            &&& plan.buffer_alignments.len() == n
            &&& forall|i: int|
                0 <= i < n ==> #[trigger] plan.buffer_alignments[i] == locations[i].alignment
            &&& plan.decode_len == spec_range_len(subtree.decoded_range)
        }),
{
    let data = absolute_ranges(subtree.data_needed, locations);
    let validity = absolute_ranges(subtree.validity_needed, locations);
    let separate = separate_validity(data, validity, span(data));
    let n = locations.len() as int;
    lemma_present(separate, n);
    lemma_reads_in(separate, locations, n);
}

/// The buffers that have a range are listed in their order: the ranges before a buffer, and then
/// the buffer itself if it has one.
pub proof fn law_present_ranges_are_listed_in_order(ranges: Seq<Option<Range<usize>>>, n: int)
    requires
        0 <= n < ranges.len(),
    ensures
        present(ranges, 0).len() == 0,
        ranges[n] is None ==> present(ranges, n + 1) == present(ranges, n),
        ranges[n] is Some ==> present(ranges, n + 1) == present(ranges, n) + seq![n],
{
    if ranges[n] is Some {
        assert(present(ranges, n + 1) =~= present(ranges, n) + seq![n]);
    }
}

/// Rows are part of an array if there are some, the array has all of them, and it has more.
pub proof fn law_parts_are_proper(row_range: Range<usize>, row_count: usize)
    ensures
        is_partial(row_range, row_count) <==> row_range.start < row_range.end && row_range.end
            <= row_count && row_range.end - row_range.start < row_count,
{
}

/// A part of an array is planned from its tree: bytes that hold no tree, and a tree without a root,
/// are refused; what the analysis of the root refuses is refused, and where it finds that the
/// array cannot be read in part, the whole segment is read.
pub proof fn law_parts_are_planned_from_the_tree<P: VTable>(
    registry: Map<Seq<char>, P>,
    ids: Seq<Seq<char>>,
    tree: ArrayTreeView,
    row_range: Range<usize>,
    row_count: usize,
    dtype: DType,
    separate_reads: bool,
)
    requires
        is_partial(row_range, row_count),
    ensures
        spec_try_plan(
            registry,
            ids,
            None,
            row_range,
            row_count,
            dtype,
            separate_reads,
        ) == Err::<Option<PlanView>, VortexError>(VortexError::InvalidArrayTree),
        ({
            let planned = spec_plan_tree(
                registry,
                ids,
                tree,
                row_range,
                row_count,
                dtype,
                separate_reads,
            );
            &&& spec_try_plan(
                registry,
                ids,
                Some(tree),
                row_range,
                row_count,
                dtype,
                separate_reads,
            ) == planned
            &&& tree.root is None ==> planned == Err::<Option<PlanView>, VortexError>(
                VortexError::MissingRootNode,
            )
            &&& tree.root matches Some(root) ==> match spec_analyze_encoding(
                registry,
                ids,
                root,
                row_range,
                row_count,
                dtype,
                tree.buffers.len(),
            ) {
                Err(e) => planned == Err::<Option<PlanView>, VortexError>(e),
                Ok(None) => planned == Ok::<Option<PlanView>, VortexError>(None),
                Ok(Some(subtree)) => planned == Ok::<Option<PlanView>, VortexError>(
                    spec_build_plan(
                        subtree,
                        spec_locations(tree.buffers),
                        row_range,
                        separate_reads,
                    ),
                ),
            }
        }),
        tree_is_located(None),
        tree_is_located(Some(tree)) <==> locations_fit(tree.buffers),
{
}

/// A plan, seen mathematically, has the reads, alignments and rows of the plan.
pub proof fn law_plans_are_seen_as_they_are(
    plan: RangeReadPlan,
    r: VortexResult<Option<RangeReadPlan>>,
)
    ensures
        plan@.data_read is Some <==> plan.data_read is Some,
        plan.data_read matches Some(read) ==> (plan@.data_read->0).segment_range
            == read.segment.segment_range && (plan@.data_read->0).buffer_slices
            == read.segment.buffer_slices@,
        plan@.validity_reads.len() == plan.validity_reads@.len(),
        forall|i: int|
            0 <= i < plan.validity_reads@.len() ==> (#[trigger] plan@.validity_reads[i])
                .segment_range == plan.validity_reads@[i].segment.segment_range
                && plan@.validity_reads[i].buffer_slices
                == plan.validity_reads@[i].segment.buffer_slices@,
        plan@.buffer_alignments == plan.buffer_alignments@,
        plan@.decode_len == plan.decode_len,
        plan@.post_slice == plan.post_slice,
        r matches Err(e) ==> plan_result_view(r) == Err::<Option<PlanView>, VortexError>(e),
        r matches Ok(None) ==> plan_result_view(r) == Ok::<Option<PlanView>, VortexError>(None),
        r matches Ok(Some(p)) ==> plan_result_view(r) == Ok::<Option<PlanView>, VortexError>(
            Some(p@),
        ),
{
}

} // verus!
