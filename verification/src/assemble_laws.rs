//! What holds of putting buffers together.

use crate::assemble::{
    assemble_view, buffers_in_replies, buffers_in_reply, bytes_of, fill_slots, lemma_fill_stops,
    lemma_replies_stop, plan_is_usable, plan_reads, plan_requests, read_is_usable, slice_is_usable,
    spec_assemble, views_of, PlacedBuffer,
};
use crate::buffer::{buffer_alignment, buffer_bytes, BufferView};
use crate::error::{VortexError, VortexResult};
use crate::plan::{BufferSlice, PlanView, SegmentReadView};
use crate::ranges::spec_range_len;
use vortex_buffer::ByteBuffer;
use vstd::prelude::*;

verus! {

/// The data is requested first, if there is any, and then validity in the order of its reads. Each
/// request is for the bytes of its read.
pub proof fn law_data_is_requested_first(plan: PlanView, i: int)
    ensures
        plan.data_read matches Some(read) ==> {
            &&& plan_reads(plan).len() == plan.validity_reads.len() + 1
            &&& plan_reads(plan)[0] == read
            &&& 0 <= i < plan.validity_reads.len() ==> plan_reads(plan)[i + 1]
                == plan.validity_reads[i]
        },
        plan.data_read is None ==> plan_reads(plan) == plan.validity_reads,
        plan_requests(plan).len() == plan_reads(plan).len(),
        0 <= i < plan_reads(plan).len() ==> plan_requests(plan)[i] == plan_reads(
            plan,
        )[i].segment_range,
{
}

/// Buffers can be put together if every slice lies in the bytes of its read and can be given its
/// alignment, and every alignment exists.
pub proof fn law_which_plans_can_be_assembled(
    plan: PlanView,
    read: SegmentReadView,
    slice: BufferSlice,
    len: nat,
)
    ensures
        slice_is_usable(slice, len) <==> slice.range.start <= slice.range.end && slice.range.end
            <= len && slice.alignment.exponent < usize::BITS && slice.alignment.can_hold(
            (slice.range.end - slice.range.start) as nat,
        ),
        read.segment_range.start <= read.segment_range.end ==> (read_is_usable(read) <==> forall|
            k: int,
        |
            0 <= k < read.buffer_slices.len() ==> slice_is_usable(
                #[trigger] read.buffer_slices[k],
                (read.segment_range.end - read.segment_range.start) as nat,
            )),
        plan_is_usable(plan) <==> (forall|r: int|
            0 <= r < plan_reads(plan).len() ==> read_is_usable(#[trigger] plan_reads(plan)[r])) && (
        forall|i: int|
            0 <= i < plan.buffer_alignments.len() ==> (
            #[trigger] plan.buffer_alignments[i]).exponent < usize::BITS),
{
}

/// The number of slices of the first `r` reads.
spec fn slices_before(reads: Seq<SegmentReadView>, r: int) -> nat
    decreases r,
{
    if r <= 0 {
        0
    } else {
        slices_before(reads, r - 1) + reads[r - 1].buffer_slices.len()
    }
}

proof fn lemma_slices_before(reads: Seq<SegmentReadView>, r: int, s: int)
    requires
        0 <= r <= s,
    ensures
        slices_before(reads, r) <= slices_before(reads, s),
    decreases s - r,
{
    if r < s {
        lemma_slices_before(reads, r, s - 1);
    }
}

/// What slice `k` of a read takes from its reply.
pub open spec fn taken(read: SegmentReadView, reply: Seq<u8>, k: int) -> BufferView {
    let slice = read.buffer_slices[k];
    BufferView {
        bytes: reply.subrange(slice.range.start as int, slice.range.end as int),
        alignment: slice.alignment,
    }
}

/// Whether the first `n` replies have the lengths that were asked for.
pub open spec fn lengths_are_right(
    reads: Seq<SegmentReadView>,
    replies: Seq<Seq<u8>>,
    n: int,
) -> bool {
    forall|r: int|
        0 <= r < n ==> (#[trigger] replies[r]).len() == if reads[r].segment_range.start
            <= reads[r].segment_range.end {
            reads[r].segment_range.end - reads[r].segment_range.start
        } else {
            0
        }
}

/// Whether slice `k` of read `r` comes in place `p` among the slices of the first `n` reads.
spec fn is_slice(reads: Seq<SegmentReadView>, n: int, r: int, k: int, p: int) -> bool {
    &&& 0 <= r < n
    &&& 0 <= k < reads[r].buffer_slices.len()
    &&& p == slices_before(reads, r) + k
}

proof fn lemma_placed(reads: Seq<SegmentReadView>, replies: Seq<Seq<u8>>, n: int)
    requires
        0 <= n <= reads.len(),
        n <= replies.len(),
        lengths_are_right(reads, replies, n),
    ensures
        buffers_in_replies(reads, replies, n) is Ok,
        ({
            let placed = buffers_in_replies(reads, replies, n)->Ok_0;
            &&& placed.len() == slices_before(reads, n)
            &&& forall|r: int, k: int, p: int| #[trigger]
                is_slice(reads, n, r, k, p) ==> {
                    &&& 0 <= p < placed.len()
                    &&& placed[p].buffer_idx == reads[r].buffer_slices[k].buffer_idx
                    &&& placed[p].buffer == taken(reads[r], replies[r], k)
                }
            &&& forall|p: int|
                0 <= p < placed.len() ==> #[trigger] placed[p] == placed[p] && exists|
                    r: int,
                    k: int,
                | #[trigger] is_slice(reads, n, r, k, p)
        }),
    decreases n,
{
    if n > 0 {
        let m = n - 1;
        lemma_placed(reads, replies, m);
        let before = buffers_in_replies(reads, replies, m)->Ok_0;
        let found = buffers_in_reply(reads[m], replies[m]);
        assert(replies[m].len() == spec_range_len(reads[m].segment_range));
        let placed = buffers_in_replies(reads, replies, n)->Ok_0;
        assert(placed == before + found);
        assert forall|r: int, k: int, p: int| #[trigger] is_slice(reads, n, r, k, p) implies {
            &&& 0 <= p < placed.len()
            &&& placed[p].buffer_idx == reads[r].buffer_slices[k].buffer_idx
            &&& placed[p].buffer == taken(reads[r], replies[r], k)
        } by {
            if r < m {
                assert(is_slice(reads, m, r, k, p));
                assert(placed[p] == before[p]);
            } else {
                assert(placed[p] == found[k]);
            }
        }
        assert forall|p: int| 0 <= p < placed.len() implies #[trigger] placed[p] == placed[p]
            && exists|r: int, k: int| #[trigger] is_slice(reads, n, r, k, p) by {
            if p < before.len() {
                assert(before[p] == before[p]);
                let (r, k) = choose|r: int, k: int| #[trigger] is_slice(reads, m, r, k, p);
                assert(is_slice(reads, n, r, k, p));
            } else {
                assert(is_slice(reads, n, m, p - before.len(), p));
            }
        }
    }
}

proof fn lemma_filled(placed: Seq<PlacedBuffer>, num_buffers: nat)
    ensures
        fill_slots(placed, num_buffers) is Ok <==> (forall|p: int|
            0 <= p < placed.len() ==> (#[trigger] placed[p]).buffer_idx < num_buffers) && (forall|
            p: int,
            q: int,
        |
            0 <= p < q < placed.len() ==> (#[trigger] placed[p]).buffer_idx != (
            #[trigger] placed[q]).buffer_idx),
        fill_slots(placed, num_buffers) matches Ok(slots) ==> {
            &&& slots.len() == num_buffers
            &&& forall|p: int|
                0 <= p < placed.len() ==> slots[(#[trigger] placed[p]).buffer_idx as int] == Some(
                    placed[p].buffer,
                )
            &&& forall|i: int|
                0 <= i < num_buffers && (#[trigger] slots[i]) is Some ==> exists|p: int|
                    0 <= p < placed.len() && (#[trigger] placed[p]).buffer_idx == i
        },
        fill_slots(placed, num_buffers) matches Err(e) ==> {
            ||| exists|p: int|
                0 <= p < placed.len() && (#[trigger] placed[p]).buffer_idx >= num_buffers && e == (
                VortexError::PlanReferencesMissingBuffer { buffer_idx: placed[p].buffer_idx })
            ||| exists|p: int, q: int|
                0 <= p < q < placed.len() && (#[trigger] placed[p]).buffer_idx == (
                #[trigger] placed[q]).buffer_idx && placed[q].buffer_idx < num_buffers && e == (
                VortexError::BufferProvidedTwice { buffer_idx: placed[q].buffer_idx })
        },
    decreases placed.len(),
{
    if placed.len() > 0 {
        let before = placed.drop_last();
        let last = placed.len() - 1;
        lemma_filled(before, num_buffers);
        assert(placed[last] == placed.last());
        assert forall|p: int| 0 <= p < before.len() implies before[p] == #[trigger] placed[p] by {}
        match fill_slots(before, num_buffers) {
            Err(e) => {
                if exists|p: int|
                    0 <= p < before.len() && (#[trigger] before[p]).buffer_idx >= num_buffers && e
                        == (VortexError::PlanReferencesMissingBuffer {
                        buffer_idx: before[p].buffer_idx,
                    }) {
                    let p = choose|p: int|
                        0 <= p < before.len() && (#[trigger] before[p]).buffer_idx >= num_buffers
                            && e == (VortexError::PlanReferencesMissingBuffer {
                            buffer_idx: before[p].buffer_idx,
                        });
                    assert(placed[p].buffer_idx >= num_buffers);
                } else {
                    let (p, q) = choose|p: int, q: int|
                        0 <= p < q < before.len() && (#[trigger] before[p]).buffer_idx == (
                        #[trigger] before[q]).buffer_idx && before[q].buffer_idx < num_buffers && e
                            == (VortexError::BufferProvidedTwice {
                            buffer_idx: before[q].buffer_idx,
                        });
                    assert(placed[p].buffer_idx == placed[q].buffer_idx);
                }
            },
            Ok(slots) => {
                let idx = placed.last().buffer_idx;
                if idx < slots.len() && slots[idx as int] is Some {
                    let p = choose|p: int|
                        0 <= p < before.len() && (#[trigger] before[p]).buffer_idx == idx as int;
                    assert(placed[p].buffer_idx == placed[last].buffer_idx);
                } else if idx < slots.len() {
                    let after = fill_slots(placed, num_buffers)->Ok_0;
                    assert forall|p: int, q: int| 0 <= p < q < placed.len() implies (
                    #[trigger] placed[p]).buffer_idx != (#[trigger] placed[q]).buffer_idx by {
                        assert(before[p] == placed[p]);
                        if q < last {
                            assert(before[q] == placed[q]);
                        }
                    }
                    assert forall|p: int| 0 <= p < placed.len() implies (
                    #[trigger] placed[p]).buffer_idx < num_buffers
                        && after[placed[p].buffer_idx as int] == Some(placed[p].buffer) by {
                        if p < last {
                            assert(before[p] == placed[p]);
                        }
                    }
                    assert forall|i: int|
                        0 <= i < num_buffers && (#[trigger] after[i]) is Some implies exists|p: int|
                        0 <= p < placed.len() && (#[trigger] placed[p]).buffer_idx == i by {
                        if i == idx {
                            assert(placed[last].buffer_idx == i);
                        } else {
                            assert(slots[i] is Some);
                            let p = choose|p: int|
                                0 <= p < before.len() && (#[trigger] before[p]).buffer_idx == i;
                            assert(placed[p].buffer_idx == i);
                        }
                    }
                } else {
                    assert(placed[last].buffer_idx >= num_buffers);
                }
            },
        }
    }
}

/// The first reply that has not the length that was asked for is reported, with both lengths.
pub proof fn law_replies_of_another_length_are_refused(
    plan: PlanView,
    replies: Seq<Seq<u8>>,
    r: int,
)
    requires
        0 <= r < plan_reads(plan).len(),
        replies.len() == plan_reads(plan).len(),
        plan_reads(plan)[r].segment_range.start <= plan_reads(plan)[r].segment_range.end,
        lengths_are_right(plan_reads(plan), replies, r),
        replies[r].len() <= usize::MAX,
        replies[r].len() != plan_reads(plan)[r].segment_range.end - plan_reads(
            plan,
        )[r].segment_range.start,
    ensures
        ({
            let asked = plan_reads(plan)[r].segment_range;
            &&& spec_assemble(plan, replies) matches Err(VortexError::UnexpectedReadLength {
                expected,
                received,
            })
            &&& expected == asked.end - asked.start
            &&& received == replies[r].len()
        }),
{
    let reads = plan_reads(plan);
    lemma_placed(reads, replies, r);
    lemma_replies_stop(reads, replies, r + 1, reads.len() as int);
}

/// Replies of the right lengths are put together exactly if every slice belongs to a buffer of the
/// array and no two belong to the same one. What is reported otherwise is such a buffer.
pub proof fn law_which_replies_are_put_together(plan: PlanView, replies: Seq<Seq<u8>>)
    requires
        replies.len() == plan_reads(plan).len(),
        lengths_are_right(plan_reads(plan), replies, replies.len() as int),
    ensures
        ({
            let reads = plan_reads(plan);
            let n = plan.buffer_alignments.len();
            &&& spec_assemble(plan, replies) is Ok <==> {
                &&& forall|r: int, k: int|
                    0 <= r < reads.len() && 0 <= k < reads[r].buffer_slices.len() ==> (
                    #[trigger] reads[r].buffer_slices[k]).buffer_idx < n
                &&& forall|r: int, k: int, s: int, l: int|
                    0 <= r < reads.len() && 0 <= k < reads[r].buffer_slices.len() && 0 <= s
                        < reads.len() && 0 <= l < reads[s].buffer_slices.len() && (r != s || k != l)
                        ==> (#[trigger] reads[r].buffer_slices[k]).buffer_idx != (
                    #[trigger] reads[s].buffer_slices[l]).buffer_idx
            }
            &&& spec_assemble(plan, replies) matches Err(e) ==> {
                ||| e matches VortexError::PlanReferencesMissingBuffer { buffer_idx } && buffer_idx
                    >= n
                ||| e matches VortexError::BufferProvidedTwice { buffer_idx } && buffer_idx < n
            }
        }),
{
    let reads = plan_reads(plan);
    let n = plan.buffer_alignments.len();
    let count = reads.len() as int;
    lemma_placed(reads, replies, count);
    let placed = buffers_in_replies(reads, replies, count)->Ok_0;
    lemma_filled(placed, n);
    if fill_slots(placed, n) is Ok {
        assert forall|r: int, k: int|
            0 <= r < reads.len() && 0 <= k < reads[r].buffer_slices.len() implies (
        #[trigger] reads[r].buffer_slices[k]).buffer_idx < n by {
            let p = slices_before(reads, r) + k;
            assert(is_slice(reads, count, r, k, p));
            assert(placed[p].buffer_idx < n);
        }
        assert forall|r: int, k: int, s: int, l: int|
            0 <= r < reads.len() && 0 <= k < reads[r].buffer_slices.len() && 0 <= s < reads.len()
                && 0 <= l < reads[s].buffer_slices.len() && (r != s || k != l) implies (
        #[trigger] reads[r].buffer_slices[k]).buffer_idx != (
        #[trigger] reads[s].buffer_slices[l]).buffer_idx by {
            let p = slices_before(reads, r) + k;
            let q = slices_before(reads, s) + l;
            assert(is_slice(reads, count, r, k, p));
            assert(is_slice(reads, count, s, l, q));
            if r < s {
                lemma_slices_before(reads, r + 1, s);
            } else if s < r {
                lemma_slices_before(reads, s + 1, r);
            }
            if p < q {
                assert(placed[p].buffer_idx != placed[q].buffer_idx);
            } else {
                assert(q < p);
                assert(placed[q].buffer_idx != placed[p].buffer_idx);
            }
        }
    } else if (forall|r: int, k: int|
        0 <= r < reads.len() && 0 <= k < reads[r].buffer_slices.len() ==> (
        #[trigger] reads[r].buffer_slices[k]).buffer_idx < n) && (forall|
        r: int,
        k: int,
        s: int,
        l: int,
    |
        0 <= r < reads.len() && 0 <= k < reads[r].buffer_slices.len() && 0 <= s < reads.len() && 0
            <= l < reads[s].buffer_slices.len() && (r != s || k != l) ==> (
        #[trigger] reads[r].buffer_slices[k]).buffer_idx != (
        #[trigger] reads[s].buffer_slices[l]).buffer_idx) {
        assert forall|p: int| 0 <= p < placed.len() implies (#[trigger] placed[p]).buffer_idx
            < n by {
            let (r, k) = choose|r: int, k: int| #[trigger] is_slice(reads, count, r, k, p);
            assert(reads[r].buffer_slices[k].buffer_idx < n);
        }
        assert forall|p: int, q: int| 0 <= p < q < placed.len() implies (
        #[trigger] placed[p]).buffer_idx != (#[trigger] placed[q]).buffer_idx by {
            let (r, k) = choose|r: int, k: int| #[trigger] is_slice(reads, count, r, k, p);
            let (s, l) = choose|r: int, k: int| #[trigger] is_slice(reads, count, r, k, q);
            assert(reads[r].buffer_slices[k].buffer_idx != reads[s].buffer_slices[l].buffer_idx);
        }
    }
}

/// Every slice becomes the buffer that it belongs to: the bytes that it names of the reply to its
/// read, with its alignment.
pub proof fn law_slices_become_buffers(
    plan: PlanView,
    replies: Seq<Seq<u8>>,
    r: int,
    k: int,
    pos: int,
)
    requires
        replies.len() == plan_reads(plan).len(),
        lengths_are_right(plan_reads(plan), replies, replies.len() as int),
        spec_assemble(plan, replies) is Ok,
        0 <= r < plan_reads(plan).len(),
        0 <= k < plan_reads(plan)[r].buffer_slices.len(),
        slice_is_usable(plan_reads(plan)[r].buffer_slices[k], replies[r].len()),
    ensures
        ({
            let buffers = spec_assemble(plan, replies)->Ok_0;
            let slice = plan_reads(plan)[r].buffer_slices[k];
            let buffer = buffers[slice.buffer_idx as int];
            &&& buffers.len() == plan.buffer_alignments.len()
            &&& slice.buffer_idx < buffers.len()
            &&& buffer.bytes.len() == slice.range.end - slice.range.start
            &&& 0 <= pos < buffer.bytes.len() ==> buffer.bytes[pos] == replies[r][slice.range.start
                + pos]
            &&& buffer.alignment == slice.alignment
        }),
{
    let reads = plan_reads(plan);
    let n = plan.buffer_alignments.len();
    lemma_placed(reads, replies, reads.len() as int);
    let placed = buffers_in_replies(reads, replies, reads.len() as int)->Ok_0;
    lemma_filled(placed, n);
    let p = slices_before(reads, r) + k;
    assert(is_slice(reads, reads.len() as int, r, k, p));
    assert(placed[p].buffer_idx < n);
}

/// A buffer that no slice belongs to is empty, with the alignment of that buffer.
pub proof fn law_other_buffers_are_empty(plan: PlanView, replies: Seq<Seq<u8>>, i: int)
    requires
        replies.len() == plan_reads(plan).len(),
        lengths_are_right(plan_reads(plan), replies, replies.len() as int),
        spec_assemble(plan, replies) is Ok,
        0 <= i < plan.buffer_alignments.len(),
        forall|r: int, k: int|
            0 <= r < plan_reads(plan).len() && 0 <= k < plan_reads(plan)[r].buffer_slices.len()
                ==> (#[trigger] plan_reads(plan)[r].buffer_slices[k]).buffer_idx != i,
    ensures
        ({
            let buffers = spec_assemble(plan, replies)->Ok_0;
            buffers[i].bytes.len() == 0 && buffers[i].alignment == plan.buffer_alignments[i]
        }),
{
    let reads = plan_reads(plan);
    let n = plan.buffer_alignments.len();
    let count = reads.len() as int;
    lemma_placed(reads, replies, count);
    let placed = buffers_in_replies(reads, replies, count)->Ok_0;
    lemma_filled(placed, n);
    let slots = fill_slots(placed, n)->Ok_0;
    if slots[i] is Some {
        let p = choose|p: int| 0 <= p < placed.len() && (#[trigger] placed[p]).buffer_idx == i;
        let (r, k) = choose|r: int, k: int| #[trigger] is_slice(reads, count, r, k, p);
        assert(reads[r].buffer_slices[k].buffer_idx != i);
    }
}

/// Of several buffers that cannot be placed, the first is reported.
pub proof fn law_first_misplaced_buffer_is_reported(
    placed: Seq<PlacedBuffer>,
    num_buffers: nat,
    p: int,
)
    requires
        0 <= p < placed.len(),
        fill_slots(placed.take(p), num_buffers) is Ok,
    ensures
        placed[p].buffer_idx >= num_buffers ==> fill_slots(placed, num_buffers) == Err::<
            Seq<Option<BufferView>>,
            VortexError,
        >(VortexError::PlanReferencesMissingBuffer { buffer_idx: placed[p].buffer_idx }),
        placed[p].buffer_idx < num_buffers && (exists|q: int|
            0 <= q < p && (#[trigger] placed[q]).buffer_idx == placed[p].buffer_idx) ==> fill_slots(
            placed,
            num_buffers,
        ) == Err::<Seq<Option<BufferView>>, VortexError>(
            VortexError::BufferProvidedTwice { buffer_idx: placed[p].buffer_idx },
        ),
{
    let before = placed.take(p);
    let now = placed.take(p + 1);
    lemma_filled(before, num_buffers);
    assert(now.drop_last() =~= before);
    assert(now.last() == placed[p]);
    assert(placed =~= now + placed.skip(p + 1));
    let slots = fill_slots(before, num_buffers)->Ok_0;
    if exists|q: int| 0 <= q < p && (#[trigger] placed[q]).buffer_idx == placed[p].buffer_idx {
        let q = choose|q: int|
            0 <= q < p && (#[trigger] placed[q]).buffer_idx == placed[p].buffer_idx;
        assert(before[q] == placed[q]);
        assert(slots[before[q].buffer_idx as int] is Some);
    }
    if fill_slots(now, num_buffers) is Err {
        lemma_fill_stops(now, placed.skip(p + 1), num_buffers);
    }
}

/// Buffers are seen as they are: their bytes and their alignments, in their order.
pub proof fn law_buffers_are_seen_as_they_are(
    buffers: Seq<ByteBuffer>,
    r: VortexResult<Vec<ByteBuffer>>,
    i: int,
)
    requires
        0 <= i < buffers.len(),
    ensures
        bytes_of(buffers).len() == buffers.len(),
        bytes_of(buffers)[i] == buffer_bytes(buffers[i]),
        views_of(buffers).len() == buffers.len(),
        views_of(buffers)[i].bytes == buffer_bytes(buffers[i]),
        views_of(buffers)[i].alignment.exponent == buffer_alignment(buffers[i]),
        r matches Err(e) ==> assemble_view(r) == Err::<Seq<BufferView>, VortexError>(e),
        r matches Ok(all) ==> assemble_view(r) == Ok::<Seq<BufferView>, VortexError>(
            views_of(all@),
        ),
{
}

} // verus!
