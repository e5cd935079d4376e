//! Putting the buffers of an array together from the replies to the reads of a plan.

use crate::alignment::Alignment;
use crate::buffer::{aligned, buffer_len, buffer_view, empty_aligned, slice_unaligned, BufferView};
use crate::error::{VortexError, VortexResult};
use crate::plan::{BufferSlice, PlanView, RangeReadPlan, SegmentRead, SegmentReadView};
use crate::ranges::{copy_range, range_len, spec_range_len};
use std::ops::Range;
use vortex_buffer::ByteBuffer;
use vstd::prelude::*;

verus! {

/// The reads of a plan in the order in which they are requested: the data first, then validity.
pub open spec fn plan_reads(plan: PlanView) -> Seq<SegmentReadView> {
    match plan.data_read {
        Some(read) => seq![read] + plan.validity_reads,
        None => plan.validity_reads,
    }
}

/// The byte ranges that a plan requests.
pub open spec fn plan_requests(plan: PlanView) -> Seq<Range<usize>> {
    Seq::new(plan_reads(plan).len(), |i: int| plan_reads(plan)[i].segment_range)
}

/// Whether the slices of a read lie in its bytes and can be given their alignment.
pub open spec fn read_is_usable(read: SegmentReadView) -> bool {
    forall|i: int|
        0 <= i < read.buffer_slices.len() ==> slice_is_usable(
            #[trigger] read.buffer_slices[i],
            spec_range_len(read.segment_range),
        )
}

/// Whether a slice lies in `len` bytes and can be given its alignment.
pub open spec fn slice_is_usable(slice: BufferSlice, len: nat) -> bool {
    &&& slice.range.start <= slice.range.end <= len
    &&& slice.alignment.valid()
    &&& slice.alignment.can_hold((slice.range.end - slice.range.start) as nat)
}

/// Whether all reads of a plan are usable, and every alignment exists.
pub open spec fn plan_is_usable(plan: PlanView) -> bool {
    &&& forall|i: int|
        0 <= i < plan_reads(plan).len() ==> read_is_usable(#[trigger] plan_reads(plan)[i])
    &&& forall|i: int|
        0 <= i < plan.buffer_alignments.len() ==> (#[trigger] plan.buffer_alignments[i]).valid()
}

/// A buffer with its number.
#[verifier::ext_equal]
pub struct PlacedBuffer {
    pub buffer_idx: usize,
    pub buffer: BufferView,
}

/// The buffers that a reply holds.
pub open spec fn buffers_in_reply(read: SegmentReadView, reply: Seq<u8>) -> Seq<PlacedBuffer> {
    Seq::new(
        read.buffer_slices.len(),
        |i: int|
            PlacedBuffer {
                buffer_idx: read.buffer_slices[i].buffer_idx,
                buffer: BufferView {
                    bytes: reply.subrange(
                        read.buffer_slices[i].range.start as int,
                        read.buffer_slices[i].range.end as int,
                    ),
                    alignment: read.buffer_slices[i].alignment,
                },
            },
    )
}

/// The buffers that the first `n` replies hold, or the error for the first reply that has not the
/// length that was asked for.
pub open spec fn buffers_in_replies(
    reads: Seq<SegmentReadView>,
    replies: Seq<Seq<u8>>,
    n: int,
) -> VortexResult<Seq<PlacedBuffer>>
    decreases n,
{
    if n <= 0 {
        Ok(Seq::empty())
    } else {
        match buffers_in_replies(reads, replies, n - 1) {
            Err(e) => Err(e),
            Ok(before) => {
                let expected = spec_range_len(reads[n - 1].segment_range);
                if replies[n - 1].len() != expected {
                    Err(
                        VortexError::UnexpectedReadLength {
                            expected: expected as usize,
                            received: replies[n - 1].len() as usize,
                        },
                    )
                } else {
                    Ok(before + buffers_in_reply(reads[n - 1], replies[n - 1]))
                }
            },
        }
    }
}

/// The slots of `num_buffers` buffers after some were placed in turn, or the error for the first
/// one that has no slot or finds its slot taken.
pub open spec fn fill_slots(placed: Seq<PlacedBuffer>, num_buffers: nat) -> VortexResult<
    Seq<Option<BufferView>>,
>
    decreases placed.len(),
{
    if placed.len() == 0 {
        Ok(Seq::new(num_buffers, |i: int| None))
    } else {
        match fill_slots(placed.drop_last(), num_buffers) {
            Err(e) => Err(e),
            Ok(slots) => {
                let idx = placed.last().buffer_idx;
                if idx >= slots.len() {
                    Err(VortexError::PlanReferencesMissingBuffer { buffer_idx: idx })
                } else if slots[idx as int] is Some {
                    Err(VortexError::BufferProvidedTwice { buffer_idx: idx })
                } else {
                    Ok(slots.update(idx as int, Some(placed.last().buffer)))
                }
            },
        }
    }
}

/// The buffers in the slots, with an empty buffer for each slot that was not filled.
pub open spec fn finish_slots(
    slots: Seq<Option<BufferView>>,
    alignments: Seq<Alignment>,
) -> Seq<BufferView> {
    Seq::new(
        slots.len(),
        |i: int|
            match slots[i] {
                Some(buffer) => buffer,
                None => BufferView { bytes: Seq::empty(), alignment: alignments[i] },
            },
    )
}

/// The buffers of an array, put together from the replies to the reads of a plan.
pub open spec fn spec_assemble(plan: PlanView, replies: Seq<Seq<u8>>) -> VortexResult<
    Seq<BufferView>,
> {
    match buffers_in_replies(plan_reads(plan), replies, plan_reads(plan).len() as int) {
        Err(e) => Err(e),
        Ok(placed) => match fill_slots(placed, plan.buffer_alignments.len()) {
            Err(e) => Err(e),
            Ok(slots) => Ok(finish_slots(slots, plan.buffer_alignments)),
        },
    }
}

/// The bytes of some buffers.
pub open spec fn bytes_of(buffers: Seq<ByteBuffer>) -> Seq<Seq<u8>> {
    Seq::new(buffers.len(), |i: int| buffer_view(buffers[i]).bytes)
}

/// The content of some buffers.
pub open spec fn views_of(buffers: Seq<ByteBuffer>) -> Seq<BufferView> {
    Seq::new(buffers.len(), |i: int| buffer_view(buffers[i]))
}

/// The content of a result of assembly.
pub open spec fn assemble_view(r: VortexResult<Vec<ByteBuffer>>) -> VortexResult<
    Seq<BufferView>,
> {
    match r {
        Ok(buffers) => Ok(views_of(buffers@)),
        Err(e) => Err(e),
    }
}

spec fn slot_views(slots: Seq<Option<ByteBuffer>>) -> Seq<Option<BufferView>> {
    Seq::new(
        slots.len(),
        |i: int|
            match slots[i] {
                Some(buffer) => Some(buffer_view(buffer)),
                None => None,
            },
    )
}

/// A failure to place some buffers is a failure to place any more.
pub(crate) proof fn lemma_fill_stops(placed: Seq<PlacedBuffer>, more: Seq<PlacedBuffer>, num_buffers: nat)
    requires
        fill_slots(placed, num_buffers) is Err,
    ensures
        fill_slots(placed + more, num_buffers) == fill_slots(placed, num_buffers),
    decreases more.len(),
{
    if more.len() == 0 {
        assert(placed + more =~= placed);
    } else {
        assert((placed + more).drop_last() =~= placed + more.drop_last());
        lemma_fill_stops(placed, more.drop_last(), num_buffers);
    }
}

impl RangeReadPlan {
    /// Returns the byte ranges of the segment to request: that of the data first, then those of
    /// validity buffers that lie apart.
    pub fn requests(&self) -> (r: Vec<Range<usize>>)
        ensures
            r@ == plan_requests(self@),
    {
        let mut requests: Vec<Range<usize>> = Vec::new();
        let ghost reads = plan_reads(self@);
        if let Some(read) = &self.data_read {
            requests.push(copy_range(&read.segment.segment_range));
        }
        let ghost first = requests@.len();
        let mut i: usize = 0;
        while i < self.validity_reads.len()
            invariant
                i <= self.validity_reads@.len(),
                reads == plan_reads(self@),
                first == (if self.data_read is Some { 1nat } else { 0nat }),
                reads.len() == first + self.validity_reads@.len(),
                requests@.len() == first + i,
                forall|k: int|
                    0 <= k < requests@.len() ==> #[trigger] requests@[k] == reads[k].segment_range,
            decreases self.validity_reads@.len() - i,
        {
            assert(reads[first + i] == self@.validity_reads[i as int]);
            requests.push(copy_range(&self.validity_reads[i].segment.segment_range));
            i = i + 1;
        }
        assert(requests@ =~= plan_requests(self@));
        requests
    }
}

impl RangeReadPlan {
    /// Returns the read with the given number.
    fn read_at(&self, idx: usize) -> (r: &SegmentRead)
        requires
            idx < plan_reads(self@).len(),
        ensures
            r@ == plan_reads(self@)[idx as int],
    {
        match &self.data_read {
            Some(read) => {
                if idx == 0 {
                    &read.segment
                } else {
                    assert(plan_reads(self@)[idx as int] == self@.validity_reads[idx - 1]);
                    &self.validity_reads[idx - 1].segment
                }
            },
            None => &self.validity_reads[idx].segment,
        }
    }
}

fn slice_can_be_used(slice: &BufferSlice, len: usize) -> (r: bool)
    ensures
        r == slice_is_usable(*slice, len as nat),
{
    slice.range.start <= slice.range.end && slice.range.end <= len && (slice.alignment.exponent
        as u32) < usize::BITS && slice.alignment.can_allocate(slice.range.end - slice.range.start)
}

fn read_can_be_used(read: &SegmentRead) -> (r: bool)
    ensures
        r == read_is_usable(read@),
{
    let len: usize = range_len(&read.segment_range);
    let mut i: usize = 0;
    while i < read.buffer_slices.len()
        invariant
            i <= read.buffer_slices@.len(),
            len == spec_range_len(read.segment_range),
            forall|k: int|
                0 <= k < i ==> slice_is_usable(#[trigger] read.buffer_slices@[k], len as nat),
        decreases read.buffer_slices@.len() - i,
    {
        if !slice_can_be_used(&read.buffer_slices[i], len) {
            assert(!slice_is_usable(read@.buffer_slices[i as int], len as nat));
            return false;
        }
        i = i + 1;
    }
    true
}

impl RangeReadPlan {
    /// Returns whether the buffers can be put together from replies of the right lengths: every
    /// slice lies in its read, every alignment exists, and every buffer can be allocated with its
    /// alignment.
    pub fn can_be_assembled(&self) -> (r: bool)
        ensures
            r == plan_is_usable(self@),
    {
        let ghost reads = plan_reads(self@);
        let mut i: usize = 0;
        while i < self.buffer_alignments.len()
            invariant
                i <= self.buffer_alignments@.len(),
                forall|k: int| 0 <= k < i ==> (#[trigger] self@.buffer_alignments[k]).valid(),
            decreases self.buffer_alignments@.len() - i,
        {
            if self.buffer_alignments[i].exponent as u32 >= usize::BITS {
                assert(!self@.buffer_alignments[i as int].valid());
                return false;
            }
            i = i + 1;
        }
        if let Some(read) = &self.data_read {
            if !read_can_be_used(&read.segment) {
                assert(!read_is_usable(reads[0]));
                return false;
            }
        }
        let ghost first: int = if self.data_read is Some { 1 } else { 0 };
        let mut j: usize = 0;
        while j < self.validity_reads.len()
            invariant
                j <= self.validity_reads@.len(),
                reads == plan_reads(self@),
                first == (if self.data_read is Some { 1int } else { 0int }),
                reads.len() == first + self.validity_reads@.len(),
                forall|k: int| 0 <= k < first + j ==> read_is_usable(#[trigger] reads[k]),
            decreases self.validity_reads@.len() - j,
        {
            assert(reads[first + j] == self@.validity_reads[j as int]);
            if !read_can_be_used(&self.validity_reads[j].segment) {
                assert(!read_is_usable(reads[first + j]));
                return false;
            }
            j = j + 1;
        }
        true
    }
}

spec fn placed_views(placed: Seq<(usize, ByteBuffer)>) -> Seq<PlacedBuffer> {
    Seq::new(
        placed.len(),
        |i: int| PlacedBuffer { buffer_idx: placed[i].0, buffer: buffer_view(placed[i].1) },
    )
}

/// Takes the buffers out of a reply and adds them to those that were taken before.
fn take_buffers(
    read: &SegmentRead,
    reply: &ByteBuffer,
    placed: &mut Vec<(usize, ByteBuffer)>,
) -> (r: VortexResult<()>)
    requires
        read_is_usable(read@),
    ensures
        ({
            let expected = spec_range_len(read.segment_range);
            let received = buffer_view(*reply).bytes.len();
            &&& received == expected ==> r is Ok && placed_views(final(placed)@) == placed_views(
                old(placed)@,
            ) + buffers_in_reply(read@, buffer_view(*reply).bytes)
            &&& received != expected ==> r == Err::<(), VortexError>(
                VortexError::UnexpectedReadLength {
                    expected: expected as usize,
                    received: received as usize,
                },
            ) && final(placed)@ == old(placed)@
        }),
{
    let expected: usize = range_len(&read.segment_range);
    let received: usize = buffer_len(reply);
    if received != expected {
        return Err(VortexError::UnexpectedReadLength { expected, received });
    }
    let ghost before = placed_views(placed@);
    let ghost found = buffers_in_reply(read@, buffer_view(*reply).bytes);
    assert(before + found.take(0) =~= before);
    let mut i: usize = 0;
    while i < read.buffer_slices.len()
        invariant
            i <= read.buffer_slices@.len(),
            read_is_usable(read@),
            buffer_view(*reply).bytes.len() == spec_range_len(read.segment_range),
            before == placed_views(old(placed)@),
            found == buffers_in_reply(read@, buffer_view(*reply).bytes),
            placed_views(placed@) == before + found.take(i as int),
        decreases read.buffer_slices@.len() - i,
    {
        let slice = &read.buffer_slices[i];
        assert(slice_is_usable(read@.buffer_slices[i as int], spec_range_len(read.segment_range)));
        // A range request is byte-addressed: whatever alignment the source gave to its reply, the
        // slices get their own.
        let buffer = aligned(slice_unaligned(reply, copy_range(&slice.range)), slice.alignment);
        let ghost earlier = placed@;
        let item = (slice.buffer_idx, buffer);
        placed.push(item);
        proof {
            assert(placed_views(placed@) =~= placed_views(earlier).push(
                PlacedBuffer { buffer_idx: item.0, buffer: buffer_view(item.1) },
            ));
            assert(found[i as int] == PlacedBuffer {
                buffer_idx: item.0,
                buffer: buffer_view(item.1),
            });
            assert(found.take(i + 1) =~= found.take(i as int).push(found[i as int]));
            assert(before + found.take(i + 1) =~= (before + found.take(i as int)).push(
                found[i as int],
            ));
        }
        i = i + 1;
    }
    assert(found.take(i as int) =~= found);
    Ok(())
}

/// Puts buffers into their slots, and an empty buffer into each slot that stays free.
fn place_buffers(placed: Vec<(usize, ByteBuffer)>, alignments: &Vec<Alignment>) -> (r: VortexResult<
    Vec<ByteBuffer>,
>)
    requires
        forall|i: int|
            0 <= i < alignments@.len() ==> (#[trigger] alignments@[i]).valid(),
    ensures
        assemble_view(r) == (match fill_slots(placed_views(placed@), alignments@.len()) {
            Err(e) => Err(e),
            Ok(slots) => Ok(finish_slots(slots, alignments@)),
        }),
{
    let ghost all = placed_views(placed@);
    let ghost num_buffers = alignments@.len();
    let mut slots: Vec<Option<ByteBuffer>> = Vec::new();
    let mut i: usize = 0;
    while i < alignments.len()
        invariant
            i <= alignments@.len(),
            slots@.len() == i,
            forall|k: int| 0 <= k < i ==> (#[trigger] slots@[k]) is None,
        decreases alignments@.len() - i,
    {
        slots.push(None);
        i = i + 1;
    }
    assert(slot_views(slots@) =~= Seq::new(num_buffers, |k: int| None));
    assert(all.take(0) =~= Seq::<PlacedBuffer>::empty());
    for item in it: placed.into_iter()
        invariant
            it.seq().len() == all.len(),
            forall|k: int|
                0 <= k < all.len() ==> all[k] == (PlacedBuffer {
                    buffer_idx: (#[trigger] it.seq()[k]).0,
                    buffer: buffer_view(it.seq()[k].1),
                }),
            num_buffers == alignments@.len() == slots@.len(),
            all == placed_views(placed@),
            fill_slots(all.take(it.index() as int), num_buffers) == Ok::<
                Seq<Option<BufferView>>,
                VortexError,
            >(slot_views(slots@)),
    {
        let ghost done = it.index() as int;
        let ghost current = item;
        let (buffer_idx, buffer) = item;
        proof {
            assert(current == it.seq()[done]);
            assert(all[done] == (PlacedBuffer {
                buffer_idx: current.0,
                buffer: buffer_view(current.1),
            }));
            assert(all.take(done + 1).drop_last() =~= all.take(done));
            assert(all.take(done + 1) + all.skip(done + 1) =~= all);
            if fill_slots(all.take(done + 1), num_buffers) is Err {
                lemma_fill_stops(all.take(done + 1), all.skip(done + 1), num_buffers);
            }
        }
        if buffer_idx >= slots.len() {
            return Err(VortexError::PlanReferencesMissingBuffer { buffer_idx });
        }
        if slots[buffer_idx].is_some() {
            return Err(VortexError::BufferProvidedTwice { buffer_idx });
        }
        let ghost earlier = slots@;
        let ghost view = buffer_view(buffer);
        slots.set(buffer_idx, Some(buffer));
        proof {
            assert(slot_views(slots@) =~= slot_views(earlier).update(
                buffer_idx as int,
                Some(view),
            ));
        }
    }
    assert(all.take(all.len() as int) =~= all);
    let ghost filled = slot_views(slots@);
    let mut buffers: Vec<ByteBuffer> = Vec::new();
    let mut j: usize = 0;
    while j < alignments.len()
        invariant
            j <= alignments@.len() == slots@.len(),
            filled.len() == alignments@.len(),
            forall|k: int|
                j <= k < slots@.len() ==> filled[k] == #[trigger] slot_views(slots@)[k],
            views_of(buffers@) == finish_slots(filled, alignments@).take(j as int),
            forall|k: int|
                0 <= k < alignments@.len() ==> (#[trigger] alignments@[k]).valid(),
        decreases alignments@.len() - j,
    {
        assert(filled[j as int] == slot_views(slots@)[j as int]);
        let ghost untaken = slots@;
        let buffer = match slots[j].take() {
            Some(buffer) => buffer,
            None => empty_aligned(alignments[j]),
        };
        proof {
            assert forall|k: int| j < k < slots@.len() implies filled[k] == #[trigger] slot_views(
                slots@,
            )[k] by {
                assert(filled[k] == slot_views(untaken)[k]);
                assert(slots@[k] == untaken[k]);
            }
        }
        let ghost earlier = buffers@;
        let ghost view = buffer_view(buffer);
        buffers.push(buffer);
        proof {
            assert(view =~= finish_slots(filled, alignments@)[j as int]);
            assert(views_of(buffers@) =~= views_of(earlier).push(view));
            assert(finish_slots(filled, alignments@).take(j + 1) =~= finish_slots(
                filled,
                alignments@,
            ).take(j as int).push(view));
        }
        j = j + 1;
    }
    assert(views_of(buffers@) =~= finish_slots(filled, alignments@));
    Ok(buffers)
}

/// A failure in some replies is a failure in all.
pub(crate) proof fn lemma_replies_stop(
    reads: Seq<SegmentReadView>,
    replies: Seq<Seq<u8>>,
    k: int,
    n: int,
)
    requires
        0 <= k <= n,
        buffers_in_replies(reads, replies, k) is Err,
    ensures
        buffers_in_replies(reads, replies, n) == buffers_in_replies(reads, replies, k),
    decreases n - k,
{
    if k < n {
        lemma_replies_stop(reads, replies, k, n - 1);
    }
}

/// Puts the buffers of an array together from the replies to the reads of a plan, given in the
/// order of [`RangeReadPlan::requests`]. A buffer that no read provides is empty.
pub fn assemble_buffers(plan: &RangeReadPlan, replies: &Vec<ByteBuffer>) -> (r: VortexResult<
    Vec<ByteBuffer>,
>)
    requires
        plan_is_usable(plan@),
        replies@.len() == plan_reads(plan@).len(),
    ensures
        assemble_view(r) == spec_assemble(plan@, bytes_of(replies@)),
{
    let ghost reads = plan_reads(plan@);
    let ghost bytes = bytes_of(replies@);
    let mut placed: Vec<(usize, ByteBuffer)> = Vec::new();
    assert(placed_views(placed@) =~= Seq::<PlacedBuffer>::empty());
    let mut i: usize = 0;
    while i < replies.len()
        invariant
            i <= replies@.len() == reads.len(),
            plan_is_usable(plan@),
            reads == plan_reads(plan@),
            bytes == bytes_of(replies@),
            buffers_in_replies(reads, bytes, i as int) == Ok::<Seq<PlacedBuffer>, VortexError>(
                placed_views(placed@),
            ),
        decreases replies@.len() - i,
    {
        proof {
            assert(read_is_usable(reads[i as int]));
            if buffers_in_replies(reads, bytes, i + 1) is Err {
                lemma_replies_stop(reads, bytes, i + 1, reads.len() as int);
            }
        }
        if let Err(e) = take_buffers(plan.read_at(i), &replies[i], &mut placed) {
            return Err(e);
        }
        i = i + 1;
    }
    place_buffers(placed, &plan.buffer_alignments)
}

} // verus!
