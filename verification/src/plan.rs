//! Planning which byte ranges of a segment to read for a range of rows.

use crate::alignment::Alignment;
use crate::analyze::{
    analyze_encoding, plan_len_ok, spec_analyze_encoding, ReadContext, Session, SubtreePlan,
    SubtreeView,
};
use crate::dtype::DType;
use crate::encoding::VTable;
use crate::error::{VortexError, VortexResult};
use crate::flatbuffer::{parse_array_tree, parsed_array_tree, MAX_FLATBUFFER_LEN};
use crate::needed::NeededBuffer;
use crate::ranges::{
    contains_range, copy_range, range_len, same_range, spec_contains_range, spec_range_len,
    spec_union_ranges, union_ranges,
};
use crate::tree::{
    buffers_can_be_located, buffers_end, compute_buffer_locations, lemma_buffers_end_monotonic,
    locations_fit, spec_locations, ArrayTree, ArrayTreeView, BufferLocation, BufferSpec,
};
use std::ops::Range;
use vstd::prelude::*;

verus! {

/// The part of a buffer that lies in the bytes of a read.
#[derive(Debug, PartialEq, Eq)]
pub struct BufferSlice {
    /// The buffer.
    pub buffer_idx: usize,
    /// Where its bytes lie, relative to the start of the read.
    pub range: Range<usize>,
    /// The alignment that the buffer has to have.
    pub alignment: Alignment,
}

/// One request for bytes of the segment, and the buffers to take from the reply.
#[derive(Debug)]
pub struct SegmentRead {
    /// The bytes of the segment.
    pub segment_range: Range<usize>,
    /// The buffers in the reply.
    pub buffer_slices: Vec<BufferSlice>,
}

/// The read that covers every buffer other than those for validity alone.
#[derive(Debug)]
pub struct DataRead {
    pub segment: SegmentRead,
}

/// The read of a validity buffer that lies apart from the data.
#[derive(Debug)]
pub struct ValidityRead {
    pub segment: SegmentRead,
}

/// How to decode a range of rows from part of a segment.
#[derive(Debug)]
pub struct RangeReadPlan {
    /// The single contiguous span covering every non-validity buffer.
    pub data_read: Option<DataRead>,
    /// Additional reads, of validity buffers only.
    pub validity_reads: Vec<ValidityRead>,
    /// The alignment of each buffer of the array tree.
    pub buffer_alignments: Vec<Alignment>,
    /// The number of rows that decoding yields.
    pub decode_len: usize,
    /// The decoded rows to keep, if not all of them.
    pub post_slice: Option<Range<usize>>,
}

/// The mathematical content of a [`SegmentRead`].
#[verifier::ext_equal]
pub struct SegmentReadView {
    pub segment_range: Range<usize>,
    pub buffer_slices: Seq<BufferSlice>,
}

/// The mathematical content of a [`RangeReadPlan`].
#[verifier::ext_equal]
pub struct PlanView {
    pub data_read: Option<SegmentReadView>,
    pub validity_reads: Seq<SegmentReadView>,
    pub buffer_alignments: Seq<Alignment>,
    pub decode_len: usize,
    pub post_slice: Option<Range<usize>>,
}

impl View for SegmentRead {
    type V = SegmentReadView;

    open spec fn view(&self) -> SegmentReadView {
        SegmentReadView {
            segment_range: self.segment_range,
            buffer_slices: self.buffer_slices@,
        }
    }
}

/// The content of the reads of validity buffers.
pub open spec fn validity_reads_view(reads: Seq<ValidityRead>) -> Seq<SegmentReadView> {
    Seq::new(reads.len(), |i: int| reads[i].segment@)
}

impl View for RangeReadPlan {
    type V = PlanView;

    open spec fn view(&self) -> PlanView {
        PlanView {
            data_read: match self.data_read {
                Some(read) => Some(read.segment@),
                None => None,
            },
            validity_reads: validity_reads_view(self.validity_reads@),
            buffer_alignments: self.buffer_alignments@,
            decode_len: self.decode_len,
            post_slice: self.post_slice,
        }
    }
}

/// The content of a result of planning.
pub open spec fn plan_result_view(r: VortexResult<Option<RangeReadPlan>>) -> VortexResult<
    Option<PlanView>,
> {
    match r {
        Ok(Some(plan)) => Ok(Some(plan@)),
        Ok(None) => Ok(None),
        Err(e) => Err(e),
    }
}

/// The bytes that are needed of a buffer of `length` bytes.
pub open spec fn needed_bytes(needed: NeededBuffer, length: usize) -> Range<usize> {
    match needed {
        NeededBuffer::Full => Range { start: 0, end: length },
        NeededBuffer::Range(range) => range,
    }
}

/// Whether the buffer has the bytes that are needed of it.
pub open spec fn need_is_valid(entry: Option<NeededBuffer>, location: BufferLocation) -> bool {
    match entry {
        None => true,
        Some(needed) => {
            let range = needed_bytes(needed, location.length);
            range.start <= range.end <= location.length
        },
    }
}

/// The bytes of the segment that are needed of a buffer, if any.
pub open spec fn absolute_range(
    entry: Option<NeededBuffer>,
    location: BufferLocation,
) -> Option<Range<usize>> {
    match entry {
        None => None,
        Some(needed) => {
            let range = needed_bytes(needed, location.length);
            if range.start < range.end {
                Some(
                    Range {
                        start: (location.offset + range.start) as usize,
                        end: (location.offset + range.end) as usize,
                    },
                )
            } else {
                None
            }
        },
    }
}

/// Whether every buffer has the bytes that are needed of it.
pub open spec fn needs_are_valid(
    needed: Seq<Option<NeededBuffer>>,
    locations: Seq<BufferLocation>,
) -> bool {
    forall|i: int|
        #![trigger needed[i]]
        0 <= i < locations.len() ==> need_is_valid(needed[i], locations[i])
}

/// The bytes of the segment that are needed of each buffer, if any.
pub open spec fn absolute_ranges(
    needed: Seq<Option<NeededBuffer>>,
    locations: Seq<BufferLocation>,
) -> Seq<Option<Range<usize>>> {
    Seq::new(locations.len(), |i: int| absolute_range(needed[i], locations[i]))
}

/// The smallest range that contains all of the given ones; `None` if there are none.
pub open spec fn span(ranges: Seq<Option<Range<usize>>>) -> Option<Range<usize>>
    decreases ranges.len(),
{
    if ranges.len() == 0 {
        None
    } else {
        match (span(ranges.drop_last()), ranges.last()) {
            (before, None) => before,
            (None, last) => last,
            (Some(before), Some(last)) => Some(spec_union_ranges(before, last)),
        }
    }
}

/// The ranges of the first `n` buffers as slices of a read that starts at `start`.
pub open spec fn slices_in(
    ranges: Seq<Option<Range<usize>>>,
    locations: Seq<BufferLocation>,
    start: usize,
    n: int,
) -> Seq<BufferSlice>
    decreases n,
{
    if n <= 0 {
        Seq::empty()
    } else {
        let before = slices_in(ranges, locations, start, n - 1);
        match ranges[n - 1] {
            Some(range) => before.push(
                BufferSlice {
                    buffer_idx: (n - 1) as usize,
                    range: Range {
                        start: (range.start - start) as usize,
                        end: (range.end - start) as usize,
                    },
                    alignment: locations[n - 1].alignment,
                },
            ),
            None => before,
        }
    }
}

/// One read for each range of the first `n` buffers.
pub open spec fn reads_in(
    ranges: Seq<Option<Range<usize>>>,
    locations: Seq<BufferLocation>,
    n: int,
) -> Seq<SegmentReadView>
    decreases n,
{
    if n <= 0 {
        Seq::empty()
    } else {
        let before = reads_in(ranges, locations, n - 1);
        match ranges[n - 1] {
            Some(range) => before.push(
                SegmentReadView {
                    segment_range: range,
                    buffer_slices: seq![
                        BufferSlice {
                            buffer_idx: (n - 1) as usize,
                            range: Range { start: 0, end: spec_range_len(range) as usize },
                            alignment: locations[n - 1].alignment,
                        },
                    ],
                },
            ),
            None => before,
        }
    }
}

/// The number of bytes in the ranges of the first `n` buffers.
pub open spec fn bytes_in(ranges: Seq<Option<Range<usize>>>, n: int) -> nat
    decreases n,
{
    if n <= 0 {
        0
    } else {
        bytes_in(ranges, n - 1) + match ranges[n - 1] {
            Some(range) => spec_range_len(range),
            None => 0,
        }
    }
}

/// Whether a range lies in an optional one.
pub open spec fn lies_in(segment: Option<Range<usize>>, range: Range<usize>) -> bool {
    match segment {
        Some(s) => spec_contains_range(s, range),
        None => false,
    }
}

/// Whether no buffer is needed for validity in bytes that its data leaves out.
pub open spec fn validity_fits_data(
    data: Seq<Option<Range<usize>>>,
    validity: Seq<Option<Range<usize>>>,
) -> bool {
    forall|i: int|
        #![trigger data[i]]
        #![trigger validity[i]]
        0 <= i < data.len() && data[i] is Some && validity[i] is Some ==> spec_contains_range(
            data[i]->0,
            validity[i]->0,
        )
}

/// The validity ranges that are read along with the data: those of buffers which have no data
/// themselves and lie in the bytes that the data spans.
pub open spec fn covered_validity(
    data: Seq<Option<Range<usize>>>,
    validity: Seq<Option<Range<usize>>>,
    segment: Option<Range<usize>>,
) -> Seq<Option<Range<usize>>> {
    Seq::new(
        data.len(),
        |i: int|
            match validity[i] {
                Some(range) => if data[i] is None && lies_in(segment, range) {
                    Some(range)
                } else {
                    None
                },
                None => None,
            },
    )
}

/// The validity ranges that take reads of their own.
pub open spec fn separate_validity(
    data: Seq<Option<Range<usize>>>,
    validity: Seq<Option<Range<usize>>>,
    segment: Option<Range<usize>>,
) -> Seq<Option<Range<usize>>> {
    Seq::new(
        data.len(),
        |i: int|
            match validity[i] {
                Some(range) => if data[i] is None && !lies_in(segment, range) {
                    Some(range)
                } else {
                    None
                },
                None => None,
            },
    )
}

/// The number of bytes from the start of the segment to the end of the last buffer.
pub open spec fn full_size(locations: Seq<BufferLocation>) -> nat {
    if locations.len() == 0 {
        0
    } else {
        locations.last().offset as nat + locations.last().length as nat
    }
}

/// The number of bytes that a plan asks for.
pub open spec fn requested_size(
    segment: Option<Range<usize>>,
    separate: Seq<Option<Range<usize>>>,
) -> nat {
    bytes_in(separate, separate.len() as int) + match segment {
        Some(range) => spec_range_len(range),
        None => 0,
    }
}

/// Whether reading `requested` bytes is worth it: no more than half of the `full` ones.
pub open spec fn below_threshold(requested: nat, full: nat) -> bool {
    full == 0 || requested * 2 <= full
}

/// The decoded rows to keep for `row_range`, or `None` if these are all of them.
pub open spec fn spec_post_slice(
    decoded: Range<usize>,
    row_range: Range<usize>,
) -> Option<Range<usize>> {
    if decoded == row_range {
        None
    } else {
        Some(
            Range {
                start: (row_range.start - decoded.start) as usize,
                end: (row_range.end - decoded.start) as usize,
            },
        )
    }
}

/// The alignments of the buffers.
pub open spec fn alignments_of(locations: Seq<BufferLocation>) -> Seq<Alignment> {
    Seq::new(locations.len(), |i: int| locations[i].alignment)
}

/// The plan for what is needed of the buffers of a segment, or `None` if the whole segment has to
/// be read: because a buffer lacks bytes that are needed of it, because a buffer is needed for
/// validity in bytes that its data leaves out, because validity lies apart from the data and
/// `separate_reads` is not allowed, or because too much would be read.
pub open spec fn spec_build_plan(
    subtree: SubtreeView,
    locations: Seq<BufferLocation>,
    row_range: Range<usize>,
    separate_reads: bool,
) -> Option<PlanView> {
    let data = absolute_ranges(subtree.data_needed, locations);
    let validity = absolute_ranges(subtree.validity_needed, locations);
    let segment = span(data);
    let covered = covered_validity(data, validity, segment);
    let separate = separate_validity(data, validity, segment);
    let n = locations.len() as int;
    if needs_are_valid(subtree.data_needed, locations) && needs_are_valid(
        subtree.validity_needed,
        locations,
    ) && validity_fits_data(data, validity) && requested_size(segment, separate) <= usize::MAX && (
    separate_reads || reads_in(separate, locations, n).len() == 0) && below_threshold(
        requested_size(segment, separate),
        full_size(locations),
    ) {
        Some(
            PlanView {
                data_read: match segment {
                    Some(range) => Some(
                        SegmentReadView {
                            segment_range: range,
                            buffer_slices: slices_in(data, locations, range.start, n) + slices_in(
                                covered,
                                locations,
                                range.start,
                                n,
                            ),
                        },
                    ),
                    None => None,
                },
                validity_reads: reads_in(separate, locations, n),
                buffer_alignments: alignments_of(locations),
                decode_len: spec_range_len(subtree.decoded_range) as usize,
                post_slice: spec_post_slice(subtree.decoded_range, row_range),
            },
        )
    } else {
        None
    }
}

/// Whether every buffer ends at a position that fits in a `usize`.
pub open spec fn locations_valid(locations: Seq<BufferLocation>) -> bool {
    forall|i: int|
        0 <= i < locations.len() ==> (#[trigger] locations[i]).offset + locations[i].length
            <= usize::MAX
}

/// Returns the bytes of the segment that are needed of a buffer, or an error if the buffer does
/// not have them.
fn locate_need(entry: &Option<NeededBuffer>, location: &BufferLocation) -> (r: Result<
    Option<Range<usize>>,
    (),
>)
    requires
        location.offset + location.length <= usize::MAX,
    ensures
        r is Ok <==> need_is_valid(*entry, *location),
        r matches Ok(range) ==> range == absolute_range(*entry, *location),
{
    let range = match entry {
        None => return Ok(None),
        Some(NeededBuffer::Full) => 0..location.length,
        Some(NeededBuffer::Range(range)) => copy_range(range),
    };
    if range.start > range.end || range.end > location.length {
        return Err(());
    }
    if range.start >= range.end {
        return Ok(None);
    }
    Ok(Some(location.offset + range.start..location.offset + range.end))
}

/// The bytes of the segment that are needed of each buffer, or `None` if a buffer does not have
/// the bytes that are needed of it.
fn locate_needs(needed: &Vec<Option<NeededBuffer>>, locations: &Vec<BufferLocation>) -> (r: Option<
    Vec<Option<Range<usize>>>,
>)
    requires
        needed@.len() == locations@.len(),
        locations_valid(locations@),
    ensures
        r is Some <==> needs_are_valid(needed@, locations@),
        r matches Some(ranges) ==> ranges@ == absolute_ranges(needed@, locations@),
{
    let mut ranges: Vec<Option<Range<usize>>> = Vec::new();
    let mut i: usize = 0;
    while i < locations.len()
        invariant
            i <= locations@.len() == needed@.len(),
            locations_valid(locations@),
            forall|k: int|
                #![trigger needed@[k]]
                0 <= k < i ==> need_is_valid(needed@[k], locations@[k]),
            ranges@ == absolute_ranges(needed@, locations@).take(i as int),
        decreases locations@.len() - i,
    {
        match locate_need(&needed[i], &locations[i]) {
            Ok(range) => ranges.push(range),
            Err(_) => {
                assert(!need_is_valid(needed@[i as int], locations@[i as int]));
                return None;
            },
        }
        i = i + 1;
        assert(ranges@ =~= absolute_ranges(needed@, locations@).take(i as int));
    }
    assert(ranges@ =~= absolute_ranges(needed@, locations@));
    Some(ranges)
}

/// The smallest range that contains all of the given ones.
fn span_of(ranges: &Vec<Option<Range<usize>>>) -> (r: Option<Range<usize>>)
    ensures
        r == span(ranges@),
{
    let mut whole: Option<Range<usize>> = None;
    let mut i: usize = 0;
    while i < ranges.len()
        invariant
            i <= ranges@.len(),
            whole == span(ranges@.take(i as int)),
        decreases ranges@.len() - i,
    {
        assert(ranges@.take(i + 1).drop_last() =~= ranges@.take(i as int));
        if let Some(range) = &ranges[i] {
            whole = match &whole {
                Some(before) => Some(union_ranges(before, range)),
                None => Some(copy_range(range)),
            };
        }
        i = i + 1;
    }
    assert(ranges@.take(i as int) =~= ranges@);
    whole
}

/// The span of some ranges contains each of them.
pub proof fn lemma_span_contains(ranges: Seq<Option<Range<usize>>>, i: int)
    requires
        0 <= i < ranges.len(),
        ranges[i] is Some,
    ensures
        span(ranges) is Some,
        spec_contains_range(span(ranges)->0, ranges[i]->0),
    decreases ranges.len(),
{
    if i < ranges.len() - 1 {
        assert(ranges.drop_last()[i] == ranges[i]);
        lemma_span_contains(ranges.drop_last(), i);
    }
}

/// The data ranges as slices of the read that spans them.
fn slice_data(
    ranges: &Vec<Option<Range<usize>>>,
    locations: &Vec<BufferLocation>,
    start: usize,
) -> (r: Vec<BufferSlice>)
    requires
        ranges@.len() == locations@.len(),
        forall|i: int|
            0 <= i < ranges@.len() && (#[trigger] ranges@[i]) is Some ==> start
                <= ranges@[i]->0.start && start <= ranges@[i]->0.end,
    ensures
        r@ == slices_in(ranges@, locations@, start, locations@.len() as int),
{
    let mut slices: Vec<BufferSlice> = Vec::new();
    let mut i: usize = 0;
    while i < ranges.len()
        invariant
            i <= ranges@.len() == locations@.len(),
            forall|k: int|
                0 <= k < ranges@.len() && (#[trigger] ranges@[k]) is Some ==> start
                    <= ranges@[k]->0.start && start <= ranges@[k]->0.end,
            slices@ == slices_in(ranges@, locations@, start, i as int),
        decreases ranges@.len() - i,
    {
        if let Some(absolute) = &ranges[i] {
            slices.push(
                BufferSlice {
                    buffer_idx: i,
                    range: absolute.start - start..absolute.end - start,
                    alignment: locations[i].alignment,
                },
            );
        }
        i = i + 1;
    }
    slices
}

/// Sums grow with the number of ranges.
proof fn lemma_bytes_in_monotonic(ranges: Seq<Option<Range<usize>>>, i: int, j: int)
    requires
        i <= j,
    ensures
        bytes_in(ranges, i) <= bytes_in(ranges, j),
    decreases j - i,
{
    if i < j {
        lemma_bytes_in_monotonic(ranges, i, j - 1);
    }
}

/// Distributes the validity ranges over the read of the data and reads of their own. Returns the
/// latter and the number of bytes that are read in all, or `None` if a range cannot be placed.
fn place_validity(
    data: &Vec<Option<Range<usize>>>,
    validity: &Vec<Option<Range<usize>>>,
    locations: &Vec<BufferLocation>,
    data_read: &mut Option<DataRead>,
) -> (r: Option<(Vec<ValidityRead>, usize)>)
    requires
        data@.len() == locations@.len() == validity@.len(),
        forall|i: int|
            0 <= i < validity@.len() && (#[trigger] validity@[i]) is Some
                ==> validity@[i]->0.start < validity@[i]->0.end,
        match *old(data_read) {
            Some(read) => span(data@) == Some(read.segment.segment_range),
            None => span(data@) is None,
        },
    ensures
        ({
            let segment = span(data@);
            let covered = covered_validity(data@, validity@, segment);
            let separate = separate_validity(data@, validity@, segment);
            let n = locations@.len() as int;
            let fits = validity_fits_data(data@, validity@) && requested_size(segment, separate)
                <= usize::MAX;
            &&& r is Some <==> fits
            &&& r matches Some((reads, requested)) ==> {
                &&& validity_reads_view(reads@) == reads_in(separate, locations@, n)
                &&& requested == requested_size(segment, separate)
                &&& (*final(data_read)) is Some <==> (*old(data_read)) is Some
                &&& *old(data_read) matches Some(before) ==> {
                    let after = (*final(data_read))->0;
                    &&& after.segment.segment_range == before.segment.segment_range
                    &&& after.segment.buffer_slices@ == before.segment.buffer_slices@ + slices_in(
                        covered,
                        locations@,
                        before.segment.segment_range.start,
                        n,
                    )
                }
            }
        }),
{
    let ghost segment = span(data@);
    let ghost covered = covered_validity(data@, validity@, segment);
    let ghost separate = separate_validity(data@, validity@, segment);
    let ghost before = *data_read;
    let mut reads: Vec<ValidityRead> = Vec::new();
    let mut requested: usize = match data_read {
        Some(read) => range_len(&read.segment.segment_range),
        None => 0,
    };
    assert(validity_reads_view(reads@) =~= reads_in(separate, locations@, 0));
    assert(before matches Some(b) ==> b.segment.buffer_slices@ + slices_in(
        covered,
        locations@,
        b.segment.segment_range.start,
        0,
    ) =~= b.segment.buffer_slices@);
    let mut i: usize = 0;
    while i < validity.len()
        invariant
            i <= data@.len() == locations@.len() == validity@.len(),
            segment == span(data@),
            covered == covered_validity(data@, validity@, segment),
            separate == separate_validity(data@, validity@, segment),
            before == *old(data_read),
            match before {
                Some(read) => segment == Some(read.segment.segment_range),
                None => segment is None,
            },
            forall|k: int|
                0 <= k < validity@.len() && (#[trigger] validity@[k]) is Some
                    ==> validity@[k]->0.start < validity@[k]->0.end,
            forall|k: int|
                #![trigger data@[k]]
                #![trigger validity@[k]]
                0 <= k < i && data@[k] is Some && validity@[k] is Some ==> spec_contains_range(
                    data@[k]->0,
                    validity@[k]->0,
                ),
            requested == bytes_in(separate, i as int) + (match segment {
                Some(range) => spec_range_len(range),
                None => 0,
            }),
            validity_reads_view(reads@) == reads_in(separate, locations@, i as int),
            (*data_read) is Some <==> before is Some,
            before matches Some(b) ==> {
                let now = (*data_read)->0;
                &&& now.segment.segment_range == b.segment.segment_range
                &&& now.segment.buffer_slices@ == b.segment.buffer_slices@ + slices_in(
                    covered,
                    locations@,
                    b.segment.segment_range.start,
                    i as int,
                )
            },
        decreases validity@.len() - i,
    {
        assert(covered[i as int] == covered_validity(data@, validity@, segment)[i as int]);
        assert(separate[i as int] == separate_validity(data@, validity@, segment)[i as int]);
        if let Some(absolute) = &validity[i] {
            if let Some(data_range) = &data[i] {
                if !contains_range(data_range, absolute) {
                    assert(!validity_fits_data(data@, validity@)) by {
                        assert(data@[i as int] is Some && validity@[i as int] is Some);
                    }
                    return None;
                }
            } else {
                let mut in_data = false;
                if let Some(read) = data_read.as_ref() {
                    in_data = contains_range(&read.segment.segment_range, absolute);
                }
                if in_data {
                    let mut read = data_read.take().unwrap();
                    let start: usize = read.segment.segment_range.start;
                    let ghost slices = read.segment.buffer_slices@;
                    read.segment.buffer_slices.push(
                        BufferSlice {
                            buffer_idx: i,
                            range: absolute.start - start..absolute.end - start,
                            alignment: locations[i].alignment,
                        },
                    );
                    *data_read = Some(read);
                    assert((*data_read)->0.segment.buffer_slices@
                        =~= before->0.segment.buffer_slices@ + slices_in(
                        covered,
                        locations@,
                        start,
                        i + 1,
                    ));
                } else {
                    let len: usize = range_len(absolute);
                    proof {
                        lemma_bytes_in_monotonic(separate, i + 1, validity@.len() as int);
                    }
                    requested = match requested.checked_add(len) {
                        Some(requested) => requested,
                        None => return None,
                    };
                    let mut buffer_slices: Vec<BufferSlice> = Vec::new();
                    buffer_slices.push(
                        BufferSlice {
                            buffer_idx: i,
                            range: 0..len,
                            alignment: locations[i].alignment,
                        },
                    );
                    let ghost earlier = reads@;
                    let read = ValidityRead {
                        segment: SegmentRead { segment_range: copy_range(absolute), buffer_slices },
                    };
                    let ghost added = read.segment@;
                    reads.push(read);
                    proof {
                        assert(validity_reads_view(reads@) =~= validity_reads_view(earlier).push(
                            added,
                        ));
                        assert(added.buffer_slices =~= seq![added.buffer_slices[0]]);
                        assert(validity_reads_view(reads@) == reads_in(
                            separate,
                            locations@,
                            i + 1,
                        ));
                    }
                }
            }
        }
        i = i + 1;
    }
    Some((reads, requested))
}

/// The alignments of the buffers.
fn collect_alignments(locations: &Vec<BufferLocation>) -> (r: Vec<Alignment>)
    ensures
        r@ == alignments_of(locations@),
{
    let mut alignments: Vec<Alignment> = Vec::new();
    let mut i: usize = 0;
    while i < locations.len()
        invariant
            i <= locations@.len(),
            alignments@ == alignments_of(locations@).take(i as int),
        decreases locations@.len() - i,
    {
        alignments.push(locations[i].alignment);
        i = i + 1;
        assert(alignments@ =~= alignments_of(locations@).take(i as int));
    }
    assert(alignments@ =~= alignments_of(locations@));
    alignments
}

/// Turns what is needed of the buffers of a segment into reads of the segment.
///
/// Every buffer other than those for validity alone is covered by one contiguous read, even when
/// the encoding has several children. Returns `None` if the whole segment has to be read.
pub fn build_plan(
    subtree: &SubtreePlan,
    locations: &Vec<BufferLocation>,
    row_range: Range<usize>,
    separate_reads: bool,
) -> (r: Option<RangeReadPlan>)
    requires
        plan_len_ok(subtree@, locations@.len()),
        locations_valid(locations@),
        row_range.start <= row_range.end,
        spec_contains_range(subtree.decoded_range, row_range),
    ensures
        r is Some <==> spec_build_plan(subtree@, locations@, row_range, separate_reads) is Some,
        r matches Some(plan) ==> spec_build_plan(subtree@, locations@, row_range, separate_reads)
            == Some(plan@),
{
    let data = match locate_needs(&subtree.data_needed.entries, locations) {
        Some(ranges) => ranges,
        None => return None,
    };
    let validity = match locate_needs(&subtree.validity_needed.entries, locations) {
        Some(ranges) => ranges,
        None => return None,
    };

    let mut data_read: Option<DataRead> = match span_of(&data) {
        Some(segment_range) => {
            proof {
                assert forall|i: int|
                    0 <= i < data@.len() && (#[trigger] data@[i]) is Some implies segment_range.start
                    <= data@[i]->0.start && segment_range.start <= data@[i]->0.end by {
                    lemma_span_contains(data@, i);
                }
            }
            let buffer_slices = slice_data(&data, locations, segment_range.start);
            Some(DataRead { segment: SegmentRead { segment_range, buffer_slices } })
        },
        None => None,
    };
    let (validity_reads, requested_bytes) = match place_validity(
        &data,
        &validity,
        locations,
        &mut data_read,
    ) {
        Some(placed) => placed,
        None => return None,
    };

    assert(validity_reads_view(validity_reads@).len() == validity_reads@.len());
    if validity_reads.len() > 0 && !separate_reads {
        return None;
    }

    let full_data_size: usize = if locations.len() == 0 {
        0
    } else {
        let last = &locations[locations.len() - 1];
        last.offset + last.length
    };
    if full_data_size > 0 && requested_bytes > full_data_size / 2 {
        return None;
    }

    let decoded_range = &subtree.decoded_range;
    let post_slice = if same_range(decoded_range, &row_range) {
        None
    } else {
        Some(row_range.start - decoded_range.start..row_range.end - decoded_range.start)
    };
    Some(
        RangeReadPlan {
            data_read,
            validity_reads,
            buffer_alignments: collect_alignments(locations),
            decode_len: range_len(decoded_range),
            post_slice,
        },
    )
}

/// Whether `row_range` is a part of `row_count` rows: some of them, but not all.
pub open spec fn is_partial(row_range: Range<usize>, row_count: usize) -> bool {
    row_range.start < row_range.end <= row_count && !(row_range.start == 0 && row_range.end
        == row_count)
}

/// The plan for some rows of an array tree.
pub open spec fn spec_plan_tree<P: VTable>(
    registry: Map<Seq<char>, P>,
    ids: Seq<Seq<char>>,
    tree: ArrayTreeView,
    row_range: Range<usize>,
    row_count: usize,
    dtype: DType,
    separate_reads: bool,
) -> VortexResult<Option<PlanView>> {
    match tree.root {
        None => Err(VortexError::MissingRootNode),
        Some(root) => match spec_analyze_encoding(
            registry,
            ids,
            root,
            row_range,
            row_count,
            dtype,
            tree.buffers.len(),
        ) {
            Err(e) => Err(e),
            Ok(None) => Ok(None),
            Ok(Some(subtree)) => Ok(
                spec_build_plan(
                    subtree,
                    spec_locations(tree.buffers),
                    row_range,
                    separate_reads,
                ),
            ),
        },
    }
}

/// The plan for some rows of the array tree in a flatbuffer: `None` for rows that are not a part
/// of the array, whatever the bytes hold.
pub open spec fn spec_try_plan<P: VTable>(
    registry: Map<Seq<char>, P>,
    ids: Seq<Seq<char>>,
    parsed: Option<ArrayTreeView>,
    row_range: Range<usize>,
    row_count: usize,
    dtype: DType,
    separate_reads: bool,
) -> VortexResult<Option<PlanView>> {
    if !is_partial(row_range, row_count) {
        Ok(None)
    } else {
        match parsed {
            None => Err(VortexError::InvalidArrayTree),
            Some(tree) => spec_plan_tree(
                registry,
                ids,
                tree,
                row_range,
                row_count,
                dtype,
                separate_reads,
            ),
        }
    }
}

/// Whether the buffers of an array tree, if there is one, can be located.
pub open spec fn tree_is_located(parsed: Option<ArrayTreeView>) -> bool {
    parsed matches Some(tree) ==> locations_fit(tree.buffers)
}

/// Buffers that can be located end at positions that fit in a `usize`.
pub proof fn lemma_locations_valid(specs: Seq<BufferSpec>)
    requires
        locations_fit(specs),
    ensures
        locations_valid(spec_locations(specs)),
        forall|i: int|
            0 <= i < specs.len() ==> (#[trigger] spec_locations(specs)[i]).offset + spec_locations(
                specs,
            )[i].length == buffers_end(specs, i + 1),
{
    assert forall|i: int| 0 <= i < specs.len() implies (#[trigger] spec_locations(specs)[i]).offset
        + spec_locations(specs)[i].length == buffers_end(specs, i + 1) && buffers_end(
        specs,
        i + 1,
    ) <= usize::MAX by {
        lemma_buffers_end_monotonic(specs, i + 1, specs.len() as int);
    }
}

/// Plans the reads for some rows of an array tree.
pub fn plan_tree<P: VTable>(
    tree: &ArrayTree,
    row_range: Range<usize>,
    row_count: usize,
    dtype: &DType,
    ctx: &ReadContext,
    session: &Session<P>,
) -> (r: VortexResult<Option<RangeReadPlan>>)
    requires
        locations_fit(tree@.buffers),
        row_range.start <= row_range.end,
    ensures
        plan_result_view(r) == spec_plan_tree(
            session.arrays@,
            ctx@,
            tree@,
            row_range,
            row_count,
            *dtype,
            session.separate_validity_reads,
        ),
{
    let locations = compute_buffer_locations(&tree.buffers);
    proof {
        lemma_locations_valid(tree.buffers@);
    }
    let root_node = match &tree.root {
        Some(root_node) => root_node,
        None => return Err(VortexError::MissingRootNode),
    };
    match analyze_encoding(
        root_node,
        copy_range(&row_range),
        row_count,
        dtype,
        ctx,
        session,
        locations.len(),
    ) {
        Ok(Some(subtree)) => Ok(
            build_plan(&subtree, &locations, row_range, session.separate_validity_reads),
        ),
        Ok(None) => Ok(None),
        Err(e) => Err(e),
    }
}

/// Plans the reads for some rows of the array tree that a flatbuffer holds.
///
/// Returns `None` if the whole segment has to be read: because all rows or none are asked for, or
/// because the array cannot be read in part, or not cheaply.
pub fn try_plan_range_read<P: VTable>(
    array_tree: &[u8],
    row_range: Range<usize>,
    row_count: usize,
    dtype: &DType,
    ctx: &ReadContext,
    session: &Session<P>,
) -> (r: VortexResult<Option<RangeReadPlan>>)
    requires
        is_partial(row_range, row_count) ==> array_tree@.len() <= MAX_FLATBUFFER_LEN
            && tree_is_located(parsed_array_tree(array_tree@)),
    ensures
        plan_result_view(r) == spec_try_plan(
            session.arrays@,
            ctx@,
            parsed_array_tree(array_tree@),
            row_range,
            row_count,
            *dtype,
            session.separate_validity_reads,
        ),
{
    if row_range.start >= row_range.end || row_range.end > row_count {
        return Ok(None);
    }
    if row_range.start == 0 && row_range.end == row_count {
        return Ok(None);
    }
    let tree = match parse_array_tree(array_tree) {
        Ok(tree) => tree,
        Err(e) => return Err(e),
    };
    plan_tree(&tree, row_range, row_count, dtype, ctx, session)
}

/// Like [`try_plan_range_read`], for bytes of unknown origin: returns `None` for part of an array
/// whose tree is too large to be read, or has buffers that cannot be located.
pub fn try_plan_located_range_read<P: VTable>(
    array_tree: &[u8],
    row_range: Range<usize>,
    row_count: usize,
    dtype: &DType,
    ctx: &ReadContext,
    session: &Session<P>,
) -> (r: Option<VortexResult<Option<RangeReadPlan>>>)
    ensures
        r is None <==> is_partial(row_range, row_count) && !(array_tree@.len()
            <= MAX_FLATBUFFER_LEN && tree_is_located(parsed_array_tree(array_tree@))),
        r matches Some(planned) ==> plan_result_view(planned) == spec_try_plan(
            session.arrays@,
            ctx@,
            parsed_array_tree(array_tree@),
            row_range,
            row_count,
            *dtype,
            session.separate_validity_reads,
        ),
{
    let is_part = row_range.start < row_range.end && row_range.end <= row_count && !(row_range.start
        == 0 && row_range.end == row_count);
    if !is_part {
        return Some(try_plan_range_read(array_tree, row_range, row_count, dtype, ctx, session));
    }
    if array_tree.len() > MAX_FLATBUFFER_LEN {
        return None;
    }
    let tree = match parse_array_tree(array_tree) {
        Ok(tree) => tree,
        Err(e) => return Some(Err(e)),
    };
    if !buffers_can_be_located(&tree.buffers) {
        return None;
    }
    Some(plan_tree(&tree, row_range, row_count, dtype, ctx, session))
}

} // verus!
