//! Where the bytes of segments come from.

use crate::alignment::Alignment;
use crate::buffer::{
    aligned, buffer_alignment, buffer_bytes, buffer_len, buffer_view, slice_unaligned, BufferView,
};
use crate::error::{VortexError, VortexResult};
use crate::ranges::spec_range_len;
use std::ops::Range;
use vortex_buffer::ByteBuffer;
use vstd::arithmetic::power2::{lemma2_to64, lemma_pow2_pos};
use vstd::prelude::*;

verus! {

/// The number of a segment.
#[derive(Debug, Clone, Copy, PartialEq, Eq, Structural)]
pub struct SegmentId(pub u32);

impl From<u32> for SegmentId {
    fn from(id: u32) -> (r: SegmentId) {
        SegmentId(id)
    }
}

impl vstd::std_specs::convert::FromSpecImpl<u32> for SegmentId {
    open spec fn obeys_from_spec() -> bool {
        true
    }

    open spec fn from_spec(id: u32) -> SegmentId {
        SegmentId(id)
    }
}

/// Where a segment lies in its file or buffer.
#[derive(Debug, Clone, Copy, PartialEq, Eq, Structural)]
pub struct SegmentSpec {
    pub offset: u64,
    pub length: u32,
    pub alignment: Alignment,
}

/// The content of a result that is a buffer.
pub open spec fn reply_view(r: VortexResult<ByteBuffer>) -> VortexResult<BufferView> {
    match r {
        Ok(buffer) => Ok(buffer_view(buffer)),
        Err(e) => Err(e),
    }
}

/// The bytes of a buffer in a range, without any alignment.
pub open spec fn unaligned_part(bytes: Seq<u8>, range: Range<usize>) -> BufferView {
    BufferView {
        bytes: bytes.subrange(range.start as int, range.end as int),
        alignment: Alignment::spec_none(),
    }
}

/// A byte range of a segment that was read as a whole.
pub open spec fn spec_slice_segment(
    bytes: Seq<u8>,
    id: SegmentId,
    range: Range<usize>,
) -> VortexResult<BufferView> {
    if range.start <= range.end <= bytes.len() {
        Ok(unaligned_part(bytes, range))
    } else {
        Err(
            VortexError::SegmentRangeOutOfBounds {
                id: id.0,
                start: range.start,
                end: range.end,
                segment_len: bytes.len() as usize,
            },
        )
    }
}

/// Returns a byte range of a segment that was read as a whole: the answer to a range request of a
/// source that can only read whole segments. It has no alignment beyond that of bytes.
pub fn slice_segment(buffer: &ByteBuffer, id: SegmentId, range: Range<usize>) -> (r: VortexResult<
    ByteBuffer,
>)
    ensures
        reply_view(r) == (if range.start <= range.end <= buffer_bytes(*buffer).len() {
            Ok(unaligned_part(buffer_bytes(*buffer), range))
        } else {
            Err(
                VortexError::SegmentRangeOutOfBounds {
                    id: id.0,
                    start: range.start,
                    end: range.end,
                    segment_len: buffer_bytes(*buffer).len() as usize,
                },
            )
        }),
        reply_view(r) == spec_slice_segment(buffer_bytes(*buffer), id, range),
{
    let segment_len: usize = buffer_len(buffer);
    if range.start > range.end || range.end > segment_len {
        return Err(
            VortexError::SegmentRangeOutOfBounds {
                id: id.0,
                start: range.start,
                end: range.end,
                segment_len,
            },
        );
    }
    Ok(slice_unaligned(buffer, range))
}

/// The segment with the given number.
pub open spec fn spec_segment(segments: Seq<SegmentSpec>, id: SegmentId) -> VortexResult<
    SegmentSpec,
> {
    if id.0 < segments.len() {
        Ok(segments[id.0 as int])
    } else {
        Err(VortexError::MissingSegment { id: id.0 })
    }
}

fn find_segment(segments: &Vec<SegmentSpec>, id: SegmentId) -> (r: VortexResult<SegmentSpec>)
    ensures
        r == spec_segment(segments@, id),
{
    let idx: usize = id.0 as usize;
    if idx < segments.len() {
        Ok(segments[idx])
    } else {
        Err(VortexError::MissingSegment { id: id.0 })
    }
}

/// The segment with the given number, of which a byte range is asked for.
pub open spec fn spec_segment_range(
    segments: Seq<SegmentSpec>,
    id: SegmentId,
    range: Range<usize>,
) -> VortexResult<SegmentSpec> {
    match spec_segment(segments, id) {
        Err(e) => Err(e),
        Ok(spec) => if range.start <= range.end <= spec.length {
            Ok(spec)
        } else {
            Err(
                VortexError::SegmentRangeOutOfBounds {
                    id: id.0,
                    start: range.start,
                    end: range.end,
                    segment_len: spec.length as usize,
                },
            )
        },
    }
}

fn find_segment_range(
    segments: &Vec<SegmentSpec>,
    id: SegmentId,
    range: &Range<usize>,
) -> (r: VortexResult<SegmentSpec>)
    ensures
        r == spec_segment_range(segments@, id, *range),
{
    let segment: SegmentSpec = match find_segment(segments, id) {
        Ok(found) => found,
        Err(e) => return Err(e),
    };
    let segment_len: usize = segment.length as usize;
    if range.start > range.end || range.end > segment_len {
        return Err(
            VortexError::SegmentRangeOutOfBounds {
                id: id.0,
                start: range.start,
                end: range.end,
                segment_len,
            },
        );
    }
    Ok(segment)
}

/// The segments in a buffer in memory, which answers at once.
pub struct BufferSegmentSource {
    buffer: ByteBuffer,
    segments: Vec<SegmentSpec>,
}

/// The mathematical content of a [`BufferSegmentSource`].
#[verifier::ext_equal]
pub struct BufferSegmentSourceView {
    pub bytes: Seq<u8>,
    pub segments: Seq<SegmentSpec>,
}

impl View for BufferSegmentSource {
    type V = BufferSegmentSourceView;

    closed spec fn view(&self) -> BufferSegmentSourceView {
        BufferSegmentSourceView { bytes: buffer_bytes(self.buffer), segments: self.segments@ }
    }
}

impl BufferSegmentSourceView {
    /// The answer to a request for a byte range of a segment.
    pub open spec fn requested_range(self, id: SegmentId, range: Range<usize>) -> VortexResult<
        BufferView,
    > {
        match spec_segment_range(self.segments, id, range) {
            Err(e) => Err(e),
            Ok(spec) => if spec.offset + range.start > usize::MAX {
                Err(VortexError::RangeStartOverflow { id: id.0, start: range.start })
            } else if spec.offset + range.end > usize::MAX {
                Err(VortexError::RangeEndOverflow { id: id.0, end: range.end })
            } else if spec.offset + range.end > self.bytes.len() {
                Err(
                    VortexError::BufferRangeOutOfBounds {
                        id: id.0,
                        start: (spec.offset + range.start) as usize,
                        end: (spec.offset + range.end) as usize,
                        buffer_len: self.bytes.len() as usize,
                    },
                )
            } else {
                Ok(
                    unaligned_part(
                        self.bytes,
                        Range {
                            start: (spec.offset + range.start) as usize,
                            end: (spec.offset + range.end) as usize,
                        },
                    ),
                )
            },
        }
    }

    /// The answer to a request for a segment.
    pub open spec fn requested(self, id: SegmentId) -> VortexResult<BufferView> {
        match spec_segment(self.segments, id) {
            Err(e) => Err(e),
            Ok(spec) => if spec.offset + spec.length > self.bytes.len() {
                Err(
                    VortexError::BufferRangeOutOfBounds {
                        id: id.0,
                        start: spec.offset as usize,
                        end: (spec.offset + spec.length) as usize,
                        buffer_len: self.bytes.len() as usize,
                    },
                )
            } else {
                Ok(
                    BufferView {
                        bytes: self.bytes.subrange(
                            spec.offset as int,
                            spec.offset + spec.length,
                        ),
                        alignment: spec.alignment,
                    },
                )
            },
        }
    }

    /// Whether the segment, if there is one, ends at a position that fits in a `usize`, and can be
    /// given its alignment if it lies in the buffer.
    pub open spec fn can_be_requested(self, id: SegmentId) -> bool {
        spec_segment(self.segments, id) matches Ok(spec) ==> spec.offset + spec.length
            <= usize::MAX && (spec.offset + spec.length <= self.bytes.len()
            ==> spec.alignment.valid() && spec.alignment.can_hold(spec.length as nat))
    }
}

impl BufferSegmentSource {
    /// Creates a source from a buffer and its segment map.
    pub fn new(buffer: ByteBuffer, segments: Vec<SegmentSpec>) -> (r: Self)
        ensures
            r@ == (BufferSegmentSourceView {
                bytes: buffer_bytes(buffer),
                segments: segments@,
            }),
    {
        BufferSegmentSource { buffer, segments }
    }

    /// Returns whether the segment, if there is one, can be requested: whether it ends at a
    /// position that fits in a `usize`, and can be given its alignment if it lies in the buffer.
    pub fn can_request(&self, id: SegmentId) -> (r: bool)
        ensures
            r == self@.can_be_requested(id),
    {
        match find_segment(&self.segments, id) {
            Ok(found) => {
                if found.offset > usize::MAX as u64 {
                    return false;
                }
                let length: usize = found.length as usize;
                match (found.offset as usize).checked_add(length) {
                    Some(end) => end > buffer_len(&self.buffer) || (found.alignment.exponent as u32)
                        < usize::BITS && found.alignment.can_allocate(length),
                    None => false,
                }
            },
            Err(_) => true,
        }
    }

    /// Returns a byte range of a segment. It has no alignment beyond that of bytes.
    pub fn request_range(&self, id: SegmentId, range: Range<usize>) -> (r: VortexResult<ByteBuffer>)
        ensures
            reply_view(r) == self@.requested_range(id, range),
    {
        let segment: SegmentSpec = match find_segment_range(&self.segments, id, &range) {
            Ok(found) => found,
            Err(e) => return Err(e),
        };
        if segment.offset > usize::MAX as u64 {
            return Err(VortexError::RangeStartOverflow { id: id.0, start: range.start });
        }
        let offset: usize = segment.offset as usize;
        let start: usize = match offset.checked_add(range.start) {
            Some(start) => start,
            None => return Err(VortexError::RangeStartOverflow { id: id.0, start: range.start }),
        };
        let end: usize = match offset.checked_add(range.end) {
            Some(end) => end,
            None => return Err(VortexError::RangeEndOverflow { id: id.0, end: range.end }),
        };
        let len: usize = buffer_len(&self.buffer);
        if end > len {
            return Err(
                VortexError::BufferRangeOutOfBounds { id: id.0, start, end, buffer_len: len },
            );
        }
        Ok(slice_unaligned(&self.buffer, start..end))
    }

    /// Returns a segment, with its alignment.
    pub fn request(&self, id: SegmentId) -> (r: VortexResult<ByteBuffer>)
        requires
            self@.can_be_requested(id),
        ensures
            reply_view(r) == self@.requested(id),
    {
        let segment: SegmentSpec = match find_segment(&self.segments, id) {
            Ok(found) => found,
            Err(e) => return Err(e),
        };
        let start: usize = segment.offset as usize;
        let end: usize = start + segment.length as usize;
        let len: usize = buffer_len(&self.buffer);
        if end > len {
            return Err(
                VortexError::BufferRangeOutOfBounds { id: id.0, start, end, buffer_len: len },
            );
        }
        Ok(aligned(slice_unaligned(&self.buffer, start..end), segment.alignment))
    }
}

/// A range request gives the bytes that a request for the whole segment gives at those positions;
/// it succeeds whenever that one does and the range lies in the segment.
pub proof fn law_range_request_is_part_of_request(
    source: BufferSegmentSourceView,
    id: SegmentId,
    range: Range<usize>,
)
    requires
        source.can_be_requested(id),
        source.requested(id) matches Ok(whole) && range.start <= range.end <= whole.bytes.len(),
    ensures
        source.requested_range(id, range) == Ok::<BufferView, VortexError>(
            unaligned_part((source.requested(id)->Ok_0).bytes, range),
        ),
{
    let segment = source.segments[id.0 as int];
    let whole = (source.requested(id)->Ok_0).bytes;
    let offset = segment.offset as int;
    assert(source.bytes.subrange(offset + range.start, offset + range.end) =~= whole.subrange(
        range.start as int,
        range.end as int,
    ));
}

/// The number of a read request.
pub type RequestId = usize;

/// A request to read bytes of a file.
#[derive(Debug, Clone, Copy, PartialEq, Eq, Structural)]
pub struct ReadRequest {
    pub id: RequestId,
    pub offset: u64,
    pub length: usize,
    pub alignment: Alignment,
}

/// What happens to a read request.
#[derive(Debug, Clone, Copy, PartialEq, Eq, Structural)]
pub enum ReadEvent {
    /// It is made.
    Request(ReadRequest),
    /// Its result is waited for.
    Polled(RequestId),
    /// Its result is no longer wanted.
    Dropped(RequestId),
}

/// How reads that lie close to each other are read together.
#[derive(Debug, Clone, Copy, PartialEq, Eq, Structural)]
pub struct CoalesceConfig {
    /// How far apart they may lie.
    pub distance: u64,
    /// How many bytes they may span.
    pub max_size: u64,
}

/// How the read requests of a source are served.
#[derive(Debug, Clone, Copy, PartialEq, Eq, Structural)]
pub struct StreamConfig {
    /// How reads are read together, if they are.
    pub coalesce: Option<CoalesceConfig>,
    /// The alignment of combined reads.
    pub max_alignment: Alignment,
    /// How many reads run at the same time.
    pub concurrency: usize,
}

/// The largest alignment of the first `n` segments.
pub open spec fn spec_max_alignment(segments: Seq<SegmentSpec>, n: int) -> Alignment
    decreases n,
{
    if n <= 0 {
        Alignment::spec_none()
    } else {
        let before = spec_max_alignment(segments, n - 1);
        if segments[n - 1].alignment.exponent > before.exponent {
            segments[n - 1].alignment
        } else {
            before
        }
    }
}

/// Whether every segment has an alignment that exists.
pub open spec fn segments_valid(segments: Seq<SegmentSpec>) -> bool {
    forall|i: int| 0 <= i < segments.len() ==> (#[trigger] segments[i]).alignment.valid()
}

fn max_alignment(segments: &Vec<SegmentSpec>) -> (r: Alignment)
    requires
        segments_valid(segments@),
    ensures
        r == spec_max_alignment(segments@, segments@.len() as int),
        r.valid(),
{
    let mut largest = Alignment::none();
    let mut i: usize = 0;
    while i < segments.len()
        invariant
            i <= segments@.len(),
            segments_valid(segments@),
            largest == spec_max_alignment(segments@, i as int),
            largest.valid(),
        decreases segments@.len() - i,
    {
        if segments[i].alignment.exponent > largest.exponent {
            largest = segments[i].alignment;
        }
        i = i + 1;
    }
    largest
}

/// A limit on combined reads, raised by the bytes that aligning the start of one can add.
pub open spec fn widened(config: CoalesceConfig, alignment: Alignment) -> CoalesceConfig {
    let max_size = config.max_size + alignment.bytes() - 1;
    CoalesceConfig {
        max_size: if max_size <= u64::MAX { max_size as u64 } else { u64::MAX },
        ..config
    }
}

/// The segments in a file. Each request gets the next number.
pub struct FileSegmentSource {
    segments: Vec<SegmentSpec>,
    next_id: RequestId,
}

/// The mathematical content of a [`FileSegmentSource`].
#[verifier::ext_equal]
pub struct FileSegmentSourceView {
    pub segments: Seq<SegmentSpec>,
    pub next_id: RequestId,
}

impl View for FileSegmentSource {
    type V = FileSegmentSourceView;

    closed spec fn view(&self) -> FileSegmentSourceView {
        FileSegmentSourceView { segments: self.segments@, next_id: self.next_id }
    }
}

/// The number after a given one; the first follows the largest.
pub open spec fn id_after(id: RequestId) -> RequestId {
    if id == usize::MAX { 0 } else { (id + 1) as usize }
}

impl FileSegmentSourceView {
    /// The source after it made a request.
    pub open spec fn after_request(self) -> FileSegmentSourceView {
        FileSegmentSourceView { segments: self.segments, next_id: id_after(self.next_id) }
    }

    /// The read of a segment.
    pub open spec fn requested(self, id: SegmentId) -> VortexResult<ReadRequest> {
        match spec_segment(self.segments, id) {
            Err(e) => Err(e),
            Ok(spec) => Ok(
                ReadRequest {
                    id: self.next_id,
                    offset: spec.offset,
                    length: spec.length as usize,
                    alignment: spec.alignment,
                },
            ),
        }
    }

    /// The read of a byte range of a segment.
    pub open spec fn requested_range(self, id: SegmentId, range: Range<usize>) -> VortexResult<
        ReadRequest,
    > {
        match spec_segment_range(self.segments, id, range) {
            Err(e) => Err(e),
            Ok(spec) => if spec.offset + range.start > u64::MAX {
                Err(VortexError::RangeStartOverflow { id: id.0, start: range.start })
            } else {
                Ok(
                    ReadRequest {
                        id: self.next_id,
                        offset: (spec.offset + range.start) as u64,
                        length: spec_range_len(range) as usize,
                        alignment: Alignment::spec_none(),
                    },
                )
            },
        }
    }
}

/// How the read requests of a source with the given segments are served.
pub open spec fn stream_config(
    segments: Seq<SegmentSpec>,
    coalesce: Option<CoalesceConfig>,
    concurrency: usize,
) -> StreamConfig {
    let alignment = spec_max_alignment(segments, segments.len() as int);
    StreamConfig {
        coalesce: match coalesce {
            Some(config) => Some(widened(config, alignment)),
            None => None,
        },
        max_alignment: alignment,
        concurrency,
    }
}

impl FileSegmentSource {
    /// Creates a source, and says how its read requests are to be served.
    pub fn open(
        segments: Vec<SegmentSpec>,
        coalesce: Option<CoalesceConfig>,
        concurrency: usize,
    ) -> (r: (FileSegmentSource, StreamConfig))
        requires
            segments_valid(segments@),
            concurrency > 0,
        ensures
            r.0@ == (FileSegmentSourceView { segments: segments@, next_id: 0 }),
            ({
                let alignment = spec_max_alignment(segments@, segments@.len() as int);
                r.1 == (StreamConfig {
                    coalesce: match coalesce {
                        Some(config) => Some(widened(config, alignment)),
                        None => None,
                    },
                    max_alignment: alignment,
                    concurrency,
                })
            }),
            r.1 == stream_config(segments@, coalesce, concurrency),
    {
        let max_alignment: Alignment = max_alignment(&segments);
        let coalesce = match coalesce {
            Some(config) => {
                // Aligning the start of a combined read down can add up to (alignment - 1) bytes.
                let extra: u64 = (max_alignment.as_usize() - 1) as u64;
                Some(
                    CoalesceConfig {
                        distance: config.distance,
                        max_size: config.max_size.saturating_add(extra),
                    },
                )
            },
            None => None,
        };
        (
            FileSegmentSource { segments, next_id: 0 },
            StreamConfig { coalesce, max_alignment, concurrency },
        )
    }

    fn request_at(&mut self, offset: u64, length: usize, alignment: Alignment) -> (r: ReadRequest)
        ensures
            r == (ReadRequest { id: old(self)@.next_id, offset, length, alignment }),
            final(self)@ == old(self)@.after_request(),
    {
        let id: RequestId = self.next_id;
        self.next_id = if id == usize::MAX { 0 } else { id + 1 };
        ReadRequest { id, offset, length, alignment }
    }

    /// Returns the read of a byte range of a segment. It has no alignment beyond that of bytes.
    pub fn request_range(&mut self, id: SegmentId, range: Range<usize>) -> (r: VortexResult<
        ReadRequest,
    >)
        ensures
            r == old(self)@.requested_range(id, range),
            r is Ok ==> final(self)@ == old(self)@.after_request(),
            r is Err ==> final(self)@ == old(self)@,
    {
        let segment: SegmentSpec = match find_segment_range(&self.segments, id, &range) {
            Ok(found) => found,
            Err(e) => return Err(e),
        };
        let range_offset: u64 = match segment.offset.checked_add(range.start as u64) {
            Some(range_offset) => range_offset,
            None => return Err(VortexError::RangeStartOverflow { id: id.0, start: range.start }),
        };
        Ok(self.request_at(range_offset, range.end - range.start, Alignment::none()))
    }

    /// Returns the read of a segment.
    pub fn request(&mut self, id: SegmentId) -> (r: VortexResult<ReadRequest>)
        ensures
            r == old(self)@.requested(id),
            r is Ok ==> final(self)@ == old(self)@.after_request(),
            r is Err ==> final(self)@ == old(self)@,
    {
        let segment: SegmentSpec = match find_segment(&self.segments, id) {
            Ok(found) => found,
            Err(e) => return Err(e),
        };
        Ok(
            self.request_at(
                segment.offset,
                segment.length as usize,
                segment.alignment,
            ),
        )
    }
}

/// A range request reads bytes of the file that the request for the whole segment reads too: as
/// many as the range has, beginning as far into the segment as the range says.
pub proof fn law_range_read_lies_in_segment_read(
    source: FileSegmentSourceView,
    id: SegmentId,
    range: Range<usize>,
)
    requires
        source.requested_range(id, range) is Ok,
    ensures
        ({
            &&& source.requested(id) matches Ok(whole)
            &&& source.requested_range(id, range) matches Ok(part)
            &&& part.offset == whole.offset + range.start
            &&& part.length == range.end - range.start
            &&& part.offset + part.length <= whole.offset + whole.length
        }),
{
}

/// The number of a request after `n` others.
pub open spec fn id_after_requests(source: FileSegmentSourceView, n: nat) -> RequestId
    decreases n,
{
    if n == 0 {
        source.next_id
    } else {
        id_after(id_after_requests(source, (n - 1) as nat))
    }
}

/// No two of a source's requests have the same number, until all numbers were used.
pub proof fn law_request_numbers_differ(source: FileSegmentSourceView, m: nat, n: nat)
    requires
        m < n,
        n - m <= usize::MAX,
    ensures
        id_after_requests(source, m) != id_after_requests(source, n),
{
    lemma_id_distance(source, m, n);
}

proof fn lemma_id_distance(source: FileSegmentSourceView, m: nat, n: nat)
    requires
        m <= n,
        n - m <= usize::MAX,
    ensures
        id_after_requests(source, n) == id_after_requests(source, m) + (n - m)
            || id_after_requests(source, n) == id_after_requests(source, m) + (n - m) - (usize::MAX
            + 1),
    decreases n - m,
{
    if m < n {
        lemma_id_distance(source, m, (n - 1) as nat);
    }
}

/// What is wrong with a read that returned some bytes, if anything is.
pub open spec fn read_length_error(request: ReadRequest, received: usize) -> Option<VortexError> {
    if received == request.length {
        None
    } else {
        Some(VortexError::UnexpectedReadLength { expected: request.length, received })
    }
}

/// Checks that a read returned as many bytes as were asked for.
pub fn check_read_length(request: &ReadRequest, received: usize) -> (r: VortexResult<()>)
    ensures
        received == request.length ==> r is Ok,
        received != request.length ==> r == Err::<(), VortexError>(
            VortexError::UnexpectedReadLength { expected: request.length, received },
        ),
        match read_length_error(*request, received) {
            None => r is Ok,
            Some(e) => r == Err::<(), VortexError>(e),
        },
{
    if received != request.length {
        return Err(VortexError::UnexpectedReadLength { expected: request.length, received });
    }
    Ok(())
}

/// Where a read future stands: whether it was polled without a result, and whether it has one.
#[derive(Debug, Clone, Copy, PartialEq, Eq, Structural)]
pub struct ReadFutureState {
    pub id: RequestId,
    pub polled: bool,
    pub finished: bool,
}

/// What a poll of a read future does.
#[derive(Debug, Clone, Copy, PartialEq, Eq, Structural)]
pub enum PollAction {
    /// Hand out the result.
    Resolve,
    /// Report the event, and wait.
    Notify(ReadEvent),
    /// Wait.
    Wait,
}

impl ReadFutureState {
    /// The state of a future for a new request.
    pub open spec fn spec_new(id: RequestId) -> ReadFutureState {
        ReadFutureState { id, polled: false, finished: false }
    }

    /// The state after a poll, and what the poll does. If the result is there at the first poll,
    /// no event is reported: the read was then served together with another.
    pub open spec fn polled_with(self, ready: bool) -> (ReadFutureState, PollAction) {
        if ready {
            (ReadFutureState { finished: true, ..self }, PollAction::Resolve)
        } else if !self.polled {
            (
                ReadFutureState { polled: true, ..self },
                PollAction::Notify(ReadEvent::Polled(self.id)),
            )
        } else {
            (self, PollAction::Wait)
        }
    }

    /// The event that dropping the future reports: none once it has its result.
    pub open spec fn dropped(self) -> Option<ReadEvent> {
        if self.finished {
            None
        } else {
            Some(ReadEvent::Dropped(self.id))
        }
    }

    /// Returns the state of a future for a new request.
    pub fn new(id: RequestId) -> (r: Self)
        ensures
            r == ReadFutureState::spec_new(id),
    {
        ReadFutureState { id, polled: false, finished: false }
    }

    /// Takes note of a poll, where `ready` says whether the result is there.
    pub fn poll(&mut self, ready: bool) -> (r: PollAction)
        ensures
            (*final(self), r) == old(self).polled_with(ready),
    {
        if ready {
            self.finished = true;
            PollAction::Resolve
        } else if !self.polled {
            self.polled = true;
            PollAction::Notify(ReadEvent::Polled(self.id))
        } else {
            PollAction::Wait
        }
    }

    /// Returns the event to report when the future is dropped.
    pub fn drop_event(&self) -> (r: Option<ReadEvent>)
        ensures
            r == self.dropped(),
    {
        if self.finished {
            return None;
        }
        Some(ReadEvent::Dropped(self.id))
    }
}

/// The state of a new future after some polls.
pub open spec fn state_after(id: RequestId, polls: Seq<bool>) -> ReadFutureState
    decreases polls.len(),
{
    if polls.len() == 0 {
        ReadFutureState::spec_new(id)
    } else {
        state_after(id, polls.drop_last()).polled_with(polls.last()).0
    }
}

/// What poll number `k` of a new future does.
pub open spec fn action_at(id: RequestId, polls: Seq<bool>, k: int) -> PollAction {
    state_after(id, polls.take(k)).polled_with(polls[k]).1
}

proof fn lemma_state_after(id: RequestId, polls: Seq<bool>)
    ensures
        state_after(id, polls).id == id,
        state_after(id, polls).finished == polls.contains(true),
        state_after(id, polls).polled == polls.contains(false),
    decreases polls.len(),
{
    if polls.len() > 0 {
        let before = polls.drop_last();
        lemma_state_after(id, before);
        let last = polls.last();
        assert(polls[polls.len() - 1] == last);
        assert(polls.contains(last));
        assert forall|b: bool| before.contains(b) implies polls.contains(b) by {
            let k = choose|k: int| 0 <= k < before.len() && before[k] == b;
            assert(polls[k] == b);
        }
        assert forall|b: bool| polls.contains(b) && b != last implies before.contains(b) by {
            let k = choose|k: int| 0 <= k < polls.len() && polls[k] == b;
            assert(before[k] == b);
        }
    }
}

/// A read future reports that it is waited for once at most: at its first poll without a result.
pub proof fn law_polled_is_reported_once(id: RequestId, polls: Seq<bool>, j: int, k: int)
    requires
        0 <= j < polls.len(),
        0 <= k < polls.len(),
        action_at(id, polls, j) is Notify,
        action_at(id, polls, k) is Notify,
    ensures
        j == k,
        action_at(id, polls, j) == PollAction::Notify(ReadEvent::Polled(id)),
{
    lemma_state_after(id, polls.take(j));
    lemma_state_after(id, polls.take(k));
    if j < k {
        assert(polls.take(k)[j] == polls[j]);
        assert(polls.take(k).contains(false));
    } else if k < j {
        assert(polls.take(j)[k] == polls[k]);
        assert(polls.take(j).contains(false));
    }
}

/// A read future that is dropped asks for its read to be canceled exactly if it never had a
/// result.
pub proof fn law_only_unfinished_reads_are_canceled(id: RequestId, polls: Seq<bool>)
    ensures
        state_after(id, polls).dropped() == (if polls.contains(true) {
            None
        } else {
            Some(ReadEvent::Dropped(id))
        }),
{
    lemma_state_after(id, polls);
}

/// A number stands for the segment at that place; a number past the last segment is refused. Of a
/// range of a segment it is refused too, and so is a range that ends before it starts or past the
/// end of the segment.
pub proof fn law_segments_are_found_by_number(
    segments: Seq<SegmentSpec>,
    id: SegmentId,
    range: Range<usize>,
)
    ensures
        id.0 < segments.len() ==> spec_segment(segments, id) == Ok::<SegmentSpec, VortexError>(
            segments[id.0 as int],
        ),
        id.0 >= segments.len() ==> spec_segment(segments, id) == Err::<SegmentSpec, VortexError>(
            VortexError::MissingSegment { id: id.0 },
        ) && spec_segment_range(segments, id, range) == spec_segment(segments, id),
        id.0 < segments.len() && range.start <= range.end && range.end
            <= segments[id.0 as int].length ==> spec_segment_range(segments, id, range) == Ok::<
            SegmentSpec,
            VortexError,
        >(segments[id.0 as int]),
        id.0 < segments.len() && (range.start > range.end || range.end
            > segments[id.0 as int].length) ==> spec_segment_range(segments, id, range) == Err::<
            SegmentSpec,
            VortexError,
        >(
            VortexError::SegmentRangeOutOfBounds {
                id: id.0,
                start: range.start,
                end: range.end,
                segment_len: segments[id.0 as int].length as usize,
            },
        ),
{
}

/// A segment in memory consists of the bytes of the buffer from its offset on, as many as its
/// length says, with its alignment. It is refused if the buffer ends before it does.
pub proof fn law_request_gives_the_segment(
    source: BufferSegmentSourceView,
    id: SegmentId,
    spec: SegmentSpec,
)
    requires
        source.can_be_requested(id),
        id.0 < source.segments.len(),
        source.segments[id.0 as int] == spec,
    ensures
        source.requested(id) is Ok <==> spec.offset + spec.length <= source.bytes.len(),
        source.requested(id) matches Ok(reply) ==> {
            &&& reply.bytes.len() == spec.length
            &&& forall|k: int|
                0 <= k < spec.length ==> #[trigger] reply.bytes[k] == source.bytes[spec.offset + k]
            &&& reply.alignment == spec.alignment
        },
        source.requested(id) matches Err(e) ==> e == (VortexError::BufferRangeOutOfBounds {
            id: id.0,
            start: spec.offset as usize,
            end: (spec.offset + spec.length) as usize,
            buffer_len: source.bytes.len() as usize,
        }),
{
}

/// A range of a segment in memory consists of the bytes of the buffer from the offset of the
/// segment and the start of the range on, as many as the range has, without any alignment. It is
/// refused where a position does not fit in a `usize`, or the buffer ends before the range.
pub proof fn law_range_request_gives_the_range(
    source: BufferSegmentSourceView,
    id: SegmentId,
    range: Range<usize>,
    spec: SegmentSpec,
)
    requires
        id.0 < source.segments.len(),
        source.segments[id.0 as int] == spec,
        range.start <= range.end <= spec.length,
        source.bytes.len() <= usize::MAX,
    ensures
        ({
            let reply = source.requested_range(id, range);
            &&& reply is Ok <==> spec.offset + range.end <= source.bytes.len()
            &&& reply matches Ok(part) ==> {
                &&& part.bytes.len() == range.end - range.start
                &&& forall|k: int|
                    0 <= k < part.bytes.len() ==> #[trigger] part.bytes[k]
                        == source.bytes[spec.offset + range.start + k]
                &&& part.alignment.exponent == 0
            }
            &&& spec.offset + range.start > usize::MAX <==> reply == Err::<BufferView, VortexError>(
                VortexError::RangeStartOverflow { id: id.0, start: range.start },
            )
            &&& spec.offset + range.start <= usize::MAX && spec.offset + range.end > usize::MAX
                <==> reply == Err::<BufferView, VortexError>(
                VortexError::RangeEndOverflow { id: id.0, end: range.end },
            )
            &&& spec.offset + range.end <= usize::MAX && spec.offset + range.end
                > source.bytes.len() ==> reply == Err::<BufferView, VortexError>(
                VortexError::BufferRangeOutOfBounds {
                    id: id.0,
                    start: (spec.offset + range.start) as usize,
                    end: (spec.offset + range.end) as usize,
                    buffer_len: source.bytes.len() as usize,
                },
            )
        }),
{
}

/// Requests that name no segment, or a range that the segment does not have, are refused.
pub proof fn law_requests_for_nothing_are_refused(
    memory: BufferSegmentSourceView,
    file: FileSegmentSourceView,
    id: SegmentId,
    range: Range<usize>,
)
    requires
        memory.segments == file.segments,
    ensures
        id.0 >= memory.segments.len() ==> {
            &&& memory.requested(id) == Err::<BufferView, VortexError>(
                VortexError::MissingSegment { id: id.0 },
            )
            &&& memory.requested_range(id, range) == Err::<BufferView, VortexError>(
                VortexError::MissingSegment { id: id.0 },
            )
            &&& file.requested(id) == Err::<ReadRequest, VortexError>(
                VortexError::MissingSegment { id: id.0 },
            )
            &&& file.requested_range(id, range) == Err::<ReadRequest, VortexError>(
                VortexError::MissingSegment { id: id.0 },
            )
            &&& memory.can_be_requested(id)
        },
        id.0 < memory.segments.len() && (range.start > range.end || range.end
            > memory.segments[id.0 as int].length) ==> {
            let error = VortexError::SegmentRangeOutOfBounds {
                id: id.0,
                start: range.start,
                end: range.end,
                segment_len: memory.segments[id.0 as int].length as usize,
            };
            &&& memory.requested_range(id, range) == Err::<BufferView, VortexError>(error)
            &&& file.requested_range(id, range) == Err::<ReadRequest, VortexError>(error)
        },
{
}

/// A segment can be requested from memory if its end fits in a `usize` and, where the buffer holds
/// it, it can be given its alignment.
pub proof fn law_which_segments_can_be_requested(
    source: BufferSegmentSourceView,
    id: SegmentId,
    spec: SegmentSpec,
)
    requires
        id.0 < source.segments.len(),
        source.segments[id.0 as int] == spec,
    ensures
        spec.offset + spec.length > usize::MAX ==> !source.can_be_requested(id),
        source.bytes.len() < spec.offset + spec.length <= usize::MAX ==> source.can_be_requested(
            id,
        ),
        spec.offset + spec.length <= usize::MAX && spec.offset + spec.length <= source.bytes.len()
            ==> (source.can_be_requested(id) <==> spec.alignment.exponent < usize::BITS
            && spec.alignment.can_hold(spec.length as nat)),
{
}

/// Slicing bytes gives those between the bounds, one after another, without any alignment.
pub proof fn law_parts_are_slices(bytes: Seq<u8>, range: Range<usize>, k: int)
    requires
        range.start <= range.end <= bytes.len(),
        0 <= k < range.end - range.start,
    ensures
        unaligned_part(bytes, range).bytes.len() == range.end - range.start,
        unaligned_part(bytes, range).bytes[k] == bytes[range.start + k],
        unaligned_part(bytes, range).alignment.exponent == 0,
{
}

/// What a source answers with is what is looked at: the bytes and the alignment of the buffer, or
/// the error.
pub proof fn law_replies_are_seen_as_they_are(r: VortexResult<ByteBuffer>)
    ensures
        r matches Err(e) ==> reply_view(r) == Err::<BufferView, VortexError>(e),
        r matches Ok(buffer) ==> {
            &&& reply_view(r) matches Ok(view)
            &&& view.bytes == buffer_bytes(buffer)
            &&& view.alignment.exponent == buffer_alignment(buffer)
        },
{
}

/// The read of a segment of a file takes its bytes, with its alignment and the next number; the
/// read of a range of it takes the bytes of the range, without any alignment. Each read is followed
/// by one with the next number.
pub proof fn law_file_reads_are_those_of_the_segment(
    source: FileSegmentSourceView,
    id: SegmentId,
    range: Range<usize>,
    spec: SegmentSpec,
)
    requires
        id.0 < source.segments.len(),
        source.segments[id.0 as int] == spec,
    ensures
        source.requested(id) matches Ok(read) && read.id == source.next_id && read.offset
            == spec.offset && read.length == spec.length && read.alignment == spec.alignment,
        range.start <= range.end <= spec.length && spec.offset + range.start <= u64::MAX ==> {
            &&& source.requested_range(id, range) matches Ok(read)
            &&& read.id == source.next_id
            &&& read.offset == spec.offset + range.start
            &&& read.length == range.end - range.start
            &&& read.alignment.exponent == 0
        },
        range.start <= range.end <= spec.length && spec.offset + range.start > u64::MAX
            ==> source.requested_range(id, range) == Err::<ReadRequest, VortexError>(
            VortexError::RangeStartOverflow { id: id.0, start: range.start },
        ),
        source.after_request().segments == source.segments,
        source.next_id < usize::MAX ==> source.after_request().next_id == source.next_id + 1,
        source.next_id == usize::MAX ==> source.after_request().next_id == 0,
{
}

/// The largest alignment is that of one of the segments, and no segment has a larger one; without
/// segments it is that of bytes.
pub proof fn law_largest_alignment(segments: Seq<SegmentSpec>, n: int)
    requires
        0 <= n <= segments.len(),
    ensures
        forall|i: int|
            0 <= i < n ==> (#[trigger] segments[i]).alignment.exponent <= spec_max_alignment(
                segments,
                n,
            ).exponent,
        spec_max_alignment(segments, n).exponent == 0 || exists|i: int|
            0 <= i < n && (#[trigger] segments[i]).alignment == spec_max_alignment(segments, n),
    decreases n,
{
    if n > 0 {
        law_largest_alignment(segments, n - 1);
        let before = spec_max_alignment(segments, n - 1);
        if segments[n - 1].alignment.exponent <= before.exponent && before.exponent != 0 {
            let i = choose|i: int|
                0 <= i < n - 1 && (#[trigger] segments[i]).alignment == before;
            assert(segments[i].alignment == spec_max_alignment(segments, n));
        }
    }
}

/// Reads that are read together may span as many bytes more as aligning their start down can add,
/// up to the largest number; how far apart they may lie does not change.
pub proof fn law_limits_leave_room_for_alignment(config: CoalesceConfig, alignment: Alignment)
    requires
        alignment.valid(),
    ensures
        ({
            let limits = widened(config, alignment);
            &&& limits.distance == config.distance
            &&& limits.max_size == u64::MAX || limits.max_size + 1 == config.max_size
                + alignment.bytes()
            &&& limits.max_size == u64::MAX ==> config.max_size + alignment.bytes() > u64::MAX
            &&& alignment.exponent == 0 ==> limits == config
        }),
{
    lemma_pow2_pos(alignment.exponent as nat);
    lemma2_to64();
}

/// A poll hands out the result if it is there, and then the future is finished. Without a result
/// the first poll reports that it is waited for, and later ones do nothing. The number of the
/// request never changes.
pub proof fn law_polls_wait_for_the_result(state: ReadFutureState, ready: bool)
    ensures
        ({
            let (after, action) = state.polled_with(ready);
            &&& after.id == state.id
            &&& action is Resolve <==> ready
            &&& after.finished <==> state.finished || ready
            &&& after.polled <==> state.polled || !ready
            &&& action is Notify <==> !ready && !state.polled
            &&& action is Notify ==> action == PollAction::Notify(ReadEvent::Polled(state.id))
            &&& action is Wait <==> !ready && state.polled
        }),
        state.dropped() is None <==> state.finished,
        state.dropped() matches Some(event) ==> event == ReadEvent::Dropped(state.id),
        forall|id: RequestId| (#[trigger] ReadFutureState::spec_new(id)).id == id
            && !ReadFutureState::spec_new(id).polled && !ReadFutureState::spec_new(id).finished,
{
}

/// A segment that is made from a number has that number.
pub proof fn law_segment_numbers_are_kept(id: u32)
    ensures
        <SegmentId as vstd::std_specs::convert::FromSpec<u32>>::from_spec(id).0 == id,
{
}

/// Slicing a segment that was read as a whole gives what a source in memory answers that holds just
/// this segment.
pub proof fn law_slicing_is_a_range_request(bytes: Seq<u8>, id: SegmentId, range: Range<usize>)
    requires
        bytes.len() <= u32::MAX,
        bytes.len() <= usize::MAX,
    ensures
        ({
            let spec = SegmentSpec {
                offset: 0,
                length: bytes.len() as u32,
                alignment: Alignment::spec_none(),
            };
            let source = BufferSegmentSourceView {
                bytes,
                segments: Seq::new((id.0 + 1) as nat, |i: int| spec),
            };
            spec_slice_segment(bytes, id, range) == source.requested_range(id, range)
        }),
        spec_slice_segment(bytes, id, range) is Ok <==> range.start <= range.end && range.end
            <= bytes.len(),
        spec_slice_segment(bytes, id, range) matches Ok(part) ==> {
            &&& part.bytes.len() == range.end - range.start
            &&& forall|k: int|
                0 <= k < part.bytes.len() ==> #[trigger] part.bytes[k] == bytes[range.start + k]
        },
{
}

/// Requests are served with the concurrency that was asked for, and with the largest alignment of
/// the segments. They are read together only if that was asked for, no farther apart than was
/// asked for, and with room for aligning the start of a read down.
pub proof fn law_requests_are_served_as_asked(
    segments: Seq<SegmentSpec>,
    coalesce: Option<CoalesceConfig>,
    concurrency: usize,
)
    requires
        segments_valid(segments),
    ensures
        ({
            let config = stream_config(segments, coalesce, concurrency);
            &&& config.concurrency == concurrency
            &&& forall|i: int|
                0 <= i < segments.len() ==> (#[trigger] segments[i]).alignment.exponent
                    <= config.max_alignment.exponent
            &&& config.max_alignment.exponent == 0 || exists|i: int|
                0 <= i < segments.len() && (#[trigger] segments[i]).alignment
                    == config.max_alignment
            &&& coalesce is None <==> config.coalesce is None
            &&& coalesce matches Some(limits) ==> {
                let widened_limits = config.coalesce->0;
                &&& widened_limits.distance == limits.distance
                &&& widened_limits.max_size == u64::MAX || widened_limits.max_size + 1
                    == limits.max_size + config.max_alignment.bytes()
                &&& widened_limits.max_size >= limits.max_size
            }
        }),
{
    law_largest_alignment(segments, segments.len() as int);
    let alignment = spec_max_alignment(segments, segments.len() as int);
    lemma_pow2_pos(alignment.exponent as nat);
}

/// A read is right exactly if it returned as many bytes as were asked for; else both numbers are
/// reported.
pub proof fn law_reads_return_what_was_asked_for(request: ReadRequest, received: usize)
    ensures
        read_length_error(request, request.length) is None,
        received != request.length ==> {
            &&& read_length_error(request, received) matches Some(
                VortexError::UnexpectedReadLength { expected, received: found },
            )
            &&& expected == request.length
            &&& found == received
        },
{
}

} // verus!
