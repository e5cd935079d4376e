//! Segments in buffers and in files.

use vortex_buffer::ByteBuffer;
use vortex_range_read::alignment::Alignment;
use vortex_range_read::error::VortexError;
use vortex_range_read::segments::{
    check_read_length, slice_segment, BufferSegmentSource, CoalesceConfig, FileSegmentSource,
    PollAction, ReadEvent, ReadFutureState, ReadRequest, SegmentId, SegmentSpec, StreamConfig,
};

fn spec(offset: u64, length: u32, exponent: u8) -> SegmentSpec {
    SegmentSpec { offset, length, alignment: Alignment::from_exponent(exponent) }
}

#[test]
fn buffer_segment_requests_handle_stronger_backing_alignment_zero_copy() {
    let buffer = ByteBuffer::copy_from_aligned(
        [0, 1, 2, 3, 4, 5, 6, 7],
        vortex_buffer::Alignment::new(8),
    );
    let expected_ptr = buffer.as_ptr().wrapping_add(4);
    let source = BufferSegmentSource::new(buffer, vec![spec(4, 4, 2)]);
    let id = SegmentId::from(0);

    let result = source.request_range(id, 0..4).expect("expected host buffer");
    assert_eq!(result.as_slice(), &[4, 5, 6, 7]);
    assert_eq!(result.alignment(), vortex_buffer::Alignment::none());
    assert_eq!(result.as_ptr(), expected_ptr);

    let result = source.request(id).expect("expected host buffer");
    assert_eq!(result.as_slice(), &[4, 5, 6, 7]);
    assert_eq!(result.alignment(), vortex_buffer::Alignment::new(4));
    assert_eq!(result.as_ptr(), expected_ptr);
}

#[test]
fn default_range_request_is_unaligned_zero_copy() {
    let buffer = ByteBuffer::copy_from_aligned(
        [0, 1, 2, 3, 4, 5, 6, 7],
        vortex_buffer::Alignment::new(8),
    );
    let expected_ptr = buffer.as_ptr().wrapping_add(4);

    let result = slice_segment(&buffer, SegmentId::from(0), 4..8).expect("expected host buffer");
    assert_eq!(result.as_slice(), &[4, 5, 6, 7]);
    assert_eq!(result.alignment(), vortex_buffer::Alignment::none());
    assert_eq!(result.as_ptr(), expected_ptr);
}

#[test]
fn a_slice_outside_its_segment_is_refused() {
    let buffer = ByteBuffer::copy_from([0u8, 1, 2, 3]);
    assert_eq!(
        slice_segment(&buffer, SegmentId::from(3), 1..5).map(|_| ()),
        Err(VortexError::SegmentRangeOutOfBounds { id: 3, start: 1, end: 5, segment_len: 4 })
    );
    assert_eq!(
        slice_segment(&buffer, SegmentId::from(3), 3..2).map(|_| ()),
        Err(VortexError::SegmentRangeOutOfBounds { id: 3, start: 3, end: 2, segment_len: 4 })
    );
}

#[test]
fn a_range_of_a_segment_is_part_of_it() {
    let bytes: Vec<u8> = (0..32).collect();
    let source = BufferSegmentSource::new(ByteBuffer::copy_from(&bytes), vec![spec(5, 20, 0)]);
    let id = SegmentId::from(0);
    let whole = source.request(id).expect("the segment is there");
    for start in 0..=20 {
        for end in start..=20 {
            let part = source.request_range(id, start..end).expect("the range is there");
            assert_eq!(part.as_slice(), &whole.as_slice()[start..end]);
        }
    }
}

#[test]
fn buffer_requests_report_their_errors() {
    let source = BufferSegmentSource::new(
        ByteBuffer::copy_from([0u8; 16]),
        vec![spec(4, 8, 0), spec(12, 8, 0), spec(u64::MAX, 8, 0), spec(u64::MAX - 2, 8, 0)],
    );
    let range = |id, range| source.request_range(SegmentId::from(id), range).map(|_| ());
    assert_eq!(range(9, 0..1), Err(VortexError::MissingSegment { id: 9 }));
    assert_eq!(
        range(0, 0..9),
        Err(VortexError::SegmentRangeOutOfBounds { id: 0, start: 0, end: 9, segment_len: 8 })
    );
    assert_eq!(
        range(1, 0..8),
        Err(VortexError::BufferRangeOutOfBounds { id: 1, start: 12, end: 20, buffer_len: 16 })
    );
    assert_eq!(range(2, 1..2), Err(VortexError::RangeStartOverflow { id: 2, start: 1 }));
    assert_eq!(range(3, 1..4), Err(VortexError::RangeEndOverflow { id: 3, end: 4 }));
    let whole = |id| source.request(SegmentId::from(id)).map(|_| ());
    assert_eq!(whole(9), Err(VortexError::MissingSegment { id: 9 }));
    assert_eq!(
        whole(1),
        Err(VortexError::BufferRangeOutOfBounds { id: 1, start: 12, end: 20, buffer_len: 16 })
    );
    assert_eq!(whole(0), Ok(()));
}

#[test]
fn a_segment_outside_the_buffer_needs_no_alignment() {
    let source = BufferSegmentSource::new(
        ByteBuffer::copy_from([0u8; 16]),
        vec![spec(12, 8, 63), spec(4, 8, 63), spec(4, 0, 63), spec(u64::MAX - 2, 8, 0)],
    );
    assert!(source.can_request(SegmentId::from(0)));
    assert_eq!(
        source.request(SegmentId::from(0)).map(|_| ()),
        Err(VortexError::BufferRangeOutOfBounds { id: 0, start: 12, end: 20, buffer_len: 16 })
    );
    assert!(!source.can_request(SegmentId::from(1)));
    assert!(source.can_request(SegmentId::from(2)));
    assert!(!source.can_request(SegmentId::from(3)));
    assert!(source.can_request(SegmentId::from(9)));
}

#[test]
fn an_unaligned_segment_is_copied_to_its_alignment() {
    let buffer = ByteBuffer::copy_from_aligned(
        [9u8, 1, 2, 3, 4, 5, 6, 7, 8],
        vortex_buffer::Alignment::new(16),
    );
    let source = BufferSegmentSource::new(buffer, vec![spec(1, 8, 3)]);
    let result = source.request(SegmentId::from(0)).expect("the segment is there");
    assert_eq!(result.as_slice(), &[1, 2, 3, 4, 5, 6, 7, 8]);
    assert!(result.is_aligned(vortex_buffer::Alignment::new(8)));
    assert_eq!(result.alignment(), vortex_buffer::Alignment::new(8));
}

#[test]
fn file_requests_are_numbered_and_lie_in_their_segments() {
    let (mut source, config) = FileSegmentSource::open(
        vec![spec(100, 50, 3), spec(200, 60, 8), spec(u64::MAX, 10, 0)],
        Some(CoalesceConfig { distance: 10, max_size: 1000 }),
        4,
    );
    assert_eq!(
        config,
        StreamConfig {
            coalesce: Some(CoalesceConfig { distance: 10, max_size: 1255 }),
            max_alignment: Alignment::from_exponent(8),
            concurrency: 4,
        }
    );
    assert_eq!(
        source.request(SegmentId::from(0)),
        Ok(ReadRequest {
            id: 0,
            offset: 100,
            length: 50,
            alignment: Alignment::from_exponent(3)
        })
    );
    assert_eq!(
        source.request(SegmentId::from(7)),
        Err(VortexError::MissingSegment { id: 7 })
    );
    assert_eq!(
        source.request_range(SegmentId::from(1), 20..30),
        Ok(ReadRequest { id: 1, offset: 220, length: 10, alignment: Alignment::none() })
    );
    assert_eq!(
        source.request_range(SegmentId::from(1), 20..61),
        Err(VortexError::SegmentRangeOutOfBounds { id: 1, start: 20, end: 61, segment_len: 60 })
    );
    assert_eq!(
        source.request_range(SegmentId::from(2), 1..2),
        Err(VortexError::RangeStartOverflow { id: 2, start: 1 })
    );
    assert_eq!(source.request(SegmentId::from(1)).map(|request| request.id), Ok(2));
}

#[test]
fn coalescing_limits_saturate() {
    let config = CoalesceConfig { distance: 1, max_size: u64::MAX - 3 };
    let (_, stream) = FileSegmentSource::open(vec![spec(0, 1, 4)], Some(config), 1);
    assert_eq!(stream.coalesce.map(|config| config.max_size), Some(u64::MAX));
    let (_, stream) = FileSegmentSource::open(vec![], Some(config), 1);
    assert_eq!(stream.coalesce, Some(config));
    assert_eq!(stream.max_alignment, Alignment::none());
    let (_, stream) = FileSegmentSource::open(vec![], None, 1);
    assert_eq!(stream.coalesce, None);
}

#[test]
fn reads_of_another_length_are_refused() {
    let request = ReadRequest { id: 0, offset: 0, length: 8, alignment: Alignment::none() };
    assert_eq!(check_read_length(&request, 8), Ok(()));
    assert_eq!(
        check_read_length(&request, 7),
        Err(VortexError::UnexpectedReadLength { expected: 8, received: 7 })
    );
}

#[test]
fn a_waiting_read_is_reported_once_and_canceled_when_dropped() {
    let mut state = ReadFutureState::new(3);
    assert_eq!(state.drop_event(), Some(ReadEvent::Dropped(3)));
    assert_eq!(state.poll(false), PollAction::Notify(ReadEvent::Polled(3)));
    assert_eq!(state.poll(false), PollAction::Wait);
    assert_eq!(state.poll(false), PollAction::Wait);
    assert_eq!(state.drop_event(), Some(ReadEvent::Dropped(3)));
    assert_eq!(state.poll(true), PollAction::Resolve);
    assert_eq!(state.drop_event(), None);
}

#[test]
fn a_read_that_is_there_at_once_reports_nothing() {
    let mut state = ReadFutureState::new(5);
    assert_eq!(state.poll(true), PollAction::Resolve);
    assert_eq!(state.drop_event(), None);
}
