//! Writing in chunks.

use std::num::NonZeroUsize;

use vortex_range_read::chunked::{
    finish_chunks, ChunkedLayoutStrategy, Layout, LayoutStrategy,
};
use vortex_range_read::dtype::{DType, Nullability};
use vortex_range_read::segments::SegmentId;

#[derive(Default)]
struct FlatLayoutStrategy {
    held_back: u64,
}

impl LayoutStrategy for FlatLayoutStrategy {
    fn buffered_bytes(&self) -> u64 {
        self.held_back
    }
}

#[test]
fn configures_max_concurrent_children() {
    let strategy = ChunkedLayoutStrategy::new(FlatLayoutStrategy::default());
    assert_eq!(strategy.max_concurrent_children, NonZeroUsize::MAX.get());

    let max_concurrent_children = NonZeroUsize::new(8).expect("eight is non-zero");
    let strategy = strategy.with_max_concurrent_children(max_concurrent_children.get());
    assert_eq!(strategy.max_concurrent_children, max_concurrent_children.get());
}

#[test]
fn buffered_bytes_are_those_of_the_chunk_strategy() {
    let strategy = ChunkedLayoutStrategy::new(FlatLayoutStrategy { held_back: 77 });
    assert_eq!(strategy.buffered_bytes(), 77);
    assert_eq!(strategy.clone().chunk_strategy.held_back, 77);
}

fn flat(row_count: u64, segment: u32) -> Layout {
    Layout::Flat {
        row_count,
        dtype: DType::Bool(Nullability::NonNullable),
        segment_id: SegmentId::from(segment),
    }
}

#[test]
fn a_single_chunk_stands_for_itself() {
    let layout = finish_chunks(DType::Bool(Nullability::NonNullable), vec![flat(10, 4)]);
    assert!(matches!(layout, Layout::Flat { row_count: 10, segment_id: SegmentId(4), .. }));
}

#[test]
fn several_chunks_keep_their_order_and_their_rows() {
    let layout = finish_chunks(
        DType::Bool(Nullability::NonNullable),
        vec![flat(10, 4), flat(0, 5), flat(32, 6)],
    );
    assert_eq!(layout.row_count(), 42);
    let Layout::Chunked(chunked) = layout else { panic!("expected chunks") };
    let rows: Vec<u64> = chunked.children.iter().map(Layout::row_count).collect();
    assert_eq!(rows, vec![10, 0, 32]);

    let empty = finish_chunks(DType::Bool(Nullability::NonNullable), vec![]);
    assert_eq!(empty.row_count(), 0);
    assert!(matches!(empty, Layout::Chunked(_)));
}
