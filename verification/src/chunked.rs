//! Writing an array as a sequence of chunks.

use crate::dtype::DType;
use crate::segments::SegmentId;
use std::sync::Arc;
use vstd::prelude::*;

verus! {

/// How an array is written. Applications add strategies of their own by implementing this trait.
pub trait LayoutStrategy {
    /// The number of bytes that the strategy holds back; none, unless it says otherwise.
    open spec fn spec_buffered_bytes(&self) -> u64 {
        0
    }

    /// Returns the number of bytes that the strategy holds back.
    fn buffered_bytes(&self) -> (r: u64)
        ensures
            r == self.spec_buffered_bytes(),
    ;
}

/// Writes each chunk with a strategy of its own.
pub struct ChunkedLayoutStrategy<S: LayoutStrategy> {
    /// The layout strategy for each chunk.
    pub chunk_strategy: Arc<S>,
    /// The maximum number of child layouts processed concurrently.
    pub max_concurrent_children: usize,
}

impl<S: LayoutStrategy> Clone for ChunkedLayoutStrategy<S> {
    fn clone(&self) -> (r: Self)
        ensures
            r == *self,
    {
        ChunkedLayoutStrategy {
            chunk_strategy: self.chunk_strategy.clone(),
            max_concurrent_children: self.max_concurrent_children,
        }
    }
}

impl<S: LayoutStrategy> ChunkedLayoutStrategy<S> {
    /// Whether at least one chunk can be written at a time.
    pub open spec fn well_formed(self) -> bool {
        self.max_concurrent_children > 0
    }

    /// Returns a strategy that writes any number of chunks at the same time.
    pub fn new(chunk_strategy: S) -> (r: Self)
        ensures
            *r.chunk_strategy == chunk_strategy,
            r.max_concurrent_children == usize::MAX,
            r.well_formed(),
    {
        ChunkedLayoutStrategy {
            chunk_strategy: Arc::new(chunk_strategy),
            max_concurrent_children: usize::MAX,
        }
    }

    /// Sets the maximum number of child layouts processed concurrently.
    ///
    /// Limiting concurrency bounds the number of in-flight chunks, but callers must ensure the
    /// child strategy does not require later chunks to make progress while writing to EOF.
    pub fn with_max_concurrent_children(self, max_concurrent_children: usize) -> (r: Self)
        requires
            max_concurrent_children > 0,
        ensures
            *r.chunk_strategy == *self.chunk_strategy,
            r.max_concurrent_children == max_concurrent_children,
            r.well_formed(),
    {
        ChunkedLayoutStrategy { chunk_strategy: self.chunk_strategy, max_concurrent_children }
    }
}

impl<S: LayoutStrategy> LayoutStrategy for ChunkedLayoutStrategy<S> {
    open spec fn spec_buffered_bytes(&self) -> u64 {
        self.chunk_strategy.spec_buffered_bytes()
    }

    fn buffered_bytes(&self) -> (r: u64) {
        self.chunk_strategy.buffered_bytes()
    }
}

/// How an array was written.
#[derive(Debug)]
pub enum Layout {
    /// In a single segment.
    Flat { row_count: u64, dtype: DType, segment_id: SegmentId },
    /// In chunks, one after another.
    Chunked(ChunkedLayout),
}

/// The layouts of the chunks of an array.
#[derive(Debug)]
pub struct ChunkedLayout {
    pub row_count: u64,
    pub dtype: DType,
    pub children: Vec<Layout>,
}

impl Layout {
    /// The number of rows.
    pub open spec fn spec_row_count(self) -> u64 {
        match self {
            Layout::Flat { row_count, .. } => row_count,
            Layout::Chunked(layout) => layout.row_count,
        }
    }

    /// Returns the number of rows.
    pub fn row_count(&self) -> (r: u64)
        ensures
            r == self.spec_row_count(),
    {
        match self {
            Layout::Flat { row_count, .. } => *row_count,
            Layout::Chunked(layout) => layout.row_count,
        }
    }
}

/// The number of rows of the first `n` layouts.
pub open spec fn total_rows(layouts: Seq<Layout>, n: int) -> nat
    decreases n,
{
    if n <= 0 {
        0
    } else {
        total_rows(layouts, n - 1) + layouts[n - 1].spec_row_count() as nat
    }
}

proof fn lemma_total_rows_monotonic(layouts: Seq<Layout>, m: int, n: int)
    requires
        m <= n,
    ensures
        total_rows(layouts, m) <= total_rows(layouts, n),
    decreases n - m,
{
    if m < n {
        lemma_total_rows_monotonic(layouts, m, n - 1);
    }
}

/// The layout of an array whose chunks were written: a single chunk stands for itself, others
/// become the children of a chunked layout that has the rows of all of them.
pub open spec fn chunked_layout(dtype: DType, child_layouts: Vec<Layout>) -> Layout {
    if child_layouts@.len() == 1 {
        child_layouts@[0]
    } else {
        Layout::Chunked(
            ChunkedLayout {
                row_count: total_rows(child_layouts@, child_layouts@.len() as int) as u64,
                dtype,
                children: child_layouts,
            },
        )
    }
}

/// Returns the layout of an array whose chunks were written.
pub fn finish_chunks(dtype: DType, child_layouts: Vec<Layout>) -> (r: Layout)
    requires
        child_layouts@.len() != 1 ==> total_rows(child_layouts@, child_layouts@.len() as int)
            <= u64::MAX,
    ensures
        r == chunked_layout(dtype, child_layouts),
        child_layouts@.len() == 1 ==> r == child_layouts@[0],
        child_layouts@.len() != 1 ==> {
            &&& r matches Layout::Chunked(layout)
            &&& layout.row_count == total_rows(child_layouts@, child_layouts@.len() as int)
            &&& layout.dtype == dtype
            &&& layout.children@ == child_layouts@
        },
{
    let mut child_layouts = child_layouts;
    if child_layouts.len() == 1 {
        if let Some(layout) = child_layouts.pop() {
            return layout;
        }
    }
    let ghost layouts = child_layouts@;
    let mut row_count: u64 = 0;
    let mut i: usize = 0;
    while i < child_layouts.len()
        invariant
            i <= child_layouts@.len(),
            layouts == child_layouts@,
            row_count == total_rows(layouts, i as int),
            total_rows(layouts, layouts.len() as int) <= u64::MAX,
        decreases child_layouts@.len() - i,
    {
        proof {
            lemma_total_rows_monotonic(layouts, i + 1, layouts.len() as int);
        }
        row_count = row_count + child_layouts[i].row_count();
        i = i + 1;
    }
    Layout::Chunked(ChunkedLayout { row_count, dtype, children: child_layouts })
}

/// Splitting rows into chunks keeps their number: the layout of some chunks has as many rows as
/// the chunks have together.
pub proof fn law_chunks_keep_rows(dtype: DType, child_layouts: Vec<Layout>)
    requires
        total_rows(child_layouts@, child_layouts@.len() as int) <= u64::MAX,
    ensures
        chunked_layout(dtype, child_layouts).spec_row_count() == total_rows(
            child_layouts@,
            child_layouts@.len() as int,
        ),
{
    reveal_with_fuel(total_rows, 2);
}

/// A single chunk is the whole array. Any other number of chunks make a chunked layout of the type
/// of the array, with the chunks in their order as its children.
pub proof fn law_chunks_become_children(dtype: DType, child_layouts: Vec<Layout>)
    ensures
        child_layouts@.len() == 1 ==> chunked_layout(dtype, child_layouts) == child_layouts@[0],
        child_layouts@.len() != 1 ==> {
            &&& chunked_layout(dtype, child_layouts) matches Layout::Chunked(layout)
            &&& layout.dtype == dtype
            &&& layout.children@ == child_layouts@
        },
{
}

/// Rows are counted chunk by chunk: no chunk has no rows, and each adds the rows of its layout.
pub proof fn law_rows_are_counted_by_chunk(layouts: Seq<Layout>, n: int)
    requires
        0 <= n < layouts.len(),
    ensures
        total_rows(layouts, 0) == 0,
        total_rows(layouts, n + 1) - total_rows(layouts, n) == match layouts[n] {
            Layout::Flat { row_count, .. } => row_count,
            Layout::Chunked(layout) => layout.row_count,
        },
{
}

/// Writing in chunks holds back what the strategy for the chunks holds back.
pub proof fn law_chunks_hold_back_what_their_strategy_does<S: LayoutStrategy>(
    strategy: ChunkedLayoutStrategy<S>,
)
    ensures
        strategy.spec_buffered_bytes() == (*strategy.chunk_strategy).spec_buffered_bytes(),
{
}

} // verus!
