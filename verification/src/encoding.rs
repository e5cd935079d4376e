//! What an encoding says about reading part of one of its arrays.

use crate::dtype::DType;
use crate::error::VortexResult;
use crate::ranges::copy_range;
use std::ops::Range;
use vstd::prelude::*;

verus! {

/// The buffers and children that are needed to decode a range of rows.
///
/// An encoding answers with `None` instead when the array cannot be read safely from part of its
/// bytes. The whole segment is read then.
#[derive(Debug)]
pub struct EncodingRangeRead {
    /// One entry for each buffer that the node owns.
    pub buffer_sub_ranges: Vec<BufferSubRange>,
    /// How each child other than the validity is read.
    pub children: Vec<ChildRangeRead>,
    /// The source rows that the partly decoded array stands for.
    pub decode_info: RangeDecodeInfo,
    /// Whether the node may have one more child, its validity.
    pub validity: ValidityRangeRead,
}

/// The mathematical content of an [`EncodingRangeRead`].
#[verifier::ext_equal]
pub struct EncodingRangeReadView {
    pub buffer_sub_ranges: Seq<BufferSubRange>,
    pub children: Seq<ChildRangeRead>,
    pub decode_info: RangeDecodeInfo,
    pub validity: ValidityRangeRead,
}

impl View for EncodingRangeRead {
    type V = EncodingRangeReadView;

    open spec fn view(&self) -> EncodingRangeReadView {
        EncodingRangeReadView {
            buffer_sub_ranges: self.buffer_sub_ranges@,
            children: self.children@,
            decode_info: self.decode_info,
            validity: self.validity,
        }
    }
}

impl Clone for EncodingRangeRead {
    fn clone(&self) -> (r: Self)
        ensures
            r@ == self@,
    {
        let mut buffer_sub_ranges: Vec<BufferSubRange> = Vec::new();
        let mut i: usize = 0;
        while i < self.buffer_sub_ranges.len()
            invariant
                i <= self.buffer_sub_ranges@.len(),
                buffer_sub_ranges@ == self.buffer_sub_ranges@.take(i as int),
            decreases self.buffer_sub_ranges@.len() - i,
        {
            buffer_sub_ranges.push(self.buffer_sub_ranges[i].clone());
            i = i + 1;
            assert(buffer_sub_ranges@ =~= self.buffer_sub_ranges@.take(i as int));
        }
        let mut children: Vec<ChildRangeRead> = Vec::new();
        let mut k: usize = 0;
        while k < self.children.len()
            invariant
                k <= self.children@.len(),
                children@ == self.children@.take(k as int),
            decreases self.children@.len() - k,
        {
            children.push(self.children[k].clone());
            k = k + 1;
            assert(children@ =~= self.children@.take(k as int));
        }
        assert(self.buffer_sub_ranges@.take(i as int) =~= self.buffer_sub_ranges@);
        assert(self.children@.take(k as int) =~= self.children@);
        EncodingRangeRead {
            buffer_sub_ranges,
            children,
            decode_info: self.decode_info.clone(),
            validity: self.validity,
        }
    }
}

/// Which bytes of a buffer are needed.
#[derive(Debug, PartialEq, Eq)]
pub enum BufferSubRange {
    /// All of them.
    Full,
    /// Only this range.
    Range(Range<usize>),
}

/// How a child array is read.
#[derive(Debug, PartialEq)]
pub enum ChildRangeRead {
    /// Plan the child. It may decode more rows than asked for.
    Recurse {
        /// The rows of the child that are asked for.
        row_range: Range<usize>,
        /// The number of rows of the child.
        row_count: usize,
        /// The type of the child.
        dtype: DType,
    },
    /// Plan the child, which has to decode exactly the rows that are asked for.
    RecurseExact {
        /// The rows of the child that are asked for.
        row_range: Range<usize>,
        /// The number of rows of the child.
        row_count: usize,
        /// The type of the child.
        dtype: DType,
    },
    /// Plan the child for the rows that an earlier child decodes. If it needs more rows than
    /// those, its parent is planned again for the wider range.
    RecurseWithDecodedRange {
        /// The earlier child.
        child_idx: usize,
        /// The number of rows of the child.
        row_count: usize,
        /// The type of the child.
        dtype: DType,
    },
    /// Read all of the child.
    Full,
}

/// The rows that come out of decoding the chosen bytes.
#[derive(Debug, PartialEq, Eq)]
pub enum RangeDecodeInfo {
    /// These rows.
    Rows(Range<usize>),
    /// The rows that a child decodes, with both bounds divided by `divisor`.
    FromChild {
        /// The child.
        child_idx: usize,
        /// The number of child rows to a row of this array.
        divisor: usize,
    },
}

impl Clone for BufferSubRange {
    fn clone(&self) -> (r: Self)
        ensures
            r == *self,
    {
        match self {
            BufferSubRange::Full => BufferSubRange::Full,
            BufferSubRange::Range(range) => BufferSubRange::Range(copy_range(range)),
        }
    }
}

impl Clone for ChildRangeRead {
    fn clone(&self) -> (r: Self)
        ensures
            r == *self,
    {
        match self {
            ChildRangeRead::Recurse { row_range, row_count, dtype } => ChildRangeRead::Recurse {
                row_range: copy_range(row_range),
                row_count: *row_count,
                dtype: dtype.clone(),
            },
            ChildRangeRead::RecurseExact { row_range, row_count, dtype } =>
                ChildRangeRead::RecurseExact {
                row_range: copy_range(row_range),
                row_count: *row_count,
                dtype: dtype.clone(),
            },
            ChildRangeRead::RecurseWithDecodedRange { child_idx, row_count, dtype } =>
                ChildRangeRead::RecurseWithDecodedRange {
                child_idx: *child_idx,
                row_count: *row_count,
                dtype: dtype.clone(),
            },
            ChildRangeRead::Full => ChildRangeRead::Full,
        }
    }
}

impl Clone for RangeDecodeInfo {
    fn clone(&self) -> (r: Self)
        ensures
            r == *self,
    {
        match self {
            RangeDecodeInfo::Rows(range) => RangeDecodeInfo::Rows(copy_range(range)),
            RangeDecodeInfo::FromChild { child_idx, divisor } => RangeDecodeInfo::FromChild {
                child_idx: *child_idx,
                divisor: *divisor,
            },
        }
    }
}

/// Whether an encoding stores its validity as a child of its own.
#[derive(Debug, Clone, Copy, PartialEq, Eq, Structural)]
pub enum ValidityRangeRead {
    /// It never does.
    Absent,
    /// It may, as its last child: the child is missing when no row is null.
    Optional,
}

/// The metadata of an encoding that stores none.
#[derive(Debug, Clone, Copy, PartialEq, Eq, Structural)]
pub struct EmptyMetadata;

/// An answer of an encoding, seen mathematically.
pub open spec fn planned_view(r: VortexResult<Option<EncodingRangeRead>>) -> VortexResult<
    Option<EncodingRangeReadView>,
> {
    match r {
        Ok(Some(plan)) => Ok(Some(plan@)),
        Ok(None) => Ok(None),
        Err(e) => Err(e),
    }
}

/// An encoding. Applications add encodings of their own by implementing this trait; the answer
/// has to be a function of the arguments alone.
pub trait VTable {
    /// The answer to [`VTable::plan_range_read`]; no plan, unless the encoding says otherwise.
    open spec fn planned(
        &self,
        metadata: Seq<u8>,
        row_range: Range<usize>,
        row_count: usize,
        dtype: DType,
    ) -> VortexResult<Option<EncodingRangeReadView>> {
        Ok(None)
    }

    /// Says what is needed to decode `row_range` of an array of `row_count` rows whose node
    /// carries the given metadata, or `None` if only the whole array can be decoded.
    fn plan_range_read(
        &self,
        metadata: &[u8],
        row_range: Range<usize>,
        row_count: usize,
        dtype: &DType,
    ) -> (r: VortexResult<Option<EncodingRangeRead>>)
        ensures
            planned_view(r) == self.planned(metadata@, row_range, row_count, *dtype),
    ;
}

/// The encodings that a session knows, by identifier.
#[derive(Debug)]
pub struct ArrayRegistry<P: VTable> {
    entries: Vec<(String, P)>,
}

/// The encodings that a list of registrations leaves, the latest one winning.
pub closed spec fn registered<P>(entries: Seq<(String, P)>) -> Map<Seq<char>, P>
    decreases entries.len(),
{
    if entries.len() == 0 {
        Map::empty()
    } else {
        registered(entries.drop_last()).insert(entries.last().0@, entries.last().1)
    }
}

impl<P: VTable> View for ArrayRegistry<P> {
    type V = Map<Seq<char>, P>;

    closed spec fn view(&self) -> Map<Seq<char>, P> {
        registered(self.entries@)
    }
}

impl<P: VTable> ArrayRegistry<P> {
    /// Returns a registry without encodings.
    pub fn new() -> (r: Self)
        ensures
            r@ == Map::<Seq<char>, P>::empty(),
    {
        ArrayRegistry { entries: Vec::new() }
    }

    /// Adds an encoding. An encoding that had the identifier before is replaced.
    pub fn register(&mut self, id: String, plugin: P)
        ensures
            final(self)@ == old(self)@.insert(id@, plugin),
    {
        let ghost before = self.entries@;
        self.entries.push((id, plugin));
        assert(self.entries@.drop_last() =~= before);
    }

    /// Returns the encoding with the given identifier, if there is one.
    pub fn find(&self, id: &String) -> (r: Option<&P>)
        ensures
            r is Some <==> self@.contains_key(id@),
            r matches Some(p) ==> *p == self@[id@],
    {
        let mut i: usize = self.entries.len();
        assert(self.entries@.take(i as int) =~= self.entries@);
        while i > 0
            invariant
                i <= self.entries@.len(),
                self@.contains_key(id@) <==> registered(
                    self.entries@.take(i as int),
                ).contains_key(id@),
                self@.contains_key(id@) ==> self@[id@] == registered(
                    self.entries@.take(i as int),
                )[id@],
            decreases i,
        {
            i = i - 1;
            assert(self.entries@.take(i + 1).drop_last() =~= self.entries@.take(i as int));
            if self.entries[i].0 == *id {
                return Some(&self.entries[i].1);
            }
        }
        None
    }
}

} // verus!
