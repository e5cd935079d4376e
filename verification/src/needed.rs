//! Which bytes of which buffers a read has to provide.

use crate::error::{VortexError, VortexResult};
use crate::ranges::{copy_range, in_range, spec_union_ranges, union_ranges};
use std::ops::Range;
use vstd::prelude::*;

verus! {

/// What is needed of one buffer.
#[derive(Debug, PartialEq, Eq)]
pub enum NeededBuffer {
    /// All of its bytes.
    Full,
    /// The bytes in this range.
    Range(Range<usize>),
}

impl Clone for NeededBuffer {
    fn clone(&self) -> (r: Self)
        ensures
            r == *self,
    {
        match self {
            NeededBuffer::Full => NeededBuffer::Full,
            NeededBuffer::Range(range) => NeededBuffer::Range(copy_range(range)),
        }
    }
}

/// What is needed of each buffer of an array tree.
#[derive(Debug)]
pub struct NeededBuffers {
    pub entries: Vec<Option<NeededBuffer>>,
}

impl View for NeededBuffers {
    type V = Seq<Option<NeededBuffer>>;

    open spec fn view(&self) -> Seq<Option<NeededBuffer>> {
        self.entries@
    }
}

/// What is needed of a buffer of which two parties need something: all of it if one of them needs
/// all of it, else one range that covers what both need.
pub open spec fn merge_entry(
    left: Option<NeededBuffer>,
    right: Option<NeededBuffer>,
) -> Option<NeededBuffer> {
    match (left, right) {
        (_, None) => left,
        (None, _) => right,
        (Some(NeededBuffer::Range(a)), Some(NeededBuffer::Range(b))) => Some(
            NeededBuffer::Range(spec_union_ranges(a, b)),
        ),
        _ => Some(NeededBuffer::Full),
    }
}

/// What is needed of each buffer when two parties need something.
pub open spec fn merge_needed(
    left: Seq<Option<NeededBuffer>>,
    right: Seq<Option<NeededBuffer>>,
) -> Seq<Option<NeededBuffer>> {
    Seq::new(left.len(), |i: int| merge_entry(left[i], right[i]))
}

/// Nothing is needed of any of `n` buffers.
pub open spec fn nothing_needed(n: nat) -> Seq<Option<NeededBuffer>> {
    Seq::new(n, |i: int| None)
}

/// Whether byte `pos` is needed of a buffer of `length` bytes.
pub open spec fn needs_byte(entry: Option<NeededBuffer>, length: int, pos: int) -> bool {
    match entry {
        None => false,
        Some(NeededBuffer::Full) => 0 <= pos < length,
        Some(NeededBuffer::Range(range)) => in_range(range, pos),
    }
}

/// The error for an index that no buffer has.
pub open spec fn missing_buffer(buffer_idx: u16, num_buffers: nat) -> VortexError {
    VortexError::BufferIndexOutOfRange { buffer_idx, num_buffers: num_buffers as usize }
}

fn merge_entries(left: &Option<NeededBuffer>, right: &Option<NeededBuffer>) -> (r: Option<
    NeededBuffer,
>)
    ensures
        r == merge_entry(*left, *right),
{
    match (left, right) {
        (None, None) => None,
        (Some(l), None) => Some(l.clone()),
        (None, Some(r)) => Some(r.clone()),
        (Some(NeededBuffer::Range(a)), Some(NeededBuffer::Range(b))) => Some(
            NeededBuffer::Range(union_ranges(a, b)),
        ),
        _ => Some(NeededBuffer::Full),
    }
}

impl Clone for NeededBuffers {
    fn clone(&self) -> (r: Self)
        ensures
            r@ == self@,
    {
        let mut entries: Vec<Option<NeededBuffer>> = Vec::new();
        let mut i: usize = 0;
        while i < self.entries.len()
            invariant
                i <= self@.len(),
                entries@ == self@.take(i as int),
            decreases self@.len() - i,
        {
            let entry = match &self.entries[i] {
                None => None,
                Some(needed) => Some(needed.clone()),
            };
            entries.push(entry);
            i = i + 1;
            assert(entries@ =~= self@.take(i as int));
        }
        assert(self@.take(i as int) =~= self@);
        NeededBuffers { entries }
    }
}

impl NeededBuffers {
    /// Returns an empty need for `num_buffers` buffers.
    pub fn new(num_buffers: usize) -> (r: Self)
        ensures
            r@ == nothing_needed(num_buffers as nat),
    {
        let mut entries: Vec<Option<NeededBuffer>> = Vec::new();
        let mut i: usize = 0;
        while i < num_buffers
            invariant
                i <= num_buffers,
                entries@ == nothing_needed(i as nat),
            decreases num_buffers - i,
        {
            entries.push(None);
            i = i + 1;
            assert(entries@ =~= nothing_needed(i as nat));
        }
        NeededBuffers { entries }
    }

    /// Adds all bytes of a buffer to the need.
    pub fn need_full(&mut self, buffer_idx: u16) -> (r: VortexResult<()>)
        ensures
            buffer_idx < old(self)@.len() ==> r is Ok && final(self)@ == old(self)@.update(
                buffer_idx as int,
                Some(NeededBuffer::Full),
            ),
            buffer_idx >= old(self)@.len() ==> r == Err::<(), VortexError>(
                missing_buffer(buffer_idx, old(self)@.len()),
            ) && final(self)@ == old(self)@,
    {
        let idx: usize = buffer_idx as usize;
        if idx >= self.entries.len() {
            return Err(
                VortexError::BufferIndexOutOfRange {
                    buffer_idx,
                    num_buffers: self.entries.len(),
                },
            );
        }
        self.entries.set(idx, Some(NeededBuffer::Full));
        Ok(())
    }

    /// Adds a range of bytes of a buffer to the need.
    pub fn need_range(&mut self, buffer_idx: u16, range: Range<usize>) -> (r: VortexResult<()>)
        ensures
            buffer_idx < old(self)@.len() ==> r is Ok && final(self)@ == old(self)@.update(
                buffer_idx as int,
                merge_entry(old(self)@[buffer_idx as int], Some(NeededBuffer::Range(range))),
            ),
            buffer_idx >= old(self)@.len() ==> r == Err::<(), VortexError>(
                missing_buffer(buffer_idx, old(self)@.len()),
            ) && final(self)@ == old(self)@,
    {
        let idx: usize = buffer_idx as usize;
        if idx >= self.entries.len() {
            return Err(
                VortexError::BufferIndexOutOfRange {
                    buffer_idx,
                    num_buffers: self.entries.len(),
                },
            );
        }
        let entry = merge_entries(&self.entries[idx], &Some(NeededBuffer::Range(range)));
        self.entries.set(idx, entry);
        Ok(())
    }

    /// Adds everything that `other` needs.
    pub fn merge(&mut self, other: Self)
        requires
            old(self)@.len() == other@.len(),
        ensures
            final(self)@ == merge_needed(old(self)@, other@),
    {
        let ghost before = self@;
        let mut i: usize = 0;
        while i < self.entries.len()
            invariant
                i <= self@.len() == before.len() == other@.len(),
                self@ == merge_needed(before, other@).take(i as int) + before.skip(i as int),
            decreases self@.len() - i,
        {
            let entry = merge_entries(&self.entries[i], &other.entries[i]);
            self.entries.set(i, entry);
            i = i + 1;
            assert(self@ =~= merge_needed(before, other@).take(i as int) + before.skip(i as int));
        }
        assert(self@ =~= merge_needed(before, other@));
    }
}

/// Merging loses nothing: a byte that either party needs is needed afterwards, as long as the
/// ranges lie within their buffers.
pub proof fn law_merge_keeps_needs(
    left: Seq<Option<NeededBuffer>>,
    right: Seq<Option<NeededBuffer>>,
    i: int,
    length: int,
    pos: int,
)
    requires
        left.len() == right.len(),
        0 <= i < left.len(),
        0 <= pos < length,
        needs_byte(left[i], length, pos) || needs_byte(right[i], length, pos),
    ensures
        needs_byte(merge_needed(left, right)[i], length, pos),
{
}

/// Merging adds no buffer that neither party needs.
pub proof fn law_merge_adds_no_buffer(
    left: Seq<Option<NeededBuffer>>,
    right: Seq<Option<NeededBuffer>>,
    i: int,
)
    requires
        left.len() == right.len(),
        0 <= i < left.len(),
    ensures
        merge_needed(left, right)[i] is None <==> left[i] is None && right[i] is None,
{
}

/// Merging does not depend on the order or the grouping of the parties, and repeats nothing.
pub proof fn law_merge_algebra(
    a: Seq<Option<NeededBuffer>>,
    b: Seq<Option<NeededBuffer>>,
    c: Seq<Option<NeededBuffer>>,
)
    requires
        a.len() == b.len() == c.len(),
    ensures
        merge_needed(a, b) == merge_needed(b, a),
        merge_needed(merge_needed(a, b), c) == merge_needed(a, merge_needed(b, c)),
        merge_needed(a, a) == a,
        merge_needed(a, nothing_needed(a.len())) == a,
{
    assert(merge_needed(a, b) =~= merge_needed(b, a));
    assert(merge_needed(merge_needed(a, b), c) =~= merge_needed(a, merge_needed(b, c)));
    assert(merge_needed(a, a) =~= a);
    assert(merge_needed(a, nothing_needed(a.len())) =~= a);
}

/// What two parties need of a buffer together is no more than has to be: all of it only if one of
/// them needs all of it, and else a range that begins and ends where one of theirs does.
pub proof fn law_merge_is_exact(
    left: Seq<Option<NeededBuffer>>,
    right: Seq<Option<NeededBuffer>>,
    i: int,
)
    requires
        left.len() == right.len(),
        0 <= i < left.len(),
    ensures
        merge_needed(left, right).len() == left.len(),
        left[i] is None ==> merge_needed(left, right)[i] == right[i],
        right[i] is None ==> merge_needed(left, right)[i] == left[i],
        merge_needed(left, right)[i] == Some(NeededBuffer::Full) <==> left[i] == Some(
            NeededBuffer::Full,
        ) || right[i] == Some(NeededBuffer::Full),
        match (left[i], right[i]) {
            (Some(NeededBuffer::Range(a)), Some(NeededBuffer::Range(b))) => {
                &&& merge_needed(left, right)[i] matches Some(NeededBuffer::Range(c))
                &&& c.start <= a.start && c.start <= b.start
                &&& c.start == a.start || c.start == b.start
                &&& c.end >= a.end && c.end >= b.end
                &&& c.end == a.end || c.end == b.end
            },
            _ => true,
        },
{
}

/// At first nothing is needed of any buffer. Of a buffer that is needed whole every byte is needed,
/// and of a range the bytes in it.
pub proof fn law_needs_are_bytes(n: nat, i: int, length: int, range: Range<usize>, pos: int)
    requires
        0 <= i < n,
    ensures
        nothing_needed(n).len() == n,
        nothing_needed(n)[i] is None,
        !needs_byte(nothing_needed(n)[i], length, pos),
        needs_byte(Some(NeededBuffer::Full), length, pos) <==> 0 <= pos && pos < length,
        needs_byte(Some(NeededBuffer::Range(range)), length, pos) <==> range.start <= pos && pos
            < range.end,
{
}

/// The error for a buffer that is not there names it, and how many there are.
pub proof fn law_missing_buffers_are_named(buffer_idx: u16, num_buffers: usize)
    ensures
        missing_buffer(buffer_idx, num_buffers as nat) matches VortexError::BufferIndexOutOfRange {
            buffer_idx: idx,
            num_buffers: n,
        } && idx == buffer_idx && n == num_buffers,
{
}

} // verus!
