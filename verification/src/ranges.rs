//! Half-open ranges of rows or bytes.

use std::ops::Range;
use vstd::prelude::*;

verus! {

pub open spec fn spec_min(a: usize, b: usize) -> usize {
    if a <= b { a } else { b }
}

pub open spec fn spec_max(a: usize, b: usize) -> usize {
    if a >= b { a } else { b }
}

/// The number of positions in a range; a range that ends before it starts has none.
pub open spec fn spec_range_len(range: Range<usize>) -> nat {
    if range.start < range.end { (range.end - range.start) as nat } else { 0 }
}

/// The smallest range that reaches from the lower start to the higher end.
pub open spec fn spec_union_ranges(left: Range<usize>, right: Range<usize>) -> Range<usize> {
    Range { start: spec_min(left.start, right.start), end: spec_max(left.end, right.end) }
}

/// Whether `inner` starts and ends within the bounds of `outer`.
pub open spec fn spec_contains_range(outer: Range<usize>, inner: Range<usize>) -> bool {
    outer.start <= inner.start && inner.end <= outer.end
}

/// Whether the range covers position `i`.
pub open spec fn in_range(range: Range<usize>, i: int) -> bool {
    range.start <= i < range.end
}

/// Returns the smallest range that reaches from the lower start to the higher end.
pub fn union_ranges(left: &Range<usize>, right: &Range<usize>) -> (r: Range<usize>)
    ensures
        r == spec_union_ranges(*left, *right),
{
    let start: usize = if left.start <= right.start { left.start } else { right.start };
    let end: usize = if left.end >= right.end { left.end } else { right.end };
    start..end
}

/// Returns whether `inner` starts and ends within the bounds of `outer`.
pub fn contains_range(outer: &Range<usize>, inner: &Range<usize>) -> (r: bool)
    ensures
        r == spec_contains_range(*outer, *inner),
{
    outer.start <= inner.start && outer.end >= inner.end
}

/// Returns a copy of the range.
pub(crate) fn copy_range(range: &Range<usize>) -> (r: Range<usize>)
    ensures
        r == *range,
{
    range.start..range.end
}

/// Returns whether two ranges have the same bounds.
pub(crate) fn same_range(left: &Range<usize>, right: &Range<usize>) -> (r: bool)
    ensures
        r == (*left == *right),
{
    left.start == right.start && left.end == right.end
}

/// Returns the number of positions in the range.
pub(crate) fn range_len(range: &Range<usize>) -> (r: usize)
    ensures
        r == spec_range_len(*range),
{
    if range.start < range.end { range.end - range.start } else { 0 }
}

/// The union of two ranges contains both, and lies in every range that contains both.
pub proof fn law_union_is_least_upper_bound(
    left: Range<usize>,
    right: Range<usize>,
    outer: Range<usize>,
)
    ensures
        spec_contains_range(spec_union_ranges(left, right), left),
        spec_contains_range(spec_union_ranges(left, right), right),
        spec_contains_range(outer, left) && spec_contains_range(outer, right)
            ==> spec_contains_range(outer, spec_union_ranges(left, right)),
{
}

/// Union does not depend on the order or the grouping of its ranges, and repeats nothing.
pub proof fn law_union_algebra(a: Range<usize>, b: Range<usize>, c: Range<usize>)
    ensures
        spec_union_ranges(a, b) == spec_union_ranges(b, a),
        spec_union_ranges(spec_union_ranges(a, b), c) == spec_union_ranges(
            a,
            spec_union_ranges(b, c),
        ),
        spec_union_ranges(a, a) == a,
{
}

/// Containment is a partial order on ranges.
pub proof fn law_containment_is_an_order(a: Range<usize>, b: Range<usize>, c: Range<usize>)
    ensures
        spec_contains_range(a, a),
        spec_contains_range(a, b) && spec_contains_range(b, c) ==> spec_contains_range(a, c),
        spec_contains_range(a, b) && spec_contains_range(b, a) ==> a == b,
{
}

/// A range holds the positions from its start up to its end; one that ends where it starts, or
/// before, holds none.
pub proof fn law_range_lengths_add_up(a: usize, b: usize, c: usize)
    requires
        a <= b <= c,
    ensures
        spec_range_len(a..a) == 0,
        spec_range_len(b..a) == 0,
        spec_range_len(a..c) == spec_range_len(a..b) + spec_range_len(b..c),
        a < c ==> spec_range_len(a..(a + 1) as usize) == 1,
        a + spec_range_len(a..c) == c,
        forall|i: int| #[trigger] in_range(a..c, i) <==> a <= i && i < c,
{
}

/// A range contains another exactly if it contains its bounds. It then covers all positions of it,
/// and a range that holds a position is contained wherever its positions are.
pub proof fn law_containment_is_that_of_positions(outer: Range<usize>, inner: Range<usize>)
    ensures
        spec_contains_range(outer, inner) <==> outer.start <= inner.start && outer.end
            >= inner.end,
        spec_contains_range(outer, inner) ==> forall|i: int| #[trigger]
            in_range(inner, i) ==> in_range(outer, i),
        inner.start < inner.end && (forall|i: int| #[trigger]
            in_range(inner, i) ==> in_range(outer, i)) ==> spec_contains_range(outer, inner),
{
    if inner.start < inner.end && (forall|i: int| #[trigger]
        in_range(inner, i) ==> in_range(outer, i)) {
        assert(in_range(inner, inner.start as int));
        assert(in_range(inner, inner.end - 1));
    }
}

/// The union of two ranges begins where the first of them begins and ends where the last ends.
pub proof fn law_union_begins_first_and_ends_last(left: Range<usize>, right: Range<usize>)
    ensures
        ({
            let union = spec_union_ranges(left, right);
            &&& union.start <= left.start && union.start <= right.start
            &&& union.start == left.start || union.start == right.start
            &&& union.end >= left.end && union.end >= right.end
            &&& union.end == left.end || union.end == right.end
        }),
{
}

} // verus!
