//! Alignments of buffers.

use vstd::arithmetic::power2::{
    lemma2_to64, lemma2_to64_rest, lemma_pow2_adds, lemma_pow2_pos, lemma_pow2_strictly_increases,
    pow2,
};
use vstd::bits::{lemma_usize_pow2_no_overflow, lemma_usize_shl_is_mul};
use vstd::prelude::*;

verus! {

/// The alignment, in bytes, that newly allocated buffers have at least.
pub const DEFAULT_ALIGNMENT: usize = 256;

/// An alignment: a power of two, held as its exponent.
#[derive(Debug, Clone, Copy, PartialEq, Eq, Structural)]
pub struct Alignment {
    pub exponent: u8,
}

impl Alignment {
    /// Whether the power of two fits in a `usize`.
    pub open spec fn valid(self) -> bool {
        self.exponent < usize::BITS
    }

    /// The number of bytes that positions are a multiple of.
    pub open spec fn bytes(self) -> nat {
        pow2(self.exponent as nat)
    }

    /// Whether `len` bytes can be allocated with this alignment: together with the padding in
    /// front of them they must not exceed the largest allocation. No bytes need no allocation.
    pub open spec fn can_hold(self, len: nat) -> bool {
        len == 0 || len + self.bytes() <= isize::MAX && len + DEFAULT_ALIGNMENT <= isize::MAX
    }

    /// No alignment: every position is a multiple of one byte.
    pub open spec fn spec_none() -> Alignment {
        Alignment { exponent: 0 }
    }

    /// Returns the alignment of one byte.
    pub fn none() -> (r: Alignment)
        ensures
            r == Alignment::spec_none(),
            r.valid(),
    {
        Alignment { exponent: 0 }
    }

    /// Returns the alignment with the given exponent.
    pub fn from_exponent(exponent: u8) -> (r: Alignment)
        requires
            exponent < usize::BITS,
        ensures
            r == (Alignment { exponent }),
            r.valid(),
    {
        Alignment { exponent }
    }

    /// Returns the number of bytes that positions are a multiple of.
    pub fn as_usize(self) -> (r: usize)
        requires
            self.valid(),
        ensures
            r == self.bytes(),
            0 < r,
    {
        proof {
            lemma_usize_pow2_no_overflow(self.exponent as nat);
            lemma_usize_shl_is_mul(1usize, self.exponent as usize);
            lemma_pow2_pos(self.exponent as nat);
        }
        1usize << (self.exponent as usize)
    }

    /// Returns whether `len` bytes can be allocated with this alignment.
    pub fn can_allocate(self, len: usize) -> (r: bool)
        requires
            self.valid(),
        ensures
            r == self.can_hold(len as nat),
    {
        if len == 0 {
            return true;
        }
        let largest: usize = isize::MAX as usize;
        if len > largest {
            return false;
        }
        self.as_usize() <= largest - len && DEFAULT_ALIGNMENT <= largest - len
    }
}

/// Alignments are the powers of two: without an alignment positions are a multiple of one, and each
/// exponent doubles the one before. Those exist whose number of bytes fits in a `usize`.
pub proof fn law_alignments_are_powers_of_two(alignment: Alignment)
    ensures
        Alignment::spec_none().bytes() == 1,
        Alignment::spec_none().valid(),
        alignment.exponent == 0 ==> alignment.bytes() == 1 && alignment == Alignment::spec_none(),
        alignment.exponent < u8::MAX ==> (Alignment {
            exponent: (alignment.exponent + 1) as u8,
        }).bytes() == 2 * alignment.bytes(),
        alignment.valid() <==> alignment.bytes() <= usize::MAX,
{
    lemma2_to64();
    assert(pow2(0) == 1);
    lemma_pow2_adds(1, alignment.exponent as nat);
    assert(usize::MAX + 1 == pow2(usize::BITS as nat)) by {
        lemma2_to64();
        lemma2_to64_rest();
    }
    if alignment.exponent < usize::BITS {
        lemma_pow2_strictly_increases(alignment.exponent as nat, usize::BITS as nat);
    } else if alignment.exponent > usize::BITS {
        lemma_pow2_strictly_increases(usize::BITS as nat, alignment.exponent as nat);
    }
}

/// Bytes can be allocated with an alignment if they and the padding in front of them, of the
/// alignment or of 256 bytes if that is more, do not exceed the largest allocation. No bytes need
/// no allocation.
pub proof fn law_allocations_are_limited(alignment: Alignment, len: nat)
    ensures
        alignment.can_hold(0),
        len > 0 ==> (alignment.can_hold(len) <==> len + (if alignment.bytes() > 256 {
            alignment.bytes()
        } else {
            256
        }) <= isize::MAX),
{
}

} // verus!
