//! Slot indices by bit mask.

use vstd::arithmetic::power2::{is_pow2, is_pow2_equiv, lemma_pow2_strictly_increases, pow2};
use vstd::bits::{lemma_usize_low_bits_mask_is_mod, low_bits_mask};
use vstd::layout::unsigned_int_max_values;
use vstd::prelude::*;

verus! {

/// `usize::is_power_of_two` of std says whether the number is 2 to the power
/// of some k; zero is none.
pub assume_specification[ usize::is_power_of_two ](n: usize) -> (yes: bool)
    ensures
        yes == is_pow2(n as int),
;

/// `usize::checked_next_power_of_two` of std gives the smallest power of two
/// that is not below the number, or nothing where that power does not fit in
/// a `usize`.
pub assume_specification[ usize::checked_next_power_of_two ](n: usize) -> (next: Option<usize>)
    ensures
        match next {
            Some(power) => {
                &&& is_pow2(power as int)
                &&& power >= n
                &&& forall|other: int| is_pow2(other) && other >= n ==> power <= other
            },
            None => forall|other: int| is_pow2(other) && other >= n ==> other > usize::MAX,
        },
;

/// A power of two is at least one.
pub proof fn lemma_pow2_positive(n: int)
    requires
        is_pow2(n),
    ensures
        n >= 1,
{
    reveal(is_pow2);
}

/// Every power of two that fits in a `usize` has an exponent below the word
/// width.
pub proof fn lemma_pow2_exponent(d: usize) -> (k: nat)
    requires
        is_pow2(d as int),
    ensures
        k < usize::BITS,
        pow2(k) == d,
{
    is_pow2_equiv(d as int);
    let k = choose|i: nat| vstd::arithmetic::power::pow(2, i) == d as int;
    unsigned_int_max_values();
    if k >= usize::BITS {
        if k > usize::BITS {
            lemma_pow2_strictly_increases(usize::BITS as nat, k);
        }
    }
    k
}

/// For a power of two `d`, keeping the bits below it is the remainder of the
/// division by `d`.
pub proof fn lemma_mask_is_mod(x: usize, d: usize)
    requires
        is_pow2(d as int),
    ensures
        d >= 1,
        x & ((d - 1) as usize) == x % d,
{
    lemma_pow2_positive(d as int);
    let k = lemma_pow2_exponent(d);
    lemma_usize_low_bits_mask_is_mod(x, k);
    assert(low_bits_mask(k) == d - 1);
}

/// Reduction of a position to a slot index when the number of slots is a
/// power of two.
pub trait FastMod: Sized {
    /// The integer that the machine value stands for.
    spec fn as_int(&self) -> int;

    /// The remainder of `self` by `denominator`, computed with a bit mask.
    fn pow_2_mod(&self, denominator: Self) -> (r: Self)
        requires
            self.as_int() >= 0,
            is_pow2(denominator.as_int()),
        ensures
            r.as_int() == self.as_int() % denominator.as_int(),
    ;
}

impl FastMod for usize {
    open spec fn as_int(&self) -> int {
        *self as int
    }

    #[inline(always)]
    fn pow_2_mod(&self, denominator: Self) -> (r: Self) {
        proof {
            assert(denominator.as_int() == denominator as int);
            lemma_mask_is_mod(*self, denominator);
        }
        *self & (denominator - 1)
    }
}

impl FastMod for isize {
    open spec fn as_int(&self) -> int {
        *self as int
    }

    #[inline(always)]
    fn pow_2_mod(&self, denominator: Self) -> (r: Self) {
        proof {
            lemma_pow2_positive(denominator as int);
        }
        let x: usize = *self as usize;
        let d: usize = denominator as usize;
        proof {
            lemma_mask_is_mod(x, d);
        }
        let m: usize = x & (d - 1);
        m as isize
    }
}

} // verus!
