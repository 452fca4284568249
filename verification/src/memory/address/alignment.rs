//! Alignment arithmetic on machine words.

use vstd::arithmetic::power::pow;
use vstd::arithmetic::power2::{
    is_pow2, is_pow2_equiv, lemma_pow2_pos, lemma_pow2_strictly_increases, pow2,
};
use vstd::bits::{lemma_u64_low_bits_mask_is_mod, lemma_usize_low_bits_mask_is_mod, low_bits_mask};
use vstd::layout::unsigned_int_max_values;
use vstd::prelude::*;

verus! {

/// The largest multiple of `alignment` that is not above `x`.
pub open spec fn spec_align_down(x: int, alignment: int) -> int {
    x - x % alignment
}

/// The smallest multiple of `alignment` that is not below `x`.
pub open spec fn spec_align_up(x: int, alignment: int) -> int {
    if x % alignment == 0 {
        x
    } else {
        x - x % alignment + alignment
    }
}

/// `x` is a multiple of `alignment`.
pub open spec fn is_aligned(x: int, alignment: int) -> bool {
    x % alignment == 0
}

/// Rounding to a multiple of a power of two. The alignment 1 changes nothing.
pub trait Alignment: Sized {
    /// The value of `self` as a mathematical integer.
    spec fn value(self) -> int;

    /// Whether `align_up` can be computed without leaving the type's range.
    spec fn fits_aligned_up(self, alignment: Self) -> bool;

    fn align_up(self, alignment: Self) -> (r: Self)
        requires
            is_pow2(alignment.value()),
            self.fits_aligned_up(alignment),
        ensures
            r.value() == spec_align_up(self.value(), alignment.value()),
    ;

    fn align_down(self, alignment: Self) -> (r: Self)
        requires
            is_pow2(alignment.value()),
        ensures
            r.value() == spec_align_down(self.value(), alignment.value()),
    ;
}

/// For a power of two `a`, masking with `a - 1` is the remainder by `a`.
pub proof fn lemma_mask_is_mod(x: usize, a: usize)
    requires
        is_pow2(a as int),
    ensures
        a > 0,
        x & ((a - 1) as usize) == x % a,
{
    is_pow2_equiv(a as int);
    let e = choose|e: nat| pow(2, e) == a as int;
    assert(pow2(e) == a);
    lemma_pow2_pos(e);
    unsigned_int_max_values();
    if e >= usize::BITS {
        if e > usize::BITS {
            lemma_pow2_strictly_increases(usize::BITS as nat, e);
        }
        assert(false);
    }
    assert(low_bits_mask(e) == a - 1);
    lemma_usize_low_bits_mask_is_mod(x, e);
}

impl Alignment for usize {
    open spec fn value(self) -> int {
        self as int
    }

    open spec fn fits_aligned_up(self, alignment: Self) -> bool {
        self + alignment - 1 <= usize::MAX
    }

    fn align_up(self, alignment: Self) -> (r: Self) {
        proof {
            lemma_mask_is_mod(self, alignment);
        }
        let mask: usize = alignment - 1;
        let sum: usize = self + mask;
        proof {
            lemma_mask_is_mod(sum, alignment);
            assert(sum & !mask == sum - (sum & mask)) by (bit_vector);
            lemma_align_up_by_sum(self as int, alignment as int);
        }
        sum & (!mask)
    }

    fn align_down(self, alignment: Self) -> (r: Self) {
        proof {
            lemma_mask_is_mod(self, alignment);
        }
        let mask: usize = alignment - 1;
        proof {
            assert(self & !mask == self - (self & mask)) by (bit_vector);
        }
        self & (!mask)
    }
}

/// For a power of two `a`, masking with `a - 1` is the remainder by `a`.
pub proof fn lemma_mask_is_mod_u64(x: u64, a: u64)
    requires
        is_pow2(a as int),
    ensures
        a > 0,
        x & ((a - 1) as u64) == x % a,
{
    is_pow2_equiv(a as int);
    let e = choose|e: nat| pow(2, e) == a as int;
    assert(pow2(e) == a);
    lemma_pow2_pos(e);
    vstd::arithmetic::power2::lemma2_to64();
    vstd::arithmetic::power2::lemma2_to64_rest();
    if e >= 64 {
        if e > 64 {
            lemma_pow2_strictly_increases(64, e);
        }
        assert(false);
    }
    assert(low_bits_mask(e) == a - 1);
    lemma_u64_low_bits_mask_is_mod(x, e);
}

impl Alignment for u64 {
    open spec fn value(self) -> int {
        self as int
    }

    open spec fn fits_aligned_up(self, alignment: Self) -> bool {
        self + alignment - 1 <= u64::MAX
    }

    fn align_up(self, alignment: Self) -> (r: Self) {
        proof {
            lemma_mask_is_mod_u64(self, alignment);
        }
        let mask: u64 = alignment - 1;
        let sum: u64 = self + mask;
        proof {
            lemma_mask_is_mod_u64(sum, alignment);
            assert(sum & !mask == sum - (sum & mask)) by (bit_vector);
            lemma_align_up_by_sum(self as int, alignment as int);
        }
        sum & (!mask)
    }

    fn align_down(self, alignment: Self) -> (r: Self) {
        proof {
            lemma_mask_is_mod_u64(self, alignment);
        }
        let mask: u64 = alignment - 1;
        proof {
            assert(self & !mask == self - (self & mask)) by (bit_vector);
        }
        self & (!mask)
    }
}

/// Rounding `x + a - 1` down is rounding `x` up.
pub proof fn lemma_align_up_by_sum(x: int, a: int)
    requires
        0 <= x,
        0 < a,
    ensures
        spec_align_down(x + a - 1, a) == spec_align_up(x, a),
{
    let r = x % a;
    let q = x / a;
    assert(x == q * a + r) by {
        vstd::arithmetic::div_mod::lemma_fundamental_div_mod(x, a);
        vstd::arithmetic::mul::lemma_mul_is_commutative(a, q);
    }
    if r == 0 {
        // x + a - 1 == q * a + (a - 1)
        vstd::arithmetic::div_mod::lemma_fundamental_div_mod_converse(x + a - 1, a, q, a - 1);
    } else {
        // x + a - 1 == (q + 1) * a + (r - 1)
        assert((q + 1) * a == q * a + a) by (nonlinear_arith);
        vstd::arithmetic::div_mod::lemma_fundamental_div_mod_converse(x + a - 1, a, q + 1, r - 1);
    }
}

/// What `align_up` returns is aligned, not below `x`, and less than one
/// alignment above it.
pub proof fn lemma_align_up_properties(x: int, a: int)
    requires
        0 <= x,
        0 < a,
    ensures
        is_aligned(spec_align_up(x, a), a),
        x <= spec_align_up(x, a) < x + a,
        is_aligned(x, a) ==> spec_align_up(x, a) == x,
{
    let r = x % a;
    let q = x / a;
    vstd::arithmetic::div_mod::lemma_fundamental_div_mod(x, a);
    vstd::arithmetic::mul::lemma_mul_is_commutative(a, q);
    if r != 0 {
        assert((q + 1) * a == q * a + a) by (nonlinear_arith);
        vstd::arithmetic::div_mod::lemma_fundamental_div_mod_converse(x - r + a, a, q + 1, 0);
    }
}

/// What `align_down` returns is aligned, not above `x`, and less than one
/// alignment below it.
pub proof fn lemma_align_down_properties(x: int, a: int)
    requires
        0 <= x,
        0 < a,
    ensures
        is_aligned(spec_align_down(x, a), a),
        x - a < spec_align_down(x, a) <= x,
        is_aligned(x, a) ==> spec_align_down(x, a) == x,
{
    let r = x % a;
    let q = x / a;
    vstd::arithmetic::div_mod::lemma_fundamental_div_mod(x, a);
    vstd::arithmetic::mul::lemma_mul_is_commutative(a, q);
    vstd::arithmetic::div_mod::lemma_fundamental_div_mod_converse(x - r, a, q, 0);
}

} // verus!
