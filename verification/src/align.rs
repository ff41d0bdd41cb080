//! Power-of-two address alignment: mathematical definitions, the bit-mask
//! implementations, and the lemmas connecting the two.

use vstd::prelude::*;
use vstd::arithmetic::div_mod::{lemma_fundamental_div_mod, lemma_fundamental_div_mod_converse};
use vstd::arithmetic::power2::{pow2, lemma_pow2_pos};
use vstd::bits::{low_bits_mask, lemma_usize_low_bits_mask_is_mod};

verus! {

/// `a` is a positive power of two representable in a `usize`.
pub open spec fn is_power_of_two(a: usize) -> bool {
    exists|n: nat| n < usize::BITS && a == pow2(n)
}

/// Largest multiple of `a` that is at most `x` (for `a > 0`).
pub open spec fn spec_align_down(x: int, a: int) -> int {
    x - x % a
}

/// Smallest multiple of `a` that is at least `x` (for `a > 0`).
pub open spec fn spec_align_up(x: int, a: int) -> int {
    if x % a == 0 {
        x
    } else {
        x + a - x % a
    }
}

/// A power of two is positive.
pub proof fn lemma_pow2_positive(a: usize)
    requires
        is_power_of_two(a),
    ensures
        a >= 1,
{
    let n = choose|n: nat| n < usize::BITS && a == pow2(n);
    lemma_pow2_pos(n);
}

/// Rounding up lands on a multiple of `a`, moves forward, and moves by
/// less than one whole `a`.
pub proof fn lemma_align_up_props(x: int, a: int)
    requires
        0 <= x,
        0 < a,
    ensures
        x <= spec_align_up(x, a) < x + a,
        spec_align_up(x, a) % a == 0,
{
    lemma_fundamental_div_mod(x, a);
    let q = x / a;
    let r = x % a;
    if r != 0 {
        assert((q + 1) * a == a * q + a) by (nonlinear_arith);
        lemma_fundamental_div_mod_converse(x + a - r, a, q + 1, 0);
    }
}

/// Rounding down lands on a multiple of `a`, moves backward, and moves by
/// less than one whole `a`.
pub proof fn lemma_align_down_props(x: int, a: int)
    requires
        0 <= x,
        0 < a,
    ensures
        x - a < spec_align_down(x, a) <= x,
        spec_align_down(x, a) % a == 0,
{
    lemma_fundamental_div_mod(x, a);
    let q = x / a;
    let r = x % a;
    assert(q * a == a * q) by (nonlinear_arith);
    lemma_fundamental_div_mod_converse(x - r, a, q, 0);
}

/// Rounding `x` up to a multiple of `a` is the same as rounding
/// `x + a - 1` down to one.
pub proof fn lemma_align_up_as_down(x: int, a: int)
    requires
        0 <= x,
        0 < a,
    ensures
        spec_align_down(x + a - 1, a) == spec_align_up(x, a),
{
    lemma_fundamental_div_mod(x, a);
    let q = x / a;
    let r = x % a;
    if r == 0 {
        assert(q * a == a * q) by (nonlinear_arith);
        lemma_fundamental_div_mod_converse(x + a - 1, a, q, a - 1);
    } else {
        assert((q + 1) * a == a * q + a) by (nonlinear_arith);
        lemma_fundamental_div_mod_converse(x + a - 1, a, q + 1, r - 1);
    }
}

/// For a power of two `a`, clearing the bits of `x` below `a`'s single set
/// bit rounds `x` down to a multiple of `a`.
proof fn lemma_mask_is_align_down(x: usize, a: usize)
    requires
        is_power_of_two(a),
    ensures
        (x & !((a - 1) as usize)) == x - x % a,
{
    let n = choose|n: nat| n < usize::BITS && a == pow2(n);
    lemma_pow2_pos(n);
    lemma_usize_low_bits_mask_is_mod(x, n);
    let m = (a - 1) as usize;
    assert(m == low_bits_mask(n) as usize);
    assert((x & !m) + (x & m) == x) by (bit_vector);
    assert(x % a == x % (pow2(n) as usize));
}

/// Rounds `addr` down to a multiple of `align`, by masking off the low bits.
pub fn align_down(addr: usize, align: usize) -> (r: usize)
    requires
        is_power_of_two(align),
    ensures
        r == spec_align_down(addr as int, align as int),
{
    proof {
        lemma_pow2_positive(align);
        lemma_mask_is_align_down(addr, align);
    }
    addr & !(align - 1)
}

/// Rounds `addr` up to a multiple of `align`, by masking the low bits off
/// `addr + align - 1`.
pub fn align_up(addr: usize, align: usize) -> (r: usize)
    requires
        is_power_of_two(align),
        addr + align - 1 <= usize::MAX,
    ensures
        r == spec_align_up(addr as int, align as int),
{
    proof {
        lemma_pow2_positive(align);
    }
    let s = addr + (align - 1);
    proof {
        lemma_mask_is_align_down(s, align);
        lemma_align_up_as_down(addr as int, align as int);
    }
    s & !(align - 1)
}

} // verus!
