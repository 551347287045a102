use vstd::prelude::*;
use bit_field::BitField;
use vstd::arithmetic::power2::{pow2, lemma2_to64};
use vstd::arithmetic::div_mod::{lemma_fundamental_div_mod, lemma_mod_multiples_basic};
use vstd::bits::{low_bits_mask, lemma_u64_low_bits_mask_is_mod, lemma_u64_pow2_no_overflow};

verus! {

/// Mask with the lowest `n` bits set (all bits when `n >= 64`).
pub open spec fn low_mask(n: u64) -> u64 {
    if n >= 64 {
        0xffff_ffff_ffff_ffffu64
    } else {
        ((1u64 << n) - 1) as u64
    }
}

/// A power of two below 2^64.
pub open spec fn is_pow2(a: u64) -> bool {
    exists|n: nat| n < 64 && a as nat == pow2(n)
}

/// Rounding down to a power-of-two alignment clears the low bits.
pub proof fn lemma_align_down(x: u64, a: u64)
    requires
        is_pow2(a),
    ensures
        x & !((a - 1) as u64) == x - x % a,
        x % a < a,
        a > 0,
{
    let n = choose|n: nat| n < 64 && a as nat == pow2(n);
    lemma_u64_pow2_no_overflow(n);
    lemma_u64_low_bits_mask_is_mod(x, n);
    let m = (a - 1) as u64;
    assert(low_bits_mask(n) as u64 == m);
    assert(x & !m == (x - (x & m)) as u64 && (x & m) <= x) by (bit_vector);
}

/// For a power-of-two `a`, masking with `a - 1` is taking the remainder.
pub proof fn lemma_and_mask_is_mod(x: u64, a: u64)
    requires
        is_pow2(a),
    ensures
        x & ((a - 1) as u64) == x % a,
        a > 0,
{
    let n = choose|n: nat| n < 64 && a as nat == pow2(n);
    lemma_u64_pow2_no_overflow(n);
    lemma_u64_low_bits_mask_is_mod(x, n);
}

/// Rounding up to a power-of-two alignment gives the least aligned value
/// that is at least `x`.
pub proof fn lemma_align_up(x: u64, a: u64)
    requires
        is_pow2(a),
        x + a - 1 <= u64::MAX,
    ensures
        ({
            let y = ((x + a - 1) as u64) & !((a - 1) as u64);
            &&& y % a == 0
            &&& x <= y
            &&& y < x + a
        }),
{
    let z = (x + a - 1) as u64;
    lemma_align_down(z, a);
    lemma_multiple_minus_mod(z as int, a as int);
}

/// `z - z % a` is a multiple of `a`.
pub proof fn lemma_multiple_minus_mod(z: int, a: int)
    requires
        a > 0,
        z >= 0,
    ensures
        (z - z % a) % a == 0,
{
    lemma_fundamental_div_mod(z, a);
    let q = z / a;
    let r = z % a;
    assert(z - r == q * a) by (nonlinear_arith)
        requires
            z == a * q + r,
    ;
    lemma_mod_multiples_basic(q, a);
}

/// The page sizes used by this library are powers of two.
pub proof fn lemma_page_sizes_pow2()
    ensures
        is_pow2(0x1000),
        is_pow2(0x200000),
{
    lemma2_to64();
    assert(pow2(12) == 0x1000);
    assert(pow2(21) == 0x200000);
}

/// `BitField::get_bits` of the `bit_field` crate on a `u64`: the bits
/// `lo..hi` of `x` moved down to bit 0.
#[verifier::external_body]
pub(crate) fn u64_get_bits(x: u64, lo: usize, hi: usize) -> (r: u64)
    requires
        lo < 64,
        hi <= 64,
        lo <= hi,
    ensures
        r == (x >> (lo as u64)) & low_mask((hi - lo) as u64),
{
    x.get_bits(lo..hi)
}

/// `x` with the bits `lo..hi` replaced by `v`.
pub open spec fn with_field_u64(x: u64, lo: u64, hi: u64, v: u64) -> u64 {
    if lo == hi {
        x
    } else {
        (x & !(low_mask((hi - lo) as u64) << lo)) | (v << lo)
    }
}

/// `BitField::set_bits` of the `bit_field` crate on a `u64`: the bits
/// `lo..hi` of `x` replaced by `v`, which must fit in them.
#[verifier::external_body]
pub(crate) fn u64_set_bits(x: u64, lo: usize, hi: usize, v: u64) -> (r: u64)
    requires
        lo < 64,
        hi <= 64,
        lo <= hi,
        v <= low_mask((hi - lo) as u64),
    ensures
        r == with_field_u64(x, lo as u64, hi as u64, v),
{
    let mut y = x;
    y.set_bits(lo..hi, v);
    y
}

/// Mask with the lowest `n` bits of a `u16` set (all bits when `n >= 16`).
pub open spec fn low_mask_u16(n: u16) -> u16 {
    if n >= 16 {
        0xffffu16
    } else {
        ((1u16 << n) - 1) as u16
    }
}

/// `x` with the bits `lo..hi` replaced by `v`.
pub open spec fn with_field_u16(x: u16, lo: u16, hi: u16, v: u16) -> u16 {
    if lo == hi {
        x
    } else {
        (x & !(low_mask_u16((hi - lo) as u16) << lo)) | (v << lo)
    }
}

/// `BitField::set_bits` of the `bit_field` crate on a `u16`: the bits
/// `lo..hi` of `x` replaced by `v`, which must fit in them.
#[verifier::external_body]
pub(crate) fn u16_set_bits(x: u16, lo: usize, hi: usize, v: u16) -> (r: u16)
    requires
        lo < 16,
        hi <= 16,
        lo <= hi,
        v <= low_mask_u16((hi - lo) as u16),
    ensures
        r == with_field_u16(x, lo as u16, hi as u16, v),
{
    let mut y = x;
    y.set_bits(lo..hi, v);
    y
}

/// `BitField::set_bit` of the `bit_field` crate on a `u16`: bit `bit` of `x`
/// set to `value`.
#[verifier::external_body]
pub(crate) fn u16_set_bit(x: u16, bit: usize, value: bool) -> (r: u16)
    requires
        bit < 16,
    ensures
        value ==> r == x | (1u16 << (bit as u16)),
        !value ==> r == x & !(1u16 << (bit as u16)),
{
    let mut y = x;
    y.set_bit(bit, value);
    y
}

} // verus!
