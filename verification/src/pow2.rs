//! Facts about powers of two, shifts and bit counts on `u64`.
use vstd::prelude::*;
use vstd::arithmetic::power2::{pow2, lemma_pow2_pos, lemma_pow2_adds, lemma_pow2_strictly_increases, lemma2_to64};
use vstd::arithmetic::div_mod::lemma_mod_mod;
use vstd::bits::{lemma_u64_shl_is_mul, lemma_u64_pow2_no_overflow, lemma_u64_low_bits_mask_is_mod};
use vstd::std_specs::bits::{u64_trailing_zeros, u64_leading_zeros, axiom_u64_trailing_zeros, axiom_u64_leading_zeros};

verus! {

/// Exponent of the largest power of two not above `n` (for `n > 0`).
pub open spec fn floor_log2(n: u64) -> nat {
    (63 - u64_leading_zeros(n)) as nat
}

/// Exponent of the largest power of two dividing `a` (for `a > 0`).
pub open spec fn trailing_zeros(a: u64) -> nat {
    u64_trailing_zeros(a) as nat
}

/// `1 << k` is `2^k`.
pub proof fn lemma_shl_pow2(k: u64)
    requires
        k < 64,
    ensures
        (1u64 << k) as nat == pow2(k as nat),
        0 < pow2(k as nat) <= 0x8000_0000_0000_0000,
{
    lemma_u64_pow2_no_overflow(k as nat);
    lemma_u64_shl_is_mul(1, k);
    if k < 63 {
        lemma_pow2_strictly_increases(k as nat, 63);
    }
    lemma2_to64_big();
}

proof fn lemma2_to64_big()
    ensures
        pow2(63) == 0x8000_0000_0000_0000,
{
    vstd::arithmetic::power2::lemma2_to64_rest();
}

/// `2^j <= 2^k` when `j <= k`.
pub proof fn lemma_pow2_le(j: nat, k: nat)
    requires
        j <= k,
    ensures
        pow2(j) <= pow2(k),
{
    if j < k {
        lemma_pow2_strictly_increases(j, k);
    }
}

/// A multiple of `2^k` is a multiple of every smaller power of two.
pub proof fn lemma_pow2_divides(x: int, j: nat, k: nat)
    requires
        j <= k,
        x % (pow2(k) as int) == 0,
    ensures
        x % (pow2(j) as int) == 0,
{
    lemma_pow2_adds(j, (k - j) as nat);
    lemma_pow2_pos(j);
    lemma_pow2_pos((k - j) as nat);
    lemma_mod_mod(x, pow2(j) as int, pow2((k - j) as nat) as int);
    assert(pow2(j) * pow2((k - j) as nat) == pow2(k));
    assert(0int % (pow2(j) as int) == 0);
}

/// The number of trailing zeros of `2^k` is `k`.
pub proof fn lemma_trailing_zeros_pow2(k: u64)
    requires
        k < 64,
    ensures
        trailing_zeros((1u64 << k)) == k,
{
    let x = 1u64 << k;
    axiom_u64_trailing_zeros(x);
    assert(x != 0) by (bit_vector)
        requires
            x == 1u64 << k,
            k < 64,
    ;
    let t = u64_trailing_zeros(x) as u64;
    assert(t < 64);
    assert((x >> t) & 1u64 == 1u64);
    if t < k {
        assert((x >> t) & 1u64 == 0u64) by (bit_vector)
            requires
                x == 1u64 << k,
                t < k,
                k < 64,
        ;
    } else if t > k {
        assert((x >> k) & 1u64 == 0u64);
        assert((x >> k) & 1u64 == 1u64) by (bit_vector)
            requires
                x == 1u64 << k,
                k < 64,
        ;
    }
}

/// The lowest set bit of `x`, `x & (!x + 1)`, is `2^t` with `t` the number of
/// trailing zeros, and `x` is a multiple of it.
pub proof fn lemma_lowest_bit(x: u64)
    requires
        x > 0,
    ensures
        trailing_zeros(x) < 64,
        (x & (((!x) + 1) as u64)) as nat == pow2(trailing_zeros(x)),
        x as int % (pow2(trailing_zeros(x)) as int) == 0,
{
    axiom_u64_trailing_zeros(x);
    let t = u64_trailing_zeros(x) as u64;
    assert(t < 64);
    assert((x >> t) & 1u64 == 1u64);
    assert(x << ((64 - t) as u64) == 0);
    assert(x & (((!x) + 1) as u64) == 1u64 << t) by (bit_vector)
        requires
            t < 64,
            (x >> t) & 1u64 == 1u64,
            x << ((64 - t) as u64) == 0,
    ;
    assert(x & (((1u64 << t) - 1) as u64) == 0) by (bit_vector)
        requires
            t < 64,
            x << ((64 - t) as u64) == 0,
    ;
    lemma_shl_pow2(t);
    lemma_u64_low_bits_mask_is_mod(x, t as nat);
}

/// `1 << (63 - leading_zeros(n))` is the largest power of two not above `n`.
pub proof fn lemma_floor_log2(n: u64)
    requires
        n > 0,
    ensures
        floor_log2(n) < 64,
        (1u64 << (floor_log2(n) as u64)) as nat == pow2(floor_log2(n)),
        pow2(floor_log2(n)) <= n,
        n < 2 * pow2(floor_log2(n)),
{
    axiom_u64_leading_zeros(n);
    let lz = u64_leading_zeros(n) as u64;
    assert(lz < 64);
    let s = (63 - lz) as u64;
    assert((n >> ((63 - lz) as u64)) & 1u64 != 0u64);
    assert(n >> ((64 - lz) as u64) == 0);
    assert((1u64 << s) <= n) by (bit_vector)
        requires
            s < 64,
            (n >> s) & 1u64 != 0u64,
    ;
    assert(n < 2 * (1u64 << s)) by (bit_vector)
        requires
            s < 64,
            s == (63 - lz) as u64,
            n >> ((64 - lz) as u64) == 0,
            lz < 64,
    ;
    lemma_shl_pow2(s);
}

/// Block sizes used by the allocators: `2^k` for `k < 64`, as a `u64`.
pub open spec fn block(k: nat) -> u64 {
    pow2(k) as u64
}

/// The buddy of an aligned block, `s ^ 2^c`, is its neighbour inside the
/// enclosing block of twice the size, which starts at the smaller of the two.
pub proof fn lemma_buddy(s: u64, c: u64)
    requires
        c < 63,
        s as int % (pow2(c as nat) as int) == 0,
    ensures
        ({
            let b = s ^ (1u64 << c);
            let m = if s <= b { s } else { b };
            &&& (b == s + pow2(c as nat) || b == s - pow2(c as nat))
            &&& m as int % (pow2((c + 1) as nat) as int) == 0
            &&& m + pow2((c + 1) as nat) <= 0x1_0000_0000_0000_0000
            &&& (s == m || s == m + pow2(c as nat))
            &&& (b == m || b == m + pow2(c as nat))
            &&& s != b
        }),
{
    lemma_shl_pow2(c);
    lemma_shl_pow2((c + 1) as u64);
    lemma_pow2_adds(c as nat, 1);
    lemma2_to64();
    let p = 1u64 << c;
    let q = 1u64 << ((c + 1) as u64);
    lemma_u64_low_bits_mask_is_mod(s, c as nat);
    assert(s & ((p - 1) as u64) == 0);
    let b = s ^ p;
    let m = if s <= b { s } else { b };
    assert((s & p == 0 ==> b == s + p && s < b && s & ((q - 1) as u64) == 0 && s + q <= 0x1_0000_0000_0000_0000)
        && (s & p != 0 ==> b == s - p && b < s && b & ((q - 1) as u64) == 0 && b + q <= 0x1_0000_0000_0000_0000)) by (bit_vector)
        requires
            c < 63,
            p == 1u64 << c,
            q == 1u64 << ((c + 1) as u64),
            s & ((p - 1) as u64) == 0,
            b == s ^ p,
    ;
    lemma_u64_low_bits_mask_is_mod(m, (c + 1) as nat);
}

} // verus!
