//! Binary tower fields: GF(2) extended by iterated quadratic extensions.
//!
//! Level `k` holds `2^k` bits. Level `k` is level `k - 1` adjoined with a root
//! `X` of `X^2 + alpha * X + 1`, where `alpha` is the root adjoined at level
//! `k - 1` (and `alpha = 1` at level 0). An element `a0 + a1 * X` is stored
//! with `a0` in the low half of the bits and `a1` in the high half.
use vstd::prelude::*;

verus! {

/// Number of bits in half an element of level `k` (for `k >= 1`).
pub open spec fn half_bits(k: nat) -> u128 {
    if k <= 1 {
        1
    } else if k == 2 {
        2
    } else if k == 3 {
        4
    } else if k == 4 {
        8
    } else if k == 5 {
        16
    } else if k == 6 {
        32
    } else {
        64
    }
}

/// Mask selecting the low `h` bits.
pub open spec fn low_mask(h: u128) -> u128 {
    ((1u128 << h) - 1) as u128
}

/// Low half of an element of level `k`.
pub open spec fn lo_half(k: nat, a: u128) -> u128 {
    a & low_mask(half_bits(k))
}

/// High half of an element of level `k`.
pub open spec fn hi_half(k: nat, a: u128) -> u128 {
    (a >> half_bits(k)) & low_mask(half_bits(k))
}

/// Joins two halves into an element of level `k`.
pub open spec fn join_halves(k: nat, lo: u128, hi: u128) -> u128 {
    lo | (hi << half_bits(k))
}

/// Multiplication by the distinguished element `alpha` of level `k`.
pub open spec fn tower_mul_alpha(k: nat, a: u128) -> u128
    decreases k,
{
    if k == 0 {
        a
    } else {
        join_halves(
            k,
            hi_half(k, a),
            lo_half(k, a) ^ tower_mul_alpha((k - 1) as nat, hi_half(k, a)),
        )
    }
}

/// Product of two elements of level `k`:
/// `(a0 + a1 X)(b0 + b1 X) = (a0 b0 + a1 b1) + (a0 b1 + a1 b0 + alpha a1 b1) X`.
pub open spec fn tower_mul(k: nat, a: u128, b: u128) -> u128
    decreases k,
{
    if k == 0 {
        a & b & 1
    } else {
        let km = (k - 1) as nat;
        let z0 = tower_mul(km, lo_half(k, a), lo_half(k, b));
        let z2 = tower_mul(km, hi_half(k, a), hi_half(k, b));
        let zm = tower_mul(km, lo_half(k, a) ^ hi_half(k, a), lo_half(k, b) ^ hi_half(k, b));
        join_halves(k, z0 ^ z2, zm ^ z0 ^ z2 ^ tower_mul_alpha(km, z2))
    }
}

/// Multiplicative inverse in level `k`, with zero sent to zero. The conjugate
/// of `a0 + a1 X` is `(a0 + alpha a1) + a1 X`; their product lies in level `k - 1`.
pub open spec fn tower_inv(k: nat, a: u128) -> u128
    decreases k,
{
    if k == 0 {
        a
    } else {
        let km = (k - 1) as nat;
        let a0 = lo_half(k, a);
        let a1 = hi_half(k, a);
        let c0 = a0 ^ tower_mul_alpha(km, a1);
        let delta = tower_mul(km, a0, c0) ^ tower_mul(km, a1, a1);
        let d = tower_inv(km, delta);
        join_halves(k, tower_mul(km, c0, d), tower_mul(km, a1, d))
    }
}

/// Number of bits of an element of level `k`.
pub open spec fn level_bits(k: nat) -> u128 {
    if k == 0 {
        1
    } else {
        (2 * half_bits(k)) as u128
    }
}

/// `a` is the bit pattern of an element of level `k`.
pub open spec fn fits(k: nat, a: u128) -> bool {
    k >= 7 || a >> level_bits(k) == 0
}

proof fn lemma_split_join(a: u128, h: u128)
    by (bit_vector)
    requires
        1 <= h <= 64,
        h == 64 || a >> ((2 * h) as u128) == 0,
    ensures
        (a & (((1u128 << h) - 1) as u128)) | (((a >> h) & (((1u128 << h) - 1) as u128)) << h) == a,
        (a & (((1u128 << h) - 1) as u128)) >> h == 0,
        ((a >> h) & (((1u128 << h) - 1) as u128)) >> h == 0,
{
}

proof fn lemma_halves_of_small(h: u128)
    by (bit_vector)
    requires
        1 <= h <= 64,
    ensures
        1u128 & (((1u128 << h) - 1) as u128) == 1,
        (1u128 >> h) & (((1u128 << h) - 1) as u128) == 0,
        0u128 & (((1u128 << h) - 1) as u128) == 0,
        (0u128 >> h) & (((1u128 << h) - 1) as u128) == 0,
        0u128 | (0u128 << h) == 0,
{
}

pub proof fn lemma_xor_fits(a: u128, b: u128, h: u128)
    by (bit_vector)
    requires
        a >> h == 0,
        b >> h == 0,
    ensures
        (a ^ b) >> h == 0,
        a ^ b ^ a ^ 0u128 ^ 0u128 == b,
        a ^ 0u128 == a,
{
}

proof fn lemma_join_fits(lo: u128, hi: u128, h: u128)
    by (bit_vector)
    requires
        1 <= h <= 64,
        lo >> h == 0,
        hi >> h == 0,
    ensures
        h == 64 || (lo | (hi << h)) >> ((2 * h) as u128) == 0,
{
}

proof fn lemma_mask_fits(a: u128, h: u128)
    by (bit_vector)
    requires
        1 <= h <= 64,
    ensures
        (a & (((1u128 << h) - 1) as u128)) >> h == 0,
        ((a >> h) & (((1u128 << h) - 1) as u128)) >> h == 0,
{
}

/// `alpha * x` stays within its level.
pub proof fn lemma_mul_alpha_fits(k: nat, a: u128)
    requires
        k <= 7,
        fits(k, a),
    ensures
        fits(k, tower_mul_alpha(k, a)),
    decreases k,
{
    if k > 0 {
        let km = (k - 1) as nat;
        let h = half_bits(k);
        lemma_mask_fits(a, h);
        assert(level_bits(km) == h);
        lemma_mul_alpha_fits(km, hi_half(k, a));
        lemma_xor_fits(lo_half(k, a), tower_mul_alpha(km, hi_half(k, a)), h);
        lemma_join_fits(hi_half(k, a), lo_half(k, a) ^ tower_mul_alpha(km, hi_half(k, a)), h);
    }
}

/// A product stays within its level.
pub proof fn lemma_mul_fits(k: nat, a: u128, b: u128)
    requires
        k <= 7,
    ensures
        fits(k, tower_mul(k, a, b)),
    decreases k,
{
    if k > 0 {
        let km = (k - 1) as nat;
        let h = half_bits(k);
        lemma_mask_fits(a, h);
        lemma_mask_fits(b, h);
        assert(level_bits(km) == h);
        let z0 = tower_mul(km, lo_half(k, a), lo_half(k, b));
        let z2 = tower_mul(km, hi_half(k, a), hi_half(k, b));
        let zm = tower_mul(km, lo_half(k, a) ^ hi_half(k, a), lo_half(k, b) ^ hi_half(k, b));
        lemma_mul_fits(km, lo_half(k, a), lo_half(k, b));
        lemma_mul_fits(km, hi_half(k, a), hi_half(k, b));
        lemma_mul_fits(km, lo_half(k, a) ^ hi_half(k, a), lo_half(k, b) ^ hi_half(k, b));
        lemma_mul_alpha_fits(km, z2);
        let za = tower_mul_alpha(km, z2);
        lemma_xor_fits(z0, z2, h);
        lemma_xor_fits(zm, z0, h);
        lemma_xor_fits(zm ^ z0, z2, h);
        lemma_xor_fits(zm ^ z0 ^ z2, za, h);
        lemma_join_fits(z0 ^ z2, zm ^ z0 ^ z2 ^ za, h);
    } else {
        assert((a & b & 1u128) >> 1u128 == 0) by (bit_vector);
    }
}

/// An inverse stays within its level.
pub proof fn lemma_inv_fits(k: nat, a: u128)
    requires
        k <= 7,
        fits(k, a),
    ensures
        fits(k, tower_inv(k, a)),
    decreases k,
{
    if k > 0 {
        let km = (k - 1) as nat;
        let h = half_bits(k);
        let a0 = lo_half(k, a);
        let a1 = hi_half(k, a);
        let c0 = a0 ^ tower_mul_alpha(km, a1);
        let delta = tower_mul(km, a0, c0) ^ tower_mul(km, a1, a1);
        let d = tower_inv(km, delta);
        assert(level_bits(km) == h);
        lemma_mul_fits(km, a0, c0);
        lemma_mul_fits(km, a1, a1);
        lemma_xor_fits(tower_mul(km, a0, c0), tower_mul(km, a1, a1), h);
        lemma_inv_fits(km, delta);
        lemma_mul_fits(km, c0, d);
        lemma_mul_fits(km, a1, d);
        lemma_join_fits(tower_mul(km, c0, d), tower_mul(km, a1, d), h);
    }
}

fn half_width(k: u32) -> (h: u128)
    requires
        1 <= k <= 7,
    ensures
        h == half_bits(k as nat),
        1 <= h <= 64,
{
    if k == 1 {
        1
    } else if k == 2 {
        2
    } else if k == 3 {
        4
    } else if k == 4 {
        8
    } else if k == 5 {
        16
    } else if k == 6 {
        32
    } else {
        64
    }
}

fn split_halves(k: u32, a: u128) -> (r: (u128, u128))
    requires
        1 <= k <= 7,
    ensures
        r.0 == lo_half(k as nat, a),
        r.1 == hi_half(k as nat, a),
{
    let h = half_width(k);
    assert(1 <= h <= 64 ==> (1u128 << h) >= 1) by (bit_vector);
    let mask: u128 = (1u128 << h) - 1;
    (a & mask, (a >> h) & mask)
}

/// Multiplying by `alpha` sends zero to zero.
pub proof fn lemma_mul_alpha_zero(k: nat)
    ensures
        tower_mul_alpha(k, 0) == 0,
    decreases k,
{
    if k > 0 {
        lemma_mul_alpha_zero((k - 1) as nat);
        lemma_halves_of_small(half_bits(k));
        assert(0u128 ^ 0u128 == 0u128) by (bit_vector);
    }
}

/// Zero absorbs multiplication: `x * 0 == 0`.
pub proof fn lemma_mul_zero(k: nat, a: u128)
    ensures
        tower_mul(k, a, 0) == 0,
    decreases k,
{
    if k > 0 {
        let km = (k - 1) as nat;
        lemma_halves_of_small(half_bits(k));
        lemma_mul_zero(km, lo_half(k, a));
        lemma_mul_zero(km, hi_half(k, a));
        lemma_mul_zero(km, lo_half(k, a) ^ hi_half(k, a));
        lemma_mul_alpha_zero(km);
        assert(0u128 ^ 0u128 == 0u128) by (bit_vector);
    } else {
        assert(a & 0u128 & 1u128 == 0u128) by (bit_vector);
    }
}

/// One is the multiplicative identity: `x * 1 == x`.
pub proof fn lemma_mul_one(k: nat, a: u128)
    requires
        k <= 7,
        fits(k, a),
    ensures
        tower_mul(k, a, 1) == a,
    decreases k,
{
    if k > 0 {
        let km = (k - 1) as nat;
        let h = half_bits(k);
        let a0 = lo_half(k, a);
        let a1 = hi_half(k, a);
        lemma_halves_of_small(h);
        lemma_split_join(a, h);
        assert(level_bits(km) == h);
        lemma_xor_fits(a0, a1, h);
        lemma_mul_one(km, a0);
        lemma_mul_zero(km, a1);
        lemma_mul_one(km, a0 ^ a1);
        lemma_mul_alpha_zero(km);
        assert(1u128 ^ 0u128 == 1u128) by (bit_vector);
        assert(a0 ^ 0u128 == a0) by (bit_vector);
    } else {
        assert(a >> 1u128 == 0 ==> a & 1u128 & 1u128 == a) by (bit_vector);
    }
}

/// Inversion sends zero to zero.
pub proof fn lemma_inv_zero(k: nat)
    ensures
        tower_inv(k, 0) == 0,
    decreases k,
{
    if k > 0 {
        let km = (k - 1) as nat;
        lemma_halves_of_small(half_bits(k));
        lemma_mul_alpha_zero(km);
        lemma_mul_zero(km, 0);
        lemma_inv_zero(km);
        assert(0u128 ^ 0u128 == 0u128) by (bit_vector);
    }
}

fn join(k: u32, lo: u128, hi: u128) -> (r: u128)
    requires
        1 <= k <= 7,
    ensures
        r == join_halves(k as nat, lo, hi),
{
    let h = half_width(k);
    lo | (hi << h)
}

/// Multiplies an element of level `k` by that level's `alpha`.
pub fn mul_alpha_at(k: u32, a: u128) -> (r: u128)
    requires
        k <= 7,
    ensures
        r == tower_mul_alpha(k as nat, a),
    decreases k,
{
    if k == 0 {
        a
    } else {
        let (a0, a1) = split_halves(k, a);
        let t = mul_alpha_at(k - 1, a1);
        join(k, a1, a0 ^ t)
    }
}

/// Multiplies two elements of level `k` by the tower recurrence.
pub fn mul_at(k: u32, a: u128, b: u128) -> (r: u128)
    requires
        k <= 7,
    ensures
        r == tower_mul(k as nat, a, b),
    decreases k,
{
    if k == 0 {
        a & b & 1
    } else {
        let (a0, a1) = split_halves(k, a);
        let (b0, b1) = split_halves(k, b);
        let z0 = mul_at(k - 1, a0, b0);
        let z2 = mul_at(k - 1, a1, b1);
        let zm = mul_at(k - 1, a0 ^ a1, b0 ^ b1);
        let za = mul_alpha_at(k - 1, z2);
        join(k, z0 ^ z2, zm ^ z0 ^ z2 ^ za)
    }
}

/// Inverts an element of level `k`, sending zero to zero.
pub fn inv_at(k: u32, a: u128) -> (r: u128)
    requires
        k <= 7,
    ensures
        r == tower_inv(k as nat, a),
    decreases k,
{
    if k == 0 {
        a
    } else {
        let (a0, a1) = split_halves(k, a);
        let c0 = a0 ^ mul_alpha_at(k - 1, a1);
        let delta = mul_at(k - 1, a0, c0) ^ mul_at(k - 1, a1, a1);
        let d = inv_at(k - 1, delta);
        let lo = mul_at(k - 1, c0, d);
        let hi = mul_at(k - 1, a1, d);
        join(k, lo, hi)
    }
}

} // verus!
