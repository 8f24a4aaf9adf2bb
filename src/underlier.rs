//! The 512-bit underlier: four 128-bit limbs, limb 0 holding bits 0 to 127.
use vstd::prelude::*;

verus! {

/// Bit `t` of a 128-bit limb.
pub open spec fn limb_bit(v: u128, t: int) -> bool {
    (v >> (t as u128)) & 1 == 1
}

/// 512-bit value used as a container of packed field elements.
#[derive(Debug, Clone, Copy)]
pub struct M512(pub [u128; 4]);

/// Four 128-bit values laid out as one 512-bit value.
pub struct AlignedData(pub [u128; 4]);

impl M512 {
    /// Bit `i` of the value, for `i < 512`.
    pub open spec fn bit(&self, i: int) -> bool {
        limb_bit(self.0[i / 128], i % 128)
    }

    /// The bits, least significant first.
    pub open spec fn view(&self) -> Seq<bool> {
        Seq::new(512, |i: int| self.bit(i))
    }

    /// The value whose limbs are `value`, limb 0 least significant.
    pub fn from_u128s(value: [u128; 4]) -> (r: M512)
        ensures
            r.0 == value,
    {
        M512(value)
    }

    /// The value `value`, in limb 0.
    pub fn from_u128(value: u128) -> (r: M512)
        ensures
            r.0@ == seq![value, 0u128, 0u128, 0u128],
    {
        let r = M512([value, 0, 0, 0]);
        assert(r.0@ =~= seq![value, 0u128, 0u128, 0u128]);
        r
    }

    /// The value with every limb equal to `val`.
    pub fn from_equal_u128s(val: u128) -> (r: M512)
        ensures
            r.0@ == seq![val, val, val, val],
    {
        let r = M512([val, val, val, val]);
        assert(r.0@ =~= seq![val, val, val, val]);
        r
    }

    pub fn from_aligned(data: AlignedData) -> (r: M512)
        ensures
            r.0 == data.0,
    {
        M512(data.0)
    }

    /// The limbs.
    pub fn to_u128s(&self) -> (r: [u128; 4])
        ensures
            r == self.0,
    {
        self.0
    }

    pub fn zero() -> (r: M512)
        ensures
            r.0@ == seq![0u128, 0u128, 0u128, 0u128],
    {
        Self::from_equal_u128s(0)
    }

    /// The constant with limb 3 equal to one.
    pub fn one() -> (r: M512)
        ensures
            r.0@ == seq![0u128, 0u128, 0u128, 1u128],
    {
        let r = M512([0, 0, 0, 1]);
        assert(r.0@ =~= seq![0u128, 0u128, 0u128, 1u128]);
        r
    }

    pub fn ones() -> (r: M512)
        ensures
            r.0@ == seq![u128::MAX, u128::MAX, u128::MAX, u128::MAX],
    {
        Self::from_equal_u128s(u128::MAX)
    }

    /// Every bit set to `val`.
    pub fn fill_with_bit(val: u8) -> (r: M512)
        requires
            val <= 1,
        ensures
            forall|i: int| 0 <= i < 512 ==> #[trigger] r.bit(i) == (val == 1),
    {
        let limb: u128 = if val == 1 {
            u128::MAX
        } else {
            0
        };
        let r = Self::from_equal_u128s(limb);
        assert forall|i: int| 0 <= i < 512 implies #[trigger] r.bit(i) == (val == 1) by {
            let t = (i % 128) as u128;
            assert(t < 128 ==> ((u128::MAX >> t) & 1 == 1) && ((0u128 >> t) & 1 == 0)) by (bit_vector);
        }
        r
    }

    pub fn bitand(self, rhs: M512) -> (r: M512)
        ensures
            forall|j: int| 0 <= j < 4 ==> #[trigger] r.0[j] == self.0[j] & rhs.0[j],
            forall|i: int| 0 <= i < 512 ==> #[trigger] r.bit(i) == (self.bit(i) && rhs.bit(i)),
    {
        let r = M512([self.0[0] & rhs.0[0], self.0[1] & rhs.0[1], self.0[2] & rhs.0[2], self.0[3] & rhs.0[3]]);
        assert forall|i: int| 0 <= i < 512 implies #[trigger] r.bit(i) == (self.bit(i) && rhs.bit(i)) by {
            lemma_bitwise_ops(self.0[i / 128], rhs.0[i / 128], i % 128);
        }
        r
    }

    pub fn bitor(self, rhs: M512) -> (r: M512)
        ensures
            forall|j: int| 0 <= j < 4 ==> #[trigger] r.0[j] == self.0[j] | rhs.0[j],
            forall|i: int| 0 <= i < 512 ==> #[trigger] r.bit(i) == (self.bit(i) || rhs.bit(i)),
    {
        let r = M512([self.0[0] | rhs.0[0], self.0[1] | rhs.0[1], self.0[2] | rhs.0[2], self.0[3] | rhs.0[3]]);
        assert forall|i: int| 0 <= i < 512 implies #[trigger] r.bit(i) == (self.bit(i) || rhs.bit(i)) by {
            lemma_bitwise_ops(self.0[i / 128], rhs.0[i / 128], i % 128);
        }
        r
    }

    pub fn bitxor(self, rhs: M512) -> (r: M512)
        ensures
            forall|j: int| 0 <= j < 4 ==> #[trigger] r.0[j] == self.0[j] ^ rhs.0[j],
            forall|i: int| 0 <= i < 512 ==> #[trigger] r.bit(i) == (self.bit(i) != rhs.bit(i)),
    {
        let r = M512([self.0[0] ^ rhs.0[0], self.0[1] ^ rhs.0[1], self.0[2] ^ rhs.0[2], self.0[3] ^ rhs.0[3]]);
        assert forall|i: int| 0 <= i < 512 implies #[trigger] r.bit(i) == (self.bit(i) != rhs.bit(i)) by {
            lemma_bitwise_ops(self.0[i / 128], rhs.0[i / 128], i % 128);
        }
        r
    }

    pub fn not(self) -> (r: M512)
        ensures
            forall|j: int| 0 <= j < 4 ==> #[trigger] r.0[j] == !self.0[j],
            forall|i: int| 0 <= i < 512 ==> #[trigger] r.bit(i) == !self.bit(i),
    {
        let r = M512([!self.0[0], !self.0[1], !self.0[2], !self.0[3]]);
        assert forall|i: int| 0 <= i < 512 implies #[trigger] r.bit(i) == !self.bit(i) by {
            lemma_bitwise_ops(self.0[i / 128], self.0[i / 128], i % 128);
        }
        r
    }

    /// Limb `j` of the value shifted left by `128 q + s` bits.
    fn shl_limb(&self, q: usize, s: usize, j: usize) -> (r: u128)
        requires
            q < 4,
            s < 128,
            j < 4,
        ensures
            forall|t: int| 0 <= t < 128 ==> #[trigger] limb_bit(r, t) == (128 * q + s <= 128 * j + t && self.bit(
                128 * j + t - (128 * q + s),
            )),
    {
        let hi: u128 = if j >= q {
            self.0[j - q]
        } else {
            0
        };
        let lo: u128 = if j >= q + 1 {
            self.0[j - q - 1]
        } else {
            0
        };
        let r: u128 = if s == 0 {
            hi
        } else {
            (hi << (s as u128)) | (lo >> ((128 - s) as u128))
        };
        assert forall|t: int| 0 <= t < 128 implies #[trigger] limb_bit(r, t) == (128 * q + s <= 128 * j + t && self.bit(
            128 * j + t - (128 * q + s),
        )) by {
            lemma_shift_bits(hi, lo, s as u128, t as u128);
            let k = 128 * j + t - (128 * q + s);
            if t >= s {
                if s > 0 {
                    assert(limb_bit(r, t) == limb_bit(hi, t - s));
                } else {
                    assert(limb_bit(r, t) == limb_bit(hi, t));
                }
                if j >= q {
                    vstd::arithmetic::div_mod::lemma_fundamental_div_mod_converse(k, 128, j - q, t - s);
                    assert(self.bit(k) == limb_bit(self.0[j - q], t - s));
                } else {
                    lemma_shift_bits(0, 0, 0, (t - s) as u128);
                    assert(!limb_bit(hi, t - s));
                }
            } else {
                assert(limb_bit(r, t) == limb_bit(lo, t + 128 - s));
                if j >= q + 1 {
                    vstd::arithmetic::div_mod::lemma_fundamental_div_mod_converse(k, 128, j - q - 1, t + 128 - s);
                    assert(self.bit(k) == limb_bit(self.0[j - q - 1], t + 128 - s));
                } else {
                    lemma_shift_bits(0, 0, 0, (t + 128 - s) as u128);
                    assert(!limb_bit(lo, t + 128 - s));
                }
            }
        }
        r
    }

    /// Limb `j` of the value shifted right by `128 q + s` bits.
    fn shr_limb(&self, q: usize, s: usize, j: usize) -> (r: u128)
        requires
            q < 4,
            s < 128,
            j < 4,
        ensures
            forall|t: int| 0 <= t < 128 ==> #[trigger] limb_bit(r, t) == (128 * j + t + 128 * q + s < 512 && self.bit(
                128 * j + t + 128 * q + s,
            )),
    {
        let hi: u128 = if j + q < 4 {
            self.0[j + q]
        } else {
            0
        };
        let lo: u128 = if j + q + 1 < 4 {
            self.0[j + q + 1]
        } else {
            0
        };
        let r: u128 = if s == 0 {
            hi
        } else {
            (hi >> (s as u128)) | (lo << ((128 - s) as u128))
        };
        assert forall|t: int| 0 <= t < 128 implies #[trigger] limb_bit(r, t) == (128 * j + t + 128 * q + s < 512 && self.bit(
            128 * j + t + 128 * q + s,
        )) by {
            lemma_shift_bits(lo, hi, s as u128, t as u128);
            let k = 128 * j + t + 128 * q + s;
            if t + s < 128 {
                if s > 0 {
                    assert(limb_bit(r, t) == limb_bit(hi, t + s));
                }
                vstd::arithmetic::div_mod::lemma_fundamental_div_mod_converse(k, 128, j + q, t + s);
                if j + q < 4 {
                    assert(self.bit(k) == limb_bit(self.0[j + q], t + s));
                } else {
                    lemma_shift_bits(0, 0, 0, (t + s) as u128);
                }
            } else {
                assert(limb_bit(r, t) == limb_bit(lo, t + s - 128));
                vstd::arithmetic::div_mod::lemma_fundamental_div_mod_converse(k, 128, j + q + 1, t + s - 128);
                if j + q + 1 < 4 {
                    assert(self.bit(k) == limb_bit(self.0[j + q + 1], t + s - 128));
                } else {
                    lemma_shift_bits(0, 0, 0, (t + s - 128) as u128);
                }
            }
        }
        r
    }

    /// Logical left shift; bits shifted past the top are dropped.
    pub fn shl(self, rhs: usize) -> (r: M512)
        ensures
            forall|i: int| 0 <= i < 512 ==> #[trigger] r.bit(i) == (rhs <= i && self.bit(i - rhs)),
    {
        if rhs >= 512 {
            let r = Self::zero();
            assert forall|i: int| 0 <= i < 512 implies #[trigger] r.bit(i) == (rhs <= i && self.bit(i - rhs)) by {
                lemma_shift_bits(0, 0, 0, (i % 128) as u128);
            }
            return r;
        }
        let q = rhs / 128;
        let s = rhs % 128;
        let r = M512([self.shl_limb(q, s, 0), self.shl_limb(q, s, 1), self.shl_limb(q, s, 2), self.shl_limb(q, s, 3)]);
        assert forall|i: int| 0 <= i < 512 implies #[trigger] r.bit(i) == (rhs <= i && self.bit(i - rhs)) by {
            vstd::arithmetic::div_mod::lemma_fundamental_div_mod(i, 128);
            let j = i / 128;
            let t = i % 128;
            assert(limb_bit(r.0[j], t) == (128 * q + s <= 128 * j + t && self.bit(128 * j + t - (128 * q + s))));
        }
        r
    }

    /// Logical right shift; bits shifted past the bottom are dropped.
    pub fn shr(self, rhs: usize) -> (r: M512)
        ensures
            forall|i: int| 0 <= i < 512 ==> #[trigger] r.bit(i) == (i + rhs < 512 && self.bit(i + rhs)),
    {
        if rhs >= 512 {
            let r = Self::zero();
            assert forall|i: int| 0 <= i < 512 implies #[trigger] r.bit(i) == (i + rhs < 512 && self.bit(i + rhs)) by {
                lemma_shift_bits(0, 0, 0, (i % 128) as u128);
            }
            return r;
        }
        let q = rhs / 128;
        let s = rhs % 128;
        let r = M512([self.shr_limb(q, s, 0), self.shr_limb(q, s, 1), self.shr_limb(q, s, 2), self.shr_limb(q, s, 3)]);
        assert forall|i: int| 0 <= i < 512 implies #[trigger] r.bit(i) == (i + rhs < 512 && self.bit(i + rhs)) by {
            vstd::arithmetic::div_mod::lemma_fundamental_div_mod(i, 128);
            let j = i / 128;
            let t = i % 128;
            assert(limb_bit(r.0[j], t) == (128 * j + t + 128 * q + s < 512 && self.bit(128 * j + t + 128 * q + s)));
        }
        r
    }

    /// `b` when `choice` is set, else `a`.
    pub fn conditional_select(a: &M512, b: &M512, choice: bool) -> (r: M512)
        ensures
            r == if choice { *b } else { *a },
    {
        if choice {
            *b
        } else {
            *a
        }
    }

    /// Equality of all 512 bits.
    pub fn eq(&self, other: &M512) -> (r: bool)
        ensures
            r == (self.0 == other.0),
    {
        let r = self.0[0] == other.0[0] && self.0[1] == other.0[1] && self.0[2] == other.0[2] && self.0[3]
            == other.0[3];
        if r {
            assert(self.0 =~= other.0);
        }
        r
    }
}

/// Width in bits of one interleaving block.
pub open spec fn block_width(log_block_len: nat) -> u128 {
    if log_block_len == 0 {
        1
    } else if log_block_len == 1 {
        2
    } else if log_block_len == 2 {
        4
    } else if log_block_len == 3 {
        8
    } else if log_block_len == 4 {
        16
    } else if log_block_len == 5 {
        32
    } else {
        64
    }
}

/// The bits of the even blocks of a 128-bit limb, for blocks of `block_width(log_block_len)` bits.
pub open spec fn even_block_mask(log_block_len: nat) -> u128 {
    if log_block_len == 0 {
        0x55555555555555555555555555555555u128
    } else if log_block_len == 1 {
        0x33333333333333333333333333333333u128
    } else if log_block_len == 2 {
        0x0f0f0f0f0f0f0f0f0f0f0f0f0f0f0f0fu128
    } else if log_block_len == 3 {
        0x00ff00ff00ff00ff00ff00ff00ff00ffu128
    } else if log_block_len == 4 {
        0x0000ffff0000ffff0000ffff0000ffffu128
    } else if log_block_len == 5 {
        0x00000000ffffffff00000000ffffffffu128
    } else {
        0x0000000000000000ffffffffffffffffu128
    }
}

/// Bit `t` lies in an even-numbered block of width `w` (a power of two).
pub open spec fn in_even_block(t: int, w: u128) -> bool {
    (t as u128) & w == 0
}

/// The limbs `a` and `b` with their odd blocks of `a` and even blocks of `b` exchanged.
pub open spec fn interleave_limbs(a: u128, b: u128, w: u128, m: u128) -> (u128, u128) {
    let t = ((a >> w) ^ b) & m;
    (a ^ (t << w), b ^ t)
}

proof fn lemma_interleave_limb_bits(a: u128, b: u128, w: u128, m: u128, t: u128)
    by (bit_vector)
    requires
        (w == 1 && m == 0x55555555555555555555555555555555u128) || (w == 2 && m
            == 0x33333333333333333333333333333333u128) || (w == 4 && m == 0x0f0f0f0f0f0f0f0f0f0f0f0f0f0f0f0fu128) || (
        w == 8 && m == 0x00ff00ff00ff00ff00ff00ff00ff00ffu128) || (w == 16 && m
            == 0x0000ffff0000ffff0000ffff0000ffffu128) || (w == 32 && m == 0x00000000ffffffff00000000ffffffffu128) || (
        w == 64 && m == 0x0000000000000000ffffffffffffffffu128),
        t < 128,
    ensures
        (((a ^ ((((a >> w) ^ b) & m) << w)) >> t) & 1) == if t & w == 0 {
            (a >> t) & 1
        } else {
            (b >> ((t - w) as u128)) & 1
        },
        (((b ^ (((a >> w) ^ b) & m)) >> t) & 1) == if t & w == 0 {
            (a >> ((t + w) as u128)) & 1
        } else {
            (b >> t) & 1
        },
{
}

proof fn lemma_interleave_limb_twice(a: u128, b: u128, w: u128, m: u128)
    by (bit_vector)
    requires
        (w == 1 && m == 0x55555555555555555555555555555555u128) || (w == 2 && m
            == 0x33333333333333333333333333333333u128) || (w == 4 && m == 0x0f0f0f0f0f0f0f0f0f0f0f0f0f0f0f0fu128) || (
        w == 8 && m == 0x00ff00ff00ff00ff00ff00ff00ff00ffu128) || (w == 16 && m
            == 0x0000ffff0000ffff0000ffff0000ffffu128) || (w == 32 && m == 0x00000000ffffffff00000000ffffffffu128) || (
        w == 64 && m == 0x0000000000000000ffffffffffffffffu128),
    ensures
        ({
            let a1 = a ^ ((((a >> w) ^ b) & m) << w);
            let b1 = b ^ (((a >> w) ^ b) & m);
            a1 ^ ((((a1 >> w) ^ b1) & m) << w) == a && b1 ^ (((a1 >> w) ^ b1) & m) == b
        }),
{
}

pub fn interleave_limb(a: u128, b: u128, log_block_len: usize) -> (r: (u128, u128))
    requires
        log_block_len < 7,
    ensures
        r == interleave_limbs(a, b, block_width(log_block_len as nat), even_block_mask(log_block_len as nat)),
        forall|t: int| 0 <= t < 128 ==> #[trigger] limb_bit(r.0, t) == if in_even_block(t, block_width(log_block_len as nat)) {
            limb_bit(a, t)
        } else {
            limb_bit(b, t - block_width(log_block_len as nat))
        },
        forall|t: int| 0 <= t < 128 ==> #[trigger] limb_bit(r.1, t) == if in_even_block(t, block_width(log_block_len as nat)) {
            limb_bit(a, t + block_width(log_block_len as nat))
        } else {
            limb_bit(b, t)
        },
{
    let (w, m): (u128, u128) = if log_block_len == 0 {
        (1, 0x55555555555555555555555555555555u128)
    } else if log_block_len == 1 {
        (2, 0x33333333333333333333333333333333u128)
    } else if log_block_len == 2 {
        (4, 0x0f0f0f0f0f0f0f0f0f0f0f0f0f0f0f0fu128)
    } else if log_block_len == 3 {
        (8, 0x00ff00ff00ff00ff00ff00ff00ff00ffu128)
    } else if log_block_len == 4 {
        (16, 0x0000ffff0000ffff0000ffff0000ffffu128)
    } else if log_block_len == 5 {
        (32, 0x00000000ffffffff00000000ffffffffu128)
    } else {
        (64, 0x0000000000000000ffffffffffffffffu128)
    };
    let t = ((a >> w) ^ b) & m;
    let r = (a ^ (t << w), b ^ t);
    assert forall|i: int| 0 <= i < 128 implies #[trigger] limb_bit(r.0, i) == if in_even_block(i, w) {
        limb_bit(a, i)
    } else {
        limb_bit(b, i - w)
    } && limb_bit(r.1, i) == if in_even_block(i, w) {
        limb_bit(a, i + w)
    } else {
        limb_bit(b, i)
    } by {
        lemma_interleave_limb_bits(a, b, w, m, i as u128);
    }
    assert forall|i: int| 0 <= i < 128 implies #[trigger] limb_bit(r.1, i) == if in_even_block(i, w) {
        limb_bit(a, i + w)
    } else {
        limb_bit(b, i)
    } by {
        lemma_interleave_limb_bits(a, b, w, m, i as u128);
    }
    r
}

impl M512 {
    /// Exchanges the odd blocks of `self` with the even blocks of `other`, for
    /// blocks of `2^log_block_len` bits: within each limb, bit `t` of the first
    /// result is bit `t` of `self` in an even block and bit `t - w` of `other`
    /// in an odd block; bit `t` of the second is bit `t + w` of `self` in an
    /// even block and bit `t` of `other` in an odd block (`w` the block width).
    pub fn interleave(self, other: M512, log_block_len: usize) -> (r: (M512, M512))
        requires
            log_block_len < 7,
        ensures
            forall|j: int| 0 <= j < 4 ==> (#[trigger] r.0.0[j], r.1.0[j]) == interleave_limbs(
                self.0[j],
                other.0[j],
                block_width(log_block_len as nat),
                even_block_mask(log_block_len as nat),
            ),
            forall|j: int, t: int| 0 <= j < 4 && 0 <= t < 128 ==> #[trigger] limb_bit(r.0.0[j], t) == if in_even_block(t, block_width(log_block_len as nat)) {
                limb_bit(self.0[j], t)
            } else {
                limb_bit(other.0[j], t - block_width(log_block_len as nat))
            },
            forall|j: int, t: int| 0 <= j < 4 && 0 <= t < 128 ==> #[trigger] limb_bit(r.1.0[j], t) == if in_even_block(t, block_width(log_block_len as nat)) {
                limb_bit(self.0[j], t + block_width(log_block_len as nat))
            } else {
                limb_bit(other.0[j], t)
            },
    {
        let (a0, b0) = interleave_limb(self.0[0], other.0[0], log_block_len);
        let (a1, b1) = interleave_limb(self.0[1], other.0[1], log_block_len);
        let (a2, b2) = interleave_limb(self.0[2], other.0[2], log_block_len);
        let (a3, b3) = interleave_limb(self.0[3], other.0[3], log_block_len);
        (M512([a0, a1, a2, a3]), M512([b0, b1, b2, b3]))
    }
}

/// Interleaving twice with the same block size gives back the inputs.
pub proof fn lemma_interleave_round_trip(x: M512, y: M512, log_block_len: nat)
    requires
        log_block_len < 7,
    ensures
        forall|j: int| 0 <= j < 4 ==> {
            let first = #[trigger] interleave_limbs(x.0[j], y.0[j], block_width(log_block_len), even_block_mask(log_block_len));
            interleave_limbs(first.0, first.1, block_width(log_block_len), even_block_mask(log_block_len)) == (x.0[j], y.0[j])
        },
{
    assert forall|j: int| 0 <= j < 4 implies {
        let first = #[trigger] interleave_limbs(x.0[j], y.0[j], block_width(log_block_len), even_block_mask(log_block_len));
        interleave_limbs(first.0, first.1, block_width(log_block_len), even_block_mask(log_block_len)) == (x.0[j], y.0[j])
    } by {
        lemma_interleave_limb_twice(x.0[j], y.0[j], block_width(log_block_len), even_block_mask(log_block_len));
    }
}

impl From<[u128; 4]> for M512 {
    fn from(value: [u128; 4]) -> (r: M512) {
        M512(value)
    }
}

impl vstd::std_specs::convert::FromSpecImpl<[u128; 4]> for M512 {
    open spec fn obeys_from_spec() -> bool {
        true
    }

    open spec fn from_spec(v: [u128; 4]) -> M512 {
        M512(v)
    }
}

impl From<u128> for M512 {
    fn from(value: u128) -> (r: M512) {
        M512([value, 0, 0, 0])
    }
}

impl vstd::std_specs::convert::FromSpecImpl<u128> for M512 {
    open spec fn obeys_from_spec() -> bool {
        true
    }

    open spec fn from_spec(v: u128) -> M512 {
        M512([v, 0, 0, 0])
    }
}

impl PartialEq for M512 {
    fn eq(&self, other: &M512) -> (r: bool) {
        M512::eq(self, other)
    }
}

impl vstd::std_specs::cmp::PartialEqSpecImpl for M512 {
    open spec fn obeys_eq_spec() -> bool {
        true
    }

    open spec fn eq_spec(&self, other: &M512) -> bool {
        self.0 == other.0
    }
}

impl Eq for M512 {}

/// Bits of limbs combined by a funnel shift.
proof fn lemma_shift_bits(hi: u128, lo: u128, s: u128, t: u128)
    requires
        s < 128,
        t < 128,
    ensures
        0 < s ==> ((((hi << s) | (lo >> ((128 - s) as u128))) >> t) & 1 == 1 <==> if t >= s {
            (hi >> ((t - s) as u128)) & 1 == 1
        } else {
            (lo >> ((t + 128 - s) as u128)) & 1 == 1
        }),
        0 < s ==> ((((lo >> s) | (hi << ((128 - s) as u128))) >> t) & 1 == 1 <==> if t + s < 128 {
            (lo >> ((t + s) as u128)) & 1 == 1
        } else {
            (hi >> ((t + s - 128) as u128)) & 1 == 1
        }),
        (0u128 >> t) & 1 == 0,
{
    if 0 < s && s <= t {
        assert((((hi << s) | (lo >> ((128 - s) as u128))) >> t) & 1 == (hi >> ((t - s) as u128)) & 1) by (bit_vector)
            requires
                0 < s <= t < 128,
        ;
    }
    if t < s {
        assert((((hi << s) | (lo >> ((128 - s) as u128))) >> t) & 1 == (lo >> ((t + 128 - s) as u128)) & 1) by (bit_vector)
            requires
                t < s < 128,
        ;
    }
    if 0 < s && t + s < 128 {
        assert((((lo >> s) | (hi << ((128 - s) as u128))) >> t) & 1 == (lo >> ((t + s) as u128)) & 1) by (bit_vector)
            requires
                0 < s,
                t + s < 128,
        ;
    }
    if s < 128 && t < 128 && t + s >= 128 {
        assert((((lo >> s) | (hi << ((128 - s) as u128))) >> t) & 1 == (hi >> ((t + s - 128) as u128)) & 1) by (bit_vector)
            requires
                s < 128,
                t < 128,
                t + s >= 128,
        ;
    }
    assert((0u128 >> t) & 1 == 0) by (bit_vector);
}

/// Bitwise operations act bit by bit: for every bit position, the bit of
/// `x & y` is the conjunction, of `x | y` the disjunction, of `x ^ y` the
/// exclusive or, and of `!x` the negation, of the bits of `x` and `y`.
pub proof fn lemma_bitwise_ops(x: u128, y: u128, t: int)
    requires
        0 <= t < 128,
    ensures
        limb_bit(x & y, t) == (limb_bit(x, t) && limb_bit(y, t)),
        limb_bit(x | y, t) == (limb_bit(x, t) || limb_bit(y, t)),
        limb_bit(x ^ y, t) == (limb_bit(x, t) != limb_bit(y, t)),
        limb_bit(!x, t) == !limb_bit(x, t),
{
    let tt = t as u128;
    assert(tt < 128 ==> {
        &&& (((x & y) >> tt) & 1 == 1) == (((x >> tt) & 1 == 1) && ((y >> tt) & 1 == 1))
        &&& (((x | y) >> tt) & 1 == 1) == (((x >> tt) & 1 == 1) || ((y >> tt) & 1 == 1))
        &&& (((x ^ y) >> tt) & 1 == 1) == (((x >> tt) & 1 == 1) != ((y >> tt) & 1 == 1))
        &&& (((!x) >> tt) & 1 == 1) == !((x >> tt) & 1 == 1)
    }) by (bit_vector);
}

} // verus!
