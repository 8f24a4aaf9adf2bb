//! Packed tower-field elements: a 128-bit underlier holding `128 / 2^k`
//! lanes of the tower field of level `k`, lane 0 in the least significant bits.
use vstd::prelude::*;
use crate::field::FieldError;
use crate::tower::{fits, level_bits, lemma_xor_fits, inv_at, lemma_inv_fits, lemma_mul_alpha_fits, lemma_mul_fits, mul_alpha_at, mul_at, tower_inv, tower_mul, tower_mul_alpha};
use crate::underlier::{block_width, interleave_limb, limb_bit, in_even_block};

verus! {

/// Bits per lane at scalar level `k`.
pub open spec fn lane_bits(k: nat) -> u128 {
    if k >= 7 {
        128
    } else {
        block_width(k)
    }
}

/// Mask of the low `lane_bits(k)` bits.
pub open spec fn lane_mask(k: nat) -> u128 {
    if k == 0 {
        1
    } else if k == 1 {
        3
    } else if k == 2 {
        0xf
    } else if k == 3 {
        0xff
    } else if k == 4 {
        0xffff
    } else if k == 5 {
        0xffff_ffff
    } else if k == 6 {
        0xffff_ffff_ffff_ffff
    } else {
        u128::MAX
    }
}

/// Number of lanes at scalar level `k`.
pub open spec fn lane_count(k: nat) -> nat {
    if k == 0 {
        128
    } else if k == 1 {
        64
    } else if k == 2 {
        32
    } else if k == 3 {
        16
    } else if k == 4 {
        8
    } else if k == 5 {
        4
    } else if k == 6 {
        2
    } else {
        1
    }
}

/// Lane `i` of `x` at scalar level `k`.
pub open spec fn lane_of(x: u128, k: nat, i: nat) -> u128 {
    if k >= 7 {
        x
    } else {
        (x >> ((i * lane_bits(k)) as u128)) & lane_mask(k)
    }
}

/// `x` with lane `i` replaced by the low bits of `v`.
pub open spec fn with_lane(x: u128, k: nat, i: nat, v: u128) -> u128 {
    if k >= 7 {
        v
    } else {
        let s = (i * lane_bits(k)) as u128;
        (x & !(lane_mask(k) << s)) | ((v & lane_mask(k)) << s)
    }
}

#[verifier::rlimit(100)]
proof fn lemma_lane_update(x: u128, v: u128, s: u128, s2: u128, w: u128, m: u128)
    by (bit_vector)
    requires
        (w == 1 && m == 1) || (w == 2 && m == 3) || (w == 4 && m == 0xf) || (w == 8 && m == 0xff) || (w == 16 && m
            == 0xffff) || (w == 32 && m == 0xffff_ffff) || (w == 64 && m == 0xffff_ffff_ffff_ffff),
        s + w <= 128,
        s2 + w <= 128,
        s == s2 || s + w <= s2 || s2 + w <= s,
    ensures
        (((x & !(m << s)) | ((v & m) << s)) >> s2) & m == if s == s2 {
            v & m
        } else {
            (x >> s2) & m
        },
        v >> w == 0 ==> v & m == v,
        ((x >> s2) & m) >> w == 0,
{
}

proof fn lemma_lane_positions(i: nat, j: nat, w: nat, n: nat)
    requires
        i < n,
        j < n,
        n * w == 128,
        w > 0,
    ensures
        i * w + w <= 128,
        i == j || i * w + w <= j * w || j * w + w <= i * w,
        i != j ==> i * w != j * w,
{
    assert(i * w + w <= 128) by (nonlinear_arith)
        requires
            i < n,
            n * w == 128,
            w > 0,
    ;
    if i < j {
        assert(i * w + w <= j * w) by (nonlinear_arith)
            requires
                i < j,
                w > 0,
        ;
    }
    if j < i {
        assert(j * w + w <= i * w) by (nonlinear_arith)
            requires
                j < i,
                w > 0,
        ;
    }
}

proof fn lemma_lane_geometry(k: nat)
    requires
        k < 7,
    ensures
        lane_count(k) * (lane_bits(k) as nat) == 128,
        lane_bits(k) as nat == crate::tower::level_bits(k),
        lane_bits(k) > 0,
{
}

proof fn lemma_lane_geometry_pos(k: nat)
    ensures
        lane_count(k) >= 1,
{
}

/// Reading lane `j` after writing lane `i`.
pub proof fn lemma_get_set(x: u128, k: nat, i: nat, j: nat, v: u128)
    requires
        k <= 7,
        i < lane_count(k),
        j < lane_count(k),
    ensures
        lane_of(with_lane(x, k, i, v), k, j) == if i == j {
            v & lane_mask(k)
        } else {
            lane_of(x, k, j)
        },
        fits(k, v) ==> v & lane_mask(k) == v,
        fits(k, lane_of(x, k, j)),
{
    if k < 7 {
        lemma_lane_geometry(k);
        let w = lane_bits(k) as nat;
        lemma_lane_positions(i, j, w, lane_count(k));
        lemma_lane_positions(j, i, w, lane_count(k));
        lemma_lane_update(x, v, (i * w) as u128, (j * w) as u128, w as u128, lane_mask(k));
    } else {
        assert(lane_count(k) == 1);
        assert(v & u128::MAX == v) by (bit_vector);
    }
}

/// Packed elements of the tower field of level `level`.
#[derive(Debug, Clone, Copy, PartialEq, Eq, Structural)]
pub struct PackedPrimitiveType {
    pub underlier: u128,
    pub level: u32,
}

impl PackedPrimitiveType {
    pub open spec fn wf(&self) -> bool {
        self.level <= 7
    }

    /// Number of lanes.
    pub open spec fn width_spec(&self) -> nat {
        lane_count(self.level as nat)
    }

    /// Lane `i`.
    pub open spec fn lane(&self, i: nat) -> u128 {
        lane_of(self.underlier, self.level as nat, i)
    }

    /// The lanes.
    pub open spec fn lanes(&self) -> Seq<u128> {
        Seq::new(self.width_spec(), |i: int| self.lane(i as nat))
    }

    /// Base-2 logarithm of the number of lanes.
    pub fn log_width(&self) -> (r: usize)
        requires
            self.wf(),
        ensures
            r == 7 - self.level,
    {
        (7 - self.level) as usize
    }

    /// Number of lanes.
    pub fn width(&self) -> (r: usize)
        requires
            self.wf(),
        ensures
            r == self.width_spec(),
    {
        let k = self.level;
        if k == 0 {
            128
        } else if k == 1 {
            64
        } else if k == 2 {
            32
        } else if k == 3 {
            16
        } else if k == 4 {
            8
        } else if k == 5 {
            4
        } else if k == 6 {
            2
        } else {
            1
        }
    }

    /// All lanes zero.
    pub fn zero(level: u32) -> (r: Self)
        requires
            level <= 7,
        ensures
            r.wf(),
            r.level == level,
            forall|i: nat| i < r.width_spec() ==> #[trigger] r.lane(i) == 0,
    {
        let r = PackedPrimitiveType { underlier: 0, level };
        assert forall|i: nat| i < r.width_spec() implies #[trigger] r.lane(i) == 0 by {
            if level < 7 {
                lemma_lane_geometry(level as nat);
                let w = lane_bits(level as nat);
                let s = (i * (w as nat)) as u128;
                assert((0u128 >> s) & lane_mask(level as nat) == 0) by (bit_vector);
            }
        }
        r
    }

    /// Lane `i`, or an error past the last lane.
    pub fn get_checked(&self, i: usize) -> (r: Result<u128, FieldError>)
        requires
            self.wf(),
        ensures
            i < self.width_spec() ==> r == Ok::<u128, FieldError>(self.lane(i as nat)),
            i >= self.width_spec() ==> r == Err::<u128, FieldError>(
                FieldError::IndexOutOfRange { index: i, max: self.width_spec() as usize },
            ),
    {
        let width = self.width();
        if i >= width {
            return Err(FieldError::IndexOutOfRange { index: i, max: width });
        }
        Ok(self.get(i))
    }

    /// Lane `i`.
    pub fn get(&self, i: usize) -> (r: u128)
        requires
            self.wf(),
            i < self.width_spec(),
        ensures
            r == self.lane(i as nat),
            fits(self.level as nat, r),
    {
        proof {
            lemma_get_set(self.underlier, self.level as nat, i as nat, i as nat, 0);
        }
        if self.level == 7 {
            self.underlier
        } else {
            let w = lane_width(self.level);
            proof {
                lemma_lane_geometry(self.level as nat);
                lemma_lane_positions(i as nat, i as nat, w as nat, lane_count(self.level as nat));
            }
            let mask = lane_mask_exec(self.level);
            (self.underlier >> ((i as u128) * w)) & mask
        }
    }

    /// Replaces lane `i` with `v`, leaving the other lanes unchanged.
    pub fn set(&mut self, i: usize, v: u128)
        requires
            old(self).wf(),
            i < old(self).width_spec(),
            fits(old(self).level as nat, v),
        ensures
            final(self).wf(),
            final(self).level == old(self).level,
            final(self).underlier == with_lane(old(self).underlier, old(self).level as nat, i as nat, v),
            forall|j: nat| j < final(self).width_spec() ==> #[trigger] final(self).lane(j) == if j == i {
                v
            } else {
                old(self).lane(j)
            },
    {
        let ghost before = *self;
        if self.level == 7 {
            self.underlier = v;
        } else {
            let w = lane_width(self.level);
            proof {
                lemma_lane_geometry(self.level as nat);
                lemma_lane_positions(i as nat, i as nat, w as nat, lane_count(self.level as nat));
            }
            let mask = lane_mask_exec(self.level);
            let s: u128 = (i as u128) * w;
            self.underlier = (self.underlier & !(mask << s)) | ((v & mask) << s);
        }
        assert forall|j: nat| j < self.width_spec() implies #[trigger] self.lane(j) == if j == i {
            v
        } else {
            before.lane(j)
        } by {
            lemma_get_set(before.underlier, before.level as nat, i as nat, j, v);
        }
    }

    /// Lane-wise sum.
    pub fn add(&self, rhs: &Self) -> (r: Self)
        requires
            self.wf(),
            rhs.level == self.level,
        ensures
            r.wf(),
            r.level == self.level,
            forall|i: nat| i < self.width_spec() ==> #[trigger] r.lane(i) == self.lane(i) ^ rhs.lane(i),
    {
        let level = self.level;
        let width = self.width();
        let mut r = Self::zero(level);
        let mut i: usize = 0;
        while i < width
            invariant
                self.wf(),
                rhs.level == level,
                level == self.level,
                width == self.width_spec(),
                r.wf(),
                r.level == level,
                i <= width,
                forall|j: nat| j < i ==> #[trigger] r.lane(j) == self.lane(j) ^ rhs.lane(j),
            decreases width - i,
        {
            let a = self.get(i);
            let b = rhs.get(i);
            let v = a ^ b;
            proof {
                if level < 7 { lemma_xor_fits(a, b, level_bits(level as nat)); }
            }
            r.set(i, v);
            i = i + 1;
        }
        r
    }

    /// Lane-wise product.
    pub fn mul(&self, rhs: &Self) -> (r: Self)
        requires
            self.wf(),
            rhs.level == self.level,
        ensures
            r.wf(),
            r.level == self.level,
            forall|i: nat| i < self.width_spec() ==> #[trigger] r.lane(i) == tower_mul(self.level as nat, self.lane(i), rhs.lane(i)),
    {
        let level = self.level;
        let width = self.width();
        let mut r = Self::zero(level);
        let mut i: usize = 0;
        while i < width
            invariant
                self.wf(),
                rhs.level == level,
                level == self.level,
                width == self.width_spec(),
                r.wf(),
                r.level == level,
                i <= width,
                forall|j: nat| j < i ==> #[trigger] r.lane(j) == tower_mul(self.level as nat, self.lane(j), rhs.lane(j)),
            decreases width - i,
        {
            let a = self.get(i);
            let b = rhs.get(i);
            let v = mul_at(level, a, b);
            proof {
                lemma_mul_fits(level as nat, a, b);
            }
            r.set(i, v);
            i = i + 1;
        }
        r
    }

    /// Lane-wise square.
    pub fn square(&self) -> (r: Self)
        requires
            self.wf(),
        ensures
            r.wf(),
            r.level == self.level,
            forall|i: nat| i < self.width_spec() ==> #[trigger] r.lane(i) == tower_mul(self.level as nat, self.lane(i), self.lane(i)),
    {
        let level = self.level;
        let width = self.width();
        let mut r = Self::zero(level);
        let mut i: usize = 0;
        while i < width
            invariant
                self.wf(),
                level == self.level,
                width == self.width_spec(),
                r.wf(),
                r.level == level,
                i <= width,
                forall|j: nat| j < i ==> #[trigger] r.lane(j) == tower_mul(self.level as nat, self.lane(j), self.lane(j)),
            decreases width - i,
        {
            let a = self.get(i);
            let v = mul_at(level, a, a);
            proof {
                lemma_mul_fits(level as nat, a, a);
            }
            r.set(i, v);
            i = i + 1;
        }
        r
    }

    /// Lane-wise inverse, zero lanes staying zero.
    pub fn invert_or_zero(&self) -> (r: Self)
        requires
            self.wf(),
        ensures
            r.wf(),
            r.level == self.level,
            forall|i: nat| i < self.width_spec() ==> #[trigger] r.lane(i) == tower_inv(self.level as nat, self.lane(i)),
    {
        let level = self.level;
        let width = self.width();
        let mut r = Self::zero(level);
        let mut i: usize = 0;
        while i < width
            invariant
                self.wf(),
                level == self.level,
                width == self.width_spec(),
                r.wf(),
                r.level == level,
                i <= width,
                forall|j: nat| j < i ==> #[trigger] r.lane(j) == tower_inv(self.level as nat, self.lane(j)),
            decreases width - i,
        {
            let a = self.get(i);
            let v = inv_at(level, a);
            proof {
                lemma_inv_fits(level as nat, a);
            }
            r.set(i, v);
            i = i + 1;
        }
        r
    }

    /// Lane-wise product with the level's `alpha`.
    pub fn mul_alpha(&self) -> (r: Self)
        requires
            self.wf(),
        ensures
            r.wf(),
            r.level == self.level,
            forall|i: nat| i < self.width_spec() ==> #[trigger] r.lane(i) == tower_mul_alpha(self.level as nat, self.lane(i)),
    {
        let level = self.level;
        let width = self.width();
        let mut r = Self::zero(level);
        let mut i: usize = 0;
        while i < width
            invariant
                self.wf(),
                level == self.level,
                width == self.width_spec(),
                r.wf(),
                r.level == level,
                i <= width,
                forall|j: nat| j < i ==> #[trigger] r.lane(j) == tower_mul_alpha(self.level as nat, self.lane(j)),
            decreases width - i,
        {
            let a = self.get(i);
            let v = mul_alpha_at(level, a);
            proof {
                lemma_mul_alpha_fits(level as nat, a);
            }
            r.set(i, v);
            i = i + 1;
        }
        r
    }

    /// Every lane set to `scalar`.
    pub fn broadcast(level: u32, scalar: u128) -> (r: Self)
        requires
            level <= 7,
            fits(level as nat, scalar),
        ensures
            r.wf(),
            r.level == level,
            forall|i: nat| i < r.width_spec() ==> #[trigger] r.lane(i) == scalar,
    {
        let mut r = Self::zero(level);
        let width = r.width();
        let mut i: usize = 0;
        while i < width
            invariant
                r.wf(),
                r.level == level,
                width == r.width_spec(),
                fits(level as nat, scalar),
                i <= width,
                forall|j: nat| j < i ==> #[trigger] r.lane(j) == scalar,
            decreases width - i,
        {
            r.set(i, scalar);
            i = i + 1;
        }
        r
    }

    /// Lane `i` set to `lanes[i]`.
    pub fn from_lanes(level: u32, lanes: &Vec<u128>) -> (r: Self)
        requires
            level <= 7,
            lanes@.len() == lane_count(level as nat),
            forall|i: int| 0 <= i < lanes@.len() ==> fits(level as nat, #[trigger] lanes@[i]),
        ensures
            r.wf(),
            r.level == level,
            r.lanes() == lanes@,
    {
        let mut r = Self::zero(level);
        let width = r.width();
        let mut i: usize = 0;
        while i < width
            invariant
                r.wf(),
                r.level == level,
                width == r.width_spec(),
                lanes@.len() == width,
                forall|q: int| 0 <= q < lanes@.len() ==> fits(level as nat, #[trigger] lanes@[q]),
                i <= width,
                forall|j: nat| j < i ==> #[trigger] r.lane(j) == lanes@[j as int],
            decreases width - i,
        {
            r.set(i, lanes[i]);
            i = i + 1;
        }
        assert(r.lanes() =~= lanes@);
        r
    }

    /// Zero except lane 0, which holds `scalar`.
    pub fn set_single(level: u32, scalar: u128) -> (r: Self)
        requires
            level <= 7,
            fits(level as nat, scalar),
        ensures
            r.wf(),
            r.level == level,
            forall|i: nat| i < r.width_spec() ==> #[trigger] r.lane(i) == if i == 0 { scalar } else { 0 },
    {
        let mut r = Self::zero(level);
        proof {
            crate::packed::lemma_lane_geometry_pos(level as nat);
        }
        r.set(0, scalar);
        r
    }

    /// Exchanges the odd blocks of `self` with the even blocks of `other`, for
    /// blocks of `2^log_block_len` lanes.
    pub fn interleave(&self, other: &Self, log_block_len: usize) -> (r: (Self, Self))
        requires
            self.wf(),
            other.level == self.level,
            log_block_len + self.level < 7,
        ensures
            r.0.level == self.level,
            r.1.level == self.level,
            (r.0.underlier, r.1.underlier) == crate::underlier::interleave_limbs(
                self.underlier,
                other.underlier,
                block_width((log_block_len + self.level) as nat),
                crate::underlier::even_block_mask((log_block_len + self.level) as nat),
            ),
            forall|t: int| 0 <= t < 128 ==> #[trigger] limb_bit(r.0.underlier, t) == if in_even_block(t, block_width((log_block_len + self.level) as nat)) {
                limb_bit(self.underlier, t)
            } else {
                limb_bit(other.underlier, t - block_width((log_block_len + self.level) as nat))
            },
            forall|t: int| 0 <= t < 128 ==> #[trigger] limb_bit(r.1.underlier, t) == if in_even_block(t, block_width((log_block_len + self.level) as nat)) {
                limb_bit(self.underlier, t + block_width((log_block_len + self.level) as nat))
            } else {
                limb_bit(other.underlier, t)
            },
    {
        let (a, b) = interleave_limb(self.underlier, other.underlier, log_block_len + self.level as usize);
        (PackedPrimitiveType { underlier: a, level: self.level }, PackedPrimitiveType { underlier: b, level: self.level })
    }

    /// Replaces lane `i` with `v`, or reports an error past the last lane.
    pub fn set_checked(&mut self, i: usize, v: u128) -> (r: Result<(), FieldError>)
        requires
            old(self).wf(),
            fits(old(self).level as nat, v),
        ensures
            i < old(self).width_spec() ==> r is Ok && final(self).underlier == with_lane(
                old(self).underlier,
                old(self).level as nat,
                i as nat,
                v,
            ) && final(self).level == old(self).level,
            i >= old(self).width_spec() ==> r == Err::<(), FieldError>(
                FieldError::IndexOutOfRange { index: i, max: old(self).width_spec() as usize },
            ) && *final(self) == *old(self),
    {
        let width = self.width();
        if i >= width {
            return Err(FieldError::IndexOutOfRange { index: i, max: width });
        }
        self.set(i, v);
        Ok(())
    }
}

/// Mask of one lane at scalar level `level < 7`.
fn lane_mask_exec(level: u32) -> (r: u128)
    requires
        level < 7,
    ensures
        r == lane_mask(level as nat),
{
    if level == 0 {
        1
    } else if level == 1 {
        3
    } else if level == 2 {
        0xf
    } else if level == 3 {
        0xff
    } else if level == 4 {
        0xffff
    } else if level == 5 {
        0xffff_ffff
    } else {
        0xffff_ffff_ffff_ffff
    }
}

/// Number of lanes at scalar level `level`.
pub fn lanes_per_limb(level: u32) -> (r: usize)
    requires
        level <= 7,
    ensures
        r == lane_count(level as nat),
        r >= 1,
{
    PackedPrimitiveType::zero(level).width()
}

/// Lane `i` of the 512-bit value at scalar level `level`, counting across its
/// four limbs from the least significant.
pub fn get_subvalue(value: &crate::underlier::M512, level: u32, i: usize) -> (r: u128)
    requires
        level <= 7,
        i < 4 * lane_count(level as nat),
    ensures
        r == lane_of(value.0[(i as nat / lane_count(level as nat)) as int], level as nat, i as nat % lane_count(level as nat)),
{
    let n = lanes_per_limb(level);
    proof {
        lemma_slice_index(i as nat, n as nat, 4);
    }
    let limb = PackedPrimitiveType { underlier: value.0[i / n], level };
    limb.get(i % n)
}

/// Every lane of every limb of a 512-bit value set to `scalar`.
pub fn broadcast_m512(level: u32, scalar: u128) -> (r: crate::underlier::M512)
    requires
        level <= 7,
        fits(level as nat, scalar),
    ensures
        forall|j: int, i: nat| 0 <= j < 4 && i < lane_count(level as nat) ==> #[trigger] lane_of(r.0[j], level as nat, i) == scalar,
{
    let limb = PackedPrimitiveType::broadcast(level, scalar);
    let r = crate::underlier::M512::from_equal_u128s(limb.underlier);
    assert forall|j: int, i: nat| 0 <= j < 4 && i < lane_count(level as nat) implies #[trigger] lane_of(r.0[j], level as nat, i) == scalar by {
        assert(r.0[j] == r.0@[j]);
        assert(limb.lane(i) == scalar);
    }
    r
}

/// All elements are well formed and of scalar level `level`.
pub open spec fn uniform(packed: Seq<PackedPrimitiveType>, level: nat) -> bool {
    &&& level <= 7
    &&& forall|k: int| 0 <= k < packed.len() ==> (#[trigger] packed[k]).level == level
}

/// Scalar `i` of a slice of packed elements, read across them in order.
pub open spec fn slice_scalar(packed: Seq<PackedPrimitiveType>, level: nat, i: nat) -> u128 {
    packed[(i / lane_count(level)) as int].lane(i % lane_count(level))
}

/// Number of scalars in a slice of packed elements of scalar level `level`.
pub fn len_packed_slice(packed: &Vec<PackedPrimitiveType>, level: u32) -> (r: usize)
    requires
        level <= 7,
        packed@.len() * lane_count(level as nat) <= usize::MAX,
    ensures
        r == packed@.len() * lane_count(level as nat),
{
    packed.len() * PackedPrimitiveType::zero(level).width()
}

/// Scalar `i` of the slice.
pub fn get_packed_slice(packed: &Vec<PackedPrimitiveType>, level: u32, i: usize) -> (r: u128)
    requires
        uniform(packed@, level as nat),
        i < packed@.len() * lane_count(level as nat),
    ensures
        r == slice_scalar(packed@, level as nat, i as nat),
{
    let width = PackedPrimitiveType::zero(level).width();
    proof {
        lemma_slice_index(i as nat, width as nat, packed@.len());
    }
    packed[i / width].get(i % width)
}

proof fn lemma_slice_index(i: nat, w: nat, n: nat)
    requires
        w >= 1,
        i < n * w,
    ensures
        i / w < n,
        i % w < w,
{
    assert(i / w < n) by (nonlinear_arith)
        requires
            w >= 1,
            i < n * w,
    ;
}

/// Scalar `i` of the slice, or an error past the end.
pub fn get_packed_slice_checked(packed: &Vec<PackedPrimitiveType>, level: u32, i: usize) -> (r: Result<u128, FieldError>)
    requires
        uniform(packed@, level as nat),
        packed@.len() * lane_count(level as nat) <= usize::MAX,
    ensures
        i < packed@.len() * lane_count(level as nat) ==> r == Ok::<u128, FieldError>(slice_scalar(packed@, level as nat, i as nat)),
        i >= packed@.len() * lane_count(level as nat) ==> r == Err::<u128, FieldError>(
            FieldError::IndexOutOfRange { index: i, max: (packed@.len() * lane_count(level as nat)) as usize },
        ),
{
    let max = len_packed_slice(packed, level);
    if i >= max {
        return Err(FieldError::IndexOutOfRange { index: i, max });
    }
    Ok(get_packed_slice(packed, level, i))
}

/// Replaces scalar `i` of the slice with `scalar`, leaving every other scalar unchanged.
pub fn set_packed_slice(packed: &mut Vec<PackedPrimitiveType>, level: u32, i: usize, scalar: u128)
    requires
        uniform(old(packed)@, level as nat),
        i < old(packed)@.len() * lane_count(level as nat),
        fits(level as nat, scalar),
    ensures
        uniform(final(packed)@, level as nat),
        final(packed)@.len() == old(packed)@.len(),
        forall|j: nat| j < old(packed)@.len() * lane_count(level as nat) ==> #[trigger] slice_scalar(final(packed)@, level as nat, j)
            == if j == i {
            scalar
        } else {
            slice_scalar(old(packed)@, level as nat, j)
        },
{
    let width = PackedPrimitiveType::zero(level).width();
    proof {
        lemma_slice_index(i as nat, width as nat, packed@.len());
    }
    let ghost before = packed@;
    let k = i / width;
    let mut element = packed[k];
    element.set(i % width, scalar);
    packed.set(k, element);
    assert forall|j: nat| j < before.len() * lane_count(level as nat) implies #[trigger] slice_scalar(packed@, level as nat, j)
        == if j == i {
        scalar
    } else {
        slice_scalar(before, level as nat, j)
    } by {
        lemma_slice_index(j, width as nat, before.len());
        vstd::arithmetic::div_mod::lemma_fundamental_div_mod(i as int, width as int);
        vstd::arithmetic::div_mod::lemma_fundamental_div_mod(j as int, width as int);
    }
}

/// Replaces scalar `i` of the slice, or reports an error past the end.
pub fn set_packed_slice_checked(packed: &mut Vec<PackedPrimitiveType>, level: u32, i: usize, scalar: u128) -> (r: Result<(), FieldError>)
    requires
        uniform(old(packed)@, level as nat),
        old(packed)@.len() * lane_count(level as nat) <= usize::MAX,
        fits(level as nat, scalar),
    ensures
        i < old(packed)@.len() * lane_count(level as nat) ==> r is Ok && forall|j: nat|
            j < old(packed)@.len() * lane_count(level as nat) ==> #[trigger] slice_scalar(final(packed)@, level as nat, j)
                == if j == i {
                scalar
            } else {
                slice_scalar(old(packed)@, level as nat, j)
            },
        i >= old(packed)@.len() * lane_count(level as nat) ==> r == Err::<(), FieldError>(
            FieldError::IndexOutOfRange { index: i, max: (old(packed)@.len() * lane_count(level as nat)) as usize },
        ) && final(packed)@ == old(packed)@,
{
    let max = len_packed_slice(packed, level);
    if i >= max {
        return Err(FieldError::IndexOutOfRange { index: i, max });
    }
    set_packed_slice(packed, level, i, scalar);
    Ok(())
}

/// All scalars of the slice, in order.
pub fn iter_packed_slice(packed: &Vec<PackedPrimitiveType>, level: u32) -> (r: Vec<u128>)
    requires
        uniform(packed@, level as nat),
        packed@.len() * lane_count(level as nat) <= usize::MAX,
    ensures
        r@.len() == packed@.len() * lane_count(level as nat),
        forall|j: int| 0 <= j < r@.len() ==> #[trigger] r@[j] == slice_scalar(packed@, level as nat, j as nat),
{
    let n = len_packed_slice(packed, level);
    let mut out: Vec<u128> = Vec::new();
    let mut i: usize = 0;
    while i < n
        invariant
            uniform(packed@, level as nat),
            n == packed@.len() * lane_count(level as nat),
            i <= n,
            out@.len() == i,
            forall|j: int| 0 <= j < i ==> #[trigger] out@[j] == slice_scalar(packed@, level as nat, j as nat),
        decreases n - i,
    {
        out.push(get_packed_slice(packed, level, i));
        i = i + 1;
    }
    out
}

/// Bits per lane at scalar level `level < 7`.
fn lane_width(level: u32) -> (r: u128)
    requires
        level < 7,
    ensures
        r == lane_bits(level as nat),
{
    if level == 0 {
        1
    } else if level == 1 {
        2
    } else if level == 2 {
        4
    } else if level == 3 {
        8
    } else if level == 4 {
        16
    } else if level == 5 {
        32
    } else {
        64
    }
}

} // verus!
