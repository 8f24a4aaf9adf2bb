//! Vectors of 32 elements of the 128-bit tower field, read as elements of the
//! tensor algebra of the 128-bit field with the 32-bit field: lane `i` is the
//! coefficient of the `i`-th basis element `1 << i` of the 32-bit field.
use vstd::prelude::*;
use crate::field::{BinaryField128b, BinaryField32b, mul32, vals128};
use crate::ntt::NttElement;

verus! {

/// Bit `j` of `x` is set.
pub open spec fn bit32(x: u32, j: int) -> bool {
    (x >> (j as u32)) & 1 == 1
}

/// Lane `j` of `a` times `t`, summed over the first `n` lanes of `a`: the
/// lanes `a[i]` whose basis element times `t` has bit `j` set.
pub open spec fn scaled_lane(a: Seq<u128>, t: u32, j: int, n: nat) -> u128
    decreases n,
{
    if n == 0 {
        0
    } else {
        let i = (n - 1) as int;
        let prev = scaled_lane(a, t, j, (n - 1) as nat);
        if bit32(mul32(1u32 << (i as u32), t), j) {
            prev ^ a[i]
        } else {
            prev
        }
    }
}

/// Product of an algebra element with a 32-bit field element.
pub open spec fn algebra_scale(a: Seq<u128>, t: u32) -> Seq<u128> {
    Seq::new(32, |j: int| scaled_lane(a, t, j, 32))
}

/// Lane-wise sum.
pub open spec fn lanes_add(a: Seq<u128>, b: Seq<u128>) -> Seq<u128> {
    Seq::new(a.len(), |i: int| a[i] ^ b[i])
}

/// A vector of lanes cut into groups of 32.
pub open spec fn packed_lanes(v: Seq<u128>) -> Seq<Seq<u128>> {
    Seq::new(v.len() / 32, |k: int| Seq::new(32, |i: int| v[32 * k + i]))
}

/// An element of the algebra: 32 lanes of the 128-bit tower field.
#[derive(Debug, Clone, Copy, PartialEq, Eq)]
pub struct PackedAlgebra32(pub [BinaryField128b; 32]);

impl PackedAlgebra32 {
    pub open spec fn lanes(&self) -> Seq<u128> {
        vals128(self.0@)
    }

    pub fn new(vec: [BinaryField128b; 32]) -> (r: Self)
        ensures
            r.0 == vec,
    {
        PackedAlgebra32(vec)
    }

    /// Lane-wise sum.
    pub fn add(&self, rhs: &Self) -> (r: Self)
        ensures
            r.lanes() == lanes_add(self.lanes(), rhs.lanes()),
    {
        PackedAlgebra32(packed_tower_add_32(&self.0, &rhs.0))
    }

    /// Product with a 32-bit field element.
    pub fn mul_b32(&self, rhs: BinaryField32b) -> (r: Self)
        ensures
            r.lanes() == algebra_scale(self.lanes(), rhs.0),
    {
        let mut products: Vec<u32> = Vec::new();
        let mut i: usize = 0;
        while i < 32
            invariant
                i <= 32,
                products@.len() == i,
                forall|k: int| 0 <= k < i ==> #[trigger] products@[k] == mul32(1u32 << (k as u32), rhs.0),
            decreases 32 - i,
        {
            products.push(BinaryField32b::new(1u32 << (i as u32)).mul(rhs).0);
            i = i + 1;
        }
        let mut res = [BinaryField128b(0); 32];
        let mut j: usize = 0;
        while j < 32
            invariant
                j <= 32,
                products@.len() == 32,
                forall|k: int| 0 <= k < 32 ==> #[trigger] products@[k] == mul32(1u32 << (k as u32), rhs.0),
                forall|q: int| 0 <= q < j ==> #[trigger] res@[q].0 == scaled_lane(self.lanes(), rhs.0, q, 32),
            decreases 32 - j,
        {
            let mut acc: u128 = 0;
            let mut i: usize = 0;
            while i < 32
                invariant
                    i <= 32,
                    j < 32,
                    products@.len() == 32,
                    forall|k: int| 0 <= k < 32 ==> #[trigger] products@[k] == mul32(1u32 << (k as u32), rhs.0),
                    acc == scaled_lane(self.lanes(), rhs.0, j as int, i as nat),
                decreases 32 - i,
            {
                if (products[i] >> (j as u32)) & 1 == 1 {
                    acc = acc ^ self.0[i].0;
                }
                i = i + 1;
            }
            res[j] = BinaryField128b(acc);
            j = j + 1;
        }
        let r = PackedAlgebra32(res);
        assert(r.lanes() =~= algebra_scale(self.lanes(), rhs.0));
        r
    }

    /// Splits a vector, whose length is a multiple of 32, into algebra elements.
    pub fn pack(vec: Vec<BinaryField128b>) -> (r: Vec<PackedAlgebra32>)
        requires
            vec@.len() % 32 == 0,
        ensures
            r@.len() * 32 == vec@.len(),
            forall|k: int, i: int| 0 <= k < r@.len() && 0 <= i < 32 ==> #[trigger] r@[k].0@[i] == vec@[32 * k + i],
            crate::ntt::models(r@) == packed_lanes(vals128(vec@)),
    {
        let mut out: Vec<PackedAlgebra32> = Vec::new();
        let mut k: usize = 0;
        let len = vec.len();
        let n = len / 32;
        while k < n
            invariant
                n * 32 == vec@.len(),
                len == vec@.len(),
                k <= n,
                out@.len() == k,
                forall|q: int, i: int| 0 <= q < k && 0 <= i < 32 ==> #[trigger] out@[q].0@[i] == vec@[32 * q + i],
            decreases n - k,
        {
            let mut chunk = [BinaryField128b(0); 32];
            let mut i: usize = 0;
            while i < 32
                invariant
                    n * 32 == vec@.len(),
                    len == vec@.len(),
                    k < n,
                    i <= 32,
                    forall|q: int| 0 <= q < i ==> #[trigger] chunk@[q] == vec@[32 * k + q],
                decreases 32 - i,
            {
                assert(32 * k + i < vec@.len()) by (nonlinear_arith)
                    requires
                        k < n,
                        i < 32,
                        n * 32 == vec@.len(),
                ;
                chunk[i] = vec[32 * k + i];
                i = i + 1;
            }
            out.push(PackedAlgebra32(chunk));
            k = k + 1;
        }
        assert forall|q: int| 0 <= q < out@.len() implies #[trigger] crate::ntt::models(out@)[q] == packed_lanes(vals128(vec@))[q] by {
            assert(out@[q].lanes() =~= Seq::new(32, |i: int| vals128(vec@)[32 * q + i]));
        }
        assert(crate::ntt::models(out@) =~= packed_lanes(vals128(vec@)));
        out
    }

    /// Concatenates the lanes of the elements.
    pub fn unpack(vec: Vec<PackedAlgebra32>) -> (r: Vec<BinaryField128b>)
        requires
            vec@.len() * 32 <= usize::MAX,
        ensures
            r@.len() == vec@.len() * 32,
            forall|k: int, i: int| 0 <= k < vec@.len() && 0 <= i < 32 ==> #[trigger] r@[32 * k + i] == vec@[k].0@[i],
    {
        let mut out: Vec<BinaryField128b> = Vec::new();
        let mut k: usize = 0;
        while k < vec.len()
            invariant
                vec@.len() * 32 <= usize::MAX,
                k <= vec@.len(),
                out@.len() == 32 * k,
                forall|q: int, i: int| 0 <= q < k && 0 <= i < 32 ==> #[trigger] out@[32 * q + i] == vec@[q].0@[i],
            decreases vec@.len() - k,
        {
            let mut i: usize = 0;
            while i < 32
                invariant
                    k < vec@.len(),
                    i <= 32,
                    out@.len() == 32 * k + i,
                    forall|q: int, i2: int| 0 <= q < k && 0 <= i2 < 32 ==> #[trigger] out@[32 * q + i2] == vec@[q].0@[i2],
                    forall|i2: int| 0 <= i2 < i ==> #[trigger] out@[32 * k + i2] == vec@[k as int].0@[i2],
                decreases 32 - i,
            {
                out.push(vec[k].0[i]);
                i = i + 1;
            }
            k = k + 1;
        }
        out
    }
}

/// Lane-wise sum of two vectors of 32 lanes.
pub fn packed_tower_add_32(lhs: &[BinaryField128b; 32], rhs: &[BinaryField128b; 32]) -> (r: [BinaryField128b; 32])
    ensures
        vals128(r@) == lanes_add(vals128(lhs@), vals128(rhs@)),
{
    let mut res = [BinaryField128b(0); 32];
    let mut i: usize = 0;
    while i < 32
        invariant
            i <= 32,
            forall|q: int| 0 <= q < i ==> #[trigger] res@[q].0 == lhs@[q].0 ^ rhs@[q].0,
        decreases 32 - i,
    {
        res[i] = lhs[i].add(rhs[i]);
        i = i + 1;
    }
    assert(vals128(res@) =~= lanes_add(vals128(lhs@), vals128(rhs@)));
    res
}

impl NttElement for PackedAlgebra32 {
    type Model = Seq<u128>;

    open spec fn model(&self) -> Seq<u128> {
        self.lanes()
    }

    open spec fn add_model(a: Seq<u128>, b: Seq<u128>) -> Seq<u128> {
        lanes_add(a, b)
    }

    open spec fn scale_model(a: Seq<u128>, t: u32) -> Seq<u128> {
        algebra_scale(a, t)
    }

    proof fn lemma_add_twice(a: Seq<u128>, b: Seq<u128>) {
        assert forall|i: int| 0 <= i < a.len() implies lanes_add(lanes_add(a, b), b)[i] == a[i] by {
            let x = a[i];
            let y = b[i];
            assert(x ^ y ^ y == x) by (bit_vector);
        }
        assert(lanes_add(lanes_add(a, b), b) =~= a);
    }

    fn add_elem(&self, other: &Self) -> (r: Self) {
        self.add(other)
    }

    fn scale(&self, t: BinaryField32b) -> (r: Self) {
        self.mul_b32(t)
    }
}

} // verus!
