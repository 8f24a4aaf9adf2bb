//! Additive NTT over affine subspaces of the 32-bit tower field.
use vstd::prelude::*;
use vstd::arithmetic::div_mod::lemma_fundamental_div_mod_converse;
use vstd::arithmetic::power2::{pow2, lemma_pow2_unfold, lemma_pow2_pos};
use crate::field::{BinaryField32b, mul32, inv32, vals32, lemma_vals32_push};
use crate::merkle::is_pow2;

verus! {

/// A value that the transform can act on: a module over the 32-bit tower field
/// whose addition is its own inverse.
pub trait NttElement: Copy + Sized {
    /// What the value stands for.
    type Model;

    spec fn model(&self) -> Self::Model;

    spec fn add_model(a: Self::Model, b: Self::Model) -> Self::Model;

    spec fn scale_model(a: Self::Model, t: u32) -> Self::Model;

    /// Adding the same value twice changes nothing.
    proof fn lemma_add_twice(a: Self::Model, b: Self::Model)
        ensures
            Self::add_model(Self::add_model(a, b), b) == a,
    ;

    fn add_elem(&self, other: &Self) -> (r: Self)
        ensures
            r.model() == Self::add_model(self.model(), other.model()),
    ;

    fn scale(&self, t: BinaryField32b) -> (r: Self)
        ensures
            r.model() == Self::scale_model(self.model(), t.0),
    ;
}

impl NttElement for BinaryField32b {
    type Model = u32;

    open spec fn model(&self) -> u32 {
        self.0
    }

    open spec fn add_model(a: u32, b: u32) -> u32 {
        a ^ b
    }

    open spec fn scale_model(a: u32, t: u32) -> u32 {
        mul32(a, t)
    }

    proof fn lemma_add_twice(a: u32, b: u32) {
        assert(a ^ b ^ b == a) by (bit_vector);
    }

    fn add_elem(&self, other: &Self) -> (r: Self) {
        self.add(*other)
    }

    fn scale(&self, t: BinaryField32b) -> (r: Self) {
        self.mul(t)
    }
}

/// The models of a sequence of values.
pub open spec fn models<F: NttElement>(s: Seq<F>) -> Seq<F::Model> {
    s.map_values(|x: F| x.model())
}

/// One forward butterfly stage on blocks of `2h`: within block `b`, with
/// twiddle `t = tw[b] + ct`, the pair `(l, r)` at distance `h` becomes
/// `(l + r t, r + l + r t)`.
pub open spec fn stage_forward<F: NttElement>(c: Seq<F::Model>, h: nat, tw: Seq<u32>, ct: u32) -> Seq<F::Model> {
    Seq::new(
        c.len(),
        |i: int|
            {
                let b = i / (2 * h as int);
                let t = tw[b] ^ ct;
                if i % (2 * h as int) < h {
                    F::add_model(c[i], F::scale_model(c[i + h], t))
                } else {
                    F::add_model(c[i], F::add_model(c[i - h], F::scale_model(c[i], t)))
                }
            },
    )
}

/// One inverse butterfly stage: the pair `(l, r)` becomes `(l + (r + l) t, r + l)`.
pub open spec fn stage_inverse<F: NttElement>(c: Seq<F::Model>, h: nat, tw: Seq<u32>, ct: u32) -> Seq<F::Model> {
    Seq::new(
        c.len(),
        |i: int|
            {
                let b = i / (2 * h as int);
                let t = tw[b] ^ ct;
                if i % (2 * h as int) < h {
                    F::add_model(c[i], F::scale_model(F::add_model(c[i + h], c[i]), t))
                } else {
                    F::add_model(c[i], c[i - h])
                }
            },
    )
}

/// The inverse stage undoes the forward stage.
pub proof fn lemma_stage_round_trip<F: NttElement>(c: Seq<F::Model>, h: nat, tw: Seq<u32>, ct: u32)
    requires
        h > 0,
        c.len() % (2 * h) == 0,
    ensures
        stage_inverse::<F>(stage_forward::<F>(c, h, tw, ct), h, tw, ct) == c,
{
    let f = stage_forward::<F>(c, h, tw, ct);
    let g = stage_inverse::<F>(f, h, tw, ct);
    assert forall|i: int| 0 <= i < c.len() implies g[i] == c[i] by {
        let d = 2 * h as int;
        let b = i / d;
        let q = i % d;
        assert(i == b * d + q) by {
            vstd::arithmetic::div_mod::lemma_fundamental_div_mod(i, d);
        }
        assert(0 <= q < d) by {
            vstd::arithmetic::div_mod::lemma_mod_bound(i, d);
        }
        let t = tw[b] ^ ct;
        if q < h {
            let j = i + h;
            lemma_fundamental_div_mod_converse(j, d, b, q + h);
            let n = c.len() as int;
            let m = n / d;
            assert(n == m * d) by {
                vstd::arithmetic::div_mod::lemma_fundamental_div_mod(n, d);
            }
            assert(b < m) by (nonlinear_arith)
                requires
                    i == b * d + q,
                    0 <= q,
                    n == m * d,
                    i < n,
                    d > 0,
            ;
            assert((b + 1) * d <= m * d) by (nonlinear_arith)
                requires
                    b < m,
                    d > 0,
            ;
            assert(j < n) by (nonlinear_arith)
                requires
                    (b + 1) * d <= m * d,
                    i == b * d + q,
                    q < h,
                    d == 2 * h,
                    j == i + h,
                    n == m * d,
                    i < n,
                    d > 0,
            ;
            let l = c[i];
            let r = c[j];
            let x = F::add_model(l, F::scale_model(r, t));
            assert(f[i] == x);
            assert(f[j] == F::add_model(r, x));
            F::lemma_add_twice(r, x);
            assert(g[i] == F::add_model(x, F::scale_model(r, t)));
            F::lemma_add_twice(l, F::scale_model(r, t));
        } else {
            let j = i - h;
            lemma_fundamental_div_mod_converse(j, d, b, q - h);
            let l = c[j];
            let r = c[i];
            let x = F::add_model(l, F::scale_model(r, t));
            assert(f[j] == x);
            assert(f[i] == F::add_model(r, x));
            F::lemma_add_twice(r, x);
        }
    }
    assert(g =~= c);
}

/// `x^2 + c x`.
pub open spec fn subspace_map_spec(x: u32, c: u32) -> u32 {
    mul32(x, x) ^ mul32(c, x)
}

/// Unnormalised subspace evaluations of round `k` and its normalisation
/// constant, for a transform of `2^l` points.
pub open spec fn subspace_state(l: nat, k: nat) -> (Seq<u32>, u32)
    decreases k,
{
    if k == 0 {
        (Seq::new(if l == 0 { 0 } else { (l - 1) as nat }, |j: int| 1u32 << ((j + 1) as u32)), 1u32)
    } else {
        let (prev, norm) = subspace_state(l, (k - 1) as nat);
        (
            Seq::new((prev.len() - 1) as nat, |j: int| subspace_map_spec(prev[j + 1], norm)),
            subspace_map_spec(prev[0], norm),
        )
    }
}

/// Number of rounds of subspace evaluations for `2^l` points.
pub open spec fn num_rounds(l: nat) -> nat {
    if l == 0 {
        1
    } else {
        l
    }
}

/// Normalised subspace evaluations of round `k`.
pub open spec fn subspace_evals(l: nat, k: nat) -> Seq<u32> {
    let (raw, norm) = subspace_state(l, k);
    raw.map_values(|x: u32| mul32(x, inv32(norm)))
}

/// All XOR-combinations of `s`: entry `b` is the sum of the `s[j]` for the set bits `j` of `b`.
pub open spec fn subset_sums(s: Seq<u32>) -> Seq<u32>
    decreases s.len(),
{
    if s.len() == 0 {
        seq![0u32]
    } else {
        let t = subset_sums(s.drop_last());
        t + t.map_values(|x: u32| x ^ s.last())
    }
}

/// The twiddle table of a transform of `2^l` points.
pub open spec fn twiddle_table(l: nat) -> Seq<Seq<u32>> {
    Seq::new(num_rounds(l), |k: int| subset_sums(subspace_evals(l, k as nat)))
}

/// The rows of a table of 32-bit tower elements, as bit patterns.
pub open spec fn rows32(v: Seq<Vec<BinaryField32b>>) -> Seq<Seq<u32>> {
    v.map_values(|r: Vec<BinaryField32b>| vals32(r@))
}

/// `prod_{i < n} (x + i)`, the empty product being one.
pub open spec fn shifted_product(x: u32, n: nat) -> u32
    decreases n,
{
    if n == 0 {
        1
    } else {
        mul32(shifted_product(x, (n - 1) as nat), x ^ ((n - 1) as u32))
    }
}

/// The subspace vanishing polynomial `prod_{i < 2^s} (x + i)` for `s > 0`, and one for `s == 0`.
pub open spec fn vanishing(x: u32, s: nat) -> u32 {
    if s == 0 {
        1
    } else {
        shifted_product(x, pow2(s))
    }
}

/// The twiddle added to every twiddle of round `r` for the coset `coset`.
pub open spec fn coset_twiddle(coset: u32, r: nat) -> u32 {
    mul32(vanishing(coset, r), inv32(vanishing((1u32 << (r as u32)) as u32, r)))
}

proof fn lemma_pow2_at_most_31(e: nat)
    requires
        e < 32,
    ensures
        pow2(e) <= 0x8000_0000,
{
    vstd::arithmetic::power2::lemma2_to64();
    if e < 31 {
        vstd::arithmetic::power2::lemma_pow2_strictly_increases(e, 31);
    }
}

pub fn subspace_map(elem: BinaryField32b, constant: BinaryField32b) -> (r: BinaryField32b)
    ensures
        r.0 == subspace_map_spec(elem.0, constant.0),
{
    elem.square().add(constant.mul(elem))
}

/// Evaluates the vanishing polynomial of the first `2^size` field elements at `val`.
pub fn vanishing_map(val: BinaryField32b, size: usize) -> (r: BinaryField32b)
    requires
        size < 32,
    ensures
        r.0 == vanishing(val.0, size as nat),
{
    let mut res = BinaryField32b::one();
    if size != 0 {
        let n: u64 = 1u64 << (size as u64);
        assert(n == pow2(size as nat) && n <= 0x8000_0000) by {
            lemma_pow2_at_most_31(size as nat);
            vstd::bits::lemma_u64_shl_is_mul(1, size as u64);
        }
        let mut i: u64 = 0;
        while i < n
            invariant
                i <= n,
                n <= 0x8000_0000,
                res.0 == shifted_product(val.0, i as nat),
            decreases n - i,
        {
            res = res.mul(val.add(BinaryField32b::new(i as u32)));
            i = i + 1;
        }
    }
    res
}

proof fn lemma_state_len(l: nat, k: nat)
    requires
        k < l,
    ensures
        subspace_state(l, k).0.len() == l - 1 - k,
    decreases k,
{
    if k > 0 {
        lemma_state_len(l, (k - 1) as nat);
    }
}

proof fn lemma_subset_sums_len(s: Seq<u32>)
    ensures
        subset_sums(s).len() == pow2(s.len()),
    decreases s.len(),
{
    if s.len() > 0 {
        lemma_subset_sums_len(s.drop_last());
        lemma_pow2_unfold(s.len());
        let t = subset_sums(s.drop_last());
        assert(subset_sums(s).len() == t.len() + t.map_values(|x: u32| x ^ s.last()).len());
    } else {
        vstd::arithmetic::power2::lemma2_to64();
    }
}

/// Subspace evaluations of every round, normalised so that each round's
/// first generator maps to one.
fn precompute_subspace_evals(log_domain_size: usize) -> (r: Vec<Vec<BinaryField32b>>)
    requires
        log_domain_size <= 32,
    ensures
        rows32(r@) == Seq::new(num_rounds(log_domain_size as nat), |k: int| subspace_evals(log_domain_size as nat, k as nat)),
{
    let ghost l = log_domain_size as nat;
    let mut raw: Vec<Vec<BinaryField32b>> = Vec::new();
    let mut norms: Vec<BinaryField32b> = Vec::new();
    let mut s0: Vec<BinaryField32b> = Vec::new();
    let mut i: usize = 1;
    while i < log_domain_size
        invariant
            1 <= i,
            log_domain_size <= 32,
            i <= log_domain_size || log_domain_size == 0,
            log_domain_size == 0 ==> i == 1,
            vals32(s0@) == Seq::new((i - 1) as nat, |j: int| 1u32 << ((j + 1) as u32)),
        decreases log_domain_size - i,
    {
        let ghost before = s0@;
        s0.push(BinaryField32b::new(1u32 << (i as u32)));
        proof {
            lemma_vals32_push(before, BinaryField32b(1u32 << (i as u32)));
        }
        assert(((((i - 1) as int) + 1) as u32) == i as u32);
        assert(vals32(s0@) =~= Seq::new(i as nat, |j: int| 1u32 << ((j + 1) as u32)));
        i = i + 1;
    }
    assert(vals32(s0@) =~= subspace_state(l, 0).0) by {
        if log_domain_size == 0 {
            assert(i == 1);
        }
    }
    raw.push(s0);
    norms.push(BinaryField32b::one());
    let mut k: usize = 1;
    while k < log_domain_size
        invariant
            1 <= k,
            k <= log_domain_size || log_domain_size == 0,
            log_domain_size == 0 ==> k == 1,
            log_domain_size <= 32,
            l == log_domain_size,
            raw@.len() == k,
            norms@.len() == k,
            forall|q: int| 0 <= q < k ==> #[trigger] vals32(raw@[q]@) == subspace_state(l, q as nat).0,
            forall|q: int| 0 <= q < k ==> #[trigger] norms@[q].0 == subspace_state(l, q as nat).1,
        decreases log_domain_size - k,
    {
        let nrm = norms[k - 1];
        proof {
            lemma_state_len(l, (k - 1) as nat);
        }
        let ghost prev = subspace_state(l, (k - 1) as nat).0;
        assert(vals32(raw@[k - 1]@) == prev);
        let norm_k = subspace_map(raw[k - 1][0], nrm);
        let mut row: Vec<BinaryField32b> = Vec::new();
        let mut j: usize = 1;
        let plen = raw[k - 1].len();
        while j < plen
            invariant
                1 <= j <= plen,
                raw@.len() == k,
                k >= 1,
                plen == raw@[k - 1]@.len(),
                prev == vals32(raw@[k - 1]@),
                nrm.0 == subspace_state(l, (k - 1) as nat).1,
                vals32(row@) == Seq::new((j - 1) as nat, |q: int| subspace_map_spec(prev[q + 1], nrm.0)),
            decreases plen - j,
        {
            let v = subspace_map(raw[k - 1][j], nrm);
            let ghost before = row@;
            row.push(v);
            proof {
                lemma_vals32_push(before, v);
            }
            assert(vals32(row@) =~= Seq::new(j as nat, |q: int| subspace_map_spec(prev[q + 1], nrm.0)));
            j = j + 1;
        }
        assert(vals32(row@) =~= subspace_state(l, k as nat).0);
        raw.push(row);
        norms.push(norm_k);
        k = k + 1;
    }
    assert(raw@.len() == num_rounds(l));
    let mut result: Vec<Vec<BinaryField32b>> = Vec::new();
    let mut k: usize = 0;
    while k < raw.len()
        invariant
            k <= raw@.len(),
            raw@.len() == norms@.len(),
            raw@.len() == num_rounds(l),
            forall|q: int| 0 <= q < raw@.len() ==> #[trigger] vals32(raw@[q]@) == subspace_state(l, q as nat).0,
            forall|q: int| 0 <= q < raw@.len() ==> #[trigger] norms@[q].0 == subspace_state(l, q as nat).1,
            result@.len() == k,
            forall|q: int| 0 <= q < k ==> #[trigger] vals32(result@[q]@) == subspace_evals(l, q as nat),
        decreases raw@.len() - k,
    {
        let inv = norms[k].invert_or_zero();
        let mut row: Vec<BinaryField32b> = Vec::new();
        let mut j: usize = 0;
        let ghost src = vals32(raw@[k as int]@);
        while j < raw[k].len()
            invariant
                k < raw@.len(),
                j <= raw@[k as int]@.len(),
                src == vals32(raw@[k as int]@),
                vals32(row@) == Seq::new(j as nat, |q: int| mul32(src[q], inv.0)),
            decreases raw@[k as int]@.len() - j,
        {
            let v = raw[k][j].mul(inv);
            let ghost before = row@;
            row.push(v);
            proof {
                lemma_vals32_push(before, v);
            }
            assert(vals32(row@) =~= Seq::new((j + 1) as nat, |q: int| mul32(src[q], inv.0)));
            j = j + 1;
        }
        assert(vals32(row@) =~= subspace_evals(l, k as nat));
        result.push(row);
        k = k + 1;
    }
    assert(rows32(result@) =~= Seq::new(num_rounds(l), |q: int| subspace_evals(l, q as nat)));
    result
}

/// Expands a row of subspace evaluations into all its XOR-combinations.
fn expand_subset_sums(s: &Vec<BinaryField32b>) -> (r: Vec<BinaryField32b>)
    requires
        s@.len() < 32,
    ensures
        vals32(r@) == subset_sums(vals32(s@)),
{
    let ghost sv = vals32(s@);
    let mut expanded: Vec<BinaryField32b> = Vec::new();
    expanded.push(BinaryField32b::zero());
    assert(vals32(expanded@) =~= subset_sums(sv.take(0)));
    let mut m: usize = 0;
    while m < s.len()
        invariant
            m <= s@.len(),
            s@.len() < 32,
            sv == vals32(s@),
            vals32(expanded@) == subset_sums(sv.take(m as int)),
        decreases s@.len() - m,
    {
        let e = s[m];
        let ghost t = vals32(expanded@);
        proof {
            lemma_subset_sums_len(sv.take(m as int));
            lemma_pow2_at_most_31(m as nat);
        }
        let len = expanded.len();
        assert(t.len() == expanded@.len());
        let mut i: usize = 0;
        while i < len
            invariant
                i <= len,
                len == t.len(),
                expanded@.len() == len + i,
                vals32(expanded@) == t + t.take(i as int).map_values(|x: u32| x ^ e.0),
            decreases len - i,
        {
            assert(vals32(expanded@)[i as int] == t[i as int]);
            let v = expanded[i].add(e);
            let ghost before = expanded@;
            expanded.push(v);
            proof {
                lemma_vals32_push(before, v);
            }
            assert(vals32(expanded@) =~= t + t.take(i + 1).map_values(|x: u32| x ^ e.0));
            i = i + 1;
        }
        assert(sv.take(m + 1).drop_last() =~= sv.take(m as int));
        assert(t.take(len as int) =~= t);
        assert(vals32(expanded@) =~= subset_sums(sv.take(m + 1)));
        m = m + 1;
    }
    assert(sv.take(s@.len() as int) =~= sv);
    expanded
}

/// The twiddle table of a transform of `2^log_transform_size` points: row `k`
/// holds every XOR-combination of round `k`'s normalised subspace evaluations.
pub fn compute_twiddles(log_transform_size: usize) -> (r: Vec<Vec<BinaryField32b>>)
    requires
        log_transform_size <= 32,
    ensures
        rows32(r@) == twiddle_table(log_transform_size as nat),
{
    let ghost l = log_transform_size as nat;
    let s_evals = precompute_subspace_evals(log_transform_size);
    let mut result: Vec<Vec<BinaryField32b>> = Vec::new();
    let mut k: usize = 0;
    assert(rows32(s_evals@).len() == s_evals@.len());
    while k < s_evals.len()
        invariant
            k <= s_evals@.len(),
            l == log_transform_size,
            l <= 32,
            rows32(s_evals@) == Seq::new(num_rounds(l), |q: int| subspace_evals(l, q as nat)),
            result@.len() == k,
            s_evals@.len() == num_rounds(l),
            forall|q: int| 0 <= q < k ==> #[trigger] vals32(result@[q]@) == twiddle_table(l)[q],
        decreases s_evals@.len() - k,
    {
        assert(rows32(s_evals@).len() == s_evals@.len());
        assert(rows32(s_evals@)[k as int] == vals32(s_evals@[k as int]@));
        assert(vals32(s_evals@[k as int]@) == subspace_evals(l, k as nat));
        proof {
            if l > 0 {
                lemma_state_len(l, k as nat);
            }
        }
        let row = expand_subset_sums(&s_evals[k]);
        result.push(row);
        k = k + 1;
    }
    assert(rows32(s_evals@).len() == s_evals@.len());
    assert forall|q: int| 0 <= q < result@.len() implies #[trigger] rows32(result@)[q] == twiddle_table(l)[q] by {
        assert(rows32(result@)[q] == vals32(result@[q]@));
    }
    assert(rows32(result@) =~= twiddle_table(l));
    result
}

pub proof fn lemma_models_update<F: NttElement>(s: Seq<F>, i: int, x: F)
    requires
        0 <= i < s.len(),
    ensures
        models(s.update(i, x)) == models(s).update(i, x.model()),
{
    assert(models(s.update(i, x)) =~= models(s).update(i, x.model()));
}

/// Position facts for the pair at offset `p` of block `b` in blocks of `2h`
/// out of `n = m * 2h` values.
proof fn lemma_pair_position(b: int, p: int, h: int, m: int, n: int)
    requires
        0 <= b < m,
        0 <= p < h,
        n == m * (2 * h),
    ensures
        b * (2 * h) + p + h < n,
        (b * (2 * h) + p) / (2 * h) == b,
        (b * (2 * h) + p) % (2 * h) == p,
        (b * (2 * h) + p + h) / (2 * h) == b,
        (b * (2 * h) + p + h) % (2 * h) == p + h,
{
    assert(b * (2 * h) + p + h < n) by (nonlinear_arith)
        requires
            0 <= b < m,
            0 <= p < h,
            n == m * (2 * h),
    ;
    lemma_fundamental_div_mod_converse(b * (2 * h) + p, 2 * h, b, p);
    lemma_fundamental_div_mod_converse(b * (2 * h) + p + h, 2 * h, b, p + h);
}

/// Applies one forward butterfly stage in place.
fn forward_stage<F: NttElement>(coeffs: &mut Vec<F>, h: usize, tw: &Vec<BinaryField32b>, ct: BinaryField32b)
    requires
        h >= 1,
        2 * h <= old(coeffs)@.len(),
        old(coeffs)@.len() as int % (2 * h as int) == 0,
        old(coeffs)@.len() as int / (2 * h as int) <= tw@.len(),
    ensures
        final(coeffs)@.len() == old(coeffs)@.len(),
        models(final(coeffs)@) == stage_forward::<F>(models(old(coeffs)@), h as nat, vals32(tw@), ct.0),
{
    let ghost orig = models(coeffs@);
    let ghost target = stage_forward::<F>(orig, h as nat, vals32(tw@), ct.0);
    let n = coeffs.len();
    let d = 2 * h;
    let m = n / d;
    proof {
        vstd::arithmetic::div_mod::lemma_fundamental_div_mod(n as int, d as int);
        assert(n == m * d) by (nonlinear_arith)
            requires
                n == d * m + 0,
        ;
    }
    let mut b: usize = 0;
    while b < m
        invariant
            n == coeffs@.len(),
            d == 2 * h,
            h >= 1,
            n == m * d,
            m <= tw@.len(),
            b <= m,
            orig.len() == n,
            target == stage_forward::<F>(orig, h as nat, vals32(tw@), ct.0),
            forall|i: int| 0 <= i < n ==> (#[trigger] models(coeffs@)[i]) == if i / (d as int) < b { target[i] } else { orig[i] },
        decreases m - b,
    {
        let t = tw[b].add(ct);
        let mut p: usize = 0;
        while p < h
            invariant
                n == coeffs@.len(),
                d == 2 * h,
                h >= 1,
                n == m * d,
                m <= tw@.len(),
                b < m,
                p <= h,
                t.0 == vals32(tw@)[b as int] ^ ct.0,
                orig.len() == n,
                target == stage_forward::<F>(orig, h as nat, vals32(tw@), ct.0),
                forall|i: int| 0 <= i < n ==> (#[trigger] models(coeffs@)[i]) == if i / (d as int) < b || (i
                    / (d as int) == b && (i % (d as int) < p || (i % (d as int) >= h && i % (d as int) - h < p))) {
                    target[i]
                } else {
                    orig[i]
                },
            decreases h - p,
        {
            proof {
                lemma_pair_position(b as int, p as int, h as int, m as int, n as int);
            }
            let left = b * d + p;
            let right = left + h;
            let lv = coeffs[left];
            let rv = coeffs[right];
            assert(models(coeffs@)[left as int] == coeffs@[left as int].model());
            assert(models(coeffs@)[right as int] == coeffs@[right as int].model());
            assert(lv.model() == orig[left as int]);
            assert(rv.model() == orig[right as int]);
            let nl = lv.add_elem(&rv.scale(t));
            let nr = rv.add_elem(&nl);
            let ghost before = coeffs@;
            coeffs.set(left, nl);
            let ghost mid = coeffs@;
            coeffs.set(right, nr);
            proof {
                lemma_models_update(before, left as int, nl);
                lemma_models_update(mid, right as int, nr);
                assert forall|i: int| 0 <= i < n implies (#[trigger] models(coeffs@)[i]) == if i / (d as int) < b || (i
                    / (d as int) == b && (i % (d as int) < p + 1 || (i % (d as int) >= h && i % (d as int) - h < p + 1))) {
                    target[i]
                } else {
                    orig[i]
                } by {
                    vstd::arithmetic::div_mod::lemma_fundamental_div_mod(i, d as int);
                    vstd::arithmetic::div_mod::lemma_mod_bound(i, d as int);
                    let bi = i / (d as int);
                    let qi = i % (d as int);
                    assert((d as int) * bi == bi * (d as int)) by (nonlinear_arith);
                    if i == left as int {
                        assert(models(coeffs@)[i] == nl.model());
                        assert(target[i] == F::add_model(orig[i], F::scale_model(orig[i + h], vals32(tw@)[b as int] ^ ct.0)));
                    } else if i == right as int {
                        assert(models(coeffs@)[i] == nr.model());
                        assert(target[i] == F::add_model(orig[i], F::add_model(orig[i - h], F::scale_model(orig[i], vals32(tw@)[b as int] ^ ct.0))));
                    } else {
                        assert(models(coeffs@)[i] == models(before)[i]);
                        if bi == b as int {
                            assert(qi != p as int);
                            assert(qi != p + h);
                        }
                    }
                }
            }
            p = p + 1;
        }
        proof {
            assert forall|i: int| 0 <= i < n implies (#[trigger] models(coeffs@)[i]) == if i / (d as int) < b + 1 { target[i] } else { orig[i] } by {
                vstd::arithmetic::div_mod::lemma_mod_bound(i, d as int);
            }
        }
        b = b + 1;
    }
    assert(models(coeffs@) =~= target) by {
        assert forall|i: int| 0 <= i < n implies models(coeffs@)[i] == target[i] by {
            vstd::arithmetic::div_mod::lemma_fundamental_div_mod(i, d as int);
            assert(i / (d as int) < m) by (nonlinear_arith)
                requires
                    i == (d as int) * (i / (d as int)) + i % (d as int),
                    0 <= i % (d as int),
                    i < n,
                    n == m * d,
                    d > 0,
            ;
        }
    }
}

/// Applies one inverse butterfly stage in place.
fn inverse_stage<F: NttElement>(coeffs: &mut Vec<F>, h: usize, tw: &Vec<BinaryField32b>, ct: BinaryField32b)
    requires
        h >= 1,
        2 * h <= old(coeffs)@.len(),
        old(coeffs)@.len() as int % (2 * h as int) == 0,
        old(coeffs)@.len() as int / (2 * h as int) <= tw@.len(),
    ensures
        final(coeffs)@.len() == old(coeffs)@.len(),
        models(final(coeffs)@) == stage_inverse::<F>(models(old(coeffs)@), h as nat, vals32(tw@), ct.0),
{
    let ghost orig = models(coeffs@);
    let ghost target = stage_inverse::<F>(orig, h as nat, vals32(tw@), ct.0);
    let n = coeffs.len();
    let d = 2 * h;
    let m = n / d;
    proof {
        vstd::arithmetic::div_mod::lemma_fundamental_div_mod(n as int, d as int);
        assert(n == m * d) by (nonlinear_arith)
            requires
                n == d * m + 0,
        ;
    }
    let mut b: usize = 0;
    while b < m
        invariant
            n == coeffs@.len(),
            d == 2 * h,
            h >= 1,
            n == m * d,
            m <= tw@.len(),
            b <= m,
            orig.len() == n,
            target == stage_inverse::<F>(orig, h as nat, vals32(tw@), ct.0),
            forall|i: int| 0 <= i < n ==> (#[trigger] models(coeffs@)[i]) == if i / (d as int) < b { target[i] } else { orig[i] },
        decreases m - b,
    {
        let t = tw[b].add(ct);
        let mut p: usize = 0;
        while p < h
            invariant
                n == coeffs@.len(),
                d == 2 * h,
                h >= 1,
                n == m * d,
                m <= tw@.len(),
                b < m,
                p <= h,
                t.0 == vals32(tw@)[b as int] ^ ct.0,
                orig.len() == n,
                target == stage_inverse::<F>(orig, h as nat, vals32(tw@), ct.0),
                forall|i: int| 0 <= i < n ==> (#[trigger] models(coeffs@)[i]) == if i / (d as int) < b || (i
                    / (d as int) == b && (i % (d as int) < p || (i % (d as int) >= h && i % (d as int) - h < p))) {
                    target[i]
                } else {
                    orig[i]
                },
            decreases h - p,
        {
            proof {
                lemma_pair_position(b as int, p as int, h as int, m as int, n as int);
            }
            let left = b * d + p;
            let right = left + h;
            let lv = coeffs[left];
            let rv = coeffs[right];
            assert(models(coeffs@)[left as int] == coeffs@[left as int].model());
            assert(models(coeffs@)[right as int] == coeffs@[right as int].model());
            assert(lv.model() == orig[left as int]);
            assert(rv.model() == orig[right as int]);
            let nr = rv.add_elem(&lv);
            let nl = lv.add_elem(&nr.scale(t));
            let ghost before = coeffs@;
            coeffs.set(left, nl);
            let ghost mid = coeffs@;
            coeffs.set(right, nr);
            proof {
                lemma_models_update(before, left as int, nl);
                lemma_models_update(mid, right as int, nr);
                assert forall|i: int| 0 <= i < n implies (#[trigger] models(coeffs@)[i]) == if i / (d as int) < b || (i
                    / (d as int) == b && (i % (d as int) < p + 1 || (i % (d as int) >= h && i % (d as int) - h < p + 1))) {
                    target[i]
                } else {
                    orig[i]
                } by {
                    vstd::arithmetic::div_mod::lemma_fundamental_div_mod(i, d as int);
                    vstd::arithmetic::div_mod::lemma_mod_bound(i, d as int);
                    let bi = i / (d as int);
                    let qi = i % (d as int);
                    assert((d as int) * bi == bi * (d as int)) by (nonlinear_arith);
                    if i == left as int {
                        assert(models(coeffs@)[i] == nl.model());
                        assert(target[i] == F::add_model(orig[i], F::scale_model(F::add_model(orig[i + h], orig[i]), vals32(tw@)[b as int] ^ ct.0)));
                    } else if i == right as int {
                        assert(models(coeffs@)[i] == nr.model());
                        assert(target[i] == F::add_model(orig[i], orig[i - h]));
                    } else {
                        assert(models(coeffs@)[i] == models(before)[i]);
                        if bi == b as int {
                            assert(qi != p as int);
                            assert(qi != p + h);
                        }
                    }
                }
            }
            p = p + 1;
        }
        proof {
            assert forall|i: int| 0 <= i < n implies (#[trigger] models(coeffs@)[i]) == if i / (d as int) < b + 1 { target[i] } else { orig[i] } by {
                vstd::arithmetic::div_mod::lemma_mod_bound(i, d as int);
            }
        }
        b = b + 1;
    }
    assert(models(coeffs@) =~= target) by {
        assert forall|i: int| 0 <= i < n implies models(coeffs@)[i] == target[i] by {
            vstd::arithmetic::div_mod::lemma_fundamental_div_mod(i, d as int);
            assert(i / (d as int) < m) by (nonlinear_arith)
                requires
                    i == (d as int) * (i / (d as int)) + i % (d as int),
                    0 <= i % (d as int),
                    i < n,
                    n == m * d,
                    d > 0,
            ;
        }
    }
}

/// The forward transform: stages `r - 1` down to `0` on blocks of `2^(s+1)`.
pub open spec fn forward_spec<F: NttElement>(tw: Seq<Seq<u32>>, c: Seq<F::Model>, r: nat, coset: u32) -> Seq<F::Model>
    decreases r,
{
    if r == 0 {
        c
    } else {
        let s = (r - 1) as nat;
        forward_spec::<F>(tw, stage_forward::<F>(c, pow2(s), tw[s as int], coset_twiddle(coset, s)), s, coset)
    }
}

/// The inverse transform: stages `0` up to `r - 1`.
pub open spec fn inverse_spec<F: NttElement>(tw: Seq<Seq<u32>>, c: Seq<F::Model>, r: nat, coset: u32) -> Seq<F::Model>
    decreases r,
{
    if r == 0 {
        c
    } else {
        let s = (r - 1) as nat;
        stage_inverse::<F>(inverse_spec::<F>(tw, c, s, coset), pow2(s), tw[s as int], coset_twiddle(coset, s))
    }
}

/// The inverse transform undoes the forward transform, for any twiddles and coset.
pub proof fn lemma_inverse_forward<F: NttElement>(tw: Seq<Seq<u32>>, c: Seq<F::Model>, r: nat, coset: u32)
    requires
        c.len() % pow2(r) == 0,
    ensures
        inverse_spec::<F>(tw, forward_spec::<F>(tw, c, r, coset), r, coset) == c,
    decreases r,
{
    if r > 0 {
        let s = (r - 1) as nat;
        let h = pow2(s);
        let ct = coset_twiddle(coset, s);
        let c1 = stage_forward::<F>(c, h, tw[s as int], ct);
        lemma_pow2_unfold(r);
        lemma_pow2_pos(s);
        assert(c.len() % pow2(s) == 0) by {
            vstd::arithmetic::div_mod::lemma_mod_mod(c.len() as int, h as int, 2);
            assert(pow2(r) == h * 2) by (nonlinear_arith)
                requires
                    pow2(r) == 2 * h,
            ;
        }
        lemma_inverse_forward::<F>(tw, c1, s, coset);
        lemma_stage_round_trip::<F>(c, h, tw[s as int], ct);
    }
}

/// Round trip of the transform: for every coefficient vector whose length is
/// a power of two and every coset, the inverse transform of the forward
/// transform gives the coefficients back.
pub proof fn lemma_ntt_round_trip<F: NttElement>(ntt: AdditiveNTT, c: Seq<F::Model>, coset: u32)
    requires
        is_pow2(c.len()),
    ensures
        inverse_spec::<F>(ntt.table(), forward_spec::<F>(ntt.table(), c, log2(c.len()), coset), log2(c.len()), coset) == c,
{
    lemma_log2_of_pow2(c.len());
    vstd::arithmetic::div_mod::lemma_mod_self_0(c.len() as int);
    lemma_inverse_forward::<F>(ntt.table(), c, log2(c.len()), coset);
}

/// Value at `point` of the `k`-th normalised subspace polynomial:
/// `V_k(point) / V_k(2^k)`, and `point` itself for `k == 0`.
pub open spec fn novel_basis_value(point: u32, k: nat) -> u32 {
    if k == 0 {
        point
    } else {
        mul32(vanishing(point, k), inv32(vanishing((1u32 << (k as u32)) as u32, k)))
    }
}

/// Product of the `values[j]` over the set bits `j < n` of `i`.
pub open spec fn basis_product(values: Seq<u32>, i: usize, n: nat) -> u32
    decreases n,
{
    if n == 0 {
        1
    } else {
        let j = (n - 1) as nat;
        let prev = basis_product(values, i, j);
        if (i >> (j as usize)) & 1 == 1 {
            mul32(prev, values[j as int])
        } else {
            prev
        }
    }
}

/// Sum over the first `n` coefficients of `coeffs[i]` times the `i`-th basis
/// polynomial (the product of the normalised subspace polynomials of the set
/// bits of `i`), evaluated through `values`.
pub open spec fn novel_eval(coeffs: Seq<u32>, values: Seq<u32>, bits: nat, n: nat) -> u32
    decreases n,
{
    if n == 0 {
        0
    } else {
        let i = (n - 1) as nat;
        novel_eval(coeffs, values, bits, i) ^ mul32(basis_product(values, i as usize, bits), coeffs[i as int])
    }
}

/// Evaluates the polynomial with coefficients `coeffs` in the novel basis at
/// `point`, directly from its definition.
pub fn poly_eval(coeffs: &Vec<BinaryField32b>, point: BinaryField32b) -> (r: BinaryField32b)
    requires
        is_pow2(coeffs@.len()),
        coeffs@.len() <= 0x4000_0000,
    ensures
        r.0 == novel_eval(
            vals32(coeffs@),
            Seq::new(log2(coeffs@.len()) + 1, |k: int| novel_basis_value(point.0, k as nat)),
            log2(coeffs@.len()) + 1,
            coeffs@.len(),
        ),
{
    let log_len = log2_exact(coeffs.len());
    proof {
        vstd::arithmetic::power2::lemma2_to64();
        if log_len > 30 {
            vstd::arithmetic::power2::lemma_pow2_strictly_increases(30, log_len as nat);
        }
    }
    let bits = log_len + 1;
    let ghost values = Seq::new(bits as nat, |k: int| novel_basis_value(point.0, k as nat));
    let mut basis_vals: Vec<BinaryField32b> = Vec::new();
    basis_vals.push(point);
    let mut k: usize = 1;
    while k < bits
        invariant
            bits <= 31,
            1 <= k <= bits,
            values == Seq::new(bits as nat, |q: int| novel_basis_value(point.0, q as nat)),
            basis_vals@.len() == k,
            forall|q: int| 0 <= q < k ==> #[trigger] basis_vals@[q].0 == values[q],
        decreases bits - k,
    {
        let normaliser = vanishing_map(BinaryField32b::new(1u32 << (k as u32)), k).invert_or_zero();
        basis_vals.push(vanishing_map(point, k).mul(normaliser));
        k = k + 1;
    }
    let mut res = BinaryField32b::zero();
    let mut i: usize = 0;
    while i < coeffs.len()
        invariant
            bits <= 31,
            basis_vals@.len() == bits,
            forall|q: int| 0 <= q < bits ==> #[trigger] basis_vals@[q].0 == values[q],
            i <= coeffs@.len(),
            res.0 == novel_eval(vals32(coeffs@), values, bits as nat, i as nat),
        decreases coeffs@.len() - i,
    {
        let mut basis_eval = BinaryField32b::one();
        let mut j: usize = 0;
        while j < bits
            invariant
                bits <= 31,
                basis_vals@.len() == bits,
                forall|q: int| 0 <= q < bits ==> #[trigger] basis_vals@[q].0 == values[q],
                j <= bits,
                basis_eval.0 == basis_product(values, i, j as nat),
            decreases bits - j,
        {
            if (i >> j) & 1 == 1 {
                basis_eval = basis_eval.mul(basis_vals[j]);
            }
            j = j + 1;
        }
        res = res.add(basis_eval.mul(coeffs[i]));
        i = i + 1;
    }
    res
}

/// Base-2 logarithm, rounded down.
pub open spec fn log2(n: nat) -> nat
    decreases n,
{
    if n <= 1 {
        0
    } else {
        1 + log2(n / 2)
    }
}

pub proof fn lemma_log2_of_pow2(n: nat)
    requires
        is_pow2(n),
    ensures
        pow2(log2(n)) == n,
    decreases n,
{
    if n > 1 {
        lemma_log2_of_pow2(n / 2);
        lemma_pow2_unfold(log2(n));
    } else {
        vstd::arithmetic::power2::lemma2_to64();
    }
}

pub proof fn lemma_log2_pow2(e: nat)
    ensures
        log2(pow2(e)) == e,
    decreases e,
{
    vstd::arithmetic::power2::lemma2_to64();
    if e > 0 {
        lemma_pow2_unfold(e);
        lemma_pow2_pos((e - 1) as nat);
        lemma_log2_pow2((e - 1) as nat);
        assert(pow2(e) / 2 == pow2((e - 1) as nat));
    }
}

/// The exponent of a power of two.
pub fn log2_exact(n: usize) -> (r: usize)
    requires
        is_pow2(n as nat),
    ensures
        r == log2(n as nat),
        pow2(r as nat) == n,
        r < 64,
{
    let mut m = n;
    let mut r: usize = 0;
    proof {
        vstd::arithmetic::power2::lemma2_to64();
    }
    while m > 1
        invariant
            is_pow2(m as nat),
            r + log2(m as nat) == log2(n as nat),
            m * pow2(r as nat) == n,
            r < 64,
            m >= 1,
        decreases m,
    {
        proof {
            lemma_pow2_unfold((r + 1) as nat);
            assert((m / 2) * pow2((r + 1) as nat) == m * pow2(r as nat)) by (nonlinear_arith)
                requires
                    m % 2 == 0,
                    pow2((r + 1) as nat) == 2 * pow2(r as nat),
            ;
            if r + 1 >= 64 {
                vstd::arithmetic::power2::lemma2_to64();
                assert(r + 1 == 64);
                assert(false) by (nonlinear_arith)
                    requires
                        (m / 2) * pow2((r + 1) as nat) == n,
                        m / 2 >= 1,
                        pow2((r + 1) as nat) == 0x10000000000000000,
                        n <= usize::MAX,
                ;
            }
        }
        m = m / 2;
        r = r + 1;
    }
    r
}

proof fn lemma_twiddle_row_len(l: nat, r: nat)
    requires
        r < l,
    ensures
        twiddle_table(l)[r as int].len() == pow2((l - 1 - r) as nat),
{
    lemma_state_len(l, r);
    lemma_subset_sums_len(subspace_evals(l, r));
}

/// The coset twiddle of round `r`: `V_r(coset) / V_r(2^r)`.
fn round_coset_twiddle(coset: u32, r: usize) -> (t: BinaryField32b)
    requires
        r < 32,
    ensures
        t.0 == coset_twiddle(coset, r as nat),
{
    let normalising_value = vanishing_map(BinaryField32b::new(1u32 << (r as u32)), r).invert_or_zero();
    vanishing_map(BinaryField32b::new(coset), r).mul(normalising_value)
}

/// Facts about a stage `r` of a transform of `2^rounds` points with a table for `2^l`.
proof fn lemma_stage_shape(n: nat, rounds: nat, l: nat, r: nat)
    requires
        n == pow2(rounds),
        rounds <= l,
        r < rounds,
    ensures
        pow2(r) >= 1,
        2 * pow2(r) <= n,
        (n as int) % (2 * pow2(r) as int) == 0,
        (n as int) / (2 * pow2(r) as int) <= pow2((l - 1 - r) as nat),
{
    lemma_pow2_pos(r);
    lemma_pow2_unfold(r + 1);
    lemma_pow2_pos((rounds - (r + 1)) as nat);
    vstd::arithmetic::power2::lemma_pow2_adds((rounds - (r + 1)) as nat, r + 1);
    assert(((rounds - (r + 1)) as nat) + r + 1 == rounds);
    vstd::arithmetic::div_mod::lemma_mod_multiples_basic(pow2((rounds - (r + 1)) as nat) as int, pow2(r + 1) as int);
    vstd::arithmetic::power2::lemma_pow2_subtracts(r + 1, rounds);
    if r + 1 < rounds {
        vstd::arithmetic::power2::lemma_pow2_strictly_increases(r + 1, rounds);
    }
    if rounds < l {
        vstd::arithmetic::power2::lemma_pow2_strictly_increases((rounds - (r + 1)) as nat, (l - 1 - r) as nat);
    }
}

/// The additive NTT of a fixed size: its twiddle table.
pub struct AdditiveNTT {
    pub log_transform_size: usize,
    pub twiddles: Vec<Vec<BinaryField32b>>,
}

impl AdditiveNTT {
    /// The table is the one for `2^log_transform_size` points.
    pub open spec fn wf(&self) -> bool {
        &&& self.log_transform_size <= 32
        &&& rows32(self.twiddles@) == twiddle_table(self.log_transform_size as nat)
    }

    pub open spec fn table(&self) -> Seq<Seq<u32>> {
        rows32(self.twiddles@)
    }

    pub fn new(log_transform_size: usize) -> (r: AdditiveNTT)
        requires
            log_transform_size <= 32,
        ensures
            r.wf(),
            r.log_transform_size == log_transform_size,
    {
        let twiddles = compute_twiddles(log_transform_size);
        AdditiveNTT { log_transform_size, twiddles }
    }

    /// Forward transform in place on the coset `coset` of the evaluation domain.
    pub fn forward_ntt<F: NttElement>(&self, coeffs: &mut Vec<F>, coset: u32)
        requires
            self.wf(),
            is_pow2(old(coeffs)@.len()),
            old(coeffs)@.len() <= pow2(self.log_transform_size as nat),
        ensures
            final(coeffs)@.len() == old(coeffs)@.len(),
            models(final(coeffs)@) == forward_spec::<F>(self.table(), models(old(coeffs)@), log2(old(coeffs)@.len()), coset),
    {
        let ghost c0 = models(coeffs@);
        let ghost l = self.log_transform_size as nat;
        let n = coeffs.len();
        let rounds = log2_exact(n);
        proof {
            if rounds > l {
                vstd::arithmetic::power2::lemma_pow2_strictly_increases(l, rounds as nat);
            }
        }
        let mut rr = rounds;
        let mut hh = n;
        while rr > 0
            invariant
                self.wf(),
                l == self.log_transform_size,
                rounds <= l,
                n == pow2(rounds as nat),
                n == coeffs@.len(),
                rr <= rounds,
                hh == pow2(rr as nat),
                forward_spec::<F>(self.table(), models(coeffs@), rr as nat, coset) == forward_spec::<F>(self.table(), c0, rounds as nat, coset),
            decreases rr,
        {
            let r = rr - 1;
            proof {
                lemma_pow2_unfold(rr as nat);
                lemma_stage_shape(n as nat, rounds as nat, l, r as nat);
                lemma_twiddle_row_len(l, r as nat);
                assert(rows32(self.twiddles@).len() == self.twiddles@.len());
                assert(twiddle_table(l).len() == num_rounds(l));
                assert(self.table()[r as int] == vals32(self.twiddles@[r as int]@));
            }
            let h = hh / 2;
            let ct = round_coset_twiddle(coset, r);
            forward_stage(coeffs, h, &self.twiddles[r], ct);
            rr = r;
            hh = h;
        }
    }

    /// Inverse transform in place on the coset `coset` of the evaluation domain.
    pub fn inverse_ntt<F: NttElement>(&self, coeffs: &mut Vec<F>, coset: u32)
        requires
            self.wf(),
            is_pow2(old(coeffs)@.len()),
            old(coeffs)@.len() <= pow2(self.log_transform_size as nat),
        ensures
            final(coeffs)@.len() == old(coeffs)@.len(),
            models(final(coeffs)@) == inverse_spec::<F>(self.table(), models(old(coeffs)@), log2(old(coeffs)@.len()), coset),
    {
        let ghost c0 = models(coeffs@);
        let ghost l = self.log_transform_size as nat;
        let n = coeffs.len();
        let rounds = log2_exact(n);
        proof {
            if rounds > l {
                vstd::arithmetic::power2::lemma_pow2_strictly_increases(l, rounds as nat);
            }
            vstd::arithmetic::power2::lemma2_to64();
        }
        let mut r: usize = 0;
        let mut h: usize = 1;
        while r < rounds
            invariant
                self.wf(),
                l == self.log_transform_size,
                rounds <= l,
                n == pow2(rounds as nat),
                n == coeffs@.len(),
                r <= rounds,
                h == pow2(r as nat),
                models(coeffs@) == inverse_spec::<F>(self.table(), c0, r as nat, coset),
            decreases rounds - r,
        {
            proof {
                lemma_pow2_unfold((r + 1) as nat);
                lemma_stage_shape(n as nat, rounds as nat, l, r as nat);
                lemma_twiddle_row_len(l, r as nat);
                assert(rows32(self.twiddles@).len() == self.twiddles@.len());
                assert(twiddle_table(l).len() == num_rounds(l));
                assert(self.table()[r as int] == vals32(self.twiddles@[r as int]@));
            }
            let ct = round_coset_twiddle(coset, r);
            inverse_stage(coeffs, h, &self.twiddles[r], ct);
            r = r + 1;
            h = 2 * h;
        }
    }
}

} // verus!
