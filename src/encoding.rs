//! Reed-Solomon block encoding through the additive NTT, and the row folding
//! of the coefficient matrix.
use vstd::prelude::*;
use crate::field::{BinaryField128b, BinaryField32b, mul128, vals128, vals32};
use crate::merkle::is_pow2;
use crate::ntt::{AdditiveNTT, NttElement, forward_spec, inverse_spec, log2, log2_exact, models, lemma_log2_of_pow2};
use crate::packed_algebra::{PackedAlgebra32, packed_lanes};
use vstd::arithmetic::power2::pow2;

verus! {

/// Ratio of codeword length to message length.
pub const RATE: usize = 4;

/// Base-2 logarithm of the number of base-field bits packed in a 32-bit scalar.
pub const PACKING_DEGREE: usize = 5;

/// The codeword of `m`: `m` itself, then the forward transforms on the cosets
/// `L`, `2L` and `3L` of the inverse transform of `m` (`L` its length).
pub open spec fn encode_spec<F: NttElement>(tw: Seq<Seq<u32>>, m: Seq<F::Model>) -> Seq<F::Model> {
    let k = log2(m.len());
    let base = inverse_spec::<F>(tw, m, k, 0);
    m + forward_spec::<F>(tw, base, k, (#[verifier::truncate] ((1 * m.len()) as u32))) + forward_spec::<F>(tw, base, k, (#[verifier::truncate] ((2 * m.len()) as u32)))
        + forward_spec::<F>(tw, base, k, (#[verifier::truncate] ((3 * m.len()) as u32)))
}

/// A copy of a vector.
fn copy_vec<F: Copy>(v: &Vec<F>) -> (r: Vec<F>)
    ensures
        r@ == v@,
{
    let mut out: Vec<F> = Vec::new();
    let mut i: usize = 0;
    while i < v.len()
        invariant
            i <= v@.len(),
            out@ == v@.take(i as int),
        decreases v@.len() - i,
    {
        out.push(v[i]);
        assert(v@.take(i + 1) =~= v@.take(i as int).push(v@[i as int]));
        i = i + 1;
    }
    assert(v@.take(v@.len() as int) =~= v@);
    out
}

/// Appends the elements of `src` to `dst`.
fn append_vec<F: Copy>(dst: &mut Vec<F>, src: &Vec<F>)
    ensures
        final(dst)@ == old(dst)@ + src@,
{
    let ghost start = dst@;
    let mut i: usize = 0;
    while i < src.len()
        invariant
            i <= src@.len(),
            dst@ == start + src@.take(i as int),
        decreases src@.len() - i,
    {
        dst.push(src[i]);
        assert(src@.take(i + 1) =~= src@.take(i as int).push(src@[i as int]));
        i = i + 1;
    }
    assert(src@.take(src@.len() as int) =~= src@);
}

proof fn lemma_models_concat<F: NttElement>(a: Seq<F>, b: Seq<F>)
    ensures
        models(a + b) == models(a) + models(b),
{
    assert(models(a + b) =~= models(a) + models(b));
}

/// Reed-Solomon encoding of `message` at rate four.
pub fn rs_encode<F: NttElement>(message: &Vec<F>, ntt: &AdditiveNTT) -> (r: Vec<F>)
    requires
        ntt.wf(),
        is_pow2(message@.len()),
        message@.len() <= pow2(ntt.log_transform_size as nat),
    ensures
        r@.len() == 4 * message@.len(),
        models(r@) == encode_spec::<F>(ntt.table(), models(message@)),
{
    let ghost m = models(message@);
    let ghost k = log2(message@.len());
    let mut code = copy_vec(message);
    let mut inverse = copy_vec(message);
    ntt.inverse_ntt(&mut inverse, 0);
    let len = message.len();
    proof {
        lemma_log2_of_pow2(message@.len());
        vstd::arithmetic::power2::lemma_pow2_pos(ntt.log_transform_size as nat);
        vstd::arithmetic::power2::lemma2_to64();
        if ntt.log_transform_size < 32 {
            vstd::arithmetic::power2::lemma_pow2_strictly_increases(ntt.log_transform_size as nat, 32);
        }
    }
    let mut i: usize = 1;
    let ghost mut acc = m;
    while i < RATE
        invariant
            1 <= i <= RATE,
            ntt.wf(),
            len == message@.len(),
            is_pow2(len as nat),
            len <= pow2(ntt.log_transform_size as nat),
            len <= 0x1_0000_0000,
            inverse@.len() == len,
            models(inverse@) == inverse_spec::<F>(ntt.table(), m, k, 0),
            m.len() == len,
            k == log2(len as nat),
            code@.len() == i * len,
            models(code@) == acc,
            i == 1 ==> acc == m,
            i == 2 ==> acc == m + forward_spec::<F>(ntt.table(), models(inverse@), k, (#[verifier::truncate] ((1 * m.len()) as u32))),
            i == 3 ==> acc == m + forward_spec::<F>(ntt.table(), models(inverse@), k, (#[verifier::truncate] ((1 * m.len()) as u32)))
                + forward_spec::<F>(ntt.table(), models(inverse@), k, (#[verifier::truncate] ((2 * m.len()) as u32))),
            i == 4 ==> acc == encode_spec::<F>(ntt.table(), m),
        decreases RATE - i,
    {
        assert((i as u64) * (len as u64) <= 4 * 0x1_0000_0000) by (nonlinear_arith)
            requires
                i <= 4,
                len <= 0x1_0000_0000,
        ;
        let mut block = copy_vec(&inverse);
        let coset: u64 = (i as u64) * (len as u64);
        ntt.forward_ntt(&mut block, #[verifier::truncate] (coset as u32));
        let ghost before = code@;
        append_vec(&mut code, &block);
        proof {
            lemma_models_concat(before, block@);
            acc = acc + models(block@);
        }
        i = i + 1;
    }
    code
}

/// Reed-Solomon encoding of a vector of 32-bit scalars.
pub fn encode(message: &Vec<BinaryField32b>, ntt: &AdditiveNTT) -> (r: Vec<BinaryField32b>)
    requires
        ntt.wf(),
        is_pow2(message@.len()),
        message@.len() <= pow2(ntt.log_transform_size as nat),
    ensures
        r@.len() == 4 * message@.len(),
        vals32(r@) == encode_spec::<BinaryField32b>(ntt.table(), vals32(message@)),
{
    let r = rs_encode(message, ntt);
    assert(models(r@) =~= vals32(r@));
    assert(models(message@) =~= vals32(message@));
    r
}

/// Reed-Solomon encoding of a vector of 128-bit scalars, packed 32 at a time
/// into algebra elements.
pub fn encode_extension(message: &Vec<BinaryField128b>, ntt: &AdditiveNTT) -> (r: Vec<PackedAlgebra32>)
    requires
        ntt.wf(),
        message@.len() % 32 == 0,
        is_pow2((message@.len() / 32) as nat),
        message@.len() / 32 <= pow2(ntt.log_transform_size as nat),
    ensures
        r@.len() * 8 == message@.len(),
        models(r@) == encode_spec::<PackedAlgebra32>(ntt.table(), packed_lanes(vals128(message@))),
{
    let packed = PackedAlgebra32::pack(copy_vec(message));
    let r = rs_encode(&packed, ntt);
    assert(r@.len() * 8 == message@.len());
    r
}

/// Bit `b` of `x` is set.
pub open spec fn bit_set(x: u32, b: int) -> bool {
    (x >> (b as u32)) & 1 == 1
}

/// Sum of the `scalars[r]`, over the first `n` rows `r`, for which bit `b`
/// of `column[r]` is set.
pub open spec fn bit_combination(column: Seq<u32>, scalars: Seq<u128>, b: int, n: nat) -> u128
    decreases n,
{
    if n == 0 {
        0
    } else {
        let r = (n - 1) as int;
        let prev = bit_combination(column, scalars, b, (n - 1) as nat);
        if bit_set(column[r], b) {
            prev ^ scalars[r]
        } else {
            prev
        }
    }
}

/// Column `j` of a matrix given by rows.
pub open spec fn column_of(matrix: Seq<Seq<u32>>, j: int) -> Seq<u32> {
    Seq::new(matrix.len(), |r: int| matrix[r][j])
}

/// The folded vector: entry `32 j + b` combines the scalars of the rows whose
/// entry in column `j` has bit `b` set.
pub open spec fn fold_spec(matrix: Seq<Seq<u32>>, cols: nat, scalars: Seq<u128>) -> Seq<u128> {
    Seq::new(cols * 32, |k: int| bit_combination(column_of(matrix, k / 32), scalars, k % 32, matrix.len()))
}

/// The multilinear Lagrange basis evaluated at `r`: `[1]` for no coordinates,
/// `[1 - r0, r0]` for one, and each further coordinate `x` splits entry `e`
/// into `e (1 - x)` and `e x`.
pub open spec fn fourier_spec(r: Seq<u128>) -> Seq<u128>
    decreases r.len(),
{
    if r.len() == 0 {
        seq![1u128]
    } else if r.len() == 1 {
        seq![1u128 ^ r[0], r[0]]
    } else {
        let prev = fourier_spec(r.drop_last());
        let x = r.last();
        Seq::new(
            2 * prev.len(),
            |i: int|
                if i % 2 == 1 {
                    mul128(prev[i / 2], x)
                } else {
                    prev[i / 2] ^ mul128(prev[i / 2], x)
                },
        )
    }
}

pub proof fn lemma_fourier_len(r: Seq<u128>)
    ensures
        fourier_spec(r).len() == pow2(r.len()),
    decreases r.len(),
{
    vstd::arithmetic::power2::lemma2_to64();
    if r.len() > 1 {
        lemma_fourier_len(r.drop_last());
        vstd::arithmetic::power2::lemma_pow2_unfold(r.len());
    }
}

/// The multilinear Lagrange basis evaluated at the point `r`.
pub fn compute_fourier_bases(r: &Vec<BinaryField128b>) -> (out: Vec<BinaryField128b>)
    requires
        pow2(r@.len()) <= usize::MAX,
    ensures
        out@.len() == pow2(r@.len()),
        vals128(out@) == fourier_spec(vals128(r@)),
{
    let ghost rv = vals128(r@);
    proof {
        lemma_fourier_len(rv);
    }
    if r.len() == 0 {
        let out = vec![BinaryField128b::one()];
        assert(vals128(out@) =~= fourier_spec(rv));
        return out;
    }
    let mut fc_eq: Vec<BinaryField128b> = vec![BinaryField128b::one().sub(r[0]), r[0]];
    assert(vals128(fc_eq@) =~= fourier_spec(rv.take(1)));
    assert(fc_eq@.len() == pow2(1)) by {
        vstd::arithmetic::power2::lemma2_to64();
    }
    let mut k: usize = 1;
    while k < r.len()
        invariant
            1 <= k <= r@.len(),
            rv == vals128(r@),
            pow2(r@.len()) <= usize::MAX,
            vals128(fc_eq@) == fourier_spec(rv.take(k as int)),
            fc_eq@.len() == pow2(k as nat),
        decreases r@.len() - k,
    {
        let ghost prev = vals128(fc_eq@);
        let x = r[k];
        let mut next: Vec<BinaryField128b> = Vec::new();
        let mut it: usize = 0;
        proof {
            vstd::arithmetic::power2::lemma_pow2_unfold((k + 1) as nat);
            if k + 1 < r@.len() {
                vstd::arithmetic::power2::lemma_pow2_strictly_increases((k + 1) as nat, r@.len());
            }
        }
        while it < fc_eq.len()
            invariant
                it <= fc_eq@.len(),
                prev == vals128(fc_eq@),
                2 * fc_eq@.len() <= usize::MAX,
                next@.len() == 2 * it,
                forall|i: int| 0 <= i < 2 * it ==> #[trigger] next@[i].0 == if i % 2 == 1 {
                    mul128(prev[i / 2], x.0)
                } else {
                    prev[i / 2] ^ mul128(prev[i / 2], x.0)
                },
            decreases fc_eq@.len() - it,
        {
            let odd = fc_eq[it].mul(x);
            let even = fc_eq[it].sub(odd);
            next.push(even);
            next.push(odd);
            it = it + 1;
        }
        proof {
            let rk = rv.take((k + 1) as int);
            assert(rk.drop_last() =~= rv.take(k as int));
            assert(rk.last() == x.0);
            assert(vals128(next@) =~= fourier_spec(rk));
        }
        fc_eq = next;
        k = k + 1;
    }
    assert(rv.take(r@.len() as int) =~= rv);
    fc_eq
}

/// The rows of a matrix of 32-bit scalars, as bit patterns.
pub open spec fn matrix32(v: Seq<Vec<BinaryField32b>>) -> Seq<Seq<u32>> {
    v.map_values(|r: Vec<BinaryField32b>| vals32(r@))
}

/// Folds the first `cols` columns of a matrix with the row scalars.
fn fold_columns(matrix: &Vec<Vec<BinaryField32b>>, cols: usize, scalars: &Vec<BinaryField128b>) -> (r: Vec<BinaryField128b>)
    requires
        matrix@.len() == scalars@.len(),
        cols * 32 <= usize::MAX,
        forall|q: int| 0 <= q < matrix@.len() ==> cols <= #[trigger] matrix@[q]@.len(),
    ensures
        vals128(r@) == fold_spec(matrix32(matrix@), cols as nat, vals128(scalars@)),
{
    let ghost mv = matrix32(matrix@);
    let ghost sv = vals128(scalars@);
    let mut result: Vec<BinaryField128b> = Vec::new();
    let mut j: usize = 0;
    while j < cols
        invariant
            j <= cols,
            cols * 32 <= usize::MAX,
            matrix@.len() == scalars@.len(),
            forall|q: int| 0 <= q < matrix@.len() ==> cols <= #[trigger] matrix@[q]@.len(),
            mv == matrix32(matrix@),
            sv == vals128(scalars@),
            result@.len() == 32 * j,
            forall|k: int| 0 <= k < 32 * j ==> #[trigger] result@[k].0 == bit_combination(column_of(mv, k / 32), sv, k % 32, mv.len()),
        decreases cols - j,
    {
        let mut bit: usize = 0;
        while bit < 32
            invariant
                j < cols,
                bit <= 32,
                matrix@.len() == scalars@.len(),
                forall|q: int| 0 <= q < matrix@.len() ==> cols <= #[trigger] matrix@[q]@.len(),
                mv == matrix32(matrix@),
                sv == vals128(scalars@),
                result@.len() == 32 * j + bit,
                forall|k: int| 0 <= k < 32 * j + bit ==> #[trigger] result@[k].0 == bit_combination(column_of(mv, k / 32), sv, k % 32, mv.len()),
            decreases 32 - bit,
        {
            let mut acc = BinaryField128b::zero();
            let mut row: usize = 0;
            while row < matrix.len()
                invariant
                    j < cols,
                    bit < 32,
                    row <= matrix@.len(),
                    matrix@.len() == scalars@.len(),
                    forall|q: int| 0 <= q < matrix@.len() ==> cols <= #[trigger] matrix@[q]@.len(),
                    mv == matrix32(matrix@),
                    sv == vals128(scalars@),
                    acc.0 == bit_combination(column_of(mv, j as int), sv, bit as int, row as nat),
                decreases matrix@.len() - row,
            {
                assert(cols <= matrix@[row as int]@.len());
                let v = matrix[row][j].0;
                assert(column_of(mv, j as int)[row as int] == v);
                if (v >> (bit as u32)) & 1 == 1 {
                    acc = acc.add(scalars[row]);
                }
                row = row + 1;
            }
            let ghost k = 32 * j + bit;
            assert(k / 32 == j && k % 32 == bit) by {
                vstd::arithmetic::div_mod::lemma_fundamental_div_mod_converse(k as int, 32, j as int, bit as int);
            }
            result.push(acc);
            bit = bit + 1;
        }
        j = j + 1;
    }
    assert(vals128(result@) =~= fold_spec(mv, cols as nat, sv));
    result
}

/// Folds a coefficient matrix with the row scalars: entry `32 j + b` of the
/// result is the sum of the scalars of the rows whose entry in column `j` has bit `b` set.
pub fn make_linear_combination(poly: Vec<Vec<BinaryField32b>>, scalars: Vec<BinaryField128b>) -> (r: Vec<BinaryField128b>)
    requires
        poly@.len() == scalars@.len(),
        poly@.len() >= 1,
        poly@[0]@.len() * 32 <= usize::MAX,
        forall|q: int| 0 <= q < poly@.len() ==> (#[trigger] poly@[q]@.len()) == poly@[0]@.len(),
    ensures
        vals128(r@) == fold_spec(matrix32(poly@), poly@[0]@.len(), vals128(scalars@)),
{
    let cols = poly[0].len();
    fold_columns(&poly, cols, &scalars)
}

/// Cuts `poly` into rows of `cols` entries.
pub fn make_coeff_matrix(poly: &Vec<BinaryField32b>, cols: usize) -> (r: Vec<Vec<BinaryField32b>>)
    requires
        cols > 0,
        poly@.len() % (cols as nat) == 0,
    ensures
        r@.len() * cols == poly@.len(),
        forall|q: int| 0 <= q < r@.len() ==> (#[trigger] r@[q]@).len() == cols,
        forall|q: int| 0 <= q < r@.len() ==> #[trigger] r@[q]@ == poly@.subrange(q * cols, q * cols + cols),
{
    let rows = poly.len() / cols;
    let len = poly.len();
    proof {
        vstd::arithmetic::div_mod::lemma_fundamental_div_mod(len as int, cols as int);
    }
    let mut out: Vec<Vec<BinaryField32b>> = Vec::new();
    let mut q: usize = 0;
    while q < rows
        invariant
            len == poly@.len(),
            len == cols * rows,
            q <= rows,
            out@.len() == q,
            forall|p: int| 0 <= p < q ==> (#[trigger] out@[p]@).len() == cols,
            forall|p: int| 0 <= p < q ==> #[trigger] out@[p]@ == poly@.subrange(p * cols, p * cols + cols),
        decreases rows - q,
    {
        assert(q * cols + cols <= len) by (nonlinear_arith)
            requires
                q < rows,
                len == cols * rows,
        ;
        let start = q * cols;
        let mut row: Vec<BinaryField32b> = Vec::new();
        let mut c: usize = 0;
        while c < cols
            invariant
                start + cols <= len,
                len == poly@.len(),
                c <= cols,
                row@ == poly@.subrange(start as int, start + c),
            decreases cols - c,
        {
            row.push(poly[start + c]);
            assert(poly@.subrange(start as int, start + c + 1) =~= poly@.subrange(start as int, start + c).push(poly@[start + c]));
            c = c + 1;
        }
        out.push(row);
        q = q + 1;
    }
    assert(out@.len() * cols == poly@.len()) by (nonlinear_arith)
        requires
            out@.len() == rows,
            len == cols * rows,
            len == poly@.len(),
    ;
    out
}

/// Largest base-2 logarithm of the number of columns:
/// `2^PACKING_DEGREE + PACKING_DEGREE - log2(RATE)`.
pub const MAX_LOG_COLS: usize = 35;

/// Base-2 logarithm of the number of columns for a polynomial of `2^v` coefficients.
pub open spec fn code_log_cols(v: nat) -> nat {
    if v < MAX_LOG_COLS {
        (v + 1) / 2
    } else {
        MAX_LOG_COLS as nat
    }
}

pub proof fn lemma_pow2_is_pow2(e: nat)
    ensures
        is_pow2(pow2(e)),
    decreases e,
{
    vstd::arithmetic::power2::lemma2_to64();
    if e > 0 {
        vstd::arithmetic::power2::lemma_pow2_unfold(e);
        vstd::arithmetic::power2::lemma_pow2_pos((e - 1) as nat);
        lemma_pow2_is_pow2((e - 1) as nat);
        assert(pow2(e) / 2 == pow2((e - 1) as nat));
    }
}

proof fn lemma_pow2_mono(a: nat, b: nat)
    requires
        a <= b,
    ensures
        pow2(a) <= pow2(b),
{
    if a < b {
        vstd::arithmetic::power2::lemma_pow2_strictly_increases(a, b);
    }
}

/// `2^e`.
fn pow2_usize(e: usize) -> (r: usize)
    requires
        pow2(e as nat) <= usize::MAX,
    ensures
        r == pow2(e as nat),
{
    let mut r: usize = 1;
    let mut i: usize = 0;
    proof {
        vstd::arithmetic::power2::lemma2_to64();
    }
    while i < e
        invariant
            i <= e,
            r == pow2(i as nat),
            pow2(e as nat) <= usize::MAX,
        decreases e - i,
    {
        proof {
            vstd::arithmetic::power2::lemma_pow2_unfold((i + 1) as nat);
            lemma_pow2_mono((i + 1) as nat, e as nat);
        }
        r = 2 * r;
        i = i + 1;
    }
    r
}

/// Encodes each of the first `rows` rows of a matrix.
pub fn encode_interleaved(poly: &Vec<Vec<BinaryField32b>>, ntt: &AdditiveNTT, rows: usize, cols: usize) -> (r: Vec<Vec<BinaryField32b>>)
    requires
        ntt.wf(),
        rows <= poly@.len(),
        is_pow2(cols as nat),
        cols <= pow2(ntt.log_transform_size as nat),
        forall|q: int| 0 <= q < rows ==> (#[trigger] poly@[q]@.len()) == cols,
    ensures
        r@.len() == rows,
        forall|q: int| 0 <= q < rows ==> (#[trigger] r@[q]@.len()) == 4 * cols,
        forall|q: int| 0 <= q < rows ==> #[trigger] vals32(r@[q]@) == encode_spec::<BinaryField32b>(ntt.table(), vals32(poly@[q]@)),
{
    let mut out: Vec<Vec<BinaryField32b>> = Vec::new();
    let mut q: usize = 0;
    while q < rows
        invariant
            ntt.wf(),
            rows <= poly@.len(),
            is_pow2(cols as nat),
            cols <= pow2(ntt.log_transform_size as nat),
            forall|p: int| 0 <= p < rows ==> (#[trigger] poly@[p]@.len()) == cols,
            q <= rows,
            out@.len() == q,
            forall|p: int| 0 <= p < q ==> (#[trigger] out@[p]@.len()) == 4 * cols,
            forall|p: int| 0 <= p < q ==> #[trigger] vals32(out@[p]@) == encode_spec::<BinaryField32b>(ntt.table(), vals32(poly@[p]@)),
        decreases rows - q,
    {
        assert(poly@[q as int]@.len() == cols);
        let row = encode(&poly[q], ntt);
        out.push(row);
        q = q + 1;
    }
    out
}

/// The encoded coefficient matrix: `rows` codewords of `RATE * cols` scalars.
#[derive(Debug)]
pub struct Code {
    pub code: Vec<Vec<BinaryField32b>>,
    pub rows: usize,
    pub cols: usize,
}

impl Code {
    /// The shape: `rows` rows, each of `RATE * cols` scalars.
    pub open spec fn wf(&self) -> bool {
        &&& self.code@.len() == self.rows
        &&& forall|q: int| 0 <= q < self.rows ==> (#[trigger] self.code@[q]@.len()) == 4 * self.cols
    }

    /// This is the encoding of `poly` with the table `tw`.
    pub open spec fn encodes(&self, poly: Seq<u32>, tw: Seq<Seq<u32>>) -> bool {
        &&& self.wf()
        &&& self.cols == pow2(code_log_cols(log2(poly.len())))
        &&& self.rows * self.cols == poly.len()
        &&& forall|q: int| 0 <= q < self.rows ==> #[trigger] vals32(self.code@[q]@)
            == encode_spec::<BinaryField32b>(tw, poly.subrange(q * self.cols, q * self.cols + self.cols))
    }

    /// Lays out `poly` as a matrix of `2^(v - c)` rows and `2^c` columns, where
    /// `2^v` is its length and `c = code_log_cols(v)`, and encodes each row.
    pub fn new(poly: &Vec<BinaryField32b>, ntt: &AdditiveNTT) -> (r: Code)
        requires
            ntt.wf(),
            is_pow2(poly@.len()),
            code_log_cols(log2(poly@.len())) <= ntt.log_transform_size,
        ensures
            r.encodes(vals32(poly@), ntt.table()),
    {
        let len = poly.len();
        let variables = log2_exact(len);
        let log_cols: usize = if variables < MAX_LOG_COLS {
            (variables + 1) / 2
        } else {
            MAX_LOG_COLS
        };
        let log_rows = variables - log_cols;
        proof {
            vstd::arithmetic::power2::lemma_pow2_adds(log_rows as nat, log_cols as nat);
            vstd::arithmetic::power2::lemma_pow2_pos(log_rows as nat);
            vstd::arithmetic::power2::lemma_pow2_pos(log_cols as nat);
            lemma_pow2_mono(log_cols as nat, variables as nat);
            lemma_pow2_mono(log_rows as nat, variables as nat);
            lemma_pow2_mono(log_cols as nat, ntt.log_transform_size as nat);
            lemma_pow2_is_pow2(log_cols as nat);
        }
        let cols = pow2_usize(log_cols);
        let rows = pow2_usize(log_rows);
        assert(len as int % cols as int == 0) by {
            vstd::arithmetic::div_mod::lemma_mod_multiples_basic(rows as int, cols as int);
        }
        let coeff_matrix = make_coeff_matrix(poly, cols);
        assert(coeff_matrix@.len() == rows) by (nonlinear_arith)
            requires
                coeff_matrix@.len() * cols == len,
                rows * cols == len,
                cols > 0,
        ;
        let code = encode_interleaved(&coeff_matrix, ntt, rows, cols);
        let r = Code { code, rows, cols };
        assert forall|q: int| 0 <= q < r.rows implies #[trigger] vals32(r.code@[q]@)
            == encode_spec::<BinaryField32b>(ntt.table(), vals32(poly@).subrange(q * r.cols, q * r.cols + r.cols)) by {
            assert(q * cols + cols <= len) by (nonlinear_arith)
                requires
                    0 <= q < rows,
                    rows * cols == len,
            ;
            assert(vals32(coeff_matrix@[q]@) =~= vals32(poly@).subrange(q * cols, q * cols + cols));
        }
        r
    }

    /// Column `col` of the encoded matrix.
    pub fn col(&self, col: usize) -> (r: Vec<BinaryField32b>)
        requires
            self.wf(),
            col < 4 * self.cols,
        ensures
            r@.len() == self.rows,
            forall|q: int| 0 <= q < self.rows ==> #[trigger] r@[q] == self.code@[q]@[col as int],
    {
        let mut result: Vec<BinaryField32b> = Vec::new();
        let mut q: usize = 0;
        while q < self.rows
            invariant
                self.wf(),
                col < 4 * self.cols,
                q <= self.rows,
                result@.len() == q,
                forall|p: int| 0 <= p < q ==> #[trigger] result@[p] == self.code@[p]@[col as int],
            decreases self.rows - q,
        {
            assert(self.code@[q as int]@.len() == 4 * self.cols);
            result.push(self.code[q][col]);
            q = q + 1;
        }
        result
    }

    /// Folds the first `cols` columns of the encoded matrix (the message part) with the row scalars.
    pub fn make_linear_combination(&self, scalars: Vec<BinaryField128b>) -> (r: Vec<BinaryField128b>)
        requires
            self.wf(),
            scalars@.len() == self.rows,
            self.cols * 32 <= usize::MAX,
        ensures
            vals128(r@) == fold_spec(matrix32(self.code@), self.cols as nat, vals128(scalars@)),
    {
        fold_columns(&self.code, self.cols, &scalars)
    }
}

} // verus!
