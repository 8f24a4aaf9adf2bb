//! The polynomial commitment: commit, evaluation proof and verification.
use vstd::prelude::*;
use vstd::arithmetic::power2::pow2;
use crate::encoding::{
    Code, bit_combination, bit_set, code_log_cols, compute_fourier_bases, encode_extension, encode_spec,
    fold_spec, fourier_spec, lemma_fourier_len, lemma_pow2_is_pow2, make_coeff_matrix, make_linear_combination,
    matrix32,
};
use crate::field::{BinaryField128b, BinaryField32b, mul128, vals128, vals32};
use crate::merkle::{
    MerkleTree, auth_path, column_bytes, fold_path, hash_eq, hash_field, hashes_view, is_pow2, keccak256,
    merklize, tree_wf, verify_merkle_path,
};
use crate::ntt::{AdditiveNTT, log2, log2_exact, models};
use crate::packed_algebra::{PackedAlgebra32, packed_lanes};

verus! {

/// A commitment: the Merkle root over the encoded columns, and the base-2
/// logarithm of the number of message columns.
#[derive(Debug)]
pub struct Commitment {
    pub commit: crate::merkle::Hash,
    pub cols: usize,
}

/// An evaluation proof.
pub struct EvalProof {
    pub folded_poly: Vec<BinaryField128b>,
    pub queried_columns: Vec<Vec<BinaryField32b>>,
    pub merkle_paths: Vec<Vec<crate::merkle::Hash>>,
}

impl EvalProof {
    pub fn new(
        folded_poly: Vec<BinaryField128b>,
        queried_columns: Vec<Vec<BinaryField32b>>,
        merkle_paths: Vec<Vec<crate::merkle::Hash>>,
    ) -> (r: EvalProof)
        ensures
            r.folded_poly == folded_poly,
            r.queried_columns == queried_columns,
            r.merkle_paths == merkle_paths,
    {
        EvalProof { folded_poly, queried_columns, merkle_paths }
    }
}

/// Column `c` of the encoded matrix.
pub open spec fn code_column(code: Seq<Vec<BinaryField32b>>, c: int) -> Seq<BinaryField32b> {
    Seq::new(code.len(), |q: int| code[q]@[c])
}

/// The coefficients laid out as `rows` rows of `cols` entries.
pub open spec fn poly_matrix(poly: Seq<u32>, rows: nat, cols: nat) -> Seq<Seq<u32>> {
    Seq::new(rows, |q: int| poly.subrange(q * cols, q * cols + cols))
}

/// Sum over `k < n` of `scalars[k] * vals[k]`.
pub open spec fn inner_product(scalars: Seq<u128>, vals: Seq<u128>, n: nat) -> u128
    decreases n,
{
    if n == 0 {
        0
    } else {
        inner_product(scalars, vals, (n - 1) as nat) ^ mul128(scalars[n - 1], vals[n - 1])
    }
}

/// The evaluation of the multilinear polynomial whose base-field coefficients
/// are the bits of `poly` (coefficient `m` is bit `m % 32` of `poly[m / 32]`),
/// given the Lagrange basis values `basis`, summed over the first `n` coefficients.
pub open spec fn unpacked_eval(poly: Seq<u32>, basis: Seq<u128>, n: nat) -> u128
    decreases n,
{
    if n == 0 {
        0
    } else {
        let m = (n - 1) as int;
        let prev = unpacked_eval(poly, basis, (n - 1) as nat);
        if bit_set(poly[m / 32], m % 32) {
            prev ^ basis[m]
        } else {
            prev
        }
    }
}

proof fn lemma_four_pow2(e: nat)
    ensures
        4 * pow2(e) == pow2(e + 2),
        is_pow2(4 * pow2(e)),
{
    vstd::arithmetic::power2::lemma_pow2_unfold(e + 2);
    vstd::arithmetic::power2::lemma_pow2_unfold(e + 1);
    lemma_pow2_is_pow2(e + 2);
}

/// Commits to `poly`: encodes it, hashes every column of the encoding, and
/// builds the Merkle tree over the column hashes.
pub fn commit(poly: &Vec<BinaryField32b>, ntt: &AdditiveNTT) -> (r: (Commitment, MerkleTree, Code))
    requires
        ntt.wf(),
        is_pow2(poly@.len()),
        code_log_cols(log2(poly@.len())) <= ntt.log_transform_size,
    ensures
        r.2.encodes(vals32(poly@), ntt.table()),
        tree_wf(r.1@),
        r.1@[0].len() == 4 * r.2.cols,
        forall|c: int| 0 <= c < 4 * r.2.cols ==> #[trigger] r.1@[0][c] == keccak256(column_bytes(code_column(r.2.code@, c))),
        r.0.commit.0@ == r.1@.last()[0],
        pow2(r.0.cols as nat) == r.2.cols,
        r.0.cols == code_log_cols(log2(poly@.len())),
{
    let encoded_poly = Code::new(poly, ntt);
    proof {
        crate::ntt::lemma_log2_of_pow2(poly@.len());
        lemma_pow2_is_pow2(code_log_cols(log2(poly@.len())));
        assert(encoded_poly.rows >= 1) by (nonlinear_arith)
            requires
                encoded_poly.rows * encoded_poly.cols == poly@.len(),
                poly@.len() >= 1,
        ;
    }
    let log_cols = log2_exact(encoded_poly.cols);
    proof {
        crate::ntt::lemma_log2_of_pow2(encoded_poly.cols as nat);
        crate::ntt::lemma_log2_pow2(code_log_cols(log2(poly@.len())));
        lemma_four_pow2(log_cols as nat);
    }
    let n_leaves = encoded_poly.code[0].len();
    let mut leaf_hashes: Vec<crate::merkle::Hash> = Vec::new();
    let mut c: usize = 0;
    while c < n_leaves
        invariant
            encoded_poly.wf(),
            n_leaves == 4 * encoded_poly.cols,
            c <= n_leaves,
            leaf_hashes@.len() == c,
            forall|q: int| 0 <= q < c ==> #[trigger] leaf_hashes@[q].0@ == keccak256(column_bytes(code_column(encoded_poly.code@, q))),
        decreases n_leaves - c,
    {
        let column = encoded_poly.col(c);
        assert(column@ =~= code_column(encoded_poly.code@, c as int));
        leaf_hashes.push(hash_field(&column));
        c = c + 1;
    }
    let ghost leaves = hashes_view(leaf_hashes@);
    let merkle_tree = merklize(leaf_hashes);
    let commitment = Commitment { commit: merkle_tree.get_root(), cols: log_cols };
    assert forall|q: int| 0 <= q < 4 * encoded_poly.cols implies #[trigger] merkle_tree@[0][q] == keccak256(column_bytes(code_column(encoded_poly.code@, q))) by {
        assert(leaves[q] == leaf_hashes@[q].0@);
    }
    (commitment, merkle_tree, encoded_poly)
}

/// Proves the evaluation of the committed polynomial at `point`: folds the
/// coefficient matrix with the Lagrange basis at the head of the point, and
/// opens the queried columns with their Merkle paths.
pub fn prove(poly: &Vec<BinaryField32b>, encoded_poly: &Code, merkle_tree: &MerkleTree, point: &Vec<BinaryField128b>, queries: &Vec<usize>) -> (r: EvalProof)
    requires
        encoded_poly.wf(),
        encoded_poly.rows * encoded_poly.cols == poly@.len(),
        encoded_poly.cols * 32 <= usize::MAX,
        is_pow2(encoded_poly.rows as nat),
        is_pow2(encoded_poly.cols as nat),
        point@.len() == log2(encoded_poly.rows as nat) + log2(encoded_poly.cols as nat) + 5,
        tree_wf(merkle_tree@),
        merkle_tree@[0].len() == 4 * encoded_poly.cols,
        forall|i: int| 0 <= i < queries@.len() ==> #[trigger] queries@[i] < 4 * encoded_poly.cols,
    ensures
        vals128(r.folded_poly@) == fold_spec(
            poly_matrix(vals32(poly@), encoded_poly.rows as nat, encoded_poly.cols as nat),
            encoded_poly.cols as nat,
            fourier_spec(vals128(point@).subrange(0, log2(encoded_poly.rows as nat) as int)),
        ),
        r.queried_columns@.len() == queries@.len(),
        r.merkle_paths@.len() == queries@.len(),
        forall|i: int| 0 <= i < queries@.len() ==> #[trigger] r.queried_columns@[i]@ == code_column(encoded_poly.code@, queries@[i] as int),
        forall|i: int| 0 <= i < queries@.len() ==> hashes_view(#[trigger] r.merkle_paths@[i]@) == auth_path(merkle_tree@, 0, queries@[i] as nat),
{
    let cols = encoded_poly.cols;
    let rows = encoded_poly.rows;
    let log_cols = log2_exact(cols);
    let log_rows = log2_exact(rows);
    let head_len = point.len() - (log_cols + 5);
    let mut head: Vec<BinaryField128b> = Vec::new();
    let mut i: usize = 0;
    while i < head_len
        invariant
            head_len <= point@.len(),
            i <= head_len,
            head@ == point@.subrange(0, i as int),
        decreases head_len - i,
    {
        head.push(point[i]);
        assert(point@.subrange(0, i + 1) =~= point@.subrange(0, i as int).push(point@[i as int]));
        i = i + 1;
    }
    proof {
        assert(head_len == log_rows);
        assert(vals128(head@) =~= vals128(point@).subrange(0, log_rows as int));
        lemma_fourier_len(vals128(head@));
    }
    let scalars = compute_fourier_bases(&head);
    proof {
        vstd::arithmetic::power2::lemma_pow2_pos(log_cols as nat);
        vstd::arithmetic::power2::lemma_pow2_pos(log_rows as nat);
    }
    assert(poly@.len() as int % cols as int == 0) by {
        vstd::arithmetic::div_mod::lemma_mod_multiples_basic(rows as int, cols as int);
    }
    let poly_coeff_matrix = make_coeff_matrix(poly, cols);
    assert(poly_coeff_matrix@.len() == rows) by (nonlinear_arith)
        requires
            poly_coeff_matrix@.len() * cols == poly@.len(),
            rows * cols == poly@.len(),
            cols > 0,
    ;
    assert(poly_coeff_matrix@[0]@.len() == cols);
    let ghost m = matrix32(poly_coeff_matrix@);
    let folded = make_linear_combination(poly_coeff_matrix, scalars);
    proof {
        assert forall|q: int| 0 <= q < rows implies #[trigger] m[q] == poly_matrix(vals32(poly@), rows as nat, cols as nat)[q] by {
            assert(q * cols + cols <= poly@.len()) by (nonlinear_arith)
                requires
                    0 <= q < rows,
                    rows * cols == poly@.len(),
            ;
            assert(m[q] =~= vals32(poly@).subrange(q * cols, q * cols + cols));
        }
        assert(m =~= poly_matrix(vals32(poly@), rows as nat, cols as nat));
    }
    let mut queried_columns: Vec<Vec<BinaryField32b>> = Vec::new();
    let mut merkle_paths: Vec<Vec<crate::merkle::Hash>> = Vec::new();
    let mut k: usize = 0;
    while k < queries.len()
        invariant
            encoded_poly.wf(),
            tree_wf(merkle_tree@),
            merkle_tree@[0].len() == 4 * encoded_poly.cols,
            forall|i: int| 0 <= i < queries@.len() ==> #[trigger] queries@[i] < 4 * encoded_poly.cols,
            k <= queries@.len(),
            queried_columns@.len() == k,
            merkle_paths@.len() == k,
            forall|i: int| 0 <= i < k ==> #[trigger] queried_columns@[i]@ == code_column(encoded_poly.code@, queries@[i] as int),
            forall|i: int| 0 <= i < k ==> hashes_view(#[trigger] merkle_paths@[i]@) == auth_path(merkle_tree@, 0, queries@[i] as nat),
        decreases queries@.len() - k,
    {
        let q = queries[k];
        let column = encoded_poly.col(q);
        assert(column@ =~= code_column(encoded_poly.code@, q as int));
        queried_columns.push(column);
        merkle_paths.push(merkle_tree.get_merkle_path(q));
        k = k + 1;
    }
    EvalProof::new(folded, queried_columns, merkle_paths)
}

/// Openings of an honest proof check out against the commitment: when the
/// leaves of a well-formed tree are the hashes of the encoded columns (as
/// `commit` builds them), folding the hash of column `q` with the tree's path
/// for `q` (as `prove` returns it) gives the root.
pub proof fn lemma_honest_opening_verifies(tree: MerkleTree, code: Code, q: nat)
    requires
        tree_wf(tree@),
        tree@[0].len() == 4 * code.cols,
        forall|c: int| 0 <= c < 4 * code.cols ==> #[trigger] tree@[0][c] == keccak256(column_bytes(code_column(code.code@, c))),
        q < 4 * code.cols,
    ensures
        fold_path(keccak256(column_bytes(code_column(code.code@, q as int))), q, auth_path(tree@, 0, q)) == tree@.last()[0],
{
    crate::merkle::lemma_merkle_path_verifies(tree, q);
}

/// Sum of the products `scalars[k] * vals[k]` over the common length.
pub fn linear_combination(scalars: &Vec<BinaryField128b>, vals: &Vec<BinaryField128b>) -> (r: BinaryField128b)
    ensures
        r.0 == inner_product(
            vals128(scalars@),
            vals128(vals@),
            if scalars@.len() < vals@.len() { scalars@.len() } else { vals@.len() },
        ),
{
    let n = if scalars.len() < vals.len() {
        scalars.len()
    } else {
        vals.len()
    };
    let mut acc = BinaryField128b::zero();
    let mut k: usize = 0;
    while k < n
        invariant
            n <= scalars@.len(),
            n <= vals@.len(),
            k <= n,
            acc.0 == inner_product(vals128(scalars@), vals128(vals@), k as nat),
        decreases n - k,
    {
        acc = acc.add(scalars[k].mul(vals[k]));
        k = k + 1;
    }
    acc
}

/// For each bit `b`, the sum of the scalars of the rows whose value has bit `b` set.
pub fn unpacked_linear_combination(scalars: &Vec<BinaryField128b>, vals: &Vec<BinaryField32b>) -> (r: PackedAlgebra32)
    requires
        scalars@.len() <= vals@.len(),
    ensures
        r.lanes() == Seq::new(32, |b: int| bit_combination(vals32(vals@), vals128(scalars@), b, scalars@.len())),
{
    let mut res = [BinaryField128b::zero(); 32];
    let mut b: usize = 0;
    while b < 32
        invariant
            b <= 32,
            scalars@.len() <= vals@.len(),
            forall|q: int| 0 <= q < b ==> #[trigger] res@[q].0 == bit_combination(vals32(vals@), vals128(scalars@), q, scalars@.len()),
        decreases 32 - b,
    {
        let mut acc = BinaryField128b::zero();
        let mut k: usize = 0;
        while k < scalars.len()
            invariant
                b < 32,
                k <= scalars@.len(),
                scalars@.len() <= vals@.len(),
                acc.0 == bit_combination(vals32(vals@), vals128(scalars@), b as int, k as nat),
            decreases scalars@.len() - k,
        {
            if (vals[k].0 >> (b as u32)) & 1 == 1 {
                acc = acc.add(scalars[k]);
            }
            k = k + 1;
        }
        res[b] = acc;
        b = b + 1;
    }
    let r = PackedAlgebra32::new(res);
    assert(r.lanes() =~= Seq::new(32, |b: int| bit_combination(vals32(vals@), vals128(scalars@), b, scalars@.len())));
    r
}

/// Evaluates the multilinear polynomial whose base-field coefficients are the
/// bits of `poly`, given the Lagrange basis values at the point.
pub fn evaluate_unpacked(poly: &Vec<BinaryField32b>, basis: &Vec<BinaryField128b>) -> (r: BinaryField128b)
    requires
        poly@.len() * 32 == basis@.len(),
    ensures
        r.0 == unpacked_eval(vals32(poly@), vals128(basis@), basis@.len()),
{
    let mut acc = BinaryField128b::zero();
    let n = basis.len();
    let mut m: usize = 0;
    while m < n
        invariant
            n == basis@.len(),
            poly@.len() * 32 == n,
            m <= n,
            acc.0 == unpacked_eval(vals32(poly@), vals128(basis@), m as nat),
        decreases n - m,
    {
        let k = m / 32;
        let i = m % 32;
        if (poly[k].0 >> (i as u32)) & 1 == 1 {
            acc = acc.add(basis[m]);
        }
        m = m + 1;
    }
    acc
}

/// Query `i` passes: its column hashes along its path to the root, and its
/// bits fold with the head scalars to the encoded folded vector at the queried index.
pub open spec fn query_ok(
    commit: Commitment,
    proof: EvalProof,
    head: Seq<u128>,
    encoded: Seq<Seq<u128>>,
    queries: Seq<usize>,
    i: int,
) -> bool {
    let col = proof.queried_columns@[i]@;
    &&& queries[i] < encoded.len()
    &&& col.len() == head.len()
    &&& fold_path(keccak256(column_bytes(col)), queries[i] as nat, hashes_view(proof.merkle_paths@[i]@))
        == commit.commit.0@
    &&& encoded[queries[i] as int] == Seq::new(32, |b: int| bit_combination(vals32(col), head, b, head.len()))
}

/// The verifier's decision. With `c` the logarithm of the number of message
/// columns, the point splits into a head and a tail of `c + 5` coordinates.
/// It accepts when the shapes agree, the transform is large enough for the
/// folded vector, every queried column hashes along its path to the root and
/// folds with the head's Lagrange basis to the re-encoded folded vector at that
/// column, and the tail's Lagrange basis combines the folded vector to `eval`.
pub open spec fn verify_spec(
    commit: Commitment,
    eval: BinaryField128b,
    proof: EvalProof,
    point: Seq<u128>,
    queries: Seq<usize>,
    ntt: AdditiveNTT,
) -> bool {
    let c = commit.cols as nat;
    let split = point.len() - c - 5;
    let head = fourier_spec(point.subrange(0, split));
    let tail = fourier_spec(point.subrange(split, point.len() as int));
    let folded = vals128(proof.folded_poly@);
    let encoded = encode_spec::<PackedAlgebra32>(ntt.table(), packed_lanes(folded));
    &&& c + 5 <= point.len()
    &&& c <= ntt.log_transform_size
    &&& folded.len() == 32 * pow2(c)
    &&& pow2(split as nat) <= usize::MAX
    &&& proof.queried_columns@.len() == queries.len()
    &&& proof.merkle_paths@.len() == queries.len()
    &&& forall|i: int| 0 <= i < queries.len() ==> #[trigger] query_ok(commit, proof, head, encoded, queries, i)
    &&& inner_product(tail, folded, folded.len()) == eval.0
}

/// Whether two algebra elements have the same lanes.
fn algebra_eq(a: &PackedAlgebra32, b: &PackedAlgebra32) -> (r: bool)
    ensures
        r == (a.lanes() == b.lanes()),
{
    let mut i: usize = 0;
    while i < 32
        invariant
            i <= 32,
            forall|q: int| 0 <= q < i ==> a.0@[q].0 == b.0@[q].0,
        decreases 32 - i,
    {
        if a.0[i].0 != b.0[i].0 {
            assert(a.lanes()[i as int] != b.lanes()[i as int]);
            return false;
        }
        i = i + 1;
    }
    assert(a.lanes() =~= b.lanes());
    true
}

/// `2^e` if it fits in a `usize`.
fn checked_pow2(e: usize) -> (r: Option<usize>)
    ensures
        r.is_some() <==> pow2(e as nat) <= usize::MAX,
        r.is_some() ==> r.unwrap() == pow2(e as nat),
{
    let mut r: usize = 1;
    let mut i: usize = 0;
    proof {
        vstd::arithmetic::power2::lemma2_to64();
    }
    while i < e
        invariant
            i <= e,
            r == pow2(i as nat),
        decreases e - i,
    {
        proof {
            vstd::arithmetic::power2::lemma_pow2_unfold((i + 1) as nat);
        }
        if r > usize::MAX / 2 {
            proof {
                if (i + 1) < e {
                    vstd::arithmetic::power2::lemma_pow2_strictly_increases((i + 1) as nat, e as nat);
                }
            }
            return None;
        }
        r = 2 * r;
        i = i + 1;
    }
    Some(r)
}

fn copy_range(v: &Vec<BinaryField128b>, start: usize, end: usize) -> (r: Vec<BinaryField128b>)
    requires
        start <= end <= v@.len(),
    ensures
        r@ == v@.subrange(start as int, end as int),
{
    let mut out: Vec<BinaryField128b> = Vec::new();
    let mut i: usize = start;
    while i < end
        invariant
            start <= i <= end,
            end <= v@.len(),
            out@ == v@.subrange(start as int, i as int),
        decreases end - i,
    {
        out.push(v[i]);
        assert(v@.subrange(start as int, i + 1) =~= v@.subrange(start as int, i as int).push(v@[i as int]));
        i = i + 1;
    }
    out
}

/// Checks an evaluation proof: `true` exactly when the verifier accepts.
pub fn verify(
    commit: Commitment,
    eval: BinaryField128b,
    proof: EvalProof,
    point: Vec<BinaryField128b>,
    queries: Vec<usize>,
    ntt: &AdditiveNTT,
) -> (r: bool)
    requires
        ntt.wf(),
    ensures
        r == verify_spec(commit, eval, proof, vals128(point@), queries@, *ntt),
{
    let ghost pv = vals128(point@);
    let c = commit.cols;
    if point.len() < 5 || c > point.len() - 5 || c > ntt.log_transform_size {
        return false;
    }
    let split = point.len() - c - 5;
    let folded_len = proof.folded_poly.len();
    proof {
        vstd::arithmetic::power2::lemma_pow2_pos(c as nat);
    }
    if folded_len % 32 != 0 || !is_pow2_exec(folded_len / 32) {
        proof {
            if folded_len == 32 * pow2(c as nat) {
                lemma_pow2_is_pow2(c as nat);
            }
        }
        return false;
    }
    let packed_count = folded_len / 32;
    let log_packed = log2_exact(packed_count);
    if log_packed != c {
        proof {
            crate::ntt::lemma_log2_pow2(c as nat);
            if folded_len == 32 * pow2(c as nat) {
                assert(packed_count == pow2(c as nat));
            }
        }
        return false;
    }
    proof {
        crate::ntt::lemma_log2_of_pow2(packed_count as nat);
    }
    let rows_opt = checked_pow2(split);
    if rows_opt.is_none() {
        return false;
    }
    if proof.queried_columns.len() != queries.len() || proof.merkle_paths.len() != queries.len() {
        return false;
    }
    let head = copy_range(&point, 0, split);
    let tail = copy_range(&point, split, point.len());
    proof {
        assert(vals128(head@) =~= pv.subrange(0, split as int));
        assert(vals128(tail@) =~= pv.subrange(split as int, pv.len() as int));
        lemma_fourier_len(vals128(tail@));
        vstd::arithmetic::power2::lemma_pow2_unfold((c + 5) as nat);
        vstd::arithmetic::power2::lemma_pow2_adds(c as nat, 5);
        vstd::arithmetic::power2::lemma2_to64();
        if c < ntt.log_transform_size {
            vstd::arithmetic::power2::lemma_pow2_strictly_increases(c as nat, ntt.log_transform_size as nat);
        }
    }
    let head_scalars = compute_fourier_bases(&head);
    let tail_scalars = compute_fourier_bases(&tail);
    let encoded_poly = encode_extension(&proof.folded_poly, ntt);
    let ghost hs = fourier_spec(pv.subrange(0, split as int));
    let ghost enc = encode_spec::<PackedAlgebra32>(ntt.table(), packed_lanes(vals128(proof.folded_poly@)));
    assert(models(encoded_poly@) == enc);
    let mut i: usize = 0;
    while i < queries.len()
        invariant
            i <= queries@.len(),
            proof.queried_columns@.len() == queries@.len(),
            proof.merkle_paths@.len() == queries@.len(),
            vals128(head_scalars@) == hs,
            head_scalars@.len() == hs.len(),
            models(encoded_poly@) == enc,
            encoded_poly@.len() * 8 == proof.folded_poly@.len(),
            proof.folded_poly@.len() == 32 * pow2(c as nat),
            forall|j: int| 0 <= j < i ==> #[trigger] query_ok(commit, proof, hs, enc, queries@, j),
            pv == vals128(point@),
            verify_spec(commit, eval, proof, pv, queries@, *ntt) ==> forall|j: int|
                0 <= j < queries@.len() ==> #[trigger] query_ok(commit, proof, hs, enc, queries@, j),
        decreases queries@.len() - i,
    {
        let q = queries[i];
        let column = &proof.queried_columns[i];
        assert(column@ == proof.queried_columns@[i as int]@);
        assert(enc.len() == encoded_poly@.len());
        if q >= encoded_poly.len() {
            assert(!query_ok(commit, proof, hs, enc, queries@, i as int));
            assert(!verify_spec(commit, eval, proof, pv, queries@, *ntt));
            return false;
        }
        if column.len() != head_scalars.len() {
            assert(!query_ok(commit, proof, hs, enc, queries@, i as int));
            assert(!verify_spec(commit, eval, proof, pv, queries@, *ntt));
            return false;
        }
        let leaf_hash = hash_field(column);
        if !verify_merkle_path(&commit.commit, leaf_hash, q, &proof.merkle_paths[i]) {
            assert(!query_ok(commit, proof, hs, enc, queries@, i as int));
            return false;
        }
        let combined = unpacked_linear_combination(&head_scalars, column);
        assert(models(encoded_poly@)[q as int] == encoded_poly@[q as int].lanes());
        if !algebra_eq(&encoded_poly[q], &combined) {
            assert(!query_ok(commit, proof, hs, enc, queries@, i as int));
            return false;
        }
        assert(query_ok(commit, proof, hs, enc, queries@, i as int));
        i = i + 1;
    }
    let total = linear_combination(&tail_scalars, &proof.folded_poly);
    assert(tail_scalars@.len() == proof.folded_poly@.len());
    assert(vals128(tail_scalars@) == fourier_spec(pv.subrange(split as int, pv.len() as int)));
    total.0 == eval.0
}

/// Whether `n` is a power of two.
fn is_pow2_exec(n: usize) -> (r: bool)
    ensures
        r == is_pow2(n as nat),
{
    let mut m = n;
    while m > 1 && m % 2 == 0
        invariant
            is_pow2(m as nat) == is_pow2(n as nat),
        decreases m,
    {
        m = m / 2;
    }
    m == 1
}

} // verus!
