use binius_pcs::encoding::{compute_fourier_bases, encode, Code};
use binius_pcs::field::{BinaryField128b, BinaryField32b};
use binius_pcs::merkle::{hash, hash_concatenation, hash_field, merklize, verify_merkle_path, MerkleTree};
use binius_pcs::ntt::{poly_eval, AdditiveNTT};
use binius_pcs::packed_algebra::PackedAlgebra32;
use binius_pcs::pcs::{commit, evaluate_unpacked, prove, unpacked_linear_combination, verify};

fn random_poly(n: usize) -> Vec<BinaryField32b> {
    (0..n).map(|_| BinaryField32b::new(rand::random::<u32>())).collect()
}

fn random_point(n: usize) -> Vec<BinaryField128b> {
    (0..n).map(|_| BinaryField128b::new(rand::random::<u128>())).collect()
}

#[test]
fn forward_test() {
    for i in 3..9 {
        let mut poly = random_poly(1 << i);
        let mut test_evals: Vec<BinaryField32b> =
            (0..(1u32 << i)).map(|x| poly_eval(&poly, BinaryField32b::new(x))).collect();
        for pair in test_evals.chunks_mut(2) {
            pair.swap(0, 1);
        }
        let ntt = AdditiveNTT::new(i);
        ntt.forward_ntt(&mut poly, 0);
        assert_eq!(test_evals, poly);
    }
}

#[test]
fn ntt_round_trip() {
    let ntt = AdditiveNTT::new(6);
    for coset in [0u32, 1, 64, 12345] {
        for log in 0..7 {
            let original = random_poly(1 << log);
            let mut v = original.clone();
            ntt.forward_ntt(&mut v, coset);
            ntt.inverse_ntt(&mut v, coset);
            assert_eq!(v, original);
        }
    }
}

#[test]
fn twiddles_test() {
    let ntt = AdditiveNTT::new(7);
    assert_eq!(ntt.twiddles.len(), 7);
    for (r, row) in ntt.twiddles.iter().enumerate() {
        assert_eq!(row.len(), 1 << (6 - r));
        assert_eq!(row[0], BinaryField32b::zero());
    }
}

#[test]
fn encoding_is_systematic() {
    let ntt = AdditiveNTT::new(4);
    let message = random_poly(16);
    let code = encode(&message, &ntt);
    assert_eq!(code.len(), 64);
    assert_eq!(&code[..16], &message[..]);
}

#[test]
fn fourier_bases_small() {
    let empty: Vec<BinaryField128b> = vec![];
    assert_eq!(compute_fourier_bases(&empty), vec![BinaryField128b::one()]);
    let r = BinaryField128b::new(5);
    assert_eq!(compute_fourier_bases(&vec![r]), vec![BinaryField128b::new(4), r]);
    let point = random_point(4);
    let basis = compute_fourier_bases(&point);
    assert_eq!(basis.len(), 16);
    let sum = basis.iter().fold(BinaryField128b::zero(), |acc, x| acc.add(*x));
    assert_eq!(sum, BinaryField128b::one());
}

#[test]
fn merkle_paths_verify() {
    let leaves: Vec<_> = (0..8u8).map(|i| hash(&vec![i])).collect();
    let tree = MerkleTree::new(leaves.clone());
    let root = tree.get_root();
    assert_eq!(root, merklize(leaves.clone()).get_root());
    let expected = hash_concatenation(
        &hash_concatenation(&hash_concatenation(&leaves[0], &leaves[1]), &hash_concatenation(&leaves[2], &leaves[3])),
        &hash_concatenation(&hash_concatenation(&leaves[4], &leaves[5]), &hash_concatenation(&leaves[6], &leaves[7])),
    );
    assert_eq!(root, expected);
    for i in 0..8 {
        let path = tree.get_merkle_path(i);
        assert_eq!(path.len(), 3);
        assert!(verify_merkle_path(&root, leaves[i].clone(), i, &path));
        assert!(!verify_merkle_path(&root, leaves[(i + 1) % 8].clone(), i, &path));
    }
    assert_eq!(root.0.len(), 32);
}

#[test]
fn hash_field_is_keccak_of_le_bytes() {
    let col = vec![BinaryField32b::new(0x04030201), BinaryField32b::new(0x08070605)];
    assert_eq!(hash_field(&col), hash(&vec![1, 2, 3, 4, 5, 6, 7, 8]));
    // Keccak-256 of the empty string.
    let empty = hash(&vec![]);
    assert_eq!(empty.0[0], 0xc5);
    assert_eq!(empty.0[31], 0x70);
}

#[test]
fn unpacked_combination() {
    let scalars = vec![BinaryField128b::new(3), BinaryField128b::new(5)];
    let vals = vec![BinaryField32b::new(0b11), BinaryField32b::new(0b10)];
    let lc: PackedAlgebra32 = unpacked_linear_combination(&scalars, &vals);
    assert_eq!(lc.0[0], BinaryField128b::new(3));
    assert_eq!(lc.0[1], BinaryField128b::new(6));
    assert_eq!(lc.0[2], BinaryField128b::zero());
}

fn run_pcs(log_len: usize, num_point: usize, queries: Vec<usize>) -> bool {
    let poly = random_poly(1 << log_len);
    let ntt = AdditiveNTT::new(log_len);
    let (commitment, merkle_tree, encoded_poly) = commit(&poly, &ntt);
    let point = random_point(num_point);
    let eval = evaluate_unpacked(&poly, &compute_fourier_bases(&point));
    let proof = prove(&poly, &encoded_poly, &merkle_tree, &point, &queries);
    verify(commitment, eval, proof, point, queries, &ntt)
}

#[test]
fn commit_prove_verify_single_coefficient() {
    let poly = vec![BinaryField32b::new(1)];
    let ntt = AdditiveNTT::new(0);
    let (commitment, merkle_tree, encoded_poly) = commit(&poly, &ntt);
    assert_eq!(encoded_poly.rows, 1);
    assert_eq!(encoded_poly.cols, 1);
    let point = vec![BinaryField128b::zero(); 5];
    let eval = evaluate_unpacked(&poly, &compute_fourier_bases(&point));
    assert_eq!(eval, BinaryField128b::one());
    let queries = vec![0, 1, 2, 3];
    let proof = prove(&poly, &encoded_poly, &merkle_tree, &point, &queries);
    assert_eq!(proof.folded_poly.len(), 32);
    assert_eq!(proof.folded_poly[0], BinaryField128b::one());
    assert!(proof.folded_poly[1..].iter().all(|x| *x == BinaryField128b::zero()));
    assert!(verify(commitment, eval, proof, point, queries, &ntt));
}

#[test]
fn prover_test() {
    assert!(run_pcs(6, 11, vec![2, 3]));
}

#[test]
fn commitment_test() {
    for l in 2..8 {
        let queries: Vec<usize> = (0..20).map(|_| rand::random::<usize>() % (4 << ((l + 1) / 2))).collect();
        assert!(run_pcs(l, l + 5, queries));
    }
}

#[test]
fn verify_rejects_tampering() {
    let poly = random_poly(64);
    let ntt = AdditiveNTT::new(6);
    let point = random_point(11);
    let eval = evaluate_unpacked(&poly, &compute_fourier_bases(&point));
    let queries = vec![1, 5, 17];
    let (commitment, merkle_tree, encoded_poly) = commit(&poly, &ntt);
    let honest = prove(&poly, &encoded_poly, &merkle_tree, &point, &queries);
    assert!(verify(
        binius_pcs::pcs::Commitment { commit: commitment.commit.clone(), cols: commitment.cols },
        eval,
        binius_pcs::pcs::EvalProof::new(honest.folded_poly.clone(), honest.queried_columns.clone(), honest.merkle_paths.clone()),
        point.clone(),
        queries.clone(),
        &ntt
    ));
    let mut bad_columns = honest.queried_columns.clone();
    bad_columns[1][0] = bad_columns[1][0].add(BinaryField32b::one());
    assert!(!verify(
        binius_pcs::pcs::Commitment { commit: commitment.commit.clone(), cols: commitment.cols },
        eval,
        binius_pcs::pcs::EvalProof::new(honest.folded_poly.clone(), bad_columns, honest.merkle_paths.clone()),
        point.clone(),
        queries.clone(),
        &ntt
    ));
    let mut bad_folded = honest.folded_poly.clone();
    bad_folded[3] = bad_folded[3].add(BinaryField128b::new(1 << 7));
    assert!(!verify(
        binius_pcs::pcs::Commitment { commit: commitment.commit.clone(), cols: commitment.cols },
        eval,
        binius_pcs::pcs::EvalProof::new(bad_folded, honest.queried_columns.clone(), honest.merkle_paths.clone()),
        point.clone(),
        queries.clone(),
        &ntt
    ));
    assert!(!verify(
        commitment,
        eval.add(BinaryField128b::one()),
        honest,
        point,
        queries,
        &ntt
    ));
}

#[test]
fn code_columns() {
    let poly = random_poly(16);
    let ntt = AdditiveNTT::new(4);
    let code = Code::new(&poly, &ntt);
    assert_eq!(code.rows * code.cols, 16);
    assert_eq!(code.cols, 4);
    for c in 0..code.cols {
        let column = code.col(c);
        for r in 0..code.rows {
            assert_eq!(column[r], poly[r * code.cols + c]);
        }
    }
}

#[test]
fn toweralg() {
    for _ in 0..10 {
        let a = BinaryField32b::new(rand::random::<u32>());
        let mut b = [BinaryField128b::zero(); 32];
        for v in 0..32 {
            b[v] = BinaryField128b::new(((a.val() >> v) & 1) as u128);
        }
        let r = BinaryField32b::new(rand::random::<u32>());
        let test = a.mul(r);
        let res = PackedAlgebra32::new(b).mul_b32(r);
        for v in 0..32 {
            assert_eq!(res.0[v], BinaryField128b::new(((test.val() >> v) & 1) as u128));
        }
    }
}

#[test]
fn packed_algebra_pack_round_trip() {
    let values = random_point(64);
    let packed = PackedAlgebra32::pack(values.clone());
    assert_eq!(packed.len(), 2);
    assert_eq!(PackedAlgebra32::unpack(packed.clone()), values);
    let sum = packed[0].add(&packed[1]);
    for i in 0..32 {
        assert_eq!(sum.0[i], values[i].add(values[32 + i]));
    }
}
