use binius_pcs::underlier::{AlignedData, M512};

fn bit(v: &M512, i: usize) -> bool {
    (v.0[i / 128] >> (i % 128)) & 1 == 1
}

fn random_m512() -> M512 {
    M512::from([rand::random::<u128>(), rand::random::<u128>(), rand::random::<u128>(), rand::random::<u128>()])
}

#[test]
fn test_constants() {
    assert_eq!(M512::from(0u128), M512::zero());
    assert_eq!(M512::from([0u128, 0u128, 0u128, 1u128]), M512::one());
    assert_eq!(M512::from_aligned(AlignedData([1, 2, 3, 4])), M512::from([1u128, 2, 3, 4]));
    assert_eq!(M512::from_equal_u128s(7), M512::from([7u128, 7, 7, 7]));
}

#[test]
fn test_fill_with_bit() {
    assert_eq!(M512::fill_with_bit(1), M512::from([u128::MAX, u128::MAX, u128::MAX, u128::MAX]));
    assert_eq!(M512::fill_with_bit(0), M512::from(0u128));
    assert_eq!(M512::fill_with_bit(0), M512::zero());
    assert_eq!(M512::ones(), M512::fill_with_bit(1));
}

#[test]
fn test_eq() {
    let a = M512::from(0u128);
    let b = M512::from(42u128);
    let c = M512::from(u128::MAX);
    let d = M512::from([u128::MAX, u128::MAX, u128::MAX, u128::MAX]);

    assert_eq!(a, a);
    assert_eq!(b, b);
    assert_eq!(c, c);
    assert_eq!(d, d);

    assert_ne!(a, b);
    assert_ne!(a, c);
    assert_ne!(a, d);
    assert_ne!(b, c);
    assert_ne!(b, d);
    assert_ne!(c, d);
}

#[test]
fn test_binary_bit_operations() {
    for _ in 0..20 {
        let a = random_m512();
        let b = random_m512();
        let (x, y) = (a.0, b.0);
        assert_eq!(M512::from([x[0] & y[0], x[1] & y[1], x[2] & y[2], x[3] & y[3]]), a.bitand(b));
        assert_eq!(M512::from([x[0] | y[0], x[1] | y[1], x[2] | y[2], x[3] | y[3]]), a.bitor(b));
        assert_eq!(M512::from([x[0] ^ y[0], x[1] ^ y[1], x[2] ^ y[2], x[3] ^ y[3]]), a.bitxor(b));
        assert_eq!(M512::from([!x[0], !x[1], !x[2], !x[3]]), a.not());
    }
}

#[test]
fn test_shifts() {
    let a = random_m512();
    for rhs in 0..520usize {
        let l = a.shl(rhs);
        let r = a.shr(rhs);
        for i in 0..512 {
            assert_eq!(bit(&l, i), i >= rhs && bit(&a, i - rhs));
            assert_eq!(bit(&r, i), i + rhs < 512 && bit(&a, i + rhs));
        }
    }
    assert_eq!(M512::from(1u128).shl(128), M512::from([0u128, 1, 0, 0]));
    assert_eq!(M512::from([0u128, 0, 0, 1]).shr(385), M512::zero());
    assert_eq!(M512::from([0u128, 0, 0, 2]).shr(385), M512::from(1u128));
}

#[test]
fn test_interleave_bits() {
    for height in 0..7usize {
        let a = random_m512();
        let b = random_m512();
        let (c, d) = a.interleave(b, height);
        let block_len = 1usize << height;
        let get = |v: &M512, blk: usize| -> Vec<bool> { (0..block_len).map(|k| bit(v, blk * block_len + k)).collect() };
        for i in (0..512 / block_len).step_by(2) {
            assert_eq!(get(&c, i), get(&a, i));
            assert_eq!(get(&c, i + 1), get(&b, i));
            assert_eq!(get(&d, i), get(&a, i + 1));
            assert_eq!(get(&d, i + 1), get(&b, i + 1));
        }
        let (e, f) = c.interleave(d, height);
        assert_eq!((e, f), (a, b));
    }
}
