use binius_pcs::field::{BinaryField128b, BinaryField32b, FieldError};
use binius_pcs::polyval::BinaryField128bPolyval;

#[test]
fn test_mul() {
    assert_eq!(
        BinaryField128bPolyval::new(0x2a9055e4e69a61f0b5cfd6f4161087ba)
            .mul(BinaryField128bPolyval::new(0x3843cf87fb7c84e18276983bed670337)),
        BinaryField128bPolyval::new(0x5b2619c8a035206a12100d7a171aa988)
    );
}

#[test]
fn test_sqr() {
    assert_eq!(
        BinaryField128bPolyval::new(0x2a9055e4e69a61f0b5cfd6f4161087ba).square(),
        BinaryField128bPolyval::new(0x59aba0d4ffa9dca427b5b489f293e529)
    );
}

#[test]
fn test_invert() {
    let x = BinaryField128bPolyval::new(2);
    let y = x.invert().unwrap();
    assert_eq!(x.mul(y), BinaryField128bPolyval::one());
}

#[test]
fn polyval_montgomery_round_trip() {
    for v in [0u128, 1, 2, 0x2a9055e4e69a61f0b5cfd6f4161087ba, u128::MAX] {
        let x = BinaryField128bPolyval::new(v);
        assert_eq!(x.from_montgomery().0, v);
    }
    assert_eq!(BinaryField128bPolyval::new(1), BinaryField128bPolyval::one());
}

#[test]
fn polyval_field_laws() {
    for _ in 0..20 {
        let x = BinaryField128bPolyval::new(rand::random::<u128>());
        assert_eq!(x.add(x), BinaryField128bPolyval::zero());
        assert_eq!(x.mul(BinaryField128bPolyval::one()), x);
        assert_eq!(x.square(), x.mul(x));
        if x != BinaryField128bPolyval::zero() {
            assert_eq!(x.mul(x.invert_or_zero()), BinaryField128bPolyval::one());
        }
    }
    assert_eq!(BinaryField128bPolyval::zero().invert_or_zero(), BinaryField128bPolyval::zero());
    assert!(BinaryField128bPolyval::zero().invert().is_none());
}

#[test]
fn polyval_basis_round_trips_through_tower() {
    for i in 0..128 {
        let b = BinaryField128bPolyval::basis(i).unwrap();
        assert_eq!(b.to_tower().to_polyval(), b);
    }
    assert_eq!(BinaryField128bPolyval::basis(128), Err(FieldError::ExtensionDegreeMismatch));
}

#[test]
fn tower_polyval_isomorphism() {
    for _ in 0..20 {
        let a = BinaryField128b::new(rand::random::<u128>());
        let b = BinaryField128b::new(rand::random::<u128>());
        let pa = a.to_polyval();
        let pb = b.to_polyval();
        assert_eq!(pa.mul(pb).to_tower(), a.mul(b));
        assert_eq!(pa.add(pb).to_tower(), a.add(b));
        let raw = BinaryField128bPolyval(rand::random::<u128>());
        assert_eq!(BinaryField128bPolyval::from_tower(raw.to_tower()), raw);
    }
}

#[test]
fn polyval_bases() {
    let bits: Vec<bool> = (0..5).map(|i| i % 2 == 0).collect();
    assert_eq!(BinaryField128bPolyval::from_bases(&bits).unwrap(), BinaryField128bPolyval::new(0b10101));
    assert_eq!(
        BinaryField128bPolyval::from_bases(&vec![false; 129]),
        Err(FieldError::ExtensionDegreeMismatch)
    );
    let x = BinaryField128bPolyval(0b1011);
    let b = x.iter_bases();
    assert_eq!(b.len(), 128);
    assert!(b[0] && b[1] && !b[2] && b[3] && !b[4]);
}

#[test]
fn tower32_field_laws() {
    for _ in 0..50 {
        let x = BinaryField32b::new(rand::random::<u32>());
        assert_eq!(x.add(x), BinaryField32b::zero());
        assert_eq!(x.mul(BinaryField32b::one()), x);
        assert_eq!(x.square(), x.mul(x));
        if x.val() != 0 {
            assert_eq!(x.mul(x.invert_or_zero()), BinaryField32b::one());
        }
    }
    assert_eq!(BinaryField32b::zero().invert_or_zero(), BinaryField32b::zero());
    assert!(BinaryField32b::zero().invert().is_none());
}

#[test]
fn tower128_field_laws() {
    for _ in 0..10 {
        let x = BinaryField128b::new(rand::random::<u128>());
        let y = BinaryField128b::new(rand::random::<u128>());
        assert_eq!(x.add(x), BinaryField128b::zero());
        assert_eq!(x.mul(BinaryField128b::one()), x);
        assert_eq!(x.mul(y), y.mul(x));
        if x.val() != 0 {
            assert_eq!(x.mul(x.invert_or_zero()), BinaryField128b::one());
        }
    }
}

#[test]
fn tower_small_values() {
    // In GF(4) = GF(2)[X]/(X^2 + X + 1): X * X = X + 1.
    assert_eq!(BinaryField32b::new(2).mul(BinaryField32b::new(2)).val(), 3);
    assert_eq!(BinaryField32b::new(2).mul_alpha(), BinaryField32b::new(2).mul(BinaryField32b::new(0x10000)));
    assert_eq!(BinaryField32b::basis(3), Ok(BinaryField32b::new(8)));
    assert_eq!(BinaryField32b::basis(32), Err(FieldError::ExtensionDegreeMismatch));
    let small = BinaryField32b::new(0x1234);
    assert_eq!(BinaryField128b::from_b32(small).mul(BinaryField128b::new(7)).val(), small.mul(BinaryField32b::new(7)).val() as u128);
}

#[test]
fn polyval_small_helpers() {
    let one = BinaryField128bPolyval::one();
    let zero = BinaryField128bPolyval::zero();
    assert_eq!(BinaryField128bPolyval::from_bit(true), one);
    assert_eq!(BinaryField128bPolyval::from_bit(false), zero);
    assert_eq!(one.to_bit(), Some(true));
    assert_eq!(zero.to_bit(), Some(false));
    assert_eq!(BinaryField128bPolyval::new(5).to_bit(), None);
    let x = BinaryField128bPolyval::new(0x1234);
    assert_eq!(x.mul_bit(true), x);
    assert_eq!(x.mul_bit(false), zero);
    assert_eq!(x.double(), zero);
    assert_eq!(x.neg(), x);
    assert_eq!(x.sub(x), zero);
    let values = vec![BinaryField128bPolyval::new(2), BinaryField128bPolyval::new(3), BinaryField128bPolyval::new(7)];
    assert_eq!(BinaryField128bPolyval::sum(&values), BinaryField128bPolyval::new(2 ^ 3 ^ 7));
    assert_eq!(BinaryField128bPolyval::product(&values), values[0].mul(values[1]).mul(values[2]));
    assert_eq!(BinaryField128bPolyval::product(&vec![]), one);
}
