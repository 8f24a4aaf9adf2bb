use binius_pcs::field::{BinaryField32b, FieldError};
use binius_pcs::underlier::M512;
use binius_pcs::packed::{
    broadcast_m512, get_subvalue, get_packed_slice, get_packed_slice_checked, iter_packed_slice, len_packed_slice, set_packed_slice,
    set_packed_slice_checked, PackedPrimitiveType,
};
use binius_pcs::tower::{inv_at, mul_alpha_at, mul_at};

fn random_lanes(level: u32) -> Vec<u128> {
    let bits = 1u32 << level;
    let width = 128 / bits as usize;
    (0..width)
        .map(|_| {
            let v = rand::random::<u128>();
            if bits == 128 { v } else { v & ((1u128 << bits) - 1) }
        })
        .collect()
}

#[test]
fn packed_lane_homomorphism() {
    for level in 0..=7u32 {
        let f = random_lanes(level);
        let g = random_lanes(level);
        let pf = PackedPrimitiveType::from_lanes(level, &f);
        let pg = PackedPrimitiveType::from_lanes(level, &g);
        let sum = pf.add(&pg);
        let prod = pf.mul(&pg);
        let sq = pf.square();
        let inv = pf.invert_or_zero();
        let alpha = pf.mul_alpha();
        assert_eq!(pf.width(), f.len());
        for i in 0..f.len() {
            assert_eq!(pf.get(i), f[i]);
            assert_eq!(sum.get(i), f[i] ^ g[i]);
            assert_eq!(prod.get(i), mul_at(level, f[i], g[i]));
            assert_eq!(sq.get(i), mul_at(level, f[i], f[i]));
            assert_eq!(inv.get(i), inv_at(level, f[i]));
            assert_eq!(alpha.get(i), mul_alpha_at(level, f[i]));
            if f[i] != 0 {
                assert_eq!(mul_at(level, f[i], inv.get(i)), 1);
            }
        }
    }
}

#[test]
fn packed_matches_scalar_field() {
    let lanes: Vec<u128> = (0..4).map(|_| rand::random::<u32>() as u128).collect();
    let other: Vec<u128> = (0..4).map(|_| rand::random::<u32>() as u128).collect();
    let p = PackedPrimitiveType::from_lanes(5, &lanes).mul(&PackedPrimitiveType::from_lanes(5, &other));
    for i in 0..4 {
        let expected = BinaryField32b::new(lanes[i] as u32).mul(BinaryField32b::new(other[i] as u32));
        assert_eq!(p.get(i), expected.val() as u128);
    }
}

#[test]
fn packed_get_set_checked() {
    let mut p = PackedPrimitiveType::broadcast(3, 0xab);
    assert_eq!(p.width(), 16);
    assert_eq!(p.underlier, 0xabababababababababababababababab);
    assert_eq!(p.get_checked(16), Err(FieldError::IndexOutOfRange { index: 16, max: 16 }));
    assert_eq!(p.set_checked(2, 0x11), Ok(()));
    assert_eq!(p.get_checked(2), Ok(0x11));
    assert_eq!(p.get(1), 0xab);
    assert_eq!(p.set_checked(20, 0x11), Err(FieldError::IndexOutOfRange { index: 20, max: 16 }));
    let single = PackedPrimitiveType::set_single(4, 0x1234);
    assert_eq!(single.underlier, 0x1234);
    assert_eq!(PackedPrimitiveType::zero(2).underlier, 0);
    assert_eq!(single.log_width(), 3);
}

#[test]
fn packed_interleave() {
    let a = PackedPrimitiveType::from_lanes(5, &vec![0, 1, 2, 3]);
    let b = PackedPrimitiveType::from_lanes(5, &vec![4, 5, 6, 7]);
    let (c, d) = a.interleave(&b, 0);
    assert_eq!((0..4).map(|i| c.get(i)).collect::<Vec<_>>(), vec![0, 4, 2, 6]);
    assert_eq!((0..4).map(|i| d.get(i)).collect::<Vec<_>>(), vec![1, 5, 3, 7]);
    let (c, d) = a.interleave(&b, 1);
    assert_eq!((0..4).map(|i| c.get(i)).collect::<Vec<_>>(), vec![0, 1, 4, 5]);
    assert_eq!((0..4).map(|i| d.get(i)).collect::<Vec<_>>(), vec![2, 3, 6, 7]);
    let (e, f) = c.interleave(&d, 1);
    assert_eq!((e, f), (a, b));
}

#[test]
fn packed_slices() {
    let mut packed = vec![PackedPrimitiveType::from_lanes(5, &vec![1, 2, 3, 4]), PackedPrimitiveType::from_lanes(5, &vec![5, 6, 7, 8])];
    assert_eq!(len_packed_slice(&packed, 5), 8);
    assert_eq!(get_packed_slice(&packed, 5, 5), 6);
    assert_eq!(get_packed_slice_checked(&packed, 5, 8), Err(FieldError::IndexOutOfRange { index: 8, max: 8 }));
    set_packed_slice(&mut packed, 5, 6, 70);
    assert_eq!(iter_packed_slice(&packed, 5), vec![1, 2, 3, 4, 5, 6, 70, 8]);
    assert_eq!(set_packed_slice_checked(&mut packed, 5, 9, 1), Err(FieldError::IndexOutOfRange { index: 9, max: 8 }));
    assert_eq!(set_packed_slice_checked(&mut packed, 5, 0, 9), Ok(()));
    assert_eq!(get_packed_slice_checked(&packed, 5, 0), Ok(9));
}

#[test]
fn m512_subvalues_and_broadcast() {
    let v = M512::from([0x0123456789abcdef_fedcba9876543210u128, 2, 3, u128::MAX]);
    assert_eq!(get_subvalue(&v, 3, 0), 0x10);
    assert_eq!(get_subvalue(&v, 3, 15), 0x01);
    assert_eq!(get_subvalue(&v, 7, 1), 2);
    assert_eq!(get_subvalue(&v, 6, 4), 3);
    assert_eq!(get_subvalue(&v, 6, 3), 0);
    assert_eq!(get_subvalue(&v, 6, 6), u64::MAX as u128);
    assert_eq!(get_subvalue(&v, 0, 511), 1);
    assert_eq!(get_subvalue(&v, 5, 1), 0xfedcba98);
    let b = broadcast_m512(2, 0xa);
    assert_eq!(b, M512::from_equal_u128s(0xaaaaaaaaaaaaaaaaaaaaaaaaaaaaaaaa));
    let b = broadcast_m512(7, 5);
    assert_eq!(b, M512::from_equal_u128s(5));
    let z = M512::zero();
    assert_eq!(M512::conditional_select(&z, &b, true), b);
    assert_eq!(M512::conditional_select(&z, &b, false), z);
}
