use stark_curve::lookup::{minus_shift_point_16, shift_point};
use stark_curve::scalar::bytes_to_radix_16;
use stark_curve::{AffinePoint, BasePointTable, Fp, Fp2, Fp6, JacobianPoint, LookupTable, NafLookupTable, ProjectivePoint};

fn fp6(v: [u64; 6]) -> Fp6 {
    Fp6 {
        c0: Fp2 { c0: Fp::new(v[0]), c1: Fp::new(v[1]) },
        c1: Fp2 { c0: Fp::new(v[2]), c1: Fp::new(v[3]) },
        c2: Fp2 { c0: Fp::new(v[4]), c1: Fp::new(v[5]) },
    }
}

fn g() -> AffinePoint {
    let g = AffinePoint {
        x: fp6([2, 0, 0, 0, 1, 0]),
        y: fp6([
            2667856820383470374,
            3139742546719875898,
            4543114503254270073,
            1292624606907802958,
            3983654216975120266,
            2924790708202802367,
        ]),
        infinity: false,
    };
    assert_eq!(g, AffinePoint::generator());
    g
}

fn g2() -> AffinePoint {
    AffinePoint {
        x: fp6([
            1256053767279887541,
            2428221208567986361,
            3157102020170355356,
            818721222213485377,
            3810579693018139810,
            1692383618166786830,
        ]),
        y: fp6([
            3888244188581268102,
            2919626858349478331,
            1975469918652988319,
            3704411359823934268,
            419999381789402116,
            1176192385599205545,
        ]),
        infinity: false,
    }
}

fn g3() -> AffinePoint {
    AffinePoint {
        x: fp6([
            1701457743959100702,
            2248134634003483934,
            2915287565547801933,
            3628902746508807382,
            2610939559684801250,
            221459017634906518,
        ]),
        y: fp6([
            710760069142635787,
            2076419373753502191,
            1337706873855705458,
            998611449610533849,
            2080160842966535483,
            234361661026598602,
        ]),
        infinity: false,
    }
}

fn gp() -> ProjectivePoint {
    ProjectivePoint::from_affine(&g())
}

fn scalar(k: u64) -> [u8; 32] {
    let mut s = [0u8; 32];
    s[..8].copy_from_slice(&k.to_le_bytes());
    s
}

fn big_scalar() -> [u8; 32] {
    let mut s = [0u8; 32];
    for (i, b) in s.iter_mut().enumerate() {
        *b = (i as u8).wrapping_mul(37).wrapping_add(11);
    }
    s[31] &= 0x7f;
    s
}

/// Scales a projective point's coordinates by a nonzero factor.
fn rescale(p: &ProjectivePoint, k: u64) -> ProjectivePoint {
    let t = fp6([k, 1, 0, 2, 0, 0]);
    ProjectivePoint { x: p.x.mul(&t), y: p.y.mul(&t), z: p.z.mul(&t) }
}

#[test]
fn points_are_on_the_curve() {
    assert!(g().is_on_curve());
    assert!(g2().is_on_curve());
    assert!(AffinePoint::identity().is_on_curve());
    assert!(gp().is_on_curve());
    let mut bad = g();
    bad.y = bad.y.add(&Fp6::one());
    assert!(!bad.is_on_curve());
}

#[test]
fn multiply_by_two_is_double() {
    let two = gp().multiply(&scalar(2));
    let dbl = gp().double();
    assert!(two.ct_eq(&dbl));
    assert_eq!(two.to_affine(), g2());
    assert_eq!(dbl.to_affine(), g2());
    assert_eq!(gp().multiply_vartime(&scalar(2)).to_affine(), g2());
    assert_eq!(two.to_affine().to_compressed(), g2().to_compressed());
    assert_eq!(dbl.to_affine().to_uncompressed(), g2().to_uncompressed());
}

#[test]
fn checked_and_unchecked_addition_agree() {
    let p = gp();
    let q = rescale(&ProjectivePoint::from_affine(&g2()), 9);
    let checked = p.add(&q).to_affine();
    let unchecked = p.add_unchecked(&q).to_affine();
    assert_eq!(checked, g3());
    assert_eq!(unchecked, g3());
    let mixed = rescale(&p, 4).add_mixed_unchecked(&g2()).to_affine();
    assert_eq!(mixed, g3());
    assert_eq!(p.add_mixed(&g2()).to_affine(), g3());
}

#[test]
fn identity_negation_and_doubling_laws() {
    let p = rescale(&gp(), 5);
    let id = ProjectivePoint::identity();
    assert!(p.add(&id).ct_eq(&p));
    assert!(id.add(&p).ct_eq(&p));
    assert!(p.add(&p.neg()).is_identity());
    assert!(p.add(&p).ct_eq(&p.double()));
    assert!(id.double().is_identity());
    assert!(!p.ct_eq(&p.neg()));
}

#[test]
fn double_multi_doubles_repeatedly() {
    let p = gp();
    let eight = p.double().double().double();
    assert!(p.double_multi(3).ct_eq(&eight));
    assert!(p.multiply(&scalar(8)).ct_eq(&eight));
    assert!(p.double_multi(0).ct_eq(&p));
}

#[test]
fn uncompressed_round_trip() {
    for p in [g(), g2(), g3(), AffinePoint::identity()] {
        let bytes = p.to_uncompressed();
        assert_eq!(bytes.len(), 96);
        assert_eq!(AffinePoint::from_uncompressed(&bytes), Some(p));
    }
    let id = AffinePoint::identity().to_uncompressed();
    assert_eq!(id[95], 0x40);
    assert!(id[..95].iter().all(|b| *b == 0));
}

#[test]
fn compressed_round_trip() {
    for p in [g(), g2(), g3(), AffinePoint::identity()] {
        let bytes = p.to_compressed();
        assert_eq!(AffinePoint::from_compressed(&bytes), Some(p));
        let n = p.neg();
        assert_eq!(AffinePoint::from_compressed(&n.to_compressed()).map(|q| q.ct_eq(&n)), Some(true));
    }
}

#[test]
fn decoding_rejects_bad_input() {
    assert_eq!(AffinePoint::from_compressed(&[0u8; 47]), None);
    assert_eq!(AffinePoint::from_compressed(&[0u8; 49]), None);
    assert_eq!(AffinePoint::from_uncompressed(&[0u8; 95]), None);
    assert_eq!(AffinePoint::from_uncompressed(&[]), None);
    // x = 2 has no y on the curve.
    let mut bytes = [0u8; 48];
    bytes[0] = 2;
    assert_eq!(AffinePoint::from_compressed(&bytes), None);
    // the identity flag with other bits set
    let mut bytes = [0u8; 48];
    bytes[47] = 0x40;
    bytes[0] = 1;
    assert_eq!(AffinePoint::from_compressed(&bytes), None);
    // a coordinate that is not canonical
    let mut bytes = g().to_uncompressed();
    bytes[..8].copy_from_slice(&(4611624995532046337u64 + 2).to_le_bytes());
    assert_eq!(AffinePoint::from_uncompressed(&bytes), None);
}

#[test]
fn multiply_double_matches_separate_multiplications() {
    let p = gp();
    let q = ProjectivePoint::from_affine(&g3());
    let a = big_scalar();
    let b = scalar(123456789);
    let expected = p.multiply(&a).add(&q.multiply(&b));
    assert!(p.multiply_double(&q, &a, &b).ct_eq(&expected));
    assert!(p.multiply_double_vartime(&q, &a, &b).ct_eq(&expected));
    assert!(p.multiply_vartime(&a).ct_eq(&p.multiply(&a)));
}

#[test]
fn batch_normalize_matches_single_conversion() {
    let pts = vec![
        rescale(&gp(), 3),
        ProjectivePoint::identity(),
        rescale(&ProjectivePoint::from_affine(&g2()), 11),
        gp().double().double(),
    ];
    let batch = ProjectivePoint::batch_normalize(&pts);
    assert_eq!(batch.len(), pts.len());
    for (a, p) in batch.iter().zip(pts.iter()) {
        assert_eq!(*a, p.to_affine());
    }
    assert_eq!(ProjectivePoint::batch_normalize(&[]).len(), 0);
    let one = ProjectivePoint::batch_normalize(&pts[..1]);
    assert_eq!(one, vec![pts[0].to_affine()]);
}

#[test]
fn lookup_table_retrieval() {
    let table = LookupTable::<8>::from_affine(&g());
    assert_eq!(table.get_point(1), g());
    assert_eq!(table.get_point(2), g2());
    assert_eq!(table.get_point(3), g3());
    assert!(table.get_point(0).is_identity());
    for x in -8i8..=8 {
        assert_eq!(table.get_point(x), table.get_point_vartime(x));
        assert_eq!(table.get_point(x), table.get_point(-x).neg());
        let expected = gp().multiply(&scalar(x.unsigned_abs() as u64)).to_affine();
        let expected = if x < 0 { expected.neg() } else { expected };
        assert_eq!(table.get_point(x), expected);
    }
}

#[test]
fn multiply_by_zero_and_one() {
    assert!(gp().multiply(&scalar(0)).is_identity());
    assert!(gp().multiply_vartime(&scalar(0)).is_identity());
    assert_eq!(gp().multiply(&scalar(1)), gp());
    assert_eq!(gp().multiply(&scalar(1)).to_affine(), g());
}

#[test]
fn base_point_table_multiplication() {
    let table = BasePointTable::create(&gp());
    assert_eq!(table.get_basepoint(), g());
    assert_eq!(table.get_basepoint_vartime(), g());
    for s in [scalar(0), scalar(1), scalar(2), scalar(5), scalar(0xfedcba9876543210), big_scalar()] {
        let expected = gp().multiply(&s);
        assert!(table.multiply(&s).ct_eq(&expected));
        assert!(table.multiply_vartime(&s).ct_eq(&expected));
    }
    let from_affine = BasePointTable::from_affine(&g());
    assert!(from_affine.multiply(&scalar(3)).ct_eq(&ProjectivePoint::from_affine(&g3())));
}

#[test]
fn radix_16_digits_recompose() {
    for s in [scalar(0), scalar(0x88), scalar(0xffff_ffff_ffff_ffff), big_scalar()] {
        let d = bytes_to_radix_16(&s);
        assert!(d.iter().all(|x| (-8..=8).contains(x)));
        // recompose the low 64 bits
        let mut v: i128 = 0;
        for i in (0..16).rev() {
            v = v * 16 + d[i] as i128;
        }
        let low = u64::from_le_bytes(s[..8].try_into().unwrap()) as i128;
        let carry = (v - low).rem_euclid(1 << 64);
        assert_eq!(carry, 0);
    }
    let d = bytes_to_radix_16(&scalar(0x88));
    assert_eq!(&d[..3], &[-8, -7, 1]);
}

#[test]
fn conditional_selection_of_points() {
    let a = g();
    let b = g2();
    assert_eq!(AffinePoint::conditional_select(&a, &b, false), a);
    assert_eq!(AffinePoint::conditional_select(&a, &b, true), b);
    assert!(a.ct_eq(&a));
    assert!(!a.ct_eq(&b));
}

fn rescale_jacobian(p: &JacobianPoint, k: u64) -> JacobianPoint {
    let t = fp6([k, 1, 0, 2, 0, 0]);
    let t2 = t.square();
    JacobianPoint { x: p.x.mul(&t2), y: p.y.mul(&t2.mul(&t)), z: p.z.mul(&t) }
}

#[test]
fn jacobian_group_law() {
    let p = rescale_jacobian(&JacobianPoint::from_affine(&g()), 7);
    let q = rescale_jacobian(&JacobianPoint::from_affine(&g2()), 3);
    let id = JacobianPoint::identity();
    assert!(p.is_on_curve());
    assert_eq!(p.to_affine(), g());
    assert_eq!(p.double().to_affine(), g2());
    assert_eq!(p.add(&q).to_affine(), g3());
    assert_eq!(p.add_unchecked(&q).to_affine(), g3());
    assert_eq!(p.add_mixed(&g2()).to_affine(), g3());
    assert_eq!(p.add_mixed_unchecked(&g2()).to_affine(), g3());
    assert!(p.add(&id).ct_eq(&p));
    assert!(id.add(&p).ct_eq(&p));
    assert!(p.add(&p.neg()).is_identity());
    assert!(p.add(&p).ct_eq(&p.double()));
    assert!(p.double_multi(3).ct_eq(&p.multiply(&scalar(8))));
}

#[test]
fn jacobian_scalar_multiplication() {
    let p = JacobianPoint::from_affine(&g());
    assert_eq!(p.multiply(&scalar(2)).to_affine(), g2());
    assert_eq!(p.multiply_vartime(&scalar(3)).to_affine(), g3());
    assert!(p.multiply(&scalar(0)).is_identity());
    assert_eq!(p.multiply(&scalar(1)), p);
    let s = big_scalar();
    assert_eq!(p.multiply(&s).to_affine(), gp().multiply(&s).to_affine());
    assert_eq!(p.multiply_vartime(&s).to_affine(), gp().multiply(&s).to_affine());
}

#[test]
fn jacobian_projective_conversions() {
    let p = rescale(&gp(), 6);
    let j = JacobianPoint::from_projective(&p);
    assert_eq!(j.to_affine(), g());
    assert_eq!(j.to_projective().to_affine(), g());
    assert!(JacobianPoint::from_affine(&AffinePoint::identity()).is_identity());
}

#[test]
fn naf_table_holds_odd_multiples() {
    let table = NafLookupTable::<4>::from_projective(&gp());
    assert_eq!(table.get_point_vartime(1), g());
    assert_eq!(table.get_point_vartime(3), g3());
    assert_eq!(table.get_point_vartime(-3), g3().neg());
    for x in [5i8, 7, -5, -7] {
        let expected = gp().multiply(&scalar(x.unsigned_abs() as u64)).to_affine();
        let expected = if x < 0 { expected.neg() } else { expected };
        assert_eq!(table.get_point_vartime(x), expected);
    }
}

#[test]
fn naf_multiplication() {
    let table = NafLookupTable::<4>::from_projective(&gp());
    // 7 = 8 - 1 and 2^20 * 5 - 3 = 5242877, in signed odd digits.
    let mut seven = [0i8; 256];
    seven[0] = -1;
    seven[3] = 1;
    assert!(table.multiply_vartime(&seven).ct_eq(&gp().multiply(&scalar(7))));
    let mut d = [0i8; 256];
    d[0] = -3;
    d[20] = 5;
    assert!(table.multiply_vartime(&d).ct_eq(&gp().multiply(&scalar(5 * (1 << 20) - 3))));
    assert!(table.multiply_vartime(&[0i8; 256]).is_identity());
}

#[test]
fn double_multiplication_with_a_base_point_table() {
    let table = BasePointTable::create(&gp());
    let q = ProjectivePoint::from_affine(&g3());
    let a = big_scalar();
    let b = scalar(987654321);
    let expected = gp().multiply(&a).add(&q.multiply(&b));
    assert!(table.multiply_double_with_point(&q, &a, &b).ct_eq(&expected));
    assert!(table.multiply_double_with_point_vartime(&q, &a, &b).ct_eq(&expected));
}

#[test]
fn default_field_element_is_zero() {
    assert_eq!(Fp6::default(), Fp6::zero());
}

#[test]
fn generator_scenario() {
    let g = AffinePoint::generator();
    assert!(g.is_on_curve());
    assert!(g.y.lexicographically_largest());
    let gp = ProjectivePoint::from_affine(&g);
    let k = scalar(2);
    let by_mul = gp.multiply(&k);
    let by_dbl = gp.double();
    assert!(by_mul.ct_eq(&by_dbl));
    assert_eq!(by_mul.to_affine(), by_dbl.to_affine());
    assert_eq!(by_mul.to_affine().to_compressed(), by_dbl.to_affine().to_compressed());
    assert_eq!(by_mul.to_affine().to_uncompressed(), by_dbl.to_affine().to_uncompressed());
    let gj = JacobianPoint::from_affine(&g);
    assert!(gj.multiply(&k).ct_eq(&gj.double()));
    assert_eq!(gj.multiply(&k).to_affine(), g2());
}

#[test]
fn jacobian_batch_normalize_matches_single_conversion() {
    let pts = vec![
        rescale_jacobian(&JacobianPoint::from_affine(&g()), 3),
        JacobianPoint::identity(),
        rescale_jacobian(&JacobianPoint::from_affine(&g3()), 8),
    ];
    let batch = JacobianPoint::batch_normalize(&pts);
    assert_eq!(batch, vec![g(), AffinePoint::identity(), g3()]);
    for (a, p) in batch.iter().zip(pts.iter()) {
        assert_eq!(*a, p.to_affine());
    }
    assert!(JacobianPoint::batch_normalize(&[]).is_empty());
    assert_eq!(JacobianPoint::batch_normalize(&pts[..1]), vec![g()]);
}

#[test]
fn jacobian_multiply_by_small_scalars() {
    let p = rescale_jacobian(&JacobianPoint::from_affine(&g()), 5);
    assert!(p.multiply(&scalar(0)).is_identity());
    assert_eq!(p.multiply(&scalar(1)), p);
    assert_eq!(p.multiply(&scalar(2)), p.double());
}

#[test]
fn minus_shift_point_cancels_sixteen_shift_points() {
    let s16 = shift_point().double_multi(4);
    assert!(s16.add_mixed(&minus_shift_point_16()).is_identity());
    assert!(shift_point().is_on_curve());
    assert!(minus_shift_point_16().is_on_curve());
}

#[test]
fn base_point_table_of_the_identity_multiplies_to_the_identity() {
    let table = BasePointTable::create(&ProjectivePoint::identity());
    assert!(table.multiply(&big_scalar()).is_identity());
    assert!(table.multiply_vartime(&scalar(77)).is_identity());
}


#[test]
fn lookup_table_zeroize() {
    let mut table = LookupTable::<8>::from_affine(&g());
    table.zeroize();
    for x in 1..=8i8 {
        let p = table.get_point_vartime(x);
        assert!(p.x.is_zero() && p.y.is_zero() && !p.infinity);
    }
}

#[test]
fn identity_is_its_own_negation() {
    assert_eq!(AffinePoint::identity().neg(), AffinePoint::identity());
}
