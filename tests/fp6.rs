use stark_curve::{Fp, Fp2, Fp6};

fn fp6(v: [u64; 6]) -> Fp6 {
    Fp6 {
        c0: Fp2 { c0: Fp::new(v[0]), c1: Fp::new(v[1]) },
        c1: Fp2 { c0: Fp::new(v[2]), c1: Fp::new(v[3]) },
        c2: Fp2 { c0: Fp::new(v[4]), c1: Fp::new(v[5]) },
    }
}

const A: [u64; 6] = [
    4009227748844085582,
    4031374605246455920,
    1533760094217716083,
    2434700852926098351,
    3070271868151135425,
    4445614804572870244,
];

const A_SQUARED: [u64; 6] = [
    1949415958821096488,
    34803124703569509,
    2372921723172571513,
    3116692962746587027,
    3662356892616824886,
    4411799637305927293,
];

#[test]
fn test_conditional_selection() {
    let a = Fp6 {
        c0: Fp2 { c0: Fp::one(), c1: Fp::new(2) },
        c1: Fp2 { c0: Fp::new(3), c1: Fp::new(4) },
        c2: Fp2 { c0: Fp::new(5), c1: Fp::new(6) },
    };
    let b = Fp6 {
        c0: Fp2 { c0: Fp::new(7), c1: Fp::new(8) },
        c1: Fp2 { c0: Fp::new(9), c1: Fp::new(10) },
        c2: Fp2 { c0: Fp::new(11), c1: Fp::new(12) },
    };
    assert_eq!(Fp6::conditional_select(&a, &b, false), a);
    assert_eq!(Fp6::conditional_select(&a, &b, true), b);
}

#[test]
fn test_equality() {
    fn is_equal(a: &Fp6, b: &Fp6) -> bool {
        let eq = a == b;
        let ct_eq = a.ct_eq(b);
        assert_eq!(eq, ct_eq);
        eq
    }
    assert!(is_equal(&fp6([1, 2, 3, 4, 5, 6]), &fp6([1, 2, 3, 4, 5, 6])));
    assert!(!is_equal(&fp6([2, 2, 3, 4, 5, 6]), &fp6([1, 2, 3, 4, 5, 6])));
    assert!(!is_equal(&fp6([1, 2, 4, 4, 5, 6]), &fp6([1, 2, 3, 4, 5, 6])));
    assert!(!is_equal(&fp6([1, 2, 3, 4, 6, 6]), &fp6([1, 2, 3, 4, 5, 6])));
}

#[test]
fn test_squaring() {
    let a = fp6(A);
    let b = fp6(A_SQUARED);
    assert_eq!(a.square(), b);
}

#[test]
fn test_sqrt() {
    for k in 1..11u64 {
        let a = fp6([k, 3 * k + 1, 7, k * k, 11, 13 + k]).square();
        let b = a.sqrt_vartime().unwrap();
        assert_eq!(a, b.square());
    }
}

#[test]
fn test_multiplication() {
    let a = fp6([1, 2, 3, 4, 5, 6]);
    let b = Fp6::one();
    let c = fp6([1, 2, 3, 4, 5, 6]);
    assert_eq!(a.mul(&b), c);

    let a = fp6(A);
    let b = fp6(A_SQUARED);
    let c = fp6([
        3466079655920498030,
        2417642467435273447,
        44683634131777069,
        87878120261881242,
        3689005368361223881,
        1980168815030341140,
    ]);
    assert_eq!(a.mul(&b), c);
}

#[test]
fn test_addition() {
    let a = fp6([1, 2, 3, 4, 5, 6]);
    let b = fp6([6, 5, 4, 3, 2, 1]);
    let c = fp6([7, 7, 7, 7, 7, 7]);
    assert_eq!(a.add(&b), c);
}

#[test]
fn test_subtraction() {
    let a = fp6([6, 5, 4, 3, 2, 1]);
    let b = fp6([3, 3, 2, 2, 1, 1]);
    let c = fp6([3, 2, 2, 1, 1, 0]);
    assert_eq!(a.sub(&b), c);
}

#[test]
fn test_negation() {
    let a = fp6([1, 2, 3, 4, 5, 6]);
    let b = Fp6 {
        c0: Fp2 { c0: Fp::one(), c1: Fp::new(2) }.neg(),
        c1: Fp2 { c0: Fp::new(3), c1: Fp::new(4) }.neg(),
        c2: Fp2 { c0: Fp::new(5), c1: Fp::new(6) }.neg(),
    };
    assert_eq!(a.neg(), b);
}

#[test]
fn test_inversion() {
    let a = fp6(A);
    let b = fp6([
        2755520761612505010,
        1048198912003742666,
        4202901689791132434,
        2790375792599204151,
        122386710556669900,
        3508229261956137550,
    ]);
    assert_eq!(a.invert().unwrap(), b);
    assert_eq!(Fp6::one().invert().unwrap(), Fp6::one());
    assert!(Fp6::zero().invert().is_none());
}

#[test]
fn test_lexicographic_largest() {
    assert!(!Fp6::zero().lexicographically_largest());
    assert!(!Fp6::one().lexicographically_largest());
    assert!(fp6([
        4167072808029173087,
        1618085398724889560,
        4252814005348531461,
        1978937931976521722,
        733612977188794891,
        2521078467018751009,
    ])
    .lexicographically_largest());
    assert!(!fp6([
        444552187502873250,
        2993539596807156777,
        358810990183514876,
        2632687063555524615,
        3878012018343251446,
        2090546528513295328,
    ])
    .lexicographically_largest());
    assert!(Fp6 {
        c0: Fp2 { c0: Fp::new(444552187502873250), c1: Fp::new(2993539596807156777) },
        c1: Fp2::zero(),
        c2: Fp2::zero(),
    }
    .lexicographically_largest());
}

#[test]
fn test_bytes() {
    for k in 0..100u64 {
        let a = fp6([k, k * 7919, 3 * k + 1, 4611624995532046336 - k, k << 40, 17]);
        let bytes = a.to_bytes();
        assert_eq!(a, Fp6::from_bytes(&bytes));
    }
}

#[test]
fn bytes_are_little_endian_words() {
    let a = fp6([0x0102, 0, 0, 0, 0, 0x0304]);
    let b = a.to_bytes();
    assert_eq!(b[0], 0x02);
    assert_eq!(b[1], 0x01);
    assert_eq!(b[40], 0x04);
    assert_eq!(b[41], 0x03);
    assert_eq!(a.to_repr(), [0x0102, 0, 0, 0, 0, 0x0304]);
}

#[test]
fn new_reduces_modulo_p() {
    let p: u64 = 4611624995532046337;
    assert_eq!(Fp::new(p), Fp::zero());
    assert_eq!(Fp::new(p + 5), Fp::new(5));
    assert_eq!(Fp::new(u64::MAX).to_u64(), u64::MAX % p);
}

#[test]
fn base_field_arithmetic() {
    let p: u64 = 4611624995532046337;
    assert_eq!(Fp::new(p - 1).add(&Fp::new(3)), Fp::new(2));
    assert_eq!(Fp::new(1).sub(&Fp::new(3)), Fp::new(p - 2));
    assert_eq!(Fp::new(3).invert().mul(&Fp::new(3)), Fp::one());
    assert_eq!(Fp::new(2).pow_vartime(10), Fp::new(1024));
    assert!(Fp::zero().is_zero());
    assert!(!Fp::one().is_zero());
}

#[test]
fn from_raw_unchecked_reads_montgomery_form() {
    // 2^64 mod p is the Montgomery form of one.
    let r: u64 = 244091581366268;
    assert_eq!(Fp::from_raw_unchecked(r), Fp::one());
    assert_eq!(Fp6::from_raw_unchecked([r, 0, 0, 0, 0, 0]), Fp6::one());
}

#[test]
fn exponentiation_agrees_in_both_variants() {
    let a = fp6(A);
    let e = [5u64, 0, 0, 0, 0, 0];
    let five = a.mul(&a).mul(&a).mul(&a).mul(&a);
    assert_eq!(a.exp(&e), five);
    assert_eq!(a.exp_vartime(&e), five);
}

#[test]
fn fp2_inversion() {
    let a = Fp2 { c0: Fp::new(5), c1: Fp::new(9) };
    assert_eq!(a.mul(&a.invert().unwrap()), Fp2::one());
    assert!(Fp2::zero().invert().is_none());
}

#[test]
fn sqrt_of_non_square_is_none() {
    // x^3 + x + B for x = 2 has no square root.
    let x = fp6([2, 0, 0, 0, 0, 0]);
    let rhs = x.square().mul(&x).add(&x).add(&fp6([395, 1, 0, 0, 0, 0]));
    assert!(rhs.sqrt_vartime().is_none());
}

#[test]
fn sqrt_of_zero_and_of_base_field_squares() {
    assert_eq!(Fp6::zero().sqrt_vartime(), Some(Fp6::zero()));
    for k in [1u64, 4, 9, 5, 4611624995532046336] {
        let a = fp6([k, 0, 0, 0, 0, 0]);
        let r = a.sqrt_vartime().unwrap();
        assert_eq!(r.square(), a);
    }
}

#[test]
fn sign_test_tells_an_element_from_its_negation() {
    let half: u64 = 2305812497766023168;
    let x = fp6([half + 1, 0, 0, 0, 1, 0]);
    assert_ne!(x.lexicographically_largest(), x.neg().lexicographically_largest());
    for v in [[1, 0, 0, 0, 0, 0], [0, 0, 5, 0, 0, 0], [half + 1, 3, 0, 0, 0, 0], [0, 0, 0, 0, 0, half]] {
        let x = fp6(v);
        assert_ne!(x.lexicographically_largest(), x.neg().lexicographically_largest());
    }
}

#[test]
fn inverse_times_element_is_one() {
    let a = fp6(A);
    assert_eq!(a.mul(&a.invert().unwrap()), Fp6::one());
    let b = fp6([0, 0, 0, 0, 7, 1]);
    assert_eq!(b.mul(&b.invert().unwrap()), Fp6::one());
}

#[test]
fn test_zeroize() {
    let mut a = Fp6::one();
    a.zeroize();
    assert!(a.is_zero());
}

#[test]
fn conversions_into_fp6() {
    assert_eq!(Fp6::from(5u64), fp6([5, 0, 0, 0, 0, 0]));
    assert_eq!(Fp6::from(4611624995532046340u64), fp6([3, 0, 0, 0, 0, 0]));
    assert_eq!(Fp6::from(7u32), fp6([7, 0, 0, 0, 0, 0]));
    assert_eq!(Fp6::from(8u16), fp6([8, 0, 0, 0, 0, 0]));
    assert_eq!(Fp6::from(9u8), fp6([9, 0, 0, 0, 0, 0]));
    assert_eq!(Fp6::from(Fp::new(11)), fp6([11, 0, 0, 0, 0, 0]));
    assert_eq!(Fp6::from(Fp2 { c0: Fp::new(1), c1: Fp::new(2) }), fp6([1, 2, 0, 0, 0, 0]));
}
