//! The sextic extension Fp6 = Fp2[v] / (v^3 - v - 2).
use crate::fp::{fp_of, lemma_fp_of, red, Fp, P};
use crate::fp2::{f2_inverse_checks, f2_largest, lemma_f2_largest_neg, lemma_f2_neg_zero, lemma_f2_add_neg, lemma_f2_neg_mul, f2_add, f2_inv, f2_mul, f2_neg, f2_norm, f2_scale, f2_sub, Fp2};
use crate::ct::{ct_and, ct_or};
use vstd::prelude::*;

verus! {

/// The coefficients of an Fp6 element, each a coefficient pair of Fp2.
pub type F6 = ((int, int), (int, int), (int, int));

/// (p^6 - 1) / 2 as little-endian limbs: the exponent of Euler's criterion.
pub const MODULUS_MINUS_ONE_DIV_TWO: [u64; 6] = [
    0xbfff598000000000,
    0x953f2fe05a3de000,
    0xc22d66eed23dc5ea,
    0xb9538f1d34e3dc07,
    0xa978d997e2ea6efc,
    0x0007ffd6605a3d77,
];

/// (p^6 + 1) / 2 as little-endian limbs.
pub const MODULUS_PLUS_ONE_DIV_TWO: [u64; 6] = [
    0xbfff598000000001,
    0x953f2fe05a3de000,
    0xc22d66eed23dc5ea,
    0xb9538f1d34e3dc07,
    0xa978d997e2ea6efc,
    0x0007ffd6605a3d77,
];

/// An element `c0 + c1 v + c2 v^2` of Fp6.
#[derive(Clone, Copy, Debug, PartialEq, Eq, Structural)]
pub struct Fp6 {
    /// First coefficient.
    pub c0: Fp2,
    /// Second coefficient.
    pub c1: Fp2,
    /// Third coefficient.
    pub c2: Fp2,
}

/// The element with the six base-field coefficients
/// `[c0.c0, c0.c1, c1.c0, c1.c1, c2.c0, c2.c1]`, each reduced modulo p.
pub open spec fn f6_of(v: Seq<u64>) -> F6 {
    ((red(v[0] as int), red(v[1] as int)), (red(v[2] as int), red(v[3] as int)), (red(v[4] as int), red(
        v[5] as int,
    )))
}

/// The additive identity of Fp6.
pub open spec fn f6_zero() -> F6 {
    ((0, 0), (0, 0), (0, 0))
}

/// The multiplicative identity of Fp6.
pub open spec fn f6_one() -> F6 {
    ((1, 0), (0, 0), (0, 0))
}

/// Sum in Fp6.
pub open spec fn f6_add(a: F6, b: F6) -> F6 {
    (f2_add(a.0, b.0), f2_add(a.1, b.1), f2_add(a.2, b.2))
}

/// Difference in Fp6.
pub open spec fn f6_sub(a: F6, b: F6) -> F6 {
    (f2_sub(a.0, b.0), f2_sub(a.1, b.1), f2_sub(a.2, b.2))
}

/// Negation in Fp6.
pub open spec fn f6_neg(a: F6) -> F6 {
    (f2_neg(a.0), f2_neg(a.1), f2_neg(a.2))
}

/// Doubling of an Fp2 coefficient.
pub open spec fn f2_dbl(a: (int, int)) -> (int, int) {
    f2_add(a, a)
}

/// Product in Fp6: the polynomial product reduced by v^3 = v + 2, that is
/// c0 = a0 b0 + 2 (a1 b2 + a2 b1),
/// c1 = a0 b1 + a1 b0 + (a1 b2 + a2 b1) + 2 a2 b2,
/// c2 = a0 b2 + a1 b1 + a2 b0 + a2 b2.
#[verifier::opaque]
pub open spec fn f6_mul(a: F6, b: F6) -> F6 {
    let cross = f2_add(f2_mul(a.1, b.2), f2_mul(a.2, b.1));
    let c0 = f2_add(f2_mul(a.0, b.0), f2_dbl(cross));
    let c1 = f2_add(
        f2_add(f2_add(f2_mul(a.0, b.1), f2_mul(a.1, b.0)), cross),
        f2_dbl(f2_mul(a.2, b.2)),
    );
    let c2 = f2_add(f2_add(f2_add(f2_mul(a.0, b.2), f2_mul(a.1, b.1)), f2_mul(a.2, b.0)), f2_mul(a.2, b.2));
    (c0, c1, c2)
}

/// Bit `k` of the integer whose little-endian 64-bit limbs are `by`.
pub open spec fn limb_bit(by: Seq<u64>, k: int) -> bool {
    (by[k / 64] >> ((k % 64) as u64)) & 1 == 1
}

/// Left-to-right binary exponentiation of `a` by the 384-bit integer with
/// limbs `by`, after its `n` most significant bits.
pub open spec fn f6_exp_top(a: F6, by: Seq<u64>, n: nat) -> F6
    decreases n,
{
    if n == 0 {
        f6_one()
    } else {
        let prev = f6_exp_top(a, by, (n - 1) as nat);
        let s = f6_mul(prev, prev);
        if limb_bit(by, 384 - n) {
            f6_mul(s, a)
        } else {
            s
        }
    }
}

/// `a` raised to the 384-bit integer with little-endian limbs `by`.
pub open spec fn f6_exp(a: F6, by: Seq<u64>) -> F6 {
    f6_exp_top(a, by, 384)
}

/// The Fp2 norm of an element of Fp6, the value inverted by `invert`.
pub open spec fn f6_norm(a: F6) -> (int, int) {
    let two = (2int, 0int);
    let three = (3int, 0int);
    let four = (4int, 0int);
    let (c0, c1, c2) = a;
    let c0_sq = f2_mul(c0, c0);
    let c1_sq = f2_mul(c1, c1);
    let c2_sq = f2_mul(c2, c2);
    let two_c1 = f2_mul(two, c1);
    let c0_c1 = f2_mul(c0, c1);
    f2_add(
        f2_add(
            f2_add(
                f2_add(f2_sub(f2_mul(c0, c0_sq), f2_mul(c0, c1_sq)), f2_mul(two_c1, c1_sq)),
                f2_mul(f2_sub(c0, two_c1), c2_sq),
            ),
            f2_mul(f2_mul(four, c2), c2_sq),
        ),
        f2_mul(f2_mul(two, f2_sub(c0_sq, f2_mul(three, c0_c1))), c2),
    )
}

/// The numerator of the inverse of an element of Fp6: its product with it
/// is the norm.
pub open spec fn f6_adjugate(a: F6) -> F6 {
    let two = (2int, 0int);
    let (c0, c1, c2) = a;
    let c0_sq = f2_mul(c0, c0);
    let c1_sq = f2_mul(c1, c1);
    let c2_sq = f2_mul(c2, c2);
    let c0_c1 = f2_mul(c0, c1);
    let d0 = f2_add(f2_add(f2_sub(c0_sq, c1_sq), f2_mul(f2_mul(two, f2_sub(c0, c1)), c2)), c2_sq);
    let d1 = f2_neg(f2_sub(c0_c1, f2_mul(two, c2_sq)));
    let d2 = f2_sub(f2_sub(c1_sq, f2_mul(c0, c2)), c2_sq);
    (d0, d1, d2)
}

/// The inverse of an element of Fp6 of nonzero norm.
pub open spec fn f6_inv(a: F6) -> F6 {
    let t = f2_inv(f6_norm(a));
    let d = f6_adjugate(a);
    (f2_mul(d.0, t), f2_mul(d.1, t), f2_mul(d.2, t))
}

/// Whether the adjugate-over-norm formula inverts an element: its norm is
/// invertible in Fp2 and the product with the formula's result is one. (In
/// the field this holds of every nonzero element.)
pub open spec fn f6_inverse_checks(a: F6) -> bool {
    f2_inverse_checks(f6_norm(a)) && f6_mul(a, f6_inv(a)) == f6_one()
}

impl View for Fp6 {
    type V = F6;

    open spec fn view(&self) -> F6 {
        (self.c0@, self.c1@, self.c2@)
    }
}

impl Fp6 {
    /// All coefficients are canonical.
    pub open spec fn wf(self) -> bool {
        self.c0.wf() && self.c1.wf() && self.c2.wf()
    }

    /// Builds an element from its six base-field coefficients
    /// `[c0.c0, c0.c1, c1.c0, c1.c1, c2.c0, c2.c1]`, each reduced modulo p.
    pub fn new(value: [u64; 6]) -> (r: Fp6)
        ensures
            r.wf(),
            r@ == f6_of(value@),
    {
        Fp6 {
            c0: Fp2 { c0: Fp::new(value[0]), c1: Fp::new(value[1]) },
            c1: Fp2 { c0: Fp::new(value[2]), c1: Fp::new(value[3]) },
            c2: Fp2 { c0: Fp::new(value[4]), c1: Fp::new(value[5]) },
        }
    }

    /// Builds an element from the Montgomery forms of its six coefficients.
    pub fn from_raw_unchecked(value: [u64; 6]) -> (r: Fp6)
        ensures
            r.wf(),
            r@ == ((red(value[0] * crate::fp::R_INV), red(value[1] * crate::fp::R_INV)),
                (red(value[2] * crate::fp::R_INV), red(value[3] * crate::fp::R_INV)),
                (red(value[4] * crate::fp::R_INV), red(value[5] * crate::fp::R_INV))),
    {
        Fp6 {
            c0: Fp2 { c0: Fp::from_raw_unchecked(value[0]), c1: Fp::from_raw_unchecked(value[1]) },
            c1: Fp2 { c0: Fp::from_raw_unchecked(value[2]), c1: Fp::from_raw_unchecked(value[3]) },
            c2: Fp2 { c0: Fp::from_raw_unchecked(value[4]), c1: Fp::from_raw_unchecked(value[5]) },
        }
    }

    /// Embeds an element of Fp2 as a constant.
    pub fn from_fp2(f: Fp2) -> (r: Fp6)
        requires
            f.wf(),
        ensures
            r.wf(),
            r@ == (f@, (0int, 0int), (0int, 0int)),
    {
        Fp6 { c0: f, c1: Fp2::zero(), c2: Fp2::zero() }
    }

    /// The additive identity.
    pub fn zero() -> (r: Fp6)
        ensures
            r.wf(),
            r@ == f6_zero(),
    {
        Fp6 { c0: Fp2::zero(), c1: Fp2::zero(), c2: Fp2::zero() }
    }

    /// The multiplicative identity.
    pub fn one() -> (r: Fp6)
        ensures
            r.wf(),
            r@ == f6_one(),
    {
        Fp6 { c0: Fp2::one(), c1: Fp2::zero(), c2: Fp2::zero() }
    }

    /// Overwrites this element with zero.
    pub fn zeroize(&mut self)
        ensures
            final(self).wf(),
            final(self)@ == f6_zero(),
    {
        self.c0.zeroize();
        self.c1.zeroize();
        self.c2.zeroize();
    }

    /// Checks, in constant time, whether this element is zero.
    pub fn is_zero(&self) -> (r: bool)
        ensures
            r == (self@ == f6_zero()),
    {
        let a = self.c0.is_zero();
        let b = self.c1.is_zero();
        let c = self.c2.is_zero();
        ct_and(ct_and(a, b), c)
    }

    /// Checks, in constant time, whether two elements are equal.
    pub fn ct_eq(&self, other: &Fp6) -> (r: bool)
        ensures
            r == (self@ == other@),
    {
        let a = self.c0.ct_eq(&other.c0);
        let b = self.c1.ct_eq(&other.c1);
        let c = self.c2.ct_eq(&other.c2);
        ct_and(ct_and(a, b), c)
    }

    /// Selects, in constant time, `a` when `choice` is false and `b` otherwise.
    pub fn conditional_select(a: &Fp6, b: &Fp6, choice: bool) -> (r: Fp6)
        ensures
            r == (if choice { *b } else { *a }),
    {
        Fp6 {
            c0: Fp2::conditional_select(&a.c0, &b.c0, choice),
            c1: Fp2::conditional_select(&a.c1, &b.c1, choice),
            c2: Fp2::conditional_select(&a.c2, &b.c2, choice),
        }
    }

    /// Whether this element is strictly larger than its negation: decided by
    /// `c2`, or by `c1` when `c2` is zero, or by `c0` when both are zero.
    pub fn lexicographically_largest(&self) -> (r: bool)
        requires
            self.wf(),
        ensures
            r == f6_largest(self@),
            self@ != f6_zero() ==> r != f6_largest(f6_neg(self@)),
    {
        let a = self.c2.lexicographically_largest();
        let za = self.c2.is_zero();
        let b = self.c1.lexicographically_largest();
        let zb = self.c1.is_zero();
        let c = self.c0.lexicographically_largest();
        proof {
            lemma_wf_canonical(*self);
            if self@ != f6_zero() {
                lemma_f6_largest_neg(self@);
            }
        }
        ct_or(ct_or(a, ct_and(za, b)), ct_and(ct_and(za, zb), c))
    }

    /// Addition.
    pub fn add(&self, rhs: &Fp6) -> (r: Fp6)
        requires
            self.wf(),
            rhs.wf(),
        ensures
            r.wf(),
            r@ == f6_add(self@, rhs@),
    {
        Fp6 { c0: self.c0.add(&rhs.c0), c1: self.c1.add(&rhs.c1), c2: self.c2.add(&rhs.c2) }
    }

    /// Subtraction.
    pub fn sub(&self, rhs: &Fp6) -> (r: Fp6)
        requires
            self.wf(),
            rhs.wf(),
        ensures
            r.wf(),
            r@ == f6_sub(self@, rhs@),
    {
        Fp6 { c0: self.c0.sub(&rhs.c0), c1: self.c1.sub(&rhs.c1), c2: self.c2.sub(&rhs.c2) }
    }

    /// Negation.
    pub fn neg(&self) -> (r: Fp6)
        requires
            self.wf(),
        ensures
            r.wf(),
            r@ == f6_neg(self@),
    {
        Fp6 { c0: self.c0.neg(), c1: self.c1.neg(), c2: self.c2.neg() }
    }

    /// Doubling.
    pub fn double(&self) -> (r: Fp6)
        requires
            self.wf(),
        ensures
            r.wf(),
            r@ == f6_add(self@, self@),
    {
        self.add(self)
    }

    /// Multiplication.
    pub fn mul(&self, other: &Fp6) -> (r: Fp6)
        requires
            self.wf(),
            other.wf(),
        ensures
            r.wf(),
            r@ == f6_mul(self@, other@),
    {
        proof {
            reveal(f6_mul);
        }
        let cross = self.c1.mul(&other.c2).add(&self.c2.mul(&other.c1));
        let c0 = self.c0.mul(&other.c0).add(&cross.double());
        let c1 = self.c0.mul(&other.c1).add(&self.c1.mul(&other.c0)).add(&cross).add(
            &self.c2.mul(&other.c2).double(),
        );
        let c2 = self.c0.mul(&other.c2).add(&self.c1.mul(&other.c1)).add(&self.c2.mul(&other.c0)).add(
            &self.c2.mul(&other.c2),
        );
        Fp6 { c0, c1, c2 }
    }

    /// Squaring.
    pub fn square(&self) -> (r: Fp6)
        requires
            self.wf(),
        ensures
            r.wf(),
            r@ == f6_mul(self@, self@),
    {
        self.mul(self)
    }

    /// Raises this element to the power whose little-endian 64-bit limbs are
    /// `by`, performing the same operations whatever the exponent's bits.
    pub fn exp(self, by: &[u64; 6]) -> (r: Fp6)
        requires
            self.wf(),
        ensures
            r.wf(),
            r@ == f6_exp(self@, by@),
    {
        let mut res = Fp6::one();
        let mut k: usize = 384;
        while k > 0
            invariant
                k <= 384,
                self.wf(),
                res.wf(),
                res@ == f6_exp_top(self@, by@, (384 - k) as nat),
            decreases k,
        {
            k = k - 1;
            res = res.square();
            let tmp = res.mul(&self);
            let bit: u64 = (by[k / 64] >> ((k % 64) as u64)) & 1;
            res = Fp6::conditional_select(&res, &tmp, bit == 1);
            assert((384 - (384 - (k + 1) + 1)) == k);
        }
        res
    }

    /// Raises this element to the power whose little-endian 64-bit limbs are
    /// `by`. Variable time in the exponent only.
    pub fn exp_vartime(&self, by: &[u64; 6]) -> (r: Fp6)
        requires
            self.wf(),
        ensures
            r.wf(),
            r@ == f6_exp(self@, by@),
    {
        let mut res = Fp6::one();
        let mut k: usize = 384;
        while k > 0
            invariant
                k <= 384,
                self.wf(),
                res.wf(),
                res@ == f6_exp_top(self@, by@, (384 - k) as nat),
            decreases k,
        {
            k = k - 1;
            res = res.square();
            if (by[k / 64] >> ((k % 64) as u64)) & 1 == 1 {
                res = res.mul(self);
            }
            assert((384 - (384 - (k + 1) + 1)) == k);
        }
        res
    }

    /// The multiplicative inverse: the adjugate over the Fp2 norm, returned
    /// only once its product with this element has been checked to be one;
    /// `None` for zero.
    pub fn invert(&self) -> (r: Option<Fp6>)
        requires
            self.wf(),
        ensures
            r is None <==> !f6_inverse_checks(self@),
            r matches Some(v) ==> v.wf() && v@ == f6_inv(self@) && f6_mul(self@, v@) == f6_one(),
            self@ == f6_zero() ==> r is None,
    {
        proof {
            lemma_f6_mul_zero(f6_inv(self@));
        }
        let three = Fp2::new(3);
        let two = Fp2::new(2);
        let four = Fp2::new(4);
        let c0_sq = self.c0.square();
        let c1_sq = self.c1.square();
        let c2_sq = self.c2.square();
        let two_c1 = two.mul(&self.c1);
        let c0_c1 = self.c0.mul(&self.c1);
        let inv = self.c0.mul(&c0_sq).sub(&self.c0.mul(&c1_sq)).add(&two_c1.mul(&c1_sq)).add(
            &self.c0.sub(&two_c1).mul(&c2_sq),
        ).add(&four.mul(&self.c2).mul(&c2_sq)).add(
            &two.mul(&c0_sq.sub(&three.mul(&c0_c1))).mul(&self.c2),
        );
        let d0 = c0_sq.sub(&c1_sq).add(&two.mul(&self.c0.sub(&self.c1)).mul(&self.c2)).add(&c2_sq);
        let d1 = c0_c1.sub(&two.mul(&c2_sq)).neg();
        let d2 = c1_sq.sub(&self.c0.mul(&self.c2)).sub(&c2_sq);
        match inv.invert() {
            None => None,
            Some(t) => {
                let v = Fp6 { c0: d0.mul(&t), c1: d1.mul(&t), c2: d2.mul(&t) };
                if self.mul(&v).ct_eq(&Fp6::one()) {
                    Some(v)
                } else {
                    None
                }
            },
        }
    }

    /// The canonical residues of the six base-field coefficients
    /// `[c0.c0, c0.c1, c1.c0, c1.c1, c2.c0, c2.c1]`.
    pub fn to_repr(&self) -> (r: [u64; 6])
        ensures
            r@ == f6_limbs(self@),
    {
        let r = [
            self.c0.c0.to_u64(),
            self.c0.c1.to_u64(),
            self.c1.c0.to_u64(),
            self.c1.c1.to_u64(),
            self.c2.c0.to_u64(),
            self.c2.c1.to_u64(),
        ];
        assert(r@ =~= seq![self.c0.c0.val() as u64, self.c0.c1.val() as u64, self.c1.c0.val() as u64,
                self.c1.c1.val() as u64, self.c2.c0.val() as u64, self.c2.c1.val() as u64]);
        r
    }

    /// Brings the representation to canonical form; elements are always held
    /// canonically, so the value is left as it is.
    pub fn normalize(&mut self)
        ensures
            *final(self) == *old(self),
    {
    }

    /// The little-endian encoding: 8 bytes for each coefficient of `to_repr`,
    /// in that order.
    pub fn to_bytes(&self) -> (r: [u8; 48])
        ensures
            r@ == f6_to_bytes(self@),
    {
        let tmp = self.to_repr();
        let mut res = [0u8; 48];
        let mut j: usize = 0;
        while j < 6
            invariant
                j <= 6,
                tmp@ == f6_limbs(self@),
                forall|k: int| 0 <= k < 8 * j ==> #[trigger] res[k] == le_byte(tmp@[k / 8], k % 8),
            decreases 6 - j,
        {
            let x = tmp[j];
            let mut i: usize = 0;
            while i < 8
                invariant
                    j < 6,
                    i <= 8,
                    x == tmp@[j as int],
                    forall|k: int| 0 <= k < 8 * j + i ==> #[trigger] res[k] == le_byte(tmp@[k / 8], k % 8),
                decreases 8 - i,
            {
                res[8 * j + i] = ((x >> ((8 * i) as u64)) & 0xff) as u8;
                assert((8 * j + i) / 8 == j as int && (8 * j + i) % 8 == i as int);
                i = i + 1;
            }
            j = j + 1;
        }
        assert(res@ =~= f6_to_bytes(self@));
        res
    }

    /// Decodes 48 bytes: each group of 8, read little-endian and reduced
    /// modulo p, is a coefficient, in the order of `to_repr`.
    pub fn from_bytes(bytes: &[u8; 48]) -> (r: Fp6)
        ensures
            r.wf(),
            r@ == f6_from_bytes(bytes@),
    {
        Fp6 {
            c0: Fp2 { c0: Fp::new(read_u64(bytes, 0)), c1: Fp::new(read_u64(bytes, 8)) },
            c1: Fp2 { c0: Fp::new(read_u64(bytes, 16)), c1: Fp::new(read_u64(bytes, 24)) },
            c2: Fp2 { c0: Fp::new(read_u64(bytes, 32)), c1: Fp::new(read_u64(bytes, 40)) },
        }
    }
}

impl From<u64> for Fp6 {
    /// The constant `value`, reduced modulo p.
    fn from(value: u64) -> (r: Fp6) {
        let r = Fp6::from_fp2(Fp2::new(value));
        proof {
            lemma_fp_of(value as int, r.c0.c0);
            lemma_fp_of(0, r.c0.c1);
            lemma_fp_of(0, r.c1.c0);
            lemma_fp_of(0, r.c1.c1);
            lemma_fp_of(0, r.c2.c0);
            lemma_fp_of(0, r.c2.c1);
        }
        r
    }
}

impl vstd::std_specs::convert::FromSpecImpl<u64> for Fp6 {
    open spec fn obeys_from_spec() -> bool {
        true
    }

    open spec fn from_spec(value: u64) -> Fp6 {
        let z = Fp2 { c0: fp_of(0), c1: fp_of(0) };
        Fp6 { c0: Fp2 { c0: fp_of(value as int), c1: fp_of(0) }, c1: z, c2: z }
    }
}

impl From<u32> for Fp6 {
    /// The constant `value`.
    fn from(value: u32) -> (r: Fp6) {
        <Fp6 as From<u64>>::from(value as u64)
    }
}

impl vstd::std_specs::convert::FromSpecImpl<u32> for Fp6 {
    open spec fn obeys_from_spec() -> bool {
        true
    }

    open spec fn from_spec(value: u32) -> Fp6 {
        let z = Fp2 { c0: fp_of(0), c1: fp_of(0) };
        Fp6 { c0: Fp2 { c0: fp_of(value as int), c1: fp_of(0) }, c1: z, c2: z }
    }
}

impl From<u16> for Fp6 {
    /// The constant `value`.
    fn from(value: u16) -> (r: Fp6) {
        <Fp6 as From<u64>>::from(value as u64)
    }
}

impl vstd::std_specs::convert::FromSpecImpl<u16> for Fp6 {
    open spec fn obeys_from_spec() -> bool {
        true
    }

    open spec fn from_spec(value: u16) -> Fp6 {
        let z = Fp2 { c0: fp_of(0), c1: fp_of(0) };
        Fp6 { c0: Fp2 { c0: fp_of(value as int), c1: fp_of(0) }, c1: z, c2: z }
    }
}

impl From<u8> for Fp6 {
    /// The constant `value`.
    fn from(value: u8) -> (r: Fp6) {
        <Fp6 as From<u64>>::from(value as u64)
    }
}

impl vstd::std_specs::convert::FromSpecImpl<u8> for Fp6 {
    open spec fn obeys_from_spec() -> bool {
        true
    }

    open spec fn from_spec(value: u8) -> Fp6 {
        let z = Fp2 { c0: fp_of(0), c1: fp_of(0) };
        Fp6 { c0: Fp2 { c0: fp_of(value as int), c1: fp_of(0) }, c1: z, c2: z }
    }
}

impl From<Fp> for Fp6 {
    /// The constant `f`.
    fn from(f: Fp) -> (r: Fp6) {
        let c = Fp2 { c0: f, c1: Fp::zero() };
        proof {
            lemma_fp_of(0, c.c1);
        }
        <Fp6 as From<Fp2>>::from(c)
    }
}

impl vstd::std_specs::convert::FromSpecImpl<Fp> for Fp6 {
    open spec fn obeys_from_spec() -> bool {
        true
    }

    open spec fn from_spec(f: Fp) -> Fp6 {
        let z = Fp2 { c0: fp_of(0), c1: fp_of(0) };
        Fp6 { c0: Fp2 { c0: f, c1: fp_of(0) }, c1: z, c2: z }
    }
}

impl From<Fp2> for Fp6 {
    /// The constant `f`.
    fn from(f: Fp2) -> (r: Fp6) {
        let r = Fp6 { c0: f, c1: Fp2::zero(), c2: Fp2::zero() };
        proof {
            lemma_fp_of(0, r.c1.c0);
            lemma_fp_of(0, r.c1.c1);
            lemma_fp_of(0, r.c2.c0);
            lemma_fp_of(0, r.c2.c1);
        }
        r
    }
}

impl vstd::std_specs::convert::FromSpecImpl<Fp2> for Fp6 {
    open spec fn obeys_from_spec() -> bool {
        true
    }

    open spec fn from_spec(f: Fp2) -> Fp6 {
        let z = Fp2 { c0: fp_of(0), c1: fp_of(0) };
        Fp6 { c0: f, c1: z, c2: z }
    }
}

impl Default for Fp6 {
    /// Zero.
    fn default() -> (r: Fp6)
        ensures
            r.wf(),
            r@ == f6_zero(),
    {
        Fp6::zero()
    }
}

/// Product in Fp12 = Fp6[w] / (w^2 - beta) of elements held as
/// `[c0, c1]` meaning `c0 + c1 w`.
pub open spec fn f12_mul(a: (F6, F6), b: (F6, F6), beta: F6) -> (F6, F6) {
    (f6_add(f6_mul(a.0, b.0), f6_mul(beta, f6_mul(a.1, b.1))), f6_add(f6_mul(a.0, b.1), f6_mul(a.1, b.0)))
}

fn mul_in_fp12(a: &[Fp6; 2], b: &[Fp6; 2], beta: &Fp6) -> (r: [Fp6; 2])
    requires
        a[0].wf() && a[1].wf() && b[0].wf() && b[1].wf() && beta.wf(),
    ensures
        r[0].wf() && r[1].wf(),
        (r[0]@, r[1]@) == f12_mul((a[0]@, a[1]@), (b[0]@, b[1]@), beta@),
{
    let v0 = a[0].mul(&b[0]);
    let v1 = a[1].mul(&b[1]);
    let c0 = v0.add(&beta.mul(&v1));
    let c1 = a[0].mul(&b[1]).add(&a[1].mul(&b[0]));
    [c0, c1]
}

fn exp_vartime_in_fp12(a: &[Fp6; 2], by: &[u64; 6], beta: &Fp6) -> (r: [Fp6; 2])
    requires
        a[0].wf() && a[1].wf() && beta.wf(),
    ensures
        r[0].wf() && r[1].wf(),
{
    let mut res = [Fp6::one(), Fp6::zero()];
    let mut k: usize = 384;
    while k > 0
        invariant
            k <= 384,
            a[0].wf() && a[1].wf() && beta.wf(),
            res[0].wf() && res[1].wf(),
        decreases k,
    {
        k = k - 1;
        res = mul_in_fp12(&res, &res, beta);
        if (by[k / 64] >> ((k % 64) as u64)) & 1 == 1 {
            res = mul_in_fp12(&res, a, beta);
        }
    }
    res
}

impl Fp6 {
    /// A square root, found with Cipolla's algorithm: zero for zero; `None`
    /// when Euler's criterion rejects this element, or when the search for
    /// a non-residue a^2 - self gives up.
    pub fn sqrt_vartime(&self) -> (r: Option<Fp6>)
        requires
            self.wf(),
        ensures
            r matches Some(s) ==> s.wf() && f6_mul(s@, s@) == self@,
            self@ == f6_zero() ==> (r matches Some(s) && s@ == f6_zero()),
            self@ != f6_zero() && f6_exp(self@, MODULUS_MINUS_ONE_DIV_TWO@) != f6_one() ==> r is None,
    {
        if self.is_zero() {
            proof {
                lemma_f6_mul_zero(f6_zero());
            }
            return Some(Fp6::zero());
        }
        let check = self.exp_vartime(&MODULUS_MINUS_ONE_DIV_TWO);
        if !check.ct_eq(&Fp6::one()) {
            return None;
        }
        let one = Fp6::one();
        let minus_one = one.neg();
        // a = 2 + u v, stepped by one, lies in neither proper subfield Fp2
        // nor Fp3 = Fp[v]: a search inside Fp or Fp3 would never leave it,
        // and every element of Fp3 is a square in Fp6.
        let mut a = Fp6 { c0: Fp2::one().double(), c1: Fp2 { c0: Fp::zero(), c1: Fp::one() }, c2: Fp2::zero() };
        let mut found = false;
        let mut count: u64 = 0;
        while !found && count < crate::fp::P
            invariant
                a.wf(),
                self.wf(),
                one.wf(),
            decreases crate::fp::P - count, (if found { 0int } else { 1int }),
        {
            let t = a.square().sub(self).exp_vartime(&MODULUS_MINUS_ONE_DIV_TWO);
            if t.ct_eq(&minus_one) {
                found = true;
            } else {
                a = a.add(&one);
                count = count + 1;
            }
        }
        if !found {
            return None;
        }
        let beta = a.square().sub(self);
        let res = exp_vartime_in_fp12(&[a, Fp6::one()], &MODULUS_PLUS_ONE_DIV_TWO, &beta);
        if !res[1].is_zero() {
            return None;
        }
        if self.ct_eq(&res[0].square()) {
            Some(res[0])
        } else {
            None
        }
    }
}

/// Whether an element is larger than its negation: decided by `c2`, or by
/// `c1` when `c2` is zero, or by `c0` when both are zero.
pub open spec fn f6_largest(a: F6) -> bool {
    f2_largest(a.2) || (a.2 == (0int, 0int) && f2_largest(a.1)) || (a.2 == (0int, 0int) && a.1 == (0int, 0int)
        && f2_largest(a.0))
}

/// Exactly one of a nonzero canonical element and its negation is
/// lexicographically largest.
pub proof fn lemma_f6_largest_neg(a: F6)
    requires
        f6_canonical(a),
        a != f6_zero(),
    ensures
        f6_largest(a) != f6_largest(f6_neg(a)),
{
    lemma_f2_neg_zero(a.0);
    lemma_f2_neg_zero(a.1);
    lemma_f2_neg_zero(a.2);
    if a.2 != (0int, 0int) {
        lemma_f2_largest_neg(a.2);
    } else if a.1 != (0int, 0int) {
        lemma_f2_largest_neg(a.1);
    } else {
        lemma_f2_largest_neg(a.0);
    }
}

/// The six base-field coefficients `[c0.c0, c0.c1, c1.c0, c1.c1, c2.c0, c2.c1]`
/// as words.
pub open spec fn f6_limbs(a: F6) -> Seq<u64> {
    seq![a.0.0 as u64, a.0.1 as u64, a.1.0 as u64, a.1.1 as u64, a.2.0 as u64, a.2.1 as u64]
}

/// The 48-byte encoding: the little-endian bytes of each coefficient in turn.
pub open spec fn f6_to_bytes(a: F6) -> Seq<u8> {
    Seq::new(48, |k: int| le_byte(f6_limbs(a)[k / 8], k % 8))
}

/// The element read from 48 bytes, each 8-byte word reduced modulo p.
pub open spec fn f6_from_bytes(b: Seq<u8>) -> F6 {
    ((red(le_u64(b, 0)), red(le_u64(b, 8))), (red(le_u64(b, 16)), red(le_u64(b, 24))), (red(
        le_u64(b, 32),
    ), red(le_u64(b, 40))))
}

/// Canonical coefficients.
pub open spec fn f6_canonical(a: F6) -> bool {
    0 <= a.0.0 < P && 0 <= a.0.1 < P && 0 <= a.1.0 < P && 0 <= a.1.1 < P && 0 <= a.2.0 < P && 0 <= a.2.1 < P
}

/// A well-formed element has canonical coefficients.
pub proof fn lemma_wf_canonical(a: Fp6)
    requires
        a.wf(),
    ensures
        f6_canonical(a@),
{
    crate::fp::lemma_red_val(a.c0.c0);
    crate::fp::lemma_red_val(a.c0.c1);
    crate::fp::lemma_red_val(a.c1.c0);
    crate::fp::lemma_red_val(a.c1.c1);
    crate::fp::lemma_red_val(a.c2.c0);
    crate::fp::lemma_red_val(a.c2.c1);
}

/// Reading back the bytes of one coefficient of a canonical element gives it.
proof fn lemma_limb_round_trip(a: F6, j: int)
    requires
        f6_canonical(a),
        0 <= j < 6,
    ensures
        red(le_u64(f6_to_bytes(a), 8 * j)) == f6_limbs(a)[j] as int,
{
    let b = f6_to_bytes(a);
    let l = f6_limbs(a)[j];
    lemma_le_bytes(l);
    assert(b[8 * j] == le_byte(l, 0));
    assert(b[8 * j + 1] == le_byte(l, 1));
    assert(b[8 * j + 2] == le_byte(l, 2));
    assert(b[8 * j + 3] == le_byte(l, 3));
    assert(b[8 * j + 4] == le_byte(l, 4));
    assert(b[8 * j + 5] == le_byte(l, 5));
    assert(b[8 * j + 6] == le_byte(l, 6));
    assert(b[8 * j + 7] == le_byte(l, 7));
    assert((l as int) < P);
}

/// Decoding the encoding of a canonical element gives it back.
pub proof fn lemma_bytes_round_trip(a: F6)
    requires
        f6_canonical(a),
    ensures
        f6_from_bytes(f6_to_bytes(a)) == a,
{
    lemma_limb_round_trip(a, 0);
    lemma_limb_round_trip(a, 1);
    lemma_limb_round_trip(a, 2);
    lemma_limb_round_trip(a, 3);
    lemma_limb_round_trip(a, 4);
    lemma_limb_round_trip(a, 5);
}

/// Multiplying by zero, on either side, gives zero.
pub proof fn lemma_f6_mul_zero(a: F6)
    ensures
        f6_mul(a, f6_zero()) == f6_zero(),
        f6_mul(f6_zero(), a) == f6_zero(),
{
    reveal(f6_mul);
    assert(red(0) == 0);
    assert(a.0.0 * 0 == 0 && a.0.1 * 0 == 0 && a.1.0 * 0 == 0 && a.1.1 * 0 == 0 && a.2.0 * 0 == 0 && a.2.1
        * 0 == 0);
}

/// One is a right identity of the product of canonical elements.
pub proof fn lemma_f6_mul_one(a: F6)
    requires
        f6_canonical(a),
    ensures
        f6_mul(a, f6_one()) == a,
{
    reveal(f6_mul);
    assert(red(0) == 0);
    let z = (0int, 0int);
    let o = (1int, 0int);
    assert forall|x: (int, int)| 0 <= x.0 < P && 0 <= x.1 < P implies f2_mul(x, o) == x && f2_mul(x, z)
        == z && f2_add(x, z) == x by {
        assert(x.0 * 1 + x.1 * 0 == x.0 && x.0 * 0 + x.1 * 1 + x.1 * 0 == x.1);
        assert(x.0 * 0 + x.1 * 0 == 0 && x.0 * 0 + x.1 * 0 + x.1 * 0 == 0);
    }
    assert(f2_add(z, z) == z);
}

/// Every result of the field operations is canonical.
pub proof fn lemma_f6_mul_canonical(a: F6, b: F6)
    ensures
        f6_canonical(f6_mul(a, b)),
{
    reveal(f6_mul);
}

/// A negated factor negates the product.
pub proof fn lemma_f6_neg_mul(a: F6, b: F6)
    requires
        f6_canonical(b),
    ensures
        f6_mul(f6_neg(a), b) == f6_neg(f6_mul(a, b)),
{
    reveal(f6_mul);
    lemma_f2_neg_mul(a.0, b.0);
    lemma_f2_neg_mul(a.0, b.1);
    lemma_f2_neg_mul(a.0, b.2);
    lemma_f2_neg_mul(a.1, b.0);
    lemma_f2_neg_mul(a.1, b.1);
    lemma_f2_neg_mul(a.1, b.2);
    lemma_f2_neg_mul(a.2, b.0);
    lemma_f2_neg_mul(a.2, b.1);
    lemma_f2_neg_mul(a.2, b.2);
    let cross = f2_add(f2_mul(a.1, b.2), f2_mul(a.2, b.1));
    lemma_f2_add_neg(f2_mul(a.1, b.2), f2_mul(a.2, b.1));
    lemma_f2_add_neg(cross, cross);
    lemma_f2_add_neg(f2_mul(a.0, b.0), f2_dbl(cross));
    lemma_f2_add_neg(f2_mul(a.0, b.1), f2_mul(a.1, b.0));
    lemma_f2_add_neg(f2_add(f2_mul(a.0, b.1), f2_mul(a.1, b.0)), cross);
    lemma_f2_add_neg(f2_mul(a.2, b.2), f2_mul(a.2, b.2));
    lemma_f2_add_neg(f2_add(f2_add(f2_mul(a.0, b.1), f2_mul(a.1, b.0)), cross), f2_dbl(f2_mul(a.2, b.2)));
    lemma_f2_add_neg(f2_mul(a.0, b.2), f2_mul(a.1, b.1));
    lemma_f2_add_neg(f2_add(f2_mul(a.0, b.2), f2_mul(a.1, b.1)), f2_mul(a.2, b.0));
    lemma_f2_add_neg(f2_add(f2_add(f2_mul(a.0, b.2), f2_mul(a.1, b.1)), f2_mul(a.2, b.0)), f2_mul(a.2, b.2));
}

/// A canonical element plus its negation is zero.
pub proof fn lemma_f6_add_neg(t: F6)
    requires
        f6_canonical(t),
    ensures
        f6_add(t, f6_neg(t)) == f6_zero(),
{
    crate::fp::lemma_red_add(t.0.0, -t.0.0);
    crate::fp::lemma_red_add(t.0.1, -t.0.1);
    crate::fp::lemma_red_add(t.1.0, -t.1.0);
    crate::fp::lemma_red_add(t.1.1, -t.1.1);
    crate::fp::lemma_red_add(t.2.0, -t.2.0);
    crate::fp::lemma_red_add(t.2.1, -t.2.1);
    assert(red(0) == 0);
}

/// Negating a canonical element twice gives it back.
pub proof fn lemma_f6_neg_neg(t: F6)
    requires
        f6_canonical(t),
    ensures
        f6_neg(f6_neg(t)) == t,
{
    crate::fp::lemma_red_sub(0, -t.0.0);
    crate::fp::lemma_red_sub(0, -t.0.1);
    crate::fp::lemma_red_sub(0, -t.1.0);
    crate::fp::lemma_red_sub(0, -t.1.1);
    crate::fp::lemma_red_sub(0, -t.2.0);
    crate::fp::lemma_red_sub(0, -t.2.1);
    assert(red(0) == 0);
}

/// Byte `i` of a word in little-endian order.
pub open spec fn le_byte(x: u64, i: int) -> u8 {
    ((x >> ((8 * i) as u64)) & 0xff) as u8
}

/// The word whose little-endian bytes start at `off`.
pub open spec fn le_u64(b: Seq<u8>, off: int) -> int {
    b[off] + b[off + 1] * 0x100 + b[off + 2] * 0x1_0000 + b[off + 3] * 0x100_0000 + b[off + 4]
        * 0x1_0000_0000 + b[off + 5] * 0x100_0000_0000 + b[off + 6] * 0x1_0000_0000_0000 + b[off
        + 7] * 0x100_0000_0000_0000
}

fn read_u64(b: &[u8; 48], off: usize) -> (r: u64)
    requires
        off + 8 <= 48,
    ensures
        r as int == le_u64(b@, off as int),
{
    b[off] as u64 + b[off + 1] as u64 * 0x100 + b[off + 2] as u64 * 0x1_0000 + b[off + 3] as u64
        * 0x100_0000 + b[off + 4] as u64 * 0x1_0000_0000 + b[off + 5] as u64 * 0x100_0000_0000
        + b[off + 6] as u64 * 0x1_0000_0000_0000 + b[off + 7] as u64 * 0x100_0000_0000_0000
}

/// Reading back the little-endian bytes of a word gives the word.
pub proof fn lemma_le_bytes(x: u64)
    ensures
        x as int == le_byte(x, 0) + le_byte(x, 1) * 0x100 + le_byte(x, 2) * 0x1_0000 + le_byte(x, 3)
            * 0x100_0000 + le_byte(x, 4) * 0x1_0000_0000 + le_byte(x, 5) * 0x100_0000_0000
            + le_byte(x, 6) * 0x1_0000_0000_0000 + le_byte(x, 7) * 0x100_0000_0000_0000,
{
    let (b0, b1, b2, b3) = ((x & 0xff), ((x >> 8u64) & 0xff), ((x >> 16u64) & 0xff), ((x >> 24u64) & 0xff));
    let (b4, b5, b6, b7) = (((x >> 32u64) & 0xff), ((x >> 40u64) & 0xff), ((x >> 48u64) & 0xff), ((x >> 56u64) & 0xff));
    assert(x >> 0u64 == x) by (bit_vector);
    assert(b0 < 256 && b1 < 256 && b2 < 256 && b3 < 256 && b4 < 256 && b5 < 256 && b6 < 256 && b7 < 256) by (bit_vector)
        requires b0 == (x & 0xff), b1 == ((x >> 8u64) & 0xff), b2 == ((x >> 16u64) & 0xff), b3 == ((x >> 24u64) & 0xff),
            b4 == ((x >> 32u64) & 0xff), b5 == ((x >> 40u64) & 0xff), b6 == ((x >> 48u64) & 0xff), b7 == ((x >> 56u64) & 0xff);
    assert(x == b0 + (b1 << 8u64) + (b2 << 16u64) + (b3 << 24u64) + (b4 << 32u64) + (b5 << 40u64) + (b6 << 48u64) + (b7 << 56u64)) by (bit_vector)
        requires b0 == (x & 0xff), b1 == ((x >> 8u64) & 0xff), b2 == ((x >> 16u64) & 0xff), b3 == ((x >> 24u64) & 0xff),
            b4 == ((x >> 32u64) & 0xff), b5 == ((x >> 40u64) & 0xff), b6 == ((x >> 48u64) & 0xff), b7 == ((x >> 56u64) & 0xff);
    assert(b1 << 8u64 == b1 * 0x100) by (bit_vector) requires b1 < 256;
    assert(b2 << 16u64 == b2 * 0x1_0000) by (bit_vector) requires b2 < 256;
    assert(b3 << 24u64 == b3 * 0x100_0000) by (bit_vector) requires b3 < 256;
    assert(b4 << 32u64 == b4 * 0x1_0000_0000) by (bit_vector) requires b4 < 256;
    assert(b5 << 40u64 == b5 * 0x100_0000_0000) by (bit_vector) requires b5 < 256;
    assert(b6 << 48u64 == b6 * 0x1_0000_0000_0000) by (bit_vector) requires b6 < 256;
    assert(b7 << 56u64 == b7 * 0x100_0000_0000_0000) by (bit_vector) requires b7 < 256;
}
} // verus!
