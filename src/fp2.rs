//! The quadratic extension Fp2 = Fp[u] / (u^2 - u - 1).
use crate::fp::{fp_inv, lemma_red_add, lemma_red_sub, lemma_red_val, red, Fp};
use crate::ct::{ct_and, ct_or};
use vstd::prelude::*;

verus! {

/// An element `c0 + c1 * u` of Fp2.
#[derive(Clone, Copy, Debug, PartialEq, Eq, Structural)]
pub struct Fp2 {
    /// The constant coefficient.
    pub c0: Fp,
    /// The coefficient of u.
    pub c1: Fp,
}

/// Sum in Fp2 of two coefficient pairs.
pub open spec fn f2_add(a: (int, int), b: (int, int)) -> (int, int) {
    (red(a.0 + b.0), red(a.1 + b.1))
}

/// Difference in Fp2 of two coefficient pairs.
pub open spec fn f2_sub(a: (int, int), b: (int, int)) -> (int, int) {
    (red(a.0 - b.0), red(a.1 - b.1))
}

/// Negation in Fp2.
pub open spec fn f2_neg(a: (int, int)) -> (int, int) {
    (red(-a.0), red(-a.1))
}

/// Product in Fp2, where u^2 = u + 1.
pub open spec fn f2_mul(a: (int, int), b: (int, int)) -> (int, int) {
    (red(a.0 * b.0 + a.1 * b.1), red(a.0 * b.1 + a.1 * b.0 + a.1 * b.1))
}

/// Product in Fp2 of an element with a base-field scalar.
pub open spec fn f2_scale(a: (int, int), k: int) -> (int, int) {
    (red(a.0 * k), red(a.1 * k))
}

/// The norm of an element: its product with its conjugate.
pub open spec fn f2_norm(a: (int, int)) -> int {
    red(a.0 * a.0 + a.0 * a.1 - a.1 * a.1)
}

/// The inverse of a nonzero element: its conjugate `(c0 + c1) - c1 u` over
/// its norm.
pub open spec fn f2_inv(a: (int, int)) -> (int, int) {
    f2_scale((red(a.0 + a.1), red(-a.1)), fp_inv(f2_norm(a)))
}

/// Whether an element is larger than its negation: decided by `c1` unless
/// it is zero, then by `c0`.
pub open spec fn f2_largest(a: (int, int)) -> bool {
    a.1 > crate::fp::P_MINUS_ONE_DIV_TWO || (a.1 == 0 && a.0 > crate::fp::P_MINUS_ONE_DIV_TWO)
}

/// Whether the conjugate-over-norm formula inverts an element: its norm is
/// nonzero and the product with the formula's result is one. (In the field
/// this holds of every nonzero element.)
pub open spec fn f2_inverse_checks(a: (int, int)) -> bool {
    f2_norm(a) != 0 && f2_mul(a, f2_inv(a)) == (1int, 0int)
}

impl View for Fp2 {
    type V = (int, int);

    open spec fn view(&self) -> (int, int) {
        (self.c0.val(), self.c1.val())
    }
}

impl Fp2 {
    /// Both coefficients are canonical.
    pub open spec fn wf(self) -> bool {
        self.c0.wf() && self.c1.wf()
    }

    /// Embeds a machine word, reduced modulo p, as a constant.
    pub fn new(value: u64) -> (r: Fp2)
        ensures
            r.wf(),
            r@ == (red(value as int), 0int),
    {
        Fp2 { c0: Fp::new(value), c1: Fp::zero() }
    }

    /// The additive identity.
    pub fn zero() -> (r: Fp2)
        ensures
            r.wf(),
            r@ == (0int, 0int),
    {
        Fp2 { c0: Fp::zero(), c1: Fp::zero() }
    }

    /// The multiplicative identity.
    pub fn one() -> (r: Fp2)
        ensures
            r.wf(),
            r@ == (1int, 0int),
    {
        Fp2 { c0: Fp::one(), c1: Fp::zero() }
    }

    /// Overwrites this element with zero.
    pub fn zeroize(&mut self)
        ensures
            final(self).wf(),
            final(self)@ == (0int, 0int),
    {
        self.c0.zeroize();
        self.c1.zeroize();
    }

    /// Checks, in constant time, whether this element is zero.
    pub fn is_zero(&self) -> (r: bool)
        ensures
            r == (self@ == (0int, 0int)),
    {
        let a = self.c0.is_zero();
        let b = self.c1.is_zero();
        ct_and(a, b)
    }

    /// Checks, in constant time, whether two elements are equal.
    pub fn ct_eq(&self, other: &Fp2) -> (r: bool)
        ensures
            r == (self@ == other@),
    {
        let a = self.c0.ct_eq(&other.c0);
        let b = self.c1.ct_eq(&other.c1);
        ct_and(a, b)
    }

    /// Selects, in constant time, `a` when `choice` is false and `b` otherwise.
    pub fn conditional_select(a: &Fp2, b: &Fp2, choice: bool) -> (r: Fp2)
        ensures
            r == (if choice { *b } else { *a }),
    {
        Fp2 {
            c0: Fp::conditional_select(&a.c0, &b.c0, choice),
            c1: Fp::conditional_select(&a.c1, &b.c1, choice),
        }
    }

    /// Whether this element is larger than its negation: decided by `c1`
    /// unless it is zero, then by `c0`.
    pub fn lexicographically_largest(&self) -> (r: bool)
        requires
            self.wf(),
        ensures
            r == f2_largest(self@),
    {
        let a = self.c1.lexicographically_largest();
        let z = self.c1.is_zero();
        let b = self.c0.lexicographically_largest();
        ct_or(a, ct_and(z, b))
    }

    /// Addition.
    pub fn add(&self, rhs: &Fp2) -> (r: Fp2)
        requires
            self.wf(),
            rhs.wf(),
        ensures
            r.wf(),
            r@ == f2_add(self@, rhs@),
    {
        Fp2 { c0: self.c0.add(&rhs.c0), c1: self.c1.add(&rhs.c1) }
    }

    /// Subtraction.
    pub fn sub(&self, rhs: &Fp2) -> (r: Fp2)
        requires
            self.wf(),
            rhs.wf(),
        ensures
            r.wf(),
            r@ == f2_sub(self@, rhs@),
    {
        Fp2 { c0: self.c0.sub(&rhs.c0), c1: self.c1.sub(&rhs.c1) }
    }

    /// Negation.
    pub fn neg(&self) -> (r: Fp2)
        requires
            self.wf(),
        ensures
            r.wf(),
            r@ == f2_neg(self@),
    {
        Fp2 { c0: self.c0.neg(), c1: self.c1.neg() }
    }

    /// Doubling.
    pub fn double(&self) -> (r: Fp2)
        requires
            self.wf(),
        ensures
            r.wf(),
            r@ == f2_add(self@, self@),
    {
        self.add(self)
    }

    /// Multiplication by a base-field element.
    pub fn mul_by_fp(&self, k: &Fp) -> (r: Fp2)
        requires
            self.wf(),
            k.wf(),
        ensures
            r.wf(),
            r@ == f2_scale(self@, k.val()),
    {
        Fp2 { c0: self.c0.mul(k), c1: self.c1.mul(k) }
    }

    /// Multiplication.
    pub fn mul(&self, rhs: &Fp2) -> (r: Fp2)
        requires
            self.wf(),
            rhs.wf(),
        ensures
            r.wf(),
            r@ == f2_mul(self@, rhs@),
    {
        let aa = self.c0.mul(&rhs.c0);
        let bb = self.c1.mul(&rhs.c1);
        let ab = self.c0.mul(&rhs.c1);
        let ba = self.c1.mul(&rhs.c0);
        let c0 = aa.add(&bb);
        let t = ab.add(&ba);
        let c1 = t.add(&bb);
        proof {
            let (a0, a1, b0, b1) = (self.c0.val(), self.c1.val(), rhs.c0.val(), rhs.c1.val());
            lemma_red_add(a0 * b0, a1 * b1);
            lemma_red_add(a0 * b1, a1 * b0);
            lemma_red_add(a0 * b1 + a1 * b0, a1 * b1);
            lemma_red_val(t);
        }
        Fp2 { c0, c1 }
    }

    /// Squaring.
    pub fn square(&self) -> (r: Fp2)
        requires
            self.wf(),
        ensures
            r.wf(),
            r@ == f2_mul(self@, self@),
    {
        self.mul(self)
    }

    /// The norm `c0^2 + c0 c1 - c1^2`, the product of this element with its
    /// conjugate.
    pub fn norm(&self) -> (r: Fp)
        requires
            self.wf(),
        ensures
            r.wf(),
            r.val() == f2_norm(self@),
    {
        let x = self.c0.square();
        let y = self.c0.mul(&self.c1);
        let z = self.c1.square();
        let s = x.add(&y);
        let r = s.sub(&z);
        proof {
            let (a0, a1) = (self.c0.val(), self.c1.val());
            lemma_red_add(a0 * a0, a0 * a1);
            lemma_red_sub(a0 * a0 + a0 * a1, a1 * a1);
            lemma_red_val(s);
            lemma_red_val(z);
        }
        r
    }

    /// The inverse: the conjugate over the norm, returned only once its
    /// product with this element has been checked to be one; `None` for zero.
    pub fn invert(&self) -> (r: Option<Fp2>)
        requires
            self.wf(),
        ensures
            r is None <==> !f2_inverse_checks(self@),
            r matches Some(v) ==> v.wf() && v@ == f2_inv(self@) && f2_mul(self@, v@) == (1int, 0int),
            self@ == (0int, 0int) ==> r is None,
    {
        let n = self.norm();
        if n.is_zero() {
            return None;
        }
        let t = n.invert();
        let conj = Fp2 { c0: self.c0.add(&self.c1), c1: self.c1.neg() };
        let v = conj.mul_by_fp(&t);
        if self.mul(&v).ct_eq(&Fp2::one()) {
            Some(v)
        } else {
            None
        }
    }
}

/// Both coefficients are canonical residues.
pub open spec fn f2_canonical(a: (int, int)) -> bool {
    0 <= a.0 < crate::fp::P && 0 <= a.1 < crate::fp::P
}

/// Negation distributes over addition.
pub proof fn lemma_f2_add_neg(x: (int, int), y: (int, int))
    ensures
        f2_add(f2_neg(x), f2_neg(y)) == f2_neg(f2_add(x, y)),
{
    lemma_red_add(-x.0, -y.0);
    lemma_red_add(-x.1, -y.1);
    lemma_red_sub(0, x.0 + y.0);
    lemma_red_sub(0, x.1 + y.1);
    assert(red(0) == 0);
}

/// A negated factor negates the product.
pub proof fn lemma_f2_neg_mul(a: (int, int), b: (int, int))
    requires
        f2_canonical(b),
    ensures
        f2_mul(f2_neg(a), b) == f2_neg(f2_mul(a, b)),
{
    let (a0, a1, b0, b1) = (a.0, a.1, b.0, b.1);
    assert(red(b0) == b0 && red(b1) == b1);
    lemma_red_add(red(-a0) * b0, red(-a1) * b1);
    crate::fp::lemma_red_mul(-a0, b0);
    crate::fp::lemma_red_mul(-a1, b1);
    assert(-a0 * b0 == -(a0 * b0)) by (nonlinear_arith);
    assert(-a1 * b1 == -(a1 * b1)) by (nonlinear_arith);
    lemma_red_add(-(a0 * b0), -(a1 * b1));
    lemma_red_sub(0, a0 * b0 + a1 * b1);
    assert(red(0) == 0);
    crate::fp::lemma_red_mul(-a0, b1);
    crate::fp::lemma_red_mul(-a1, b0);
    assert(-a0 * b1 == -(a0 * b1)) by (nonlinear_arith);
    assert(-a1 * b0 == -(a1 * b0)) by (nonlinear_arith);
    lemma_red_add(red(-a0) * b1, red(-a1) * b0);
    lemma_red_add(red(-a0) * b1 + red(-a1) * b0, red(-a1) * b1);
    lemma_red_add(red(red(-a0) * b1) + red(red(-a1) * b0), red(red(-a1) * b1));
    lemma_red_add(-(a0 * b1), -(a1 * b0));
    lemma_red_add(-(a0 * b1) + -(a1 * b0), -(a1 * b1));
    lemma_red_add(red(-(a0 * b1) + -(a1 * b0)), red(-(a1 * b1)));
    lemma_red_sub(0, a0 * b1 + a1 * b0 + a1 * b1);
}

/// The negation of a canonical residue: zero for zero, p - x otherwise.
pub proof fn lemma_red_neg(x: int)
    requires
        0 <= x < crate::fp::P,
    ensures
        red(-x) == (if x == 0 { 0 } else { crate::fp::P - x }),
{
    if x != 0 {
        assert((-x) % (crate::fp::P as int) == crate::fp::P - x) by (nonlinear_arith)
            requires 0 < x < crate::fp::P;
    }
}

/// A canonical element negates to zero exactly when it is zero.
pub proof fn lemma_f2_neg_zero(a: (int, int))
    requires
        f2_canonical(a),
    ensures
        (f2_neg(a) == (0int, 0int)) == (a == (0int, 0int)),
        f2_canonical(f2_neg(a)),
{
    lemma_red_neg(a.0);
    lemma_red_neg(a.1);
}

/// Exactly one of a nonzero canonical element and its negation is
/// lexicographically largest.
pub proof fn lemma_f2_largest_neg(a: (int, int))
    requires
        f2_canonical(a),
        a != (0int, 0int),
    ensures
        f2_largest(a) != f2_largest(f2_neg(a)),
{
    lemma_red_neg(a.0);
    lemma_red_neg(a.1);
    assert(crate::fp::P == 2 * crate::fp::P_MINUS_ONE_DIV_TWO + 1);
}

} // verus!
