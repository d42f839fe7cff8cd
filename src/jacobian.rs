//! Points of the curve in Jacobian coordinates (X, Y, Z), standing for
//! (X / Z^2, Y / Z^3).
use crate::curve::{
    affine_identity, b, batch_inverse_checks, byte_bit, curve_b, lemma_small_byte_bits, z_back, z_prefix, AffinePoint, ProjectivePoint, AV, PV,
};
use crate::fp6::{
    f6_inverse_checks,
    f6_add, f6_canonical, f6_inv, f6_mul, f6_neg, f6_norm, f6_one, f6_sub, f6_zero,
    lemma_f6_add_neg, lemma_f6_mul_canonical, lemma_f6_mul_zero, lemma_f6_neg_mul, Fp6, F6,
};
use crate::ct::{ct_and, ct_or};
use vstd::prelude::*;

verus! {

/// A Jacobian point as (X, Y, Z).
pub type JV = (F6, F6, F6);

/// The Jacobian identity.
pub open spec fn jac_identity() -> JV {
    (f6_one(), f6_one(), f6_zero())
}

/// A Jacobian point stands for the identity when its Z is zero.
pub open spec fn jac_is_identity(p: JV) -> bool {
    p.2 == f6_zero()
}

/// Square of an element.
pub open spec fn sq(a: F6) -> F6 {
    f6_mul(a, a)
}

/// Twice an element.
pub open spec fn dbl(a: F6) -> F6 {
    f6_add(a, a)
}

/// Two Jacobian points stand for the same point: both are the identity, or
/// neither is and X1 Z2^2 = X2 Z1^2 and Y1 Z2^3 = Y2 Z1^3.
pub open spec fn jac_eq(p: JV, q: JV) -> bool {
    (jac_is_identity(p) && jac_is_identity(q)) || (!jac_is_identity(p) && !jac_is_identity(q)
        && f6_mul(p.0, sq(q.2)) == f6_mul(q.0, sq(p.2)) && f6_mul(p.1, f6_mul(q.2, sq(q.2)))
        == f6_mul(q.1, f6_mul(p.2, sq(p.2))))
}

/// Y^2 = X^3 + X Z^4 + B Z^6.
pub open spec fn jac_on_curve(p: JV) -> bool {
    let (x, y, z) = p;
    let z2 = sq(z);
    let z4 = sq(z2);
    sq(y) == f6_add(f6_add(f6_mul(sq(x), x), f6_mul(x, z4)), f6_mul(curve_b(), f6_mul(z4, z2)))
}

/// Negation.
pub open spec fn jac_neg(p: JV) -> JV {
    (p.0, f6_neg(p.1), p.2)
}

/// The Jacobian form of an affine point.
pub open spec fn jac_from_affine(p: AV) -> JV {
    if p.2 {
        jac_identity()
    } else {
        (p.0, p.1, f6_one())
    }
}

/// The affine form: (X / Z^2, Y / Z^3).
pub open spec fn jac_to_affine(p: JV) -> AV {
    if !f6_inverse_checks(p.2) {
        affine_identity()
    } else {
        let t = f6_inv(p.2);
        let t2 = sq(t);
        (f6_mul(p.0, t2), f6_mul(p.1, f6_mul(t2, t)), false)
    }
}

/// The projective form: (X Z, Y, Z^3).
pub open spec fn jac_to_proj(p: JV) -> PV {
    (f6_mul(p.0, p.2), p.1, f6_mul(p.2, sq(p.2)))
}

/// The Jacobian form of a projective point: (X Z, Y Z^2, Z).
pub open spec fn jac_from_proj(p: PV) -> JV {
    (f6_mul(p.0, p.2), f6_mul(p.1, sq(p.2)), p.2)
}

/// Doubling with a = 1: S = 2 ((X + Y^2)^2 - X^2 - Y^4), M = 3 X^2 + Z^4,
/// T = M^2 - 2 S, giving (T, M (S - T) - 8 Y^4, (Y + Z)^2 - Y^2 - Z^2).
pub open spec fn jac_double(p: JV) -> JV {
    let (x, y, z) = p;
    let xx = sq(x);
    let yy = sq(y);
    let yyyy = sq(yy);
    let zz = sq(z);
    let s = dbl(f6_sub(f6_sub(sq(f6_add(x, yy)), xx), yyyy));
    let m = f6_add(f6_add(dbl(xx), xx), sq(zz));
    let t = f6_sub(sq(m), dbl(s));
    let y8 = dbl(dbl(dbl(yyyy)));
    (t, f6_sub(f6_mul(m, f6_sub(s, t)), y8), f6_sub(f6_sub(sq(f6_add(y, z)), yy), zz))
}

/// `n` successive doublings.
pub open spec fn jac_double_n(p: JV, n: nat) -> JV
    decreases n,
{
    if n == 0 {
        p
    } else {
        jac_double(jac_double_n(p, (n - 1) as nat))
    }
}

/// U1 = X1 Z2^2, the first abscissa brought to the common scale.
pub open spec fn jac_u1(p: JV, q: JV) -> F6 {
    f6_mul(p.0, sq(q.2))
}

/// S1 = Y1 Z2^3, the first ordinate brought to the common scale.
pub open spec fn jac_s1(p: JV, q: JV) -> F6 {
    f6_mul(p.1, f6_mul(q.2, sq(q.2)))
}

/// Addition of distinct, non-opposite points, neither the identity:
/// H = U2 - U1, I = (2 H)^2, J = H I, r = 2 (S2 - S1), V = U1 I, giving
/// (r^2 - J - 2 V, r (V - X3) - 2 S1 J, ((Z1 + Z2)^2 - Z1^2 - Z2^2) H).
pub open spec fn jac_add_unchecked(p: JV, q: JV) -> JV {
    let u1 = jac_u1(p, q);
    let u2 = jac_u1(q, p);
    let s1 = jac_s1(p, q);
    let s2 = jac_s1(q, p);
    let h = f6_sub(u2, u1);
    let i = sq(dbl(h));
    let j = f6_mul(h, i);
    let r = dbl(f6_sub(s2, s1));
    let v = f6_mul(u1, i);
    let x3 = f6_sub(f6_sub(sq(r), j), dbl(v));
    let y3 = f6_sub(f6_mul(r, f6_sub(v, x3)), dbl(f6_mul(s1, j)));
    let z3 = f6_mul(f6_sub(f6_sub(sq(f6_add(p.2, q.2)), sq(p.2)), sq(q.2)), h);
    (x3, y3, z3)
}

/// Mixed addition with an affine point (Z2 = 1), for distinct, non-opposite
/// points; an affine identity leaves the first point as it is.
pub open spec fn jac_add_mixed_unchecked(p: JV, q: AV) -> JV {
    if q.2 {
        p
    } else {
        let (x1, y1, z1) = p;
        let z1z1 = sq(z1);
        let u2 = f6_mul(q.0, z1z1);
        let s2 = f6_mul(q.1, f6_mul(z1, z1z1));
        let h = f6_sub(u2, x1);
        let hh = sq(h);
        let i = dbl(dbl(hh));
        let j = f6_mul(h, i);
        let r = dbl(f6_sub(s2, y1));
        let v = f6_mul(x1, i);
        let x3 = f6_sub(f6_sub(sq(r), j), dbl(v));
        let y3 = f6_sub(f6_mul(r, f6_sub(v, x3)), dbl(f6_mul(y1, j)));
        (x3, y3, f6_sub(f6_sub(sq(f6_add(z1, h)), z1z1), hh))
    }
}

/// The full group law: an identity operand gives the other; equal U gives
/// the identity for opposite S and the doubling otherwise; anything else
/// takes the general formula.
pub open spec fn jac_add(p: JV, q: JV) -> JV {
    if jac_is_identity(p) {
        q
    } else if jac_is_identity(q) {
        p
    } else if jac_u1(p, q) == jac_u1(q, p) {
        if f6_add(jac_s1(p, q), jac_s1(q, p)) == f6_zero() {
            jac_identity()
        } else {
            jac_double(p)
        }
    } else {
        jac_add_unchecked(p, q)
    }
}

/// Double-and-add of `p` by the 256-bit little-endian scalar `by`, after
/// its `n` most significant bits.
pub open spec fn jac_mul_top(p: JV, by: Seq<u8>, n: nat) -> JV
    decreases n,
{
    if n == 0 {
        jac_identity()
    } else {
        let d = jac_double(jac_mul_top(p, by, (n - 1) as nat));
        if byte_bit(by, 256 - n) {
            jac_add(d, p)
        } else {
            d
        }
    }
}

/// All coordinates are canonical residues.
pub open spec fn jac_canonical(p: JV) -> bool {
    f6_canonical(p.0) && f6_canonical(p.1) && f6_canonical(p.2)
}

/// Adding the identity, on either side, leaves a point unchanged.
pub proof fn lemma_jac_add_identity(p: JV)
    requires
        jac_canonical(p),
    ensures
        jac_eq(jac_add(p, jac_identity()), p),
        jac_eq(jac_add(jac_identity(), p), p),
{
}

/// A point plus its negation is the identity.
pub proof fn lemma_jac_add_neg(p: JV)
    requires
        jac_canonical(p),
    ensures
        jac_is_identity(jac_add(p, jac_neg(p))),
{
    if !jac_is_identity(p) {
        let w = f6_mul(p.2, sq(p.2));
        lemma_f6_mul_canonical(p.2, sq(p.2));
        lemma_f6_neg_mul(p.1, w);
        lemma_f6_mul_canonical(p.1, w);
        lemma_f6_add_neg(f6_mul(p.1, w));
    }
}

/// For points that are not the identity and have different U (so are
/// neither equal nor opposite), the full group law is the general formula.
pub proof fn lemma_jac_add_unchecked_agrees(p: JV, q: JV)
    requires
        !jac_is_identity(p),
        !jac_is_identity(q),
        jac_u1(p, q) != jac_u1(q, p),
    ensures
        jac_add(p, q) == jac_add_unchecked(p, q),
{
}

/// The doubling of the identity is the identity.
pub proof fn lemma_jac_double_identity(p: JV)
    requires
        jac_is_identity(p),
        f6_canonical(p.1),
    ensures
        jac_is_identity(jac_double(p)),
{
    let y = p.1;
    lemma_f6_mul_zero(f6_zero());
    assert(f6_add(y, f6_zero()) == y) by {
        crate::fp::lemma_red_add(y.0.0, 0);
    }
    let yy = sq(y);
    assert(f6_sub(yy, yy) == f6_zero()) by {
        crate::fp::lemma_red_sub(yy.0.0, yy.0.0);
    }
}

/// While every bit read so far is clear, double-and-add stays at the
/// identity, with a canonical Y.
pub proof fn lemma_jac_mul_top_identity(p: JV, by: Seq<u8>, n: nat)
    requires
        n <= 256,
        forall|k: int| 256 - n <= k < 256 ==> !#[trigger] byte_bit(by, k),
    ensures
        jac_is_identity(jac_mul_top(p, by, n)),
        f6_canonical(jac_mul_top(p, by, n).1),
    decreases n,
{
    if n > 0 {
        lemma_jac_mul_top_identity(p, by, (n - 1) as nat);
        lemma_jac_double_identity(jac_mul_top(p, by, (n - 1) as nat));
    }
}

/// Multiplying by zero gives the identity, by one the point itself, and by
/// two its doubling.
pub proof fn lemma_jac_mul_small(p: JV, by: Seq<u8>)
    requires
        by.len() == 32,
        forall|i: int| 1 <= i < 32 ==> by[i] == 0,
    ensures
        by[0] == 0 ==> jac_is_identity(jac_mul_top(p, by, 256)),
        by[0] == 1 ==> jac_mul_top(p, by, 256) == p,
        by[0] == 2 ==> jac_mul_top(p, by, 256) == jac_double(p),
{
    if by[0] == 0 {
        assert forall|k: int| 256 - 256 <= k < 256 implies !#[trigger] byte_bit(by, k) by {
            lemma_small_byte_bits(by[k / 8], (k % 8) as u8);
        }
        lemma_jac_mul_top_identity(p, by, 256);
    } else if by[0] == 1 {
        assert forall|k: int| 256 - 255 <= k < 256 implies !#[trigger] byte_bit(by, k) by {
            lemma_small_byte_bits(by[k / 8], (k % 8) as u8);
        }
        lemma_small_byte_bits(by[0], 0);
        lemma_jac_mul_top_identity(p, by, 255);
        lemma_jac_double_identity(jac_mul_top(p, by, 255));
    } else if by[0] == 2 {
        assert forall|k: int| 256 - 254 <= k < 256 implies !#[trigger] byte_bit(by, k) by {
            lemma_small_byte_bits(by[k / 8], (k % 8) as u8);
        }
        lemma_small_byte_bits(by[0], 0);
        lemma_small_byte_bits(by[0], 1);
        lemma_jac_mul_top_identity(p, by, 254);
        lemma_jac_double_identity(jac_mul_top(p, by, 254));
        assert(jac_mul_top(p, by, 255) == p);
    }
}

/// What batch normalization makes of point `i`: the identity, or X times
/// the square and Y times the cube of the shared inverse factor, which is the
/// inverse of its Z.
pub open spec fn jac_batch_affine(ps: Seq<JV>, i: int) -> AV {
    if jac_is_identity(ps[i]) {
        affine_identity()
    } else {
        let t = f6_mul(z_prefix(ps, i as nat), z_back(ps, (i + 1) as nat));
        (f6_mul(ps[i].0, sq(t)), f6_mul(ps[i].1, f6_mul(sq(t), t)), false)
    }
}

/// The affine forms of a sequence of points: by one shared inversion, or
/// point by point when the shared product has no inverse.
pub open spec fn jac_normalized(c: Seq<JV>) -> Seq<AV> {
    if batch_inverse_checks(c) {
        Seq::new(c.len(), |i: int| jac_batch_affine(c, i))
    } else {
        Seq::new(c.len(), |i: int| jac_to_affine(c[i]))
    }
}

/// The views of a sequence of Jacobian points.
pub open spec fn jac_views(ps: Seq<JacobianPoint>) -> Seq<JV> {
    Seq::new(ps.len(), |i: int| ps[i]@)
}

/// A point in Jacobian coordinates.
#[derive(Clone, Copy, Debug, PartialEq, Eq, Structural)]
pub struct JacobianPoint {
    /// X.
    pub x: Fp6,
    /// Y.
    pub y: Fp6,
    /// Z.
    pub z: Fp6,
}

impl View for JacobianPoint {
    type V = JV;

    open spec fn view(&self) -> JV {
        (self.x@, self.y@, self.z@)
    }
}

impl JacobianPoint {
    /// All coordinates are canonical.
    pub open spec fn wf(self) -> bool {
        self.x.wf() && self.y.wf() && self.z.wf()
    }

    /// The identity.
    pub fn identity() -> (r: JacobianPoint)
        ensures
            r.wf(),
            r@ == jac_identity(),
    {
        JacobianPoint { x: Fp6::one(), y: Fp6::one(), z: Fp6::zero() }
    }

    /// Whether this is the identity.
    pub fn is_identity(&self) -> (r: bool)
        ensures
            r == jac_is_identity(self@),
    {
        self.z.is_zero()
    }

    /// Selects, in constant time, `a` when `choice` is false and `b`
    /// otherwise.
    pub fn conditional_select(a: &JacobianPoint, b: &JacobianPoint, choice: bool) -> (r: JacobianPoint)
        ensures
            r == (if choice { *b } else { *a }),
    {
        JacobianPoint {
            x: Fp6::conditional_select(&a.x, &b.x, choice),
            y: Fp6::conditional_select(&a.y, &b.y, choice),
            z: Fp6::conditional_select(&a.z, &b.z, choice),
        }
    }

    /// The Jacobian form of an affine point.
    pub fn from_affine(p: &AffinePoint) -> (r: JacobianPoint)
        requires
            p.wf(),
        ensures
            r.wf(),
            r@ == jac_from_affine(p@),
    {
        let q = JacobianPoint { x: p.x, y: p.y, z: Fp6::one() };
        JacobianPoint::conditional_select(&q, &JacobianPoint::identity(), p.infinity)
    }

    /// The affine form, dividing X by Z^2 and Y by Z^3.
    pub fn to_affine(&self) -> (r: AffinePoint)
        requires
            self.wf(),
        ensures
            r.wf(),
            r@ == jac_to_affine(self@),
    {
        match self.z.invert() {
            None => AffinePoint::identity(),
            Some(t) => {
                let t2 = t.square();
                AffinePoint { x: self.x.mul(&t2), y: self.y.mul(&t2.mul(&t)), infinity: false }
            },
        }
    }

    /// The Jacobian form of a projective point.
    pub fn from_projective(p: &ProjectivePoint) -> (r: JacobianPoint)
        requires
            p.wf(),
        ensures
            r.wf(),
            r@ == jac_from_proj(p@),
    {
        JacobianPoint { x: p.x.mul(&p.z), y: p.y.mul(&p.z.square()), z: p.z }
    }

    /// The projective form.
    pub fn to_projective(&self) -> (r: ProjectivePoint)
        requires
            self.wf(),
        ensures
            r.wf(),
            r@ == jac_to_proj(self@),
    {
        ProjectivePoint { x: self.x.mul(&self.z), y: self.y, z: self.z.mul(&self.z.square()) }
    }

    /// Checks, in constant time, Y^2 = X^3 + X Z^4 + B Z^6.
    pub fn is_on_curve(&self) -> (r: bool)
        requires
            self.wf(),
        ensures
            r == jac_on_curve(self@),
    {
        let z2 = self.z.square();
        let z4 = z2.square();
        let rhs = self.x.square().mul(&self.x).add(&self.x.mul(&z4)).add(&b().mul(&z4.mul(&z2)));
        self.y.square().ct_eq(&rhs)
    }

    /// Checks, in constant time, that both stand for the same point, by
    /// cross-multiplying with powers of the other Z; no inversion is made.
    pub fn ct_eq(&self, other: &JacobianPoint) -> (r: bool)
        requires
            self.wf(),
            other.wf(),
        ensures
            r == jac_eq(self@, other@),
    {
        let a = self.is_identity();
        let b = other.is_identity();
        let z1z1 = self.z.square();
        let z2z2 = other.z.square();
        let ex = self.x.mul(&z2z2).ct_eq(&other.x.mul(&z1z1));
        let ey = self.y.mul(&other.z.mul(&z2z2)).ct_eq(&other.y.mul(&self.z.mul(&z1z1)));
        ct_or(ct_and(a, b), ct_and(ct_and(!a, !b), ct_and(ex, ey)))
    }

    /// Negation: Y changes sign.
    pub fn neg(&self) -> (r: JacobianPoint)
        requires
            self.wf(),
        ensures
            r.wf(),
            r@ == jac_neg(self@),
    {
        JacobianPoint { x: self.x, y: self.y.neg(), z: self.z }
    }

    /// Doubling; the identity doubles to a point of Z zero.
    pub fn double(&self) -> (r: JacobianPoint)
        requires
            self.wf(),
        ensures
            r.wf(),
            r@ == jac_double(self@),
    {
        let xx = self.x.square();
        let yy = self.y.square();
        let yyyy = yy.square();
        let zz = self.z.square();
        let s = self.x.add(&yy).square().sub(&xx).sub(&yyyy).double();
        let m = xx.double().add(&xx).add(&zz.square());
        let t = m.square().sub(&s.double());
        let y8 = yyyy.double().double().double();
        let y3 = m.mul(&s.sub(&t)).sub(&y8);
        let z3 = self.y.add(&self.z).square().sub(&yy).sub(&zz);
        JacobianPoint { x: t, y: y3, z: z3 }
    }

    /// `n` successive doublings.
    pub fn double_multi(&self, n: u32) -> (r: JacobianPoint)
        requires
            self.wf(),
        ensures
            r.wf(),
            r@ == jac_double_n(self@, n as nat),
    {
        let mut acc = *self;
        let mut i: u32 = 0;
        while i < n
            invariant
                i <= n,
                acc.wf(),
                acc@ == jac_double_n(self@, i as nat),
            decreases n - i,
        {
            acc = acc.double();
            i = i + 1;
        }
        acc
    }

    /// Addition by the general formula, for operands that are known to be
    /// distinct, not opposite and not the identity.
    pub fn add_unchecked(&self, rhs: &JacobianPoint) -> (r: JacobianPoint)
        requires
            self.wf(),
            rhs.wf(),
        ensures
            r.wf(),
            r@ == jac_add_unchecked(self@, rhs@),
    {
        let z1z1 = self.z.square();
        let z2z2 = rhs.z.square();
        let u1 = self.x.mul(&z2z2);
        let u2 = rhs.x.mul(&z1z1);
        let s1 = self.y.mul(&rhs.z.mul(&z2z2));
        let s2 = rhs.y.mul(&self.z.mul(&z1z1));
        let h = u2.sub(&u1);
        let i = h.double().square();
        let j = h.mul(&i);
        let r = s2.sub(&s1).double();
        let v = u1.mul(&i);
        let x3 = r.square().sub(&j).sub(&v.double());
        let y3 = r.mul(&v.sub(&x3)).sub(&s1.mul(&j).double());
        let z3 = self.z.add(&rhs.z).square().sub(&z1z1).sub(&z2z2).mul(&h);
        JacobianPoint { x: x3, y: y3, z: z3 }
    }

    /// Addition of an affine point by the mixed formula, for operands that
    /// are known to be distinct and not opposite; an affine identity is
    /// selected away.
    pub fn add_mixed_unchecked(&self, rhs: &AffinePoint) -> (r: JacobianPoint)
        requires
            self.wf(),
            rhs.wf(),
        ensures
            r.wf(),
            r@ == jac_add_mixed_unchecked(self@, rhs@),
    {
        let z1z1 = self.z.square();
        let u2 = rhs.x.mul(&z1z1);
        let s2 = rhs.y.mul(&self.z.mul(&z1z1));
        let h = u2.sub(&self.x);
        let hh = h.square();
        let i = hh.double().double();
        let j = h.mul(&i);
        let r = s2.sub(&self.y).double();
        let v = self.x.mul(&i);
        let x3 = r.square().sub(&j).sub(&v.double());
        let y3 = r.mul(&v.sub(&x3)).sub(&self.y.mul(&j).double());
        let z3 = self.z.add(&h).square().sub(&z1z1).sub(&hh);
        let sum = JacobianPoint { x: x3, y: y3, z: z3 };
        JacobianPoint::conditional_select(&sum, self, rhs.infinity)
    }

    /// The group law, in constant time: every case is computed and the
    /// result selected.
    pub fn add(&self, rhs: &JacobianPoint) -> (r: JacobianPoint)
        requires
            self.wf(),
            rhs.wf(),
        ensures
            r.wf(),
            r@ == jac_add(self@, rhs@),
    {
        let p_zero = self.is_identity();
        let q_zero = rhs.is_identity();
        let z1z1 = self.z.square();
        let z2z2 = rhs.z.square();
        let same_u = self.x.mul(&z2z2).ct_eq(&rhs.x.mul(&z1z1));
        let s1 = self.y.mul(&rhs.z.mul(&z2z2));
        let s2 = rhs.y.mul(&self.z.mul(&z1z1));
        let opposite = s1.add(&s2).is_zero();
        let sum = self.add_unchecked(rhs);
        let dbl = self.double();
        let mut r = JacobianPoint::conditional_select(&sum, &dbl, ct_and(same_u, !opposite));
        r = JacobianPoint::conditional_select(&r, &JacobianPoint::identity(), ct_and(same_u, opposite));
        r = JacobianPoint::conditional_select(&r, self, q_zero);
        r = JacobianPoint::conditional_select(&r, rhs, p_zero);
        r
    }

    /// The group law with an affine operand.
    pub fn add_mixed(&self, rhs: &AffinePoint) -> (r: JacobianPoint)
        requires
            self.wf(),
            rhs.wf(),
        ensures
            r.wf(),
            r@ == jac_add(self@, jac_from_affine(rhs@)),
    {
        self.add(&JacobianPoint::from_affine(rhs))
    }

    /// Multiplies by a 256-bit little-endian scalar, doubling and adding
    /// with the same operations whatever the scalar's bits.
    pub fn multiply(&self, by: &[u8; 32]) -> (r: JacobianPoint)
        requires
            self.wf(),
        ensures
            r.wf(),
            r@ == jac_mul_top(self@, by@, 256),
    {
        let mut acc = JacobianPoint::identity();
        let mut k: usize = 256;
        while k > 0
            invariant
                k <= 256,
                self.wf(),
                acc.wf(),
                acc@ == jac_mul_top(self@, by@, (256 - k) as nat),
            decreases k,
        {
            k = k - 1;
            let ghost n = (256 - k) as nat;
            assert(256 - n == k);
            acc = acc.double();
            let ghost d = acc@;
            let sum = acc.add(self);
            let bit: u8 = (by[k / 8] >> ((k % 8) as u8)) & 1;
            acc = JacobianPoint::conditional_select(&acc, &sum, bit == 1);
            assert(acc@ == (if byte_bit(by@, 256 - n) { jac_add(d, self@) } else { d }));
        }
        acc
    }

    /// Multiplies by a 256-bit little-endian scalar; variable time in the
    /// scalar.
    pub fn multiply_vartime(&self, by: &[u8; 32]) -> (r: JacobianPoint)
        requires
            self.wf(),
        ensures
            r.wf(),
            r@ == jac_mul_top(self@, by@, 256),
    {
        let mut acc = JacobianPoint::identity();
        let mut k: usize = 256;
        while k > 0
            invariant
                k <= 256,
                self.wf(),
                acc.wf(),
                acc@ == jac_mul_top(self@, by@, (256 - k) as nat),
            decreases k,
        {
            k = k - 1;
            let ghost n = (256 - k) as nat;
            assert(256 - n == k);
            acc = acc.double();
            let ghost d = acc@;
            if (by[k / 8] >> ((k % 8) as u8)) & 1 == 1 {
                acc = acc.add(self);
            }
            assert(acc@ == (if byte_bit(by@, 256 - n) { jac_add(d, self@) } else { d }));
        }
        acc
    }

    /// Converts all points to affine form with one shared inversion: the
    /// product of all Z is inverted once, and the inverse of each Z is
    /// recovered from the prefix products on the way back. `None` when the
    /// product has no inverse.
    fn batch_normalize_shared(points: &[JacobianPoint]) -> (r: Option<Vec<AffinePoint>>)
        requires
            forall|i: int| 0 <= i < points@.len() ==> (#[trigger] points@[i]).wf(),
        ensures
            r is None <==> !batch_inverse_checks(jac_views(points@)),
            r matches Some(v) ==> v@.len() == points@.len() && forall|i: int|
                0 <= i < v@.len() ==> (#[trigger] v@[i]).wf() && v@[i]@ == jac_batch_affine(
                    jac_views(points@),
                    i,
                ),
    {
        let ghost ps = jac_views(points@);
        let n = points.len();
        let mut prefix: Vec<Fp6> = Vec::new();
        let mut acc = Fp6::one();
        let mut i: usize = 0;
        while i < n
            invariant
                n == points@.len(),
                ps == jac_views(points@),
                forall|k: int| 0 <= k < points@.len() ==> (#[trigger] points@[k]).wf(),
                i <= n,
                acc.wf(),
                acc@ == z_prefix(ps, i as nat),
                prefix@.len() == i,
                forall|k: int| 0 <= k < i ==> (#[trigger] prefix@[k]).wf() && prefix@[k]@ == z_prefix(ps, k as nat),
            decreases n - i,
        {
            prefix.push(acc);
            let zero = points[i].is_identity();
            let z = Fp6::conditional_select(&points[i].z, &Fp6::one(), zero);
            acc = acc.mul(&z);
            i = i + 1;
        }
        let inv = match acc.invert() {
            None => { return None; },
            Some(t) => t,
        };
        let mut back = inv;
        let mut out: Vec<AffinePoint> = Vec::new();
        let mut j: usize = n;
        while j > 0
            invariant
                n == points@.len(),
                ps == jac_views(points@),
                forall|k: int| 0 <= k < points@.len() ==> (#[trigger] points@[k]).wf(),
                j <= n,
                back.wf(),
                back@ == z_back(ps, j as nat),
                prefix@.len() == n,
                forall|k: int| 0 <= k < n ==> (#[trigger] prefix@[k]).wf() && prefix@[k]@ == z_prefix(ps, k as nat),
                out@.len() == n - j,
                forall|k: int| j <= k < n ==> (#[trigger] out@[n - 1 - k]).wf() && out@[n - 1 - k]@ == jac_batch_affine(ps, k),
            decreases j,
        {
            j = j - 1;
            let p = points[j];
            let t = prefix[j].mul(&back);
            let zero = p.is_identity();
            let t2 = t.square();
            let q = AffinePoint { x: p.x.mul(&t2), y: p.y.mul(&t2.mul(&t)), infinity: false };
            let q = AffinePoint::conditional_select(&q, &AffinePoint::identity(), zero);
            out.push(q);
            let z = Fp6::conditional_select(&p.z, &Fp6::one(), zero);
            back = back.mul(&z);
        }
        let mut res: Vec<AffinePoint> = Vec::new();
        let mut k: usize = 0;
        while k < n
            invariant
                n == points@.len(),
                out@.len() == n,
                forall|m: int| 0 <= m < n ==> (#[trigger] out@[n - 1 - m]).wf() && out@[n - 1 - m]@ == jac_batch_affine(ps, m),
                k <= n,
                res@.len() == k,
                forall|m: int| 0 <= m < k ==> (#[trigger] res@[m]).wf() && res@[m]@ == jac_batch_affine(ps, m),
            decreases n - k,
        {
            res.push(out[n - 1 - k]);
            k = k + 1;
        }
        Some(res)
    }

    /// Converts all points to affine form with one shared inversion (see
    /// `batch_normalize_shared`), or point by point should the product of
    /// their Z have no inverse. One output for each input, in order.
    pub fn batch_normalize(points: &[JacobianPoint]) -> (r: Vec<AffinePoint>)
        requires
            forall|i: int| 0 <= i < points@.len() ==> (#[trigger] points@[i]).wf(),
        ensures
            r@.len() == points@.len(),
            forall|i: int| 0 <= i < r@.len() ==> (#[trigger] r@[i]).wf(),
            Seq::new(r@.len(), |i: int| r@[i]@) == jac_normalized(jac_views(points@)),
    {
        let ghost c = jac_views(points@);
        match JacobianPoint::batch_normalize_shared(points) {
            Some(v) => {
                assert(Seq::new(v@.len(), |i: int| v@[i]@) =~= jac_normalized(c));
                v
            },
            None => {
                let n = points.len();
                let mut v: Vec<AffinePoint> = Vec::new();
                let mut j: usize = 0;
                while j < n
                    invariant
                        j <= n,
                        points@.len() == n,
                        jac_views(points@) == c,
                        forall|k: int| 0 <= k < n ==> (#[trigger] points@[k]).wf(),
                        v@.len() == j,
                        forall|k: int| 0 <= k < j ==> (#[trigger] v@[k]).wf() && v@[k]@ == jac_to_affine(c[k]),
                    decreases n - j,
                {
                    v.push(points[j].to_affine());
                    j = j + 1;
                }
                assert(Seq::new(v@.len(), |i: int| v@[i]@) =~= jac_normalized(c));
                v
            },
        }
    }
}

} // verus!
