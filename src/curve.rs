//! Points of E(Fp6): y^2 = x^3 + x + B, in affine and homogeneous projective
//! coordinates.
use crate::fp6::{
    f6_inverse_checks,
    f6_of,
    f6_canonical, lemma_f6_add_neg, lemma_f6_mul_canonical, lemma_f6_mul_one, lemma_f6_mul_zero, lemma_f6_neg_mul,
    f6_add, f6_inv, f6_mul, f6_neg, f6_norm, f6_one, f6_sub, f6_zero, Fp6, F6,
};
use crate::ct::{ct_and, ct_or};
use vstd::prelude::*;

verus! {

/// An affine point as (x, y, is the identity).
pub type AV = (F6, F6, bool);

/// A projective point as (X, Y, Z), standing for (X / Z, Y / Z).
pub type PV = (F6, F6, F6);

/// The curve constant B = u + 395.
pub open spec fn curve_b() -> F6 {
    ((395, 1), (0, 0), (0, 0))
}

/// The affine identity.
pub open spec fn affine_identity() -> AV {
    (f6_zero(), f6_one(), true)
}

/// The projective identity.
pub open spec fn proj_identity() -> PV {
    (f6_zero(), f6_one(), f6_zero())
}

/// A projective point stands for the identity when its Z is zero.
pub open spec fn proj_is_identity(p: PV) -> bool {
    p.2 == f6_zero()
}

/// Two projective points stand for the same point: both are the identity,
/// or neither is and their coordinates agree once scaled by the other Z.
pub open spec fn proj_eq(p: PV, q: PV) -> bool {
    (proj_is_identity(p) && proj_is_identity(q)) || (!proj_is_identity(p) && !proj_is_identity(q)
        && f6_mul(p.0, q.2) == f6_mul(q.0, p.2) && f6_mul(p.1, q.2) == f6_mul(q.1, p.2))
}

/// y^2 = x^3 + x + B, or the identity.
pub open spec fn affine_on_curve(p: AV) -> bool {
    p.2 || f6_mul(p.1, p.1) == f6_add(f6_add(f6_mul(f6_mul(p.0, p.0), p.0), p.0), curve_b())
}

/// Y^2 Z = X^3 + X Z^2 + B Z^3.
pub open spec fn proj_on_curve(p: PV) -> bool {
    let (x, y, z) = p;
    let zz = f6_mul(z, z);
    f6_mul(f6_mul(y, y), z) == f6_add(
        f6_add(f6_mul(f6_mul(x, x), x), f6_mul(x, zz)),
        f6_mul(curve_b(), f6_mul(zz, z)),
    )
}

/// Negation of an affine point; the identity is its own negation and is
/// left as it is.
pub open spec fn affine_neg(p: AV) -> AV {
    if p.2 {
        p
    } else {
        (p.0, f6_neg(p.1), p.2)
    }
}

/// Negation of a projective point.
pub open spec fn proj_neg(p: PV) -> PV {
    (p.0, f6_neg(p.1), p.2)
}

/// The projective form of an affine point.
pub open spec fn proj_from_affine(p: AV) -> PV {
    if p.2 {
        proj_identity()
    } else {
        (p.0, p.1, f6_one())
    }
}

/// The affine form of a projective point: divide by Z.
pub open spec fn proj_to_affine(p: PV) -> AV {
    if !f6_inverse_checks(p.2) {
        affine_identity()
    } else {
        let t = f6_inv(p.2);
        (f6_mul(p.0, t), f6_mul(p.1, t), false)
    }
}

/// Doubling on y^2 z = x^3 + a x z^2 + b z^3 with a = 1:
/// w = a Z^2 + 3 X^2, s = 2 Y Z, R = Y s, B = (X + R)^2 - X^2 - R^2,
/// h = w^2 - 2 B, giving (h s, w (B - h) - 2 R^2, s^3).
pub open spec fn proj_double(p: PV) -> PV {
    let (x, y, z) = p;
    let xx = f6_mul(x, x);
    let zz = f6_mul(z, z);
    let w = f6_add(zz, f6_add(f6_add(xx, xx), xx));
    let yz = f6_mul(y, z);
    let s = f6_add(yz, yz);
    let ss = f6_mul(s, s);
    let sss = f6_mul(s, ss);
    let r = f6_mul(y, s);
    let rr = f6_mul(r, r);
    let xr = f6_add(x, r);
    let b = f6_sub(f6_sub(f6_mul(xr, xr), xx), rr);
    let h = f6_sub(f6_mul(w, w), f6_add(b, b));
    (f6_mul(h, s), f6_sub(f6_mul(w, f6_sub(b, h)), f6_add(rr, rr)), sss)
}

/// `n` successive doublings.
pub open spec fn proj_double_n(p: PV, n: nat) -> PV
    decreases n,
{
    if n == 0 {
        p
    } else {
        proj_double(proj_double_n(p, (n - 1) as nat))
    }
}

/// Addition of two distinct points, neither the identity nor the negation
/// of the other: u = Y2 Z1 - Y1 Z2, v = X2 Z1 - X1 Z2, R = v^2 X1 Z2,
/// A = u^2 Z1 Z2 - v^3 - 2 R, giving (v A, u (R - A) - v^3 Y1 Z2, v^3 Z1 Z2).
pub open spec fn proj_add_unchecked(p: PV, q: PV) -> PV {
    let (x1, y1, z1) = p;
    let (x2, y2, z2) = q;
    let y1z2 = f6_mul(y1, z2);
    let x1z2 = f6_mul(x1, z2);
    let z1z2 = f6_mul(z1, z2);
    let u = f6_sub(f6_mul(y2, z1), y1z2);
    let uu = f6_mul(u, u);
    let v = f6_sub(f6_mul(x2, z1), x1z2);
    let vv = f6_mul(v, v);
    let vvv = f6_mul(v, vv);
    let r = f6_mul(vv, x1z2);
    let a = f6_sub(f6_sub(f6_mul(uu, z1z2), vvv), f6_add(r, r));
    (f6_mul(v, a), f6_sub(f6_mul(u, f6_sub(r, a)), f6_mul(vvv, y1z2)), f6_mul(vvv, z1z2))
}

/// The same formula with the second point affine (Z2 = 1); an affine
/// identity leaves the first point as it is.
pub open spec fn proj_add_mixed_unchecked(p: PV, q: AV) -> PV {
    if q.2 {
        p
    } else {
        proj_add_mixed_formula(p, q)
    }
}

/// The general formula with Z2 = 1.
pub open spec fn proj_add_mixed_formula(p: PV, q: AV) -> PV {
    let (x1, y1, z1) = p;
    let u = f6_sub(f6_mul(q.1, z1), y1);
    let uu = f6_mul(u, u);
    let v = f6_sub(f6_mul(q.0, z1), x1);
    let vv = f6_mul(v, v);
    let vvv = f6_mul(v, vv);
    let r = f6_mul(vv, x1);
    let a = f6_sub(f6_sub(f6_mul(uu, z1), vvv), f6_add(r, r));
    (f6_mul(v, a), f6_sub(f6_mul(u, f6_sub(r, a)), f6_mul(vvv, y1)), f6_mul(vvv, z1))
}

/// The full group law: an identity operand gives the other; equal X / Z
/// gives the identity when the Y / Z are opposite and the doubling otherwise;
/// anything else takes the general formula.
pub open spec fn proj_add(p: PV, q: PV) -> PV {
    if proj_is_identity(p) {
        q
    } else if proj_is_identity(q) {
        p
    } else if f6_mul(p.0, q.2) == f6_mul(q.0, p.2) {
        if f6_add(f6_mul(p.1, q.2), f6_mul(q.1, p.2)) == f6_zero() {
            proj_identity()
        } else {
            proj_double(p)
        }
    } else {
        proj_add_unchecked(p, q)
    }
}

/// The Z of a point, or one for a point of Z zero: the factor that batch
/// normalization folds in for it.
pub open spec fn z_or_one(p: PV) -> F6 {
    if proj_is_identity(p) {
        f6_one()
    } else {
        p.2
    }
}

/// The product of `z_or_one` over the first `i` points.
pub open spec fn z_prefix(ps: Seq<PV>, i: nat) -> F6
    decreases i,
{
    if i == 0 {
        f6_one()
    } else {
        f6_mul(z_prefix(ps, (i - 1) as nat), z_or_one(ps[i - 1]))
    }
}

/// The inverse of the whole product, multiplied back by `z_or_one` of the
/// points from `i` on: the inverse of the product of the first `i`.
pub open spec fn z_back(ps: Seq<PV>, i: nat) -> F6
    decreases ps.len() - i,
{
    if i >= ps.len() {
        f6_inv(z_prefix(ps, ps.len()))
    } else {
        f6_mul(z_back(ps, i + 1), z_or_one(ps[i as int]))
    }
}

/// What batch normalization makes of point `i`: the identity, or its X and
/// Y times the shared inverse factor, which is the inverse of its Z.
pub open spec fn batch_affine(ps: Seq<PV>, i: int) -> AV {
    if proj_is_identity(ps[i]) {
        affine_identity()
    } else {
        let t = f6_mul(z_prefix(ps, i as nat), z_back(ps, (i + 1) as nat));
        (f6_mul(ps[i].0, t), f6_mul(ps[i].1, t), false)
    }
}

/// Whether the inverse formula checks out on the product of all Z (or one
/// for Z zero) that batch normalization inverts.
pub open spec fn batch_inverse_checks(ps: Seq<PV>) -> bool {
    f6_inverse_checks(z_prefix(ps, ps.len()))
}

/// The affine forms of a sequence of points: by one shared inversion, or
/// point by point when the shared product has no inverse.
pub open spec fn normalized(c: Seq<PV>) -> Seq<AV> {
    if batch_inverse_checks(c) {
        Seq::new(c.len(), |i: int| batch_affine(c, i))
    } else {
        Seq::new(c.len(), |i: int| proj_to_affine(c[i]))
    }
}

/// The views of a sequence of projective points.
pub open spec fn proj_views(ps: Seq<ProjectivePoint>) -> Seq<PV> {
    Seq::new(ps.len(), |i: int| ps[i]@)
}

/// Bit `k` of the 256-bit little-endian integer with bytes `by`.
pub open spec fn byte_bit(by: Seq<u8>, k: int) -> bool {
    (by[k / 8] >> ((k % 8) as u8)) & 1 == 1
}

/// Double-and-add of `p` by the 256-bit little-endian scalar `by`, after
/// its `n` most significant bits.
pub open spec fn proj_mul_top(p: PV, by: Seq<u8>, n: nat) -> PV
    decreases n,
{
    if n == 0 {
        proj_identity()
    } else {
        let d = proj_double(proj_mul_top(p, by, (n - 1) as nat));
        if byte_bit(by, 256 - n) {
            proj_add(d, p)
        } else {
            d
        }
    }
}

/// `p` times the 256-bit little-endian scalar `by`.
pub open spec fn proj_mul(p: PV, by: Seq<u8>) -> PV {
    proj_mul_top(p, by, 256)
}

/// Interleaved double-and-add of `p` by `a` and `q` by `b`, after the `n`
/// most significant bits of both scalars.
pub open spec fn proj_mul2_top(p: PV, q: PV, a: Seq<u8>, b: Seq<u8>, n: nat) -> PV
    decreases n,
{
    if n == 0 {
        proj_identity()
    } else {
        let d = proj_double(proj_mul2_top(p, q, a, b, (n - 1) as nat));
        let d1 = if byte_bit(a, 256 - n) {
            proj_add(d, p)
        } else {
            d
        };
        if byte_bit(b, 256 - n) {
            proj_add(d1, q)
        } else {
            d1
        }
    }
}

/// `a p + b q` for 256-bit little-endian scalars, in one pass.
pub open spec fn proj_mul2(p: PV, q: PV, a: Seq<u8>, b: Seq<u8>) -> PV {
    proj_mul2_top(p, q, a, b, 256)
}

/// All coordinates are canonical residues.
pub open spec fn proj_canonical(p: PV) -> bool {
    f6_canonical(p.0) && f6_canonical(p.1) && f6_canonical(p.2)
}

/// Adding the identity, on either side, leaves a point unchanged.
pub proof fn lemma_add_identity(p: PV)
    requires
        proj_canonical(p),
    ensures
        proj_eq(proj_add(p, proj_identity()), p),
        proj_eq(proj_add(proj_identity(), p), p),
{
    if !proj_is_identity(p) {
        assert(proj_add(p, proj_identity()) == p);
    }
}

/// A point plus its negation is the identity.
pub proof fn lemma_add_neg(p: PV)
    requires
        proj_canonical(p),
    ensures
        proj_is_identity(proj_add(p, proj_neg(p))),
{
    let q = proj_neg(p);
    if !proj_is_identity(p) {
        let t = f6_mul(p.1, p.2);
        lemma_f6_neg_mul(p.1, p.2);
        lemma_f6_mul_canonical(p.1, p.2);
        lemma_f6_add_neg(t);
        assert(f6_add(f6_mul(p.1, q.2), f6_mul(q.1, p.2)) == f6_zero());
    }
}

/// The doubling of the identity is the identity.
pub proof fn lemma_double_identity(p: PV)
    requires
        proj_is_identity(p),
    ensures
        proj_is_identity(proj_double(p)),
{
    lemma_f6_mul_zero(p.1);
    let s = f6_add(f6_mul(p.1, p.2), f6_mul(p.1, p.2));
    assert(s == f6_zero());
    lemma_f6_mul_zero(f6_mul(s, s));
}

/// Doubling a point is adding it to itself.
pub proof fn lemma_double_is_add_self(p: PV)
    requires
        proj_canonical(p),
    ensures
        proj_eq(proj_add(p, p), proj_double(p)),
{
    if proj_is_identity(p) {
        lemma_double_identity(p);
    } else {
        let s = f6_add(f6_mul(p.1, p.2), f6_mul(p.1, p.2));
        if s == f6_zero() {
            lemma_f6_mul_zero(f6_mul(s, s));
        }
    }
}

/// For points that are not the identity and have different X / Z (so are
/// neither equal nor opposite), the full group law is the general formula,
/// and with an affine second operand the mixed formula.
pub proof fn lemma_add_unchecked_agrees(p: PV, q: PV, a: AV)
    requires
        proj_canonical(p),
        proj_canonical(q),
        f6_canonical(a.0),
        f6_canonical(a.1),
        !proj_is_identity(p),
        !proj_is_identity(q),
        !a.2,
        f6_mul(p.0, q.2) != f6_mul(q.0, p.2),
        f6_mul(p.0, f6_one()) != f6_mul(a.0, p.2),
    ensures
        proj_add(p, q) == proj_add_unchecked(p, q),
        proj_add(p, proj_from_affine(a)) == proj_add_mixed_unchecked(p, a),
{
    lemma_f6_mul_one(p.0);
    lemma_f6_mul_one(p.1);
    lemma_f6_mul_one(p.2);
}

/// While every bit read so far is clear, double-and-add stays at the
/// identity.
pub proof fn lemma_mul_top_identity(p: PV, by: Seq<u8>, n: nat)
    requires
        n <= 256,
        forall|k: int| 256 - n <= k < 256 ==> !#[trigger] byte_bit(by, k),
    ensures
        proj_is_identity(proj_mul_top(p, by, n)),
    decreases n,
{
    if n > 0 {
        lemma_mul_top_identity(p, by, (n - 1) as nat);
        lemma_double_identity(proj_mul_top(p, by, (n - 1) as nat));
    }
}

pub(crate) proof fn lemma_small_byte_bits(b: u8, s: u8)
    requires
        s < 8,
    ensures
        b == 0 ==> (b >> s) & 1 == 0,
        b == 1 ==> ((b >> s) & 1 == 1 <==> s == 0),
        b == 2 ==> ((b >> s) & 1 == 1 <==> s == 1),
{
    assert(b == 0 ==> (b >> s) & 1 == 0) by (bit_vector);
    assert(b == 1 && s < 8 ==> ((b >> s) & 1 == 1 <==> s == 0)) by (bit_vector);
    assert(b == 2 && s < 8 ==> ((b >> s) & 1 == 1 <==> s == 1)) by (bit_vector);
}

/// Multiplying by zero gives the identity.
pub proof fn lemma_mul_zero(p: PV, by: Seq<u8>)
    requires
        by.len() == 32,
        forall|i: int| 0 <= i < 32 ==> by[i] == 0,
    ensures
        proj_is_identity(proj_mul(p, by)),
{
    assert forall|k: int| 256 - 256 <= k < 256 implies !#[trigger] byte_bit(by, k) by {
        lemma_small_byte_bits(by[k / 8], (k % 8) as u8);
    }
    lemma_mul_top_identity(p, by, 256);
}

/// Multiplying by one gives the point back.
pub proof fn lemma_mul_one(p: PV, by: Seq<u8>)
    requires
        by.len() == 32,
        by[0] == 1,
        forall|i: int| 1 <= i < 32 ==> by[i] == 0,
    ensures
        proj_mul(p, by) == p,
{
    assert forall|k: int| 256 - 255 <= k < 256 implies !#[trigger] byte_bit(by, k) by {
        lemma_small_byte_bits(by[k / 8], (k % 8) as u8);
    }
    lemma_small_byte_bits(by[0], 0);
    lemma_mul_top_identity(p, by, 255);
    lemma_double_identity(proj_mul_top(p, by, 255));
}

/// Multiplying by two is doubling.
pub proof fn lemma_mul_two(p: PV, by: Seq<u8>)
    requires
        by.len() == 32,
        by[0] == 2,
        forall|i: int| 1 <= i < 32 ==> by[i] == 0,
    ensures
        proj_mul(p, by) == proj_double(p),
{
    assert forall|k: int| 256 - 254 <= k < 256 implies !#[trigger] byte_bit(by, k) by {
        lemma_small_byte_bits(by[k / 8], (k % 8) as u8);
    }
    lemma_small_byte_bits(by[0], 0);
    lemma_small_byte_bits(by[0], 1);
    lemma_mul_top_identity(p, by, 254);
    lemma_double_identity(proj_mul_top(p, by, 254));
    assert(proj_mul_top(p, by, 255) == p);
}

/// An affine point of the curve, with an explicit identity flag.
#[derive(Clone, Copy, Debug, PartialEq, Eq, Structural)]
pub struct AffinePoint {
    /// The x coordinate.
    pub x: Fp6,
    /// The y coordinate.
    pub y: Fp6,
    /// Whether this is the identity.
    pub infinity: bool,
}

/// A point in homogeneous projective coordinates.
#[derive(Clone, Copy, Debug, PartialEq, Eq, Structural)]
pub struct ProjectivePoint {
    /// X.
    pub x: Fp6,
    /// Y.
    pub y: Fp6,
    /// Z.
    pub z: Fp6,
}

impl View for AffinePoint {
    type V = AV;

    open spec fn view(&self) -> AV {
        (self.x@, self.y@, self.infinity)
    }
}

impl View for ProjectivePoint {
    type V = PV;

    open spec fn view(&self) -> PV {
        (self.x@, self.y@, self.z@)
    }
}

/// The curve constant B.
pub fn b() -> (r: Fp6)
    ensures
        r.wf(),
        r@ == curve_b(),
{
    Fp6::new([395, 1, 0, 0, 0, 0])
}

/// x of the fixed generator.
pub const GENERATOR_X: [u64; 6] = [2, 0, 0, 0, 1, 0];

/// y of the fixed generator.
pub const GENERATOR_Y: [u64; 6] = [
    2667856820383470374,
    3139742546719875898,
    4543114503254270073,
    1292624606907802958,
    3983654216975120266,
    2924790708202802367,
];

/// The fixed generator, affine.
pub open spec fn generator_spec() -> AV {
    (f6_of(GENERATOR_X@), f6_of(GENERATOR_Y@), false)
}

impl AffinePoint {
    /// Both coordinates are canonical.
    pub open spec fn wf(self) -> bool {
        self.x.wf() && self.y.wf()
    }

    /// The identity.
    pub fn identity() -> (r: AffinePoint)
        ensures
            r.wf(),
            r@ == affine_identity(),
    {
        AffinePoint { x: Fp6::zero(), y: Fp6::one(), infinity: true }
    }

    /// The fixed generator: the point of abscissa 2 + v^2 whose ordinate
    /// is lexicographically largest.
    pub fn generator() -> (r: AffinePoint)
        ensures
            r.wf(),
            r@ == generator_spec(),
    {
        AffinePoint { x: Fp6::new(GENERATOR_X), y: Fp6::new(GENERATOR_Y), infinity: false }
    }

    /// Overwrites both coordinates with zero and clears the identity flag.
    pub fn zeroize(&mut self)
        ensures
            final(self).wf(),
            final(self)@ == (f6_zero(), f6_zero(), false),
    {
        self.x.zeroize();
        self.y.zeroize();
        self.infinity = false;
    }

    /// Whether this is the identity.
    pub fn is_identity(&self) -> (r: bool)
        ensures
            r == self.infinity,
    {
        self.infinity
    }

    /// Checks, in constant time, y^2 = x^3 + x + B, or that this is the
    /// identity.
    pub fn is_on_curve(&self) -> (r: bool)
        requires
            self.wf(),
        ensures
            r == affine_on_curve(self@),
    {
        let lhs = self.y.square();
        let rhs = self.x.square().mul(&self.x).add(&self.x).add(&b());
        let eq = lhs.ct_eq(&rhs);
        ct_or(eq, self.infinity)
    }

    /// Negation: y changes sign, except for the identity, which is left as
    /// it is.
    pub fn neg(&self) -> (r: AffinePoint)
        requires
            self.wf(),
        ensures
            r.wf(),
            r@ == affine_neg(self@),
    {
        let minus_y = self.y.neg();
        AffinePoint { x: self.x, y: Fp6::conditional_select(&minus_y, &self.y, self.infinity), infinity: self.infinity }
    }

    /// Checks, in constant time, that both points are the identity, or that
    /// neither is and their coordinates are equal.
    pub fn ct_eq(&self, other: &AffinePoint) -> (r: bool)
        ensures
            r == ((self.infinity && other.infinity) || (!self.infinity && !other.infinity
                && self.x@ == other.x@ && self.y@ == other.y@)),
    {
        let ex = self.x.ct_eq(&other.x);
        let ey = self.y.ct_eq(&other.y);
        let both = ct_and(self.infinity, other.infinity);
        let neither = ct_and(!self.infinity, !other.infinity);
        ct_or(both, ct_and(neither, ct_and(ex, ey)))
    }

    /// Selects, in constant time, `a` when `choice` is false and `b`
    /// otherwise.
    pub fn conditional_select(a: &AffinePoint, b: &AffinePoint, choice: bool) -> (r: AffinePoint)
        ensures
            r == (if choice { *b } else { *a }),
    {
        AffinePoint {
            x: Fp6::conditional_select(&a.x, &b.x, choice),
            y: Fp6::conditional_select(&a.y, &b.y, choice),
            infinity: crate::ct::ct_select_u64(a.infinity as u64, b.infinity as u64, choice) == 1,
        }
    }
}

impl ProjectivePoint {
    /// All coordinates are canonical.
    pub open spec fn wf(self) -> bool {
        self.x.wf() && self.y.wf() && self.z.wf()
    }

    /// The identity.
    pub fn identity() -> (r: ProjectivePoint)
        ensures
            r.wf(),
            r@ == proj_identity(),
    {
        ProjectivePoint { x: Fp6::zero(), y: Fp6::one(), z: Fp6::zero() }
    }

    /// Whether this is the identity.
    pub fn is_identity(&self) -> (r: bool)
        ensures
            r == proj_is_identity(self@),
    {
        self.z.is_zero()
    }

    /// The projective form of an affine point.
    pub fn from_affine(p: &AffinePoint) -> (r: ProjectivePoint)
        requires
            p.wf(),
        ensures
            r.wf(),
            r@ == proj_from_affine(p@),
    {
        let q = ProjectivePoint { x: p.x, y: p.y, z: Fp6::one() };
        ProjectivePoint::conditional_select(&q, &ProjectivePoint::identity(), p.infinity)
    }

    /// The affine form of this point, dividing by Z.
    pub fn to_affine(&self) -> (r: AffinePoint)
        requires
            self.wf(),
        ensures
            r.wf(),
            r@ == proj_to_affine(self@),
    {
        match self.z.invert() {
            None => AffinePoint::identity(),
            Some(t) => AffinePoint { x: self.x.mul(&t), y: self.y.mul(&t), infinity: false },
        }
    }

    /// Checks, in constant time, Y^2 Z = X^3 + X Z^2 + B Z^3.
    pub fn is_on_curve(&self) -> (r: bool)
        requires
            self.wf(),
        ensures
            r == proj_on_curve(self@),
    {
        let zz = self.z.square();
        let lhs = self.y.square().mul(&self.z);
        let rhs = self.x.square().mul(&self.x).add(&self.x.mul(&zz)).add(&b().mul(&zz.mul(&self.z)));
        lhs.ct_eq(&rhs)
    }

    /// Checks, in constant time, that both stand for the same point, by
    /// cross-multiplying with the other Z; no inversion is made.
    pub fn ct_eq(&self, other: &ProjectivePoint) -> (r: bool)
        requires
            self.wf(),
            other.wf(),
        ensures
            r == proj_eq(self@, other@),
    {
        let a = self.is_identity();
        let b = other.is_identity();
        let ex = self.x.mul(&other.z).ct_eq(&other.x.mul(&self.z));
        let ey = self.y.mul(&other.z).ct_eq(&other.y.mul(&self.z));
        ct_or(ct_and(a, b), ct_and(ct_and(!a, !b), ct_and(ex, ey)))
    }

    /// Selects, in constant time, `a` when `choice` is false and `b`
    /// otherwise.
    pub fn conditional_select(a: &ProjectivePoint, b: &ProjectivePoint, choice: bool) -> (r: ProjectivePoint)
        ensures
            r == (if choice { *b } else { *a }),
    {
        ProjectivePoint {
            x: Fp6::conditional_select(&a.x, &b.x, choice),
            y: Fp6::conditional_select(&a.y, &b.y, choice),
            z: Fp6::conditional_select(&a.z, &b.z, choice),
        }
    }

    /// Negation.
    pub fn neg(&self) -> (r: ProjectivePoint)
        requires
            self.wf(),
        ensures
            r.wf(),
            r@ == proj_neg(self@),
    {
        ProjectivePoint { x: self.x, y: self.y.neg(), z: self.z }
    }

    /// Doubling; the identity doubles to a point of Z zero.
    pub fn double(&self) -> (r: ProjectivePoint)
        requires
            self.wf(),
        ensures
            r.wf(),
            r@ == proj_double(self@),
    {
        let xx = self.x.square();
        let zz = self.z.square();
        let w = zz.add(&xx.double().add(&xx));
        let yz = self.y.mul(&self.z);
        let s = yz.double();
        let ss = s.square();
        let sss = s.mul(&ss);
        let r = self.y.mul(&s);
        let rr = r.square();
        let xr = self.x.add(&r);
        let bb = xr.square().sub(&xx).sub(&rr);
        let h = w.square().sub(&bb.double());
        ProjectivePoint { x: h.mul(&s), y: w.mul(&bb.sub(&h)).sub(&rr.double()), z: sss }
    }

    /// `n` successive doublings.
    pub fn double_multi(&self, n: u32) -> (r: ProjectivePoint)
        requires
            self.wf(),
        ensures
            r.wf(),
            r@ == proj_double_n(self@, n as nat),
    {
        let mut acc = *self;
        let mut i: u32 = 0;
        while i < n
            invariant
                i <= n,
                acc.wf(),
                acc@ == proj_double_n(self@, i as nat),
            decreases n - i,
        {
            acc = acc.double();
            i = i + 1;
        }
        acc
    }

    /// Addition by the general formula, for operands that are known to be
    /// distinct, not opposite and not the identity.
    pub fn add_unchecked(&self, rhs: &ProjectivePoint) -> (r: ProjectivePoint)
        requires
            self.wf(),
            rhs.wf(),
        ensures
            r.wf(),
            r@ == proj_add_unchecked(self@, rhs@),
    {
        let y1z2 = self.y.mul(&rhs.z);
        let x1z2 = self.x.mul(&rhs.z);
        let z1z2 = self.z.mul(&rhs.z);
        let u = rhs.y.mul(&self.z).sub(&y1z2);
        let uu = u.square();
        let v = rhs.x.mul(&self.z).sub(&x1z2);
        let vv = v.square();
        let vvv = v.mul(&vv);
        let r = vv.mul(&x1z2);
        let a = uu.mul(&z1z2).sub(&vvv).sub(&r.double());
        ProjectivePoint { x: v.mul(&a), y: u.mul(&r.sub(&a)).sub(&vvv.mul(&y1z2)), z: vvv.mul(&z1z2) }
    }

    /// Addition of an affine point by the mixed formula, for operands that
    /// are known to be distinct and not opposite; an affine identity is
    /// selected away.
    pub fn add_mixed_unchecked(&self, rhs: &AffinePoint) -> (r: ProjectivePoint)
        requires
            self.wf(),
            rhs.wf(),
        ensures
            r.wf(),
            r@ == proj_add_mixed_unchecked(self@, rhs@),
    {
        let u = rhs.y.mul(&self.z).sub(&self.y);
        let uu = u.square();
        let v = rhs.x.mul(&self.z).sub(&self.x);
        let vv = v.square();
        let vvv = v.mul(&vv);
        let r = vv.mul(&self.x);
        let a = uu.mul(&self.z).sub(&vvv).sub(&r.double());
        let sum = ProjectivePoint { x: v.mul(&a), y: u.mul(&r.sub(&a)).sub(&vvv.mul(&self.y)), z: vvv.mul(&self.z) };
        ProjectivePoint::conditional_select(&sum, self, rhs.infinity)
    }

    /// The group law, in constant time: every case is computed and the
    /// result selected.
    pub fn add(&self, rhs: &ProjectivePoint) -> (r: ProjectivePoint)
        requires
            self.wf(),
            rhs.wf(),
        ensures
            r.wf(),
            r@ == proj_add(self@, rhs@),
    {
        let p_zero = self.is_identity();
        let q_zero = rhs.is_identity();
        let same_x = self.x.mul(&rhs.z).ct_eq(&rhs.x.mul(&self.z));
        let opposite = self.y.mul(&rhs.z).add(&rhs.y.mul(&self.z)).is_zero();
        let sum = self.add_unchecked(rhs);
        let dbl = self.double();
        let mut r = ProjectivePoint::conditional_select(&sum, &dbl, ct_and(same_x, !opposite));
        r = ProjectivePoint::conditional_select(&r, &ProjectivePoint::identity(), ct_and(same_x, opposite));
        r = ProjectivePoint::conditional_select(&r, self, q_zero);
        r = ProjectivePoint::conditional_select(&r, rhs, p_zero);
        r
    }

    /// The group law with an affine operand.
    pub fn add_mixed(&self, rhs: &AffinePoint) -> (r: ProjectivePoint)
        requires
            self.wf(),
            rhs.wf(),
        ensures
            r.wf(),
            r@ == proj_add(self@, proj_from_affine(rhs@)),
    {
        self.add(&ProjectivePoint::from_affine(rhs))
    }

    /// Converts all points to affine form with one shared inversion: the
    /// product of all Z is inverted once, and the inverse of each Z is
    /// recovered from the prefix products on the way back. `None` when the
    /// product has no inverse.
    fn batch_normalize_shared(points: &[ProjectivePoint]) -> (r: Option<Vec<AffinePoint>>)
        requires
            forall|i: int| 0 <= i < points@.len() ==> (#[trigger] points@[i]).wf(),
        ensures
            r is None <==> !batch_inverse_checks(proj_views(points@)),
            r matches Some(v) ==> v@.len() == points@.len() && forall|i: int|
                0 <= i < v@.len() ==> (#[trigger] v@[i]).wf() && v@[i]@ == batch_affine(
                    proj_views(points@),
                    i,
                ),
    {
        let ghost ps = proj_views(points@);
        let n = points.len();
        let mut prefix: Vec<Fp6> = Vec::new();
        let mut acc = Fp6::one();
        let mut i: usize = 0;
        while i < n
            invariant
                n == points@.len(),
                ps == proj_views(points@),
                forall|k: int| 0 <= k < points@.len() ==> (#[trigger] points@[k]).wf(),
                i <= n,
                acc.wf(),
                acc@ == z_prefix(ps, i as nat),
                prefix@.len() == i,
                forall|k: int| 0 <= k < i ==> (#[trigger] prefix@[k]).wf() && prefix@[k]@ == z_prefix(ps, k as nat),
            decreases n - i,
        {
            prefix.push(acc);
            let zero = points[i].is_identity();
            let z = Fp6::conditional_select(&points[i].z, &Fp6::one(), zero);
            acc = acc.mul(&z);
            i = i + 1;
        }
        let inv = match acc.invert() {
            None => { return None; },
            Some(t) => t,
        };
        let mut back = inv;
        let mut out: Vec<AffinePoint> = Vec::new();
        let mut j: usize = n;
        while j > 0
            invariant
                n == points@.len(),
                ps == proj_views(points@),
                forall|k: int| 0 <= k < points@.len() ==> (#[trigger] points@[k]).wf(),
                j <= n,
                back.wf(),
                back@ == z_back(ps, j as nat),
                prefix@.len() == n,
                forall|k: int| 0 <= k < n ==> (#[trigger] prefix@[k]).wf() && prefix@[k]@ == z_prefix(ps, k as nat),
                out@.len() == n - j,
                forall|k: int| j <= k < n ==> (#[trigger] out@[n - 1 - k]).wf() && out@[n - 1 - k]@ == batch_affine(ps, k),
            decreases j,
        {
            j = j - 1;
            let p = points[j];
            let t = prefix[j].mul(&back);
            let zero = p.is_identity();
            let q = AffinePoint { x: p.x.mul(&t), y: p.y.mul(&t), infinity: false };
            let q = AffinePoint::conditional_select(&q, &AffinePoint::identity(), zero);
            out.push(q);
            let z = Fp6::conditional_select(&p.z, &Fp6::one(), zero);
            back = back.mul(&z);
        }
        let mut res: Vec<AffinePoint> = Vec::new();
        let mut k: usize = 0;
        while k < n
            invariant
                n == points@.len(),
                out@.len() == n,
                forall|m: int| 0 <= m < n ==> (#[trigger] out@[n - 1 - m]).wf() && out@[n - 1 - m]@ == batch_affine(ps, m),
                k <= n,
                res@.len() == k,
                forall|m: int| 0 <= m < k ==> (#[trigger] res@[m]).wf() && res@[m]@ == batch_affine(ps, m),
            decreases n - k,
        {
            res.push(out[n - 1 - k]);
            k = k + 1;
        }
        Some(res)
    }

    /// Multiplies by a 256-bit little-endian scalar, doubling and adding
    /// with the same operations whatever the scalar's bits.
    pub fn multiply(&self, by: &[u8; 32]) -> (r: ProjectivePoint)
        requires
            self.wf(),
        ensures
            r.wf(),
            r@ == proj_mul(self@, by@),
    {
        let mut acc = ProjectivePoint::identity();
        let mut k: usize = 256;
        while k > 0
            invariant
                k <= 256,
                self.wf(),
                acc.wf(),
                acc@ == proj_mul_top(self@, by@, (256 - k) as nat),
            decreases k,
        {
            k = k - 1;
            let ghost n = (256 - k) as nat;
            assert(256 - n == k);
            acc = acc.double();
            let ghost d = acc@;
            let sum = acc.add(self);
            let bit: u8 = (by[k / 8] >> ((k % 8) as u8)) & 1;
            acc = ProjectivePoint::conditional_select(&acc, &sum, bit == 1);
            assert(acc@ == (if byte_bit(by@, 256 - n) { proj_add(d, self@) } else { d }));
        }
        acc
    }

    /// Multiplies by a 256-bit little-endian scalar; variable time in the
    /// scalar.
    pub fn multiply_vartime(&self, by: &[u8; 32]) -> (r: ProjectivePoint)
        requires
            self.wf(),
        ensures
            r.wf(),
            r@ == proj_mul(self@, by@),
    {
        let mut acc = ProjectivePoint::identity();
        let mut k: usize = 256;
        while k > 0
            invariant
                k <= 256,
                self.wf(),
                acc.wf(),
                acc@ == proj_mul_top(self@, by@, (256 - k) as nat),
            decreases k,
        {
            k = k - 1;
            let ghost n = (256 - k) as nat;
            assert(256 - n == k);
            acc = acc.double();
            let ghost d = acc@;
            if (by[k / 8] >> ((k % 8) as u8)) & 1 == 1 {
                acc = acc.add(self);
            }
            assert(acc@ == (if byte_bit(by@, 256 - n) { proj_add(d, self@) } else { d }));
        }
        acc
    }

    /// Computes `a self + b rhs` in one pass over both scalars' bits, with
    /// the same operations whatever the bits.
    pub fn multiply_double(&self, rhs: &ProjectivePoint, a: &[u8; 32], b: &[u8; 32]) -> (r: ProjectivePoint)
        requires
            self.wf(),
            rhs.wf(),
        ensures
            r.wf(),
            r@ == proj_mul2(self@, rhs@, a@, b@),
    {
        let mut acc = ProjectivePoint::identity();
        let mut k: usize = 256;
        while k > 0
            invariant
                k <= 256,
                self.wf(),
                rhs.wf(),
                acc.wf(),
                acc@ == proj_mul2_top(self@, rhs@, a@, b@, (256 - k) as nat),
            decreases k,
        {
            k = k - 1;
            let ghost n = (256 - k) as nat;
            assert(256 - n == k);
            acc = acc.double();
            let ghost d = acc@;
            let s1 = acc.add(self);
            let bit_a: u8 = (a[k / 8] >> ((k % 8) as u8)) & 1;
            acc = ProjectivePoint::conditional_select(&acc, &s1, bit_a == 1);
            assert(acc@ == (if byte_bit(a@, 256 - n) { proj_add(d, self@) } else { d }));
            let ghost d1 = acc@;
            let s2 = acc.add(rhs);
            let bit_b: u8 = (b[k / 8] >> ((k % 8) as u8)) & 1;
            acc = ProjectivePoint::conditional_select(&acc, &s2, bit_b == 1);
            assert(acc@ == (if byte_bit(b@, 256 - n) { proj_add(d1, rhs@) } else { d1 }));
            assert(acc@ == proj_mul2_top(self@, rhs@, a@, b@, n));
        }
        acc
    }

    /// Computes `a self + b rhs` in one pass; variable time in the scalars.
    pub fn multiply_double_vartime(&self, rhs: &ProjectivePoint, a: &[u8; 32], b: &[u8; 32]) -> (r: ProjectivePoint)
        requires
            self.wf(),
            rhs.wf(),
        ensures
            r.wf(),
            r@ == proj_mul2(self@, rhs@, a@, b@),
    {
        let mut acc = ProjectivePoint::identity();
        let mut k: usize = 256;
        while k > 0
            invariant
                k <= 256,
                self.wf(),
                rhs.wf(),
                acc.wf(),
                acc@ == proj_mul2_top(self@, rhs@, a@, b@, (256 - k) as nat),
            decreases k,
        {
            k = k - 1;
            let ghost n = (256 - k) as nat;
            assert(256 - n == k);
            acc = acc.double();
            let ghost d = acc@;
            if (a[k / 8] >> ((k % 8) as u8)) & 1 == 1 {
                acc = acc.add(self);
            }
            assert(acc@ == (if byte_bit(a@, 256 - n) { proj_add(d, self@) } else { d }));
            let ghost d1 = acc@;
            if (b[k / 8] >> ((k % 8) as u8)) & 1 == 1 {
                acc = acc.add(rhs);
            }
            assert(acc@ == (if byte_bit(b@, 256 - n) { proj_add(d1, rhs@) } else { d1 }));
            assert(acc@ == proj_mul2_top(self@, rhs@, a@, b@, n));
        }
        acc
    }

    /// Converts all points to affine form with one shared inversion (see
    /// `batch_normalize_shared`), or point by point should the product of
    /// their Z have no inverse. One output for each input, in order.
    pub fn batch_normalize(points: &[ProjectivePoint]) -> (r: Vec<AffinePoint>)
        requires
            forall|i: int| 0 <= i < points@.len() ==> (#[trigger] points@[i]).wf(),
        ensures
            r@.len() == points@.len(),
            forall|i: int| 0 <= i < r@.len() ==> (#[trigger] r@[i]).wf(),
            Seq::new(r@.len(), |i: int| r@[i]@) == normalized(proj_views(points@)),
    {
        let ghost c = proj_views(points@);
        match ProjectivePoint::batch_normalize_shared(points) {
            Some(v) => {
                assert(Seq::new(v@.len(), |i: int| v@[i]@) =~= normalized(c));
                v
            },
            None => {
                let n = points.len();
                let mut v: Vec<AffinePoint> = Vec::new();
                let mut j: usize = 0;
                while j < n
                    invariant
                        j <= n,
                        points@.len() == n,
                        proj_views(points@) == c,
                        forall|k: int| 0 <= k < n ==> (#[trigger] points@[k]).wf(),
                        v@.len() == j,
                        forall|k: int| 0 <= k < j ==> (#[trigger] v@[k]).wf() && v@[k]@ == proj_to_affine(c[k]),
                    decreases n - j,
                {
                    v.push(points[j].to_affine());
                    j = j + 1;
                }
                assert(Seq::new(v@.len(), |i: int| v@[i]@) =~= normalized(c));
                v
            },
        }
    }
}

} // verus!
