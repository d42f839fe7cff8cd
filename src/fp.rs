//! The prime field Fp, p = 2^62 - 111 * 2^39 + 1.
use crate::ct::{ct_eq_u64, ct_select_u64, wipe_u64};
use vstd::arithmetic::div_mod::{
    lemma_add_mod_noop, lemma_mod_multiples_vanish, lemma_mul_mod_noop_general, lemma_sub_mod_noop,
};
use vstd::arithmetic::power::{lemma_pow_adds, pow};
use vstd::prelude::*;

verus! {

/// The field modulus.
pub const P: u64 = 4611624995532046337;

/// (p - 1) / 2, the largest element that is not lexicographically largest.
pub const P_MINUS_ONE_DIV_TWO: u64 = 2305812497766023168;

/// The inverse modulo p of the Montgomery radix 2^64.
pub const R_INV: u64 = 1152890993361043456;

/// An element of the prime field, held as its canonical residue.
#[derive(Clone, Copy, Debug, PartialEq, Eq, Structural)]
pub struct Fp(pub(crate) u64);

/// Reduction of an integer to its canonical residue modulo p.
pub open spec fn red(x: int) -> int {
    x % (P as int)
}

/// The power p - 2 modulo p: the inverse of every nonzero residue.
pub open spec fn fp_inv(x: int) -> int {
    red(pow(x, (P - 2) as nat))
}

/// The element whose residue is `x` modulo p.
pub closed spec fn fp_of(x: int) -> Fp {
    Fp((x % (P as int)) as u64)
}

/// `fp_of` is the reduction of its argument, and elements with the same
/// residue are the same.
pub proof fn lemma_fp_of(x: int, a: Fp)
    ensures
        fp_of(x).wf(),
        fp_of(x).val() == red(x),
        a.val() == red(x) ==> a == fp_of(x),
{
}

impl Fp {
    /// The canonical residue held.
    pub closed spec fn val(self) -> int {
        self.0 as int
    }

    /// The representation is canonical.
    pub closed spec fn wf(self) -> bool {
        self.0 < P
    }

    /// Converts a machine word into a field element, reducing it modulo p.
    pub fn new(value: u64) -> (r: Fp)
        ensures
            r.wf(),
            r.val() == red(value as int),
    {
        Fp(value % P)
    }

    /// Builds an element from its Montgomery form `a * 2^64 mod p`.
    pub fn from_raw_unchecked(value: u64) -> (r: Fp)
        ensures
            r.wf(),
            r.val() == red(value * R_INV),
    {
        proof {
            lemma_mul_mod_noop_general(value as int, R_INV as int, P as int);
        }
        Fp::new(value).mul(&Fp(R_INV))
    }

    /// The additive identity.
    pub fn zero() -> (r: Fp)
        ensures
            r.wf(),
            r.val() == 0,
    {
        Fp(0)
    }

    /// The multiplicative identity.
    pub fn one() -> (r: Fp)
        ensures
            r.wf(),
            r.val() == 1,
    {
        Fp(1)
    }

    /// Overwrites this element with zero, in a way the compiler may not
    /// remove.
    pub fn zeroize(&mut self)
        ensures
            final(self).wf(),
            final(self).val() == 0,
    {
        wipe_u64(&mut self.0);
    }

    /// The canonical residue as a machine word.
    pub fn to_u64(&self) -> (r: u64)
        ensures
            r == self.val(),
    {
        self.0
    }

    /// Checks, in constant time, whether this element is zero.
    pub fn is_zero(&self) -> (r: bool)
        ensures
            r == (self.val() == 0),
    {
        ct_eq_u64(self.0, 0)
    }

    /// Checks, in constant time, whether two elements are equal.
    pub fn ct_eq(&self, other: &Fp) -> (r: bool)
        ensures
            r == (self.val() == other.val()),
    {
        ct_eq_u64(self.0, other.0)
    }

    /// Selects, in constant time, `a` when `choice` is false and `b` otherwise.
    pub fn conditional_select(a: &Fp, b: &Fp, choice: bool) -> (r: Fp)
        ensures
            r == (if choice { *b } else { *a }),
    {
        Fp(ct_select_u64(a.0, b.0, choice))
    }

    /// Whether this element is strictly larger than its negation, comparing
    /// canonical residues.
    pub fn lexicographically_largest(&self) -> (r: bool)
        requires
            self.wf(),
        ensures
            r == (self.val() > (P_MINUS_ONE_DIV_TWO as int)),
    {
        self.0 > P_MINUS_ONE_DIV_TWO
    }

    /// Addition modulo p.
    pub fn add(&self, rhs: &Fp) -> (r: Fp)
        requires
            self.wf(),
            rhs.wf(),
        ensures
            r.wf(),
            r.val() == red(self.val() + rhs.val()),
    {
        let s: u64 = self.0 + rhs.0;
        let d: u64 = s.wrapping_sub(P);
        let r = ct_select_u64(d, s, s < P);
        proof {
            if s >= P {
                assert(red(s as int) == s - P) by (nonlinear_arith)
                    requires s >= P, s < 2 * P;
            } else {
                assert(red(s as int) == s) by (nonlinear_arith)
                    requires s < P;
            }
        }
        Fp(r)
    }

    /// Subtraction modulo p.
    pub fn sub(&self, rhs: &Fp) -> (r: Fp)
        requires
            self.wf(),
            rhs.wf(),
        ensures
            r.wf(),
            r.val() == red(self.val() - rhs.val()),
    {
        let d: u64 = self.0.wrapping_sub(rhs.0);
        let e: u64 = d.wrapping_add(P);
        let r = ct_select_u64(d, e, self.0 < rhs.0);
        proof {
            if self.0 >= rhs.0 {
                assert(red(d as int) == d) by (nonlinear_arith)
                    requires d < P;
            } else {
                assert(e == P - (rhs.0 - self.0));
                assert(red(self.val() - rhs.val()) == e) by (nonlinear_arith)
                    requires e == P - (rhs.val() - self.val()), self.val() < rhs.val(), rhs.val() < P, 0 <= self.val();
            }
        }
        Fp(r)
    }

    /// Negation modulo p.
    pub fn neg(&self) -> (r: Fp)
        requires
            self.wf(),
        ensures
            r.wf(),
            r.val() == red(-self.val()),
    {
        Fp::zero().sub(self)
    }

    /// Doubling modulo p.
    pub fn double(&self) -> (r: Fp)
        requires
            self.wf(),
        ensures
            r.wf(),
            r.val() == red(2 * self.val()),
    {
        self.add(self)
    }

    /// Multiplication modulo p.
    pub fn mul(&self, rhs: &Fp) -> (r: Fp)
        requires
            self.wf(),
            rhs.wf(),
        ensures
            r.wf(),
            r.val() == red(self.val() * rhs.val()),
    {
        let a: u128 = self.0 as u128;
        let b: u128 = rhs.0 as u128;
        assert(a * b < 0x1000_0000_0000_0000_0000_0000_0000_0000) by (nonlinear_arith)
            requires a < P, b < P, P < 0x4000_0000_0000_0000;
        let x = a * b;
        let x1 = fold(x, 0x4000_0000_0000_0000);
        assert(0x4000_0000_0000_0000 * TWO_62_MINUS_P + 0x4000_0000_0000_0000 <= 0x4000_0000_0000 * 0x4000_0000_0000_0000)
            by (nonlinear_arith);
        let x2 = fold(x1, 0x4000_0000_0000);
        assert(0x4000_0000_0000 * TWO_62_MINUS_P + 0x4000_0000_0000_0000 <= 0x4000_0000 * 0x4000_0000_0000_0000)
            by (nonlinear_arith);
        let x3 = fold(x2, 0x4000_0000);
        assert(0x4000_0000 * TWO_62_MINUS_P + 0x4000_0000_0000_0000 <= 0x4000 * 0x4000_0000_0000_0000) by (nonlinear_arith);
        let x4 = fold(x3, 0x4000);
        assert(0x4000 * TWO_62_MINUS_P + 0x4000_0000_0000_0000 <= 0x8000_0000_0000_0000) by (nonlinear_arith);
        let r = reduce_small(x4 as u64);
        Fp(r)
    }

    /// Squaring modulo p.
    pub fn square(&self) -> (r: Fp)
        requires
            self.wf(),
        ensures
            r.wf(),
            r.val() == red(self.val() * self.val()),
    {
        self.mul(self)
    }

    /// Raises this element to the power `by`, scanning the exponent's bits
    /// from the most significant down.
    pub fn pow_vartime(&self, by: u64) -> (r: Fp)
        requires
            self.wf(),
        ensures
            r.wf(),
            r.val() == red(pow(self.val(), by as nat)),
    {
        let mut res = Fp::one();
        let mut i: u32 = 64;
        proof {
            lemma_shr_64(by);
            vstd::arithmetic::power::lemma_pow0(self.val());
        }
        while i > 0
            invariant
                i <= 64,
                self.wf(),
                res.wf(),
                res.val() == red(pow(self.val(), (by >> i) as nat)),
            decreases i,
        {
            let ghost prev = (by >> i) as nat;
            let ghost res0 = res.val();
            i = i - 1;
            res = res.square();
            let bit: u64 = (by >> i) & 1;
            proof {
                lemma_shr_step(by, i);
                lemma_pow_adds(self.val(), prev, prev);
                lemma_mul_mod_noop_general(pow(self.val(), prev), pow(self.val(), prev), P as int);
                lemma_mul_mod_noop_general(pow(self.val(), prev), res0, P as int);
                assert(pow(self.val(), prev) * res0 == res0 * pow(self.val(), prev));
                assert(res.val() == red(pow(self.val(), prev + prev)));
            }
            if bit == 1 {
                let ghost sq = res.val();
                res = res.mul(self);
                proof {
                    let e2 = (prev + prev) as nat;
                    lemma_pow_adds(self.val(), e2, 1);
                    vstd::arithmetic::power::lemma_pow1(self.val());
                    lemma_mul_mod_noop_general(pow(self.val(), e2), self.val(), P as int);
                }
            }
        }
        proof {
            lemma_shr_0(by);
        }
        res
    }

    /// Raises this element to the power p - 2: the multiplicative inverse of
    /// every nonzero element, and zero for zero.
    pub fn invert(&self) -> (r: Fp)
        requires
            self.wf(),
        ensures
            r.wf(),
            r.val() == fp_inv(self.val()),
    {
        self.pow_vartime(P - 2)
    }
}

/// 2^62 - p, so that 2^62 is congruent to it modulo p.
pub const TWO_62_MINUS_P: u128 = 61022895341567;

/// Folds the bits of `x` above 2^62 back in: x = h 2^62 + l becomes
/// h (2^62 - p) + l, which differs from x by h p. Shifts, one product and a
/// sum, whatever the value.
fn fold(x: u128, hb: u128) -> (r: u128)
    requires
        hb <= 0x4000_0000_0000_0000,
        x < hb * 0x4000_0000_0000_0000,
    ensures
        red(r as int) == red(x as int),
        r < hb * TWO_62_MINUS_P + 0x4000_0000_0000_0000,
{
    let h: u128 = x >> 62u32;
    let l: u128 = x & 0x3fff_ffff_ffff_ffff;
    assert(x == h * 0x4000_0000_0000_0000 + l && l < 0x4000_0000_0000_0000) by (bit_vector)
        requires h == x >> 62u32, l == x & 0x3fff_ffff_ffff_ffff;
    assert(h < hb) by (nonlinear_arith)
        requires x == h * 0x4000_0000_0000_0000 + l, l >= 0, h >= 0, x < hb * 0x4000_0000_0000_0000;
    assert(h * TWO_62_MINUS_P < hb * TWO_62_MINUS_P) by (nonlinear_arith)
        requires h < hb, h >= 0;
    let r: u128 = h * TWO_62_MINUS_P + l;
    proof {
        assert(x as int == (P as int) * (h as int) + r as int);
        lemma_mod_multiples_vanish(h as int, r as int, P as int);
    }
    r
}

/// Reduces a word below 2^63 (which is below 4 p) by selecting, not
/// branching: first 2 p is taken off when it fits, then p.
fn reduce_small(x: u64) -> (r: u64)
    requires
        x < 0x8000_0000_0000_0000,
    ensures
        r < P,
        r as int == red(x as int),
{
    let y = ct_select_u64(x, x.wrapping_sub(2 * P), x >= 2 * P);
    let z = ct_select_u64(y, y.wrapping_sub(P), y >= P);
    proof {
        assert(red(x as int) == z) by (nonlinear_arith)
            requires
                x < 4 * P,
                y == (if x >= 2 * P { x - 2 * P } else { x as int }),
                z == (if y >= P { y - P } else { y as int }),
                0 <= z < P,
                z == x - (if x >= 2 * P { 2 * P } else { 0int }) - (if y >= P { P as int } else { 0int });
    }
    z
}

/// Reduction commutes with addition.
pub proof fn lemma_red_add(x: int, y: int)
    ensures
        red(red(x) + red(y)) == red(x + y),
{
    lemma_add_mod_noop(x, y, P as int);
}

/// Reduction commutes with subtraction.
pub proof fn lemma_red_sub(x: int, y: int)
    ensures
        red(red(x) - red(y)) == red(x - y),
{
    lemma_sub_mod_noop(x, y, P as int);
}

/// Reduction commutes with multiplication.
pub proof fn lemma_red_mul(x: int, y: int)
    ensures
        red(red(x) * red(y)) == red(x * y),
{
    lemma_mul_mod_noop_general(x, y, P as int);
    lemma_mul_mod_noop_general(y, red(x), P as int);
    assert(red(x) * red(y) == red(y) * red(x)) by (nonlinear_arith);
    assert(red(x) * y == y * red(x)) by (nonlinear_arith);
}

/// A residue is its own reduction.
pub proof fn lemma_red_val(a: Fp)
    requires
        a.wf(),
    ensures
        red(a.val()) == a.val(),
        0 <= a.val() < P,
{
}

proof fn lemma_shr_64(x: u64)
    ensures
        x >> 64u32 == 0,
{
    assert(x >> 64u32 == 0) by (bit_vector);
}

proof fn lemma_shr_0(x: u64)
    ensures
        x >> 0u32 == x,
{
    assert(x >> 0u32 == x) by (bit_vector);
}

proof fn lemma_shr_step(x: u64, i: u32)
    requires
        i < 64,
    ensures
        (x >> i) as nat == 2 * ((x >> ((i + 1) as u32)) as nat) + ((x >> i) & 1) as nat,
        (x >> i) & 1 == 0 || (x >> i) & 1 == 1,
{
    let j: u32 = (i + 1) as u32;
    assert((x >> i) == 2 * (x >> j) + ((x >> i) & 1)) by (bit_vector)
        requires i < 64, j == i + 1;
    assert((x >> i) & 1 == 0 || (x >> i) & 1 == 1) by (bit_vector);
}

} // verus!
