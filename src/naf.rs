//! Tables of odd multiples of a point for windowed non-adjacent-form
//! multiplication of a variable base point.
use crate::curve::{
    affine_neg, normalized, proj_add, proj_double, proj_from_affine, proj_identity,
    proj_views, AffinePoint, ProjectivePoint, AV, PV,
};
use vstd::prelude::*;

verus! {

/// The odd multiples `p, p + 2p, (p + 2p) + 2p, ...`: entry `i` stands for
/// (2 i + 1) p.
pub open spec fn odd_chain(p: PV, i: nat) -> PV
    decreases i,
{
    if i == 0 {
        p
    } else {
        proj_add(odd_chain(p, (i - 1) as nat), proj_double(p))
    }
}

/// The affine entries of a table of `n` odd multiples of `p`.
pub open spec fn naf_entries(p: PV, n: nat) -> Seq<AV> {
    normalized(Seq::new(n, |i: int| odd_chain(p, i as nat)))
}

/// The value looked up for an odd digit `x`: entry (|x| - 1) / 2, negated
/// when x is negative.
pub open spec fn naf_point(e: Seq<AV>, x: int) -> AV {
    if x > 0 {
        e[(x - 1) / 2]
    } else {
        affine_neg(e[(-x - 1) / 2])
    }
}

/// A digit that a table of `n` odd multiples can serve: zero, or odd with
/// absolute value below 2 n.
pub open spec fn naf_digit_ok(x: int, n: nat) -> bool {
    x == 0 || (x % 2 != 0 && -2 * n < x < 2 * n)
}

/// Double-and-add of the table's point by signed digits `d`, most
/// significant first, after the `k` most significant of 256 digits.
pub open spec fn naf_mul_top(e: Seq<AV>, d: Seq<i8>, k: nat) -> PV
    decreases k,
{
    if k == 0 {
        proj_identity()
    } else {
        let acc = proj_double(naf_mul_top(e, d, (k - 1) as nat));
        let x = d[256 - k] as int;
        if x == 0 {
            acc
        } else {
            proj_add(acc, proj_from_affine(naf_point(e, x)))
        }
    }
}

/// A table `[P, 3P, 5P, ..., (2N - 1) P]` of affine points.
#[derive(Clone, Debug)]
pub struct NafLookupTable<const N: usize>(pub Vec<AffinePoint>);

impl<const N: usize> NafLookupTable<N> {
    /// The affine entries.
    pub open spec fn entries(&self) -> Seq<AV> {
        Seq::new(self.0@.len(), |i: int| self.0@[i]@)
    }

    /// N entries, all canonical.
    pub open spec fn wf(&self) -> bool {
        self.0@.len() == N && forall|i: int| 0 <= i < N ==> (#[trigger] self.0@[i]).wf()
    }

    /// Builds the table of the first N odd multiples of `p`.
    pub fn from_projective(p: &ProjectivePoint) -> (r: NafLookupTable<N>)
        requires
            p.wf(),
        ensures
            r.wf(),
            r.entries() == naf_entries(p@, N as nat),
    {
        let p2 = p.double();
        let mut points: Vec<ProjectivePoint> = Vec::new();
        let mut cur = *p;
        let mut i: usize = 0;
        while i < N
            invariant
                i <= N,
                p.wf(),
                p2.wf(),
                p2@ == proj_double(p@),
                cur.wf(),
                i > 0 ==> cur@ == odd_chain(p@, (i - 1) as nat),
                i == 0 ==> cur == *p,
                points@.len() == i,
                forall|k: int| 0 <= k < i ==> (#[trigger] points@[k]).wf() && points@[k]@ == odd_chain(p@, k as nat),
            decreases N - i,
        {
            if i > 0 {
                cur = cur.add(&p2);
            }
            points.push(cur);
            i = i + 1;
        }
        assert(proj_views(points@) =~= Seq::new(N as nat, |i: int| odd_chain(p@, i as nat)));
        let v = ProjectivePoint::batch_normalize(points.as_slice());
        let r = NafLookupTable::<N>(v);
        assert(r.entries() =~= naf_entries(p@, N as nat));
        r
    }

    /// `x P` for an odd digit `x` with |x| < 2 N; variable time in `x`.
    pub fn get_point_vartime(&self, x: i8) -> (r: AffinePoint)
        requires
            self.wf(),
            N <= 64,
            x as int % 2 != 0,
            -2 * (N as int) < x < 2 * (N as int),
        ensures
            r.wf(),
            r@ == naf_point(self.entries(), x as int),
    {
        if x > 0 {
            self.0[((x - 1) / 2) as usize]
        } else {
            let y: i16 = -(x as i16);
            self.0[((y - 1) / 2) as usize].neg()
        }
    }

    /// Multiplies the table's point by the integer whose signed digits,
    /// least significant first, are `naf`, each zero or odd with absolute
    /// value below 2 N; variable time in the digits.
    pub fn multiply_vartime(&self, naf: &[i8; 256]) -> (r: ProjectivePoint)
        requires
            self.wf(),
            N <= 64,
            forall|i: int| 0 <= i < 256 ==> naf_digit_ok(#[trigger] naf[i] as int, N as nat),
        ensures
            r.wf(),
            r@ == naf_mul_top(self.entries(), naf@, 256),
    {
        let mut acc = ProjectivePoint::identity();
        let mut k: usize = 256;
        while k > 0
            invariant
                k <= 256,
                self.wf(),
                N <= 64,
                forall|i: int| 0 <= i < 256 ==> naf_digit_ok(#[trigger] naf[i] as int, N as nat),
                acc.wf(),
                acc@ == naf_mul_top(self.entries(), naf@, (256 - k) as nat),
            decreases k,
        {
            k = k - 1;
            let ghost n = (256 - k) as nat;
            assert(256 - n == k);
            acc = acc.double();
            let x = naf[k];
            if x != 0 {
                let q = self.get_point_vartime(x);
                acc = acc.add_mixed(&q);
            }
        }
        acc
    }
}

} // verus!
