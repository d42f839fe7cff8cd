//! Tables of precomputed multiples of a point, and fixed-base scalar
//! multiplication through them.
use crate::ct::ct_eq_u8;
use crate::curve::{
    affine_identity, affine_neg, normalized, proj_add,
    proj_double_n, proj_from_affine, proj_mul, proj_views, AffinePoint, ProjectivePoint, AV, PV,
};
use crate::fp6::{f6_zero, f6_canonical, f6_of, lemma_f6_neg_neg, Fp6};
use crate::scalar::{bytes_to_radix_16, radix_16};
use vstd::prelude::*;

verus! {

/// The chain `p, p + p, p + (p + p), ...`: entry `i` stands for (i + 1) p.
pub open spec fn proj_chain(p: PV, i: nat) -> PV
    decreases i,
{
    if i == 0 {
        p
    } else {
        proj_add(p, proj_chain(p, (i - 1) as nat))
    }
}

/// The first `n` points of the chain.
pub open spec fn chain_seq(p: PV, n: nat) -> Seq<PV> {
    Seq::new(n, |i: int| proj_chain(p, i as nat))
}

/// The affine entries of a table of `n` multiples of `p`: the chain,
/// normalized with one shared inversion, or point by point when the shared
/// product has no inverse.
pub open spec fn table_entries(p: PV, n: nat) -> Seq<AV> {
    normalized(chain_seq(p, n))
}

/// The value looked up for the signed digit `x`: the identity for zero,
/// entry |x| - 1, negated when x is negative.
pub open spec fn table_point(e: Seq<AV>, x: int) -> AV {
    if x == 0 {
        affine_identity()
    } else if x > 0 {
        e[x - 1]
    } else {
        affine_neg(e[-x - 1])
    }
}

/// Every multiple of the identity in the chain is that same point.
pub proof fn lemma_chain_of_identity(p: PV, i: nat)
    requires
        crate::curve::proj_is_identity(p),
    ensures
        proj_chain(p, i) == p,
    decreases i,
{
    if i > 0 {
        lemma_chain_of_identity(p, (i - 1) as nat);
    }
}

/// A table of multiples of the identity holds the affine identity in every
/// entry, whether it was normalized with one shared inversion or point by
/// point.
pub proof fn lemma_table_of_identity(p: PV, n: nat)
    requires
        crate::curve::proj_is_identity(p),
    ensures
        forall|j: int| 0 <= j < n ==> #[trigger] table_entries(p, n)[j] == affine_identity(),
{
    assert forall|j: int| 0 <= j < n implies #[trigger] table_entries(p, n)[j] == affine_identity() by {
        lemma_chain_of_identity(p, j as nat);
        crate::fp6::lemma_f6_mul_zero(crate::fp6::f6_inv(p.2));
        assert(chain_seq(p, n)[j] == p);
    }
}

/// Doubling the identity any number of times gives a point of Z zero.
pub proof fn lemma_double_n_identity(p: PV, n: nat)
    requires
        crate::curve::proj_is_identity(p),
    ensures
        crate::curve::proj_is_identity(proj_double_n(p, n)),
    decreases n,
{
    if n > 0 {
        lemma_double_n_identity(p, (n - 1) as nat);
        crate::curve::lemma_double_identity(proj_double_n(p, (n - 1) as nat));
    }
}

/// The base of every table of the identity is a point of Z zero.
pub proof fn lemma_bpt_base_identity(p: PV, i: nat)
    requires
        crate::curve::proj_is_identity(p),
    ensures
        crate::curve::proj_is_identity(bpt_base(p, i)),
    decreases i,
{
    if i > 0 {
        lemma_bpt_base_identity(p, (i - 1) as nat);
        lemma_double_n_identity(bpt_base(p, (i - 1) as nat), 8);
    }
}

/// Accumulating looked-up points from tables that hold only the identity
/// leaves a start other than the identity as it is, and turns a start of Z
/// zero into the identity.
pub proof fn lemma_fold_identity_tables(t: Seq<Seq<AV>>, d: Seq<i8>, start: PV, parity: int, n: nat)
    requires
        0 <= parity <= 1,
        n <= 32,
        d.len() == 64,
        t.len() == 32,
        forall|m: int| 0 <= m < 32 ==> (#[trigger] t[m]).len() == 8,
        forall|m: int, j: int| 0 <= m < 32 && 0 <= j < 8 ==> #[trigger] t[m][j] == affine_identity(),
        forall|i: int| 0 <= i < 64 ==> -8 <= #[trigger] d[i] <= 8,
    ensures
        !crate::curve::proj_is_identity(start) ==> bpt_fold(t, d, start, parity, n) == start,
        crate::curve::proj_is_identity(start) && n > 0 ==> bpt_fold(t, d, start, parity, n)
            == crate::curve::proj_identity(),
    decreases n,
{
    if n > 0 {
        let m = n - 1;
        lemma_fold_identity_tables(t, d, start, parity, m as nat);
        let x = d[2 * m + parity] as int;
        assert(table_point(t[m], x) == affine_identity());
        assert(proj_from_affine(table_point(t[m], x)) == crate::curve::proj_identity());
        let prev = bpt_fold(t, d, start, parity, m as nat);
        assert(bpt_fold(t, d, start, parity, n) == proj_add(prev, proj_from_affine(table_point(t[m], x))));
        if crate::curve::proj_is_identity(start) {
            assert(crate::curve::proj_is_identity(prev));
        }
    }
}

/// With tables that hold only the identity, fixed-base multiplication gives,
/// whatever the digits, 16 times the shift point plus the constant
/// `MINUS_SHIFT_POINT_16`: the seed and the constant meant to cancel it.
pub proof fn lemma_identity_tables_multiply(t: Seq<Seq<AV>>, d: Seq<i8>)
    requires
        d.len() == 64,
        t.len() == 32,
        forall|m: int| 0 <= m < 32 ==> (#[trigger] t[m]).len() == 8,
        forall|m: int, j: int| 0 <= m < 32 && 0 <= j < 8 ==> #[trigger] t[m][j] == affine_identity(),
        forall|i: int| 0 <= i < 64 ==> -8 <= #[trigger] d[i] <= 8,
    ensures
        bpt_mul(t, d) == proj_add(proj_double_n(shift_point_spec(), 4), proj_from_affine(minus_shift_16_spec())),
{
    lemma_fold_identity_tables(t, d, shift_point_spec(), 1, 32);
    lemma_fold_identity_tables(t, d, proj_double_n(shift_point_spec(), 4), 0, 32);
}

/// The tables built for a base point of Z zero hold only the identity.
pub proof fn lemma_identity_base_tables(p: PV)
    requires
        crate::curve::proj_is_identity(p),
    ensures
        forall|i: int, j: int|
            0 <= i < 32 && 0 <= j < 8 ==> #[trigger] table_entries(bpt_base(p, i as nat), 8)[j]
                == affine_identity(),
{
    assert forall|i: int, j: int| 0 <= i < 32 && 0 <= j < 8 implies #[trigger] table_entries(
        bpt_base(p, i as nat),
        8,
    )[j] == affine_identity() by {
        lemma_bpt_base_identity(p, i as nat);
        lemma_table_of_identity(bpt_base(p, i as nat), 8);
    }
}

/// Looking up a digit and its opposite gives opposite points, when the
/// entries' y are canonical.
pub proof fn lemma_lookup_negation(e: Seq<AV>, x: int)
    requires
        -(e.len() as int) <= x <= e.len(),
        forall|i: int| 0 <= i < e.len() ==> f6_canonical(#[trigger] e[i].1),
    ensures
        table_point(e, x) == affine_neg(table_point(e, -x)),
{
    if x > 0 {
        lemma_f6_neg_neg(e[x - 1].1);
    }
}

/// A table `[P, 2P, ..., NP]` of affine points.
#[derive(Clone, Debug)]
pub struct LookupTable<const N: usize>(pub Vec<AffinePoint>);

impl<const N: usize> LookupTable<N> {
    /// The affine entries.
    pub open spec fn entries(&self) -> Seq<AV> {
        Seq::new(self.0@.len(), |i: int| self.0@[i]@)
    }

    /// N entries, all canonical.
    pub open spec fn wf(&self) -> bool {
        self.0@.len() == N && forall|i: int| 0 <= i < N ==> (#[trigger] self.0@[i]).wf()
    }

    /// Overwrites every entry with zeros.
    pub fn zeroize(&mut self)
        ensures
            final(self).0@.len() == old(self).0@.len(),
            forall|i: int| 0 <= i < final(self).0@.len() ==> (#[trigger] final(self).0@[i])@ == (f6_zero(), f6_zero(), false),
    {
        let n = self.0.len();
        let mut i: usize = 0;
        while i < n
            invariant
                n == old(self).0@.len(),
                self.0@.len() == n,
                i <= n,
                forall|k: int| 0 <= k < i ==> (#[trigger] self.0@[k])@ == (f6_zero(), f6_zero(), false),
            decreases n - i,
        {
            let mut p = self.0[i];
            p.zeroize();
            self.0.set(i, p);
            i = i + 1;
        }
    }

    /// Builds the table of the first N multiples of `p`.
    pub fn from_projective(p: &ProjectivePoint) -> (r: LookupTable<N>)
        requires
            p.wf(),
        ensures
            r.wf(),
            r.entries() == table_entries(p@, N as nat),
    {
        let mut points: Vec<ProjectivePoint> = Vec::new();
        let mut cur = *p;
        let mut i: usize = 0;
        while i < N
            invariant
                i <= N,
                p.wf(),
                cur.wf(),
                i > 0 ==> cur@ == proj_chain(p@, (i - 1) as nat),
                i == 0 ==> cur == *p,
                points@.len() == i,
                forall|k: int| 0 <= k < i ==> (#[trigger] points@[k]).wf() && points@[k]@ == proj_chain(p@, k as nat),
            decreases N - i,
        {
            if i > 0 {
                cur = p.add(&cur);
            }
            points.push(cur);
            i = i + 1;
        }
        let ghost c = chain_seq(p@, N as nat);
        assert(proj_views(points@) =~= c);
        let v = ProjectivePoint::batch_normalize(points.as_slice());
        let r = LookupTable::<N>(v);
        assert(r.entries() =~= table_entries(p@, N as nat));
        r
    }

    /// Builds the table of the first N multiples of an affine point.
    pub fn from_affine(p: &AffinePoint) -> (r: LookupTable<N>)
        requires
            p.wf(),
        ensures
            r.wf(),
            r.entries() == table_entries(proj_from_affine(p@), N as nat),
    {
        LookupTable::from_projective(&ProjectivePoint::from_affine(p))
    }

    /// `x P` for a signed digit `x` in [-N, N], in constant time: every entry
    /// is scanned and the match selected, then negated when `x` is negative.
    pub fn get_point(&self, x: i8) -> (r: AffinePoint)
        requires
            self.wf(),
            N <= 127,
            -(N as int) <= x <= N as int,
        ensures
            r.wf(),
            r@ == table_point(self.entries(), x as int),
    {
        let neg: bool = x < 0;
        let xw: u64 = (x as i16 + 128) as u64;
        let xabs: u8 = crate::ct::ct_select_u64(xw.wrapping_sub(128), 128u64.wrapping_sub(xw), neg) as u8;
        let mut t = AffinePoint::identity();
        let mut j: usize = 1;
        while j <= N
            invariant
                self.wf(),
                N <= 127,
                1 <= j <= N + 1,
                xabs <= N,
                t.wf(),
                t@ == (if 1 <= xabs < j { self.entries()[xabs - 1] } else { affine_identity() }),
            decreases N + 1 - j,
        {
            let c = ct_eq_u8(xabs, j as u8);
            t = AffinePoint::conditional_select(&t, &self.0[j - 1], c);
            j = j + 1;
        }
        let minus = t.neg();
        AffinePoint::conditional_select(&t, &minus, neg)
    }

    /// `x P` for a signed digit `x` in [-N, N]; variable time in `x`.
    pub fn get_point_vartime(&self, x: i8) -> (r: AffinePoint)
        requires
            self.wf(),
            N <= 127,
            -(N as int) <= x <= N as int,
        ensures
            r.wf(),
            r@ == table_point(self.entries(), x as int),
    {
        let xabs: usize = if x < 0 {
            (-(x as i16)) as usize
        } else {
            x as usize
        };
        let t = if xabs == 0 {
            AffinePoint::identity()
        } else {
            self.0[xabs - 1]
        };
        if x < 0 {
            t.neg()
        } else {
            t
        }
    }
}

/// x of the shift point that seeds fixed-base accumulation: a fixed public
/// point of the curve, unrelated to any base point.
pub const SHIFT_POINT_X: [u64; 6] = [1007, 0, 0, 0, 7, 0];

/// y of the shift point.
pub const SHIFT_POINT_Y: [u64; 6] = [
    3389470901789117402,
    2667969284902803240,
    1765754031292036386,
    2135358163805831938,
    1441828985798885559,
    1284656764821021169,
];

/// x of minus 16 times the shift point: what fixed-base multiplication adds
/// at the end to take the seed back out.
pub const MINUS_SHIFT_POINT_16_X: [u64; 6] = [
    3679814606537835325,
    4477023993828059203,
    782026740364279105,
    509141408186340762,
    1060504661160785797,
    1074386842119953075,
];

/// y of minus 16 times the shift point.
pub const MINUS_SHIFT_POINT_16_Y: [u64; 6] = [
    2474837378802753671,
    1214397090077455271,
    820184154799616551,
    2933423090871977571,
    1337678655574839238,
    4533237707236725250,
];

/// The shift point, projective.
pub open spec fn shift_point_spec() -> PV {
    (f6_of(SHIFT_POINT_X@), f6_of(SHIFT_POINT_Y@), crate::fp6::f6_one())
}

/// Minus 16 times the shift point, affine.
pub open spec fn minus_shift_16_spec() -> AV {
    (f6_of(MINUS_SHIFT_POINT_16_X@), f6_of(MINUS_SHIFT_POINT_16_Y@), false)
}

/// The shift point that seeds fixed-base accumulation, so that the
/// accumulator is never the identity.
pub fn shift_point() -> (r: ProjectivePoint)
    ensures
        r.wf(),
        r@ == shift_point_spec(),
{
    ProjectivePoint { x: Fp6::new(SHIFT_POINT_X), y: Fp6::new(SHIFT_POINT_Y), z: Fp6::one() }
}

/// Minus 16 times the shift point.
pub fn minus_shift_point_16() -> (r: AffinePoint)
    ensures
        r.wf(),
        r@ == minus_shift_16_spec(),
{
    AffinePoint { x: Fp6::new(MINUS_SHIFT_POINT_16_X), y: Fp6::new(MINUS_SHIFT_POINT_16_Y), infinity: false }
}

/// The base of table `i`: `p` doubled 8 i times, in steps of 8.
pub open spec fn bpt_base(p: PV, i: nat) -> PV
    decreases i,
{
    if i == 0 {
        p
    } else {
        proj_double_n(bpt_base(p, (i - 1) as nat), 8)
    }
}

/// Accumulation from `start` of the looked-up points for the digits
/// `d[2 m + parity]` of the first `n` tables, by the full group law (so a
/// looked-up point that meets the accumulator is still added correctly).
pub open spec fn bpt_fold(t: Seq<Seq<AV>>, d: Seq<i8>, start: PV, parity: int, n: nat) -> PV
    decreases n,
{
    if n == 0 {
        start
    } else {
        let m = n - 1;
        proj_add(
            bpt_fold(t, d, start, parity, m as nat),
            proj_from_affine(table_point(t[m], d[2 * m + parity] as int)),
        )
    }
}

/// Fixed-base multiplication through the tables `t` for the radix-16 digits
/// `d`: the odd digits from the shift point, four doublings, the even
/// digits, and minus 16 times the shift point.
pub open spec fn bpt_mul(t: Seq<Seq<AV>>, d: Seq<i8>) -> PV {
    let odd = bpt_fold(t, d, shift_point_spec(), 1, 32);
    let even = bpt_fold(t, d, proj_double_n(odd, 4), 0, 32);
    proj_add(even, proj_from_affine(minus_shift_16_spec()))
}

/// Tables of multiples of a point `P`: table `i` holds the first 8 multiples
/// of 2^(8 i) P, spanning a signed radix-16 decomposition of a scalar.
#[derive(Clone, Debug)]
pub struct BasePointTable(pub Vec<LookupTable<8>>);

impl BasePointTable {
    /// The entries of each table.
    pub open spec fn tables(&self) -> Seq<Seq<AV>> {
        Seq::new(self.0@.len(), |i: int| self.0@[i].entries())
    }

    /// 32 well-formed tables.
    pub open spec fn wf(&self) -> bool {
        self.0@.len() == 32 && forall|i: int| 0 <= i < 32 ==> (#[trigger] self.0@[i]).wf()
    }

    /// Builds the tables for `basepoint`.
    pub fn create(basepoint: &ProjectivePoint) -> (r: BasePointTable)
        requires
            basepoint.wf(),
        ensures
            r.wf(),
            forall|i: int| 0 <= i < 32 ==> #[trigger] r.tables()[i] == table_entries(bpt_base(basepoint@, i as nat), 8),
    {
        let mut tables: Vec<LookupTable<8>> = Vec::new();
        let mut point = *basepoint;
        tables.push(LookupTable::from_projective(&point));
        let mut i: usize = 1;
        while i < 32
            invariant
                1 <= i <= 32,
                point.wf(),
                point@ == bpt_base(basepoint@, (i - 1) as nat),
                tables@.len() == i,
                forall|k: int| 0 <= k < i ==> (#[trigger] tables@[k]).wf() && tables@[k].entries() == table_entries(bpt_base(basepoint@, k as nat), 8),
            decreases 32 - i,
        {
            point = point.double_multi(8);
            tables.push(LookupTable::from_projective(&point));
            i = i + 1;
        }
        BasePointTable(tables)
    }

    /// Builds the tables for an affine base point.
    pub fn from_affine(p: &AffinePoint) -> (r: BasePointTable)
        requires
            p.wf(),
        ensures
            r.wf(),
            forall|i: int| 0 <= i < 32 ==> #[trigger] r.tables()[i] == table_entries(bpt_base(proj_from_affine(p@), i as nat), 8),
    {
        BasePointTable::create(&ProjectivePoint::from_affine(p))
    }

    /// The base point of these tables.
    pub fn get_basepoint(&self) -> (r: AffinePoint)
        requires
            self.wf(),
        ensures
            r.wf(),
            r@ == self.tables()[0][0],
    {
        self.0[0].get_point(1)
    }

    /// The base point of these tables, looked up in variable time.
    pub fn get_basepoint_vartime(&self) -> (r: AffinePoint)
        requires
            self.wf(),
        ensures
            r.wf(),
            r@ == self.tables()[0][0],
    {
        self.0[0].get_point_vartime(1)
    }

    /// Multiplies the base point by the scalar whose signed radix-16 digits
    /// are `a`, each in [-8, 8], in constant time.
    pub fn multiply_digits(&self, a: &[i8; 64]) -> (r: ProjectivePoint)
        requires
            self.wf(),
            forall|i: int| 0 <= i < 64 ==> -8 <= #[trigger] a[i] <= 8,
        ensures
            r.wf(),
            r@ == bpt_mul(self.tables(), a@),
    {
        let mut acc = shift_point();
        let mut m: usize = 0;
        while m < 32
            invariant
                self.wf(),
                m <= 32,
                forall|i: int| 0 <= i < 64 ==> -8 <= #[trigger] a[i] <= 8,
                acc.wf(),
                acc@ == bpt_fold(self.tables(), a@, shift_point_spec(), 1, m as nat),
            decreases 32 - m,
        {
            let q = self.0[m].get_point(a[2 * m + 1]);
            acc = acc.add_mixed(&q);
            m = m + 1;
        }
        acc = acc.double_multi(4);
        let ghost start = acc@;
        let mut m: usize = 0;
        while m < 32
            invariant
                self.wf(),
                m <= 32,
                forall|i: int| 0 <= i < 64 ==> -8 <= #[trigger] a[i] <= 8,
                acc.wf(),
                acc@ == bpt_fold(self.tables(), a@, start, 0, m as nat),
            decreases 32 - m,
        {
            let q = self.0[m].get_point(a[2 * m]);
            acc = acc.add_mixed(&q);
            m = m + 1;
        }
        acc.add_mixed(&minus_shift_point_16())
    }

    /// Multiplies the base point by the scalar whose signed radix-16 digits
    /// are `a`, each in [-8, 8]; variable time in the digits.
    pub fn multiply_digits_vartime(&self, a: &[i8; 64]) -> (r: ProjectivePoint)
        requires
            self.wf(),
            forall|i: int| 0 <= i < 64 ==> -8 <= #[trigger] a[i] <= 8,
        ensures
            r.wf(),
            r@ == bpt_mul(self.tables(), a@),
    {
        let mut acc = shift_point();
        let mut m: usize = 0;
        while m < 32
            invariant
                self.wf(),
                m <= 32,
                forall|i: int| 0 <= i < 64 ==> -8 <= #[trigger] a[i] <= 8,
                acc.wf(),
                acc@ == bpt_fold(self.tables(), a@, shift_point_spec(), 1, m as nat),
            decreases 32 - m,
        {
            let q = self.0[m].get_point_vartime(a[2 * m + 1]);
            acc = acc.add_mixed(&q);
            m = m + 1;
        }
        acc = acc.double_multi(4);
        let ghost start = acc@;
        let mut m: usize = 0;
        while m < 32
            invariant
                self.wf(),
                m <= 32,
                forall|i: int| 0 <= i < 64 ==> -8 <= #[trigger] a[i] <= 8,
                acc.wf(),
                acc@ == bpt_fold(self.tables(), a@, start, 0, m as nat),
            decreases 32 - m,
        {
            let q = self.0[m].get_point_vartime(a[2 * m]);
            acc = acc.add_mixed(&q);
            m = m + 1;
        }
        acc.add_mixed(&minus_shift_point_16())
    }

    /// Multiplies the base point by a 256-bit little-endian scalar whose top
    /// bit is clear, in constant time, through its signed radix-16 digits.
    pub fn multiply(&self, scalar: &[u8; 32]) -> (r: ProjectivePoint)
        requires
            self.wf(),
            scalar[31] <= 127,
        ensures
            r.wf(),
            r@ == bpt_mul(self.tables(), radix_16(scalar@)),
    {
        let a = bytes_to_radix_16(scalar);
        let r = self.multiply_digits(&a);
        r
    }

    /// Multiplies the base point by a 256-bit little-endian scalar whose top
    /// bit is clear, through its signed radix-16 digits; variable time in
    /// the scalar.
    pub fn multiply_vartime(&self, scalar: &[u8; 32]) -> (r: ProjectivePoint)
        requires
            self.wf(),
            scalar[31] <= 127,
        ensures
            r.wf(),
            r@ == bpt_mul(self.tables(), radix_16(scalar@)),
    {
        let a = bytes_to_radix_16(scalar);
        let r = self.multiply_digits_vartime(&a);
        r
    }

    /// Computes `a B + b q`, where B is this table's base point: the
    /// table serves `a` and on-the-fly doubling serves `b`. Constant time.
    pub fn multiply_double_with_point(&self, q: &ProjectivePoint, a: &[u8; 32], b: &[u8; 32]) -> (r: ProjectivePoint)
        requires
            self.wf(),
            q.wf(),
            a[31] <= 127,
        ensures
            r.wf(),
            r@ == proj_add(bpt_mul(self.tables(), radix_16(a@)), proj_mul(q@, b@)),
    {
        let x = bytes_to_radix_16(a);
        let s = self.multiply_digits(&x);
        let t = q.multiply(b);
        s.add(&t)
    }

    /// Computes `a B + b q`, where B is this table's base point; variable
    /// time in the scalars.
    pub fn multiply_double_with_point_vartime(&self, q: &ProjectivePoint, a: &[u8; 32], b: &[u8; 32]) -> (r: ProjectivePoint)
        requires
            self.wf(),
            q.wf(),
            a[31] <= 127,
        ensures
            r.wf(),
            r@ == proj_add(bpt_mul(self.tables(), radix_16(a@)), proj_mul(q@, b@)),
    {
        let x = bytes_to_radix_16(a);
        let s = self.multiply_digits_vartime(&x);
        let t = q.multiply_vartime(b);
        s.add(&t)
    }
}

} // verus!
