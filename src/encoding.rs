//! Byte encodings of affine points.
//!
//! Uncompressed: the 48 bytes of x, then the 48 bytes of y; the identity is
//! all zeros but for bit 6 of the last byte. Compressed: the 48 bytes of x,
//! with bit 7 of the last byte set when y is lexicographically largest and
//! bit 6 set for the identity (all other bits zero). Coordinates must be
//! canonical; neither decoder checks curve or subgroup membership beyond what
//! is needed to recover y.
use crate::curve::{affine_identity, b, curve_b, AffinePoint, AV};
use crate::fp6::{
    f6_add, f6_zero, f6_canonical, f6_exp, f6_from_bytes, le_byte, lemma_bytes_round_trip, f6_largest, f6_mul, f6_neg, f6_one, f6_to_bytes, Fp6, F6,
    MODULUS_MINUS_ONE_DIV_TWO,
};
use vstd::prelude::*;

verus! {

/// The flag for the identity, in the last byte.
pub const INFINITY_FLAG: u8 = 0x40;

/// The flag for the sign of y in a compressed encoding, in the last byte.
pub const SIGN_FLAG: u8 = 0x80;

/// `n` bytes, all zero but the last, which is `last`.
pub open spec fn flagged_zeros(n: nat, last: u8) -> Seq<u8> {
    Seq::new(n, |k: int| if k == n - 1 { last } else { 0u8 })
}

/// The uncompressed encoding.
pub open spec fn encode_uncompressed(p: AV) -> Seq<u8> {
    if p.2 {
        flagged_zeros(96, INFINITY_FLAG)
    } else {
        f6_to_bytes(p.0) + f6_to_bytes(p.1)
    }
}

/// What an uncompressed encoding decodes to: `None` unless it has 96 bytes
/// and is the encoding of the identity or of canonical coordinates.
pub open spec fn decode_uncompressed(b: Seq<u8>) -> Option<AV> {
    if b.len() != 96 {
        None
    } else if b == flagged_zeros(96, INFINITY_FLAG) {
        Some(affine_identity())
    } else {
        let x = f6_from_bytes(b.subrange(0, 48));
        let y = f6_from_bytes(b.subrange(48, 96));
        if f6_to_bytes(x) + f6_to_bytes(y) == b {
            Some((x, y, false))
        } else {
            None
        }
    }
}

/// The compressed encoding.
pub open spec fn encode_compressed(p: AV) -> Seq<u8> {
    if p.2 {
        flagged_zeros(48, INFINITY_FLAG)
    } else {
        let xb = f6_to_bytes(p.0);
        if f6_largest(p.1) {
            xb.update(47, (xb[47] | SIGN_FLAG) as u8)
        } else {
            xb
        }
    }
}

/// x^3 + x + B.
pub open spec fn curve_rhs(x: F6) -> F6 {
    f6_add(f6_add(f6_mul(f6_mul(x, x), x), x), curve_b())
}

/// The x coordinate that a compressed encoding holds, with the sign flag
/// cleared.
pub open spec fn compressed_x(b: Seq<u8>) -> F6 {
    f6_from_bytes(b.update(47, (b[47] & 0x3f) as u8))
}

/// Whether a byte string is well formed as a compressed encoding of a point
/// other than the identity: 48 bytes, identity flag clear, x canonical.
pub open spec fn compressed_x_ok(b: Seq<u8>) -> bool {
    b.len() == 48 && b[47] & INFINITY_FLAG == 0 && f6_to_bytes(compressed_x(b)) == b.update(
        47,
        (b[47] & 0x3f) as u8,
    )
}

/// Decoding the uncompressed encoding of a point with canonical
/// coordinates gives the point back (the identity in its own form).
pub proof fn lemma_uncompressed_round_trip(p: AV)
    requires
        f6_canonical(p.0),
        f6_canonical(p.1),
    ensures
        decode_uncompressed(encode_uncompressed(p)) == Some(if p.2 { affine_identity() } else { p }),
{
    let b = encode_uncompressed(p);
    if !p.2 {
        let xb = f6_to_bytes(p.0);
        let yb = f6_to_bytes(p.1);
        assert(b.subrange(0, 48) =~= xb);
        assert(b.subrange(48, 96) =~= yb);
        lemma_bytes_round_trip(p.0);
        lemma_bytes_round_trip(p.1);
        let top: u64 = p.1.2.1 as u64;
        assert(top < 0x4000_0000_0000_0000 ==> ((top >> 56u64) & 0xff) < 0x40) by (bit_vector);
        assert(b[95] == yb[47]);
        assert(b[95] != INFINITY_FLAG);
        assert(b != flagged_zeros(96, INFINITY_FLAG));
    }
}

/// Setting the sign flag (or not) in a last byte below 0x40 leaves the
/// identity flag clear, is read back by the sign mask, and is undone by
/// clearing the two flag bits.
proof fn lemma_flag_byte(xb: Seq<u8>, flag: bool)
    requires
        xb.len() == 48,
        xb[47] < 0x40,
    ensures
        ({
            let b = if flag { xb.update(47, (xb[47] | SIGN_FLAG) as u8) } else { xb };
            &&& b.update(47, (b[47] & 0x3f) as u8) == xb
            &&& b[47] & INFINITY_FLAG == 0
            &&& (b[47] & SIGN_FLAG != 0) == flag
            &&& b[47] != INFINITY_FLAG
        }),
{
    let v = xb[47];
    let w: u8 = (v | SIGN_FLAG) as u8;
    assert(v < 0x40 ==> (w & 0x3f) == v && (w & 0x40) == 0 && (w & 0x80) != 0 && w != 0x40) by (bit_vector)
        requires w == v | 0x80;
    assert(v < 0x40 ==> (v & 0x3f) == v && (v & 0x40) == 0 && (v & 0x80) == 0) by (bit_vector);
    assert(SIGN_FLAG == 0x80 && INFINITY_FLAG == 0x40);
    if flag {
        let b = xb.update(47, w);
        assert(b[47] == w);
        assert(b.update(47, (b[47] & 0x3f) as u8) =~= xb);
    } else {
        assert(xb.update(47, (xb[47] & 0x3f) as u8) =~= xb);
    }
}

/// The compressed encoding of a point with canonical coordinates, other
/// than the identity, is well formed, holds its x, and flags the sign of its
/// y: so decoding it gives back, if anything, a point with the same x and the
/// same sign of y (and, by the decoder's contract, a y squaring to
/// x^3 + x + B).
pub proof fn lemma_compressed_round_trip(p: AV)
    requires
        f6_canonical(p.0),
        f6_canonical(p.1),
        !p.2,
    ensures
        encode_compressed(p) != flagged_zeros(48, INFINITY_FLAG),
        compressed_x_ok(encode_compressed(p)),
        compressed_x(encode_compressed(p)) == p.0,
        (encode_compressed(p)[47] & SIGN_FLAG != 0) == f6_largest(p.1),
{
    let xb = f6_to_bytes(p.0);
    let top: u64 = p.0.2.1 as u64;
    assert(xb[47] == le_byte(top, 7));
    assert(top < 0x4000_0000_0000_0000 ==> ((top >> 56u64) & 0xff) < 0x40) by (bit_vector);
    lemma_flag_byte(xb, f6_largest(p.1));
    lemma_bytes_round_trip(p.0);
    let b = encode_compressed(p);
    assert(b[47] != flagged_zeros(48, INFINITY_FLAG)[47]);
}

fn bytes_eq(a: &[u8], b: &[u8]) -> (r: bool)
    ensures
        r == (a@ == b@),
{
    if a.len() != b.len() {
        return false;
    }
    let mut i: usize = 0;
    let mut eq = true;
    while i < a.len()
        invariant
            a@.len() == b@.len(),
            i <= a@.len(),
            eq == (forall|k: int| 0 <= k < i ==> a@[k] == b@[k]),
        decreases a@.len() - i,
    {
        eq = eq && a[i] == b[i];
        i = i + 1;
    }
    if eq {
        assert(a@ =~= b@);
    }
    eq
}

fn flagged_zeros_vec(n: usize, last: u8) -> (r: Vec<u8>)
    requires
        n > 0,
    ensures
        r@ == flagged_zeros(n as nat, last),
{
    let mut v: Vec<u8> = Vec::new();
    let mut i: usize = 0;
    while i < n
        invariant
            i <= n,
            v@ == flagged_zeros(n as nat, last).subrange(0, i as int),
        decreases n - i,
    {
        if i == n - 1 {
            v.push(last);
        } else {
            v.push(0u8);
        }
        i = i + 1;
    }
    assert(flagged_zeros(n as nat, last).subrange(0, n as int) == flagged_zeros(n as nat, last));
    v
}

fn decode_compressed_x(bytes: &[u8]) -> (r: Option<Fp6>)
    requires
        bytes@.len() == 48,
    ensures
        r is Some <==> compressed_x_ok(bytes@),
        r matches Some(x) ==> x.wf() && x@ == compressed_x(bytes@),
{
    let mut xb = [0u8; 48];
    let mut i: usize = 0;
    while i < 48
        invariant
            i <= 48,
            bytes@.len() == 48,
            forall|k: int| 0 <= k < i ==> xb[k] == bytes@[k],
        decreases 48 - i,
    {
        xb[i] = bytes[i];
        i = i + 1;
    }
    let last = bytes[47];
    xb[47] = last & 0x3f;
    assert(xb@ == bytes@.update(47, (bytes@[47] & 0x3f) as u8));
    let x = Fp6::from_bytes(&xb);
    let canon = x.to_bytes();
    if last & INFINITY_FLAG != 0 || !bytes_eq(&canon, &xb) {
        None
    } else {
        Some(x)
    }
}

fn recover_y(x: &Fp6, want: bool) -> (r: Option<Fp6>)
    requires
        x.wf(),
    ensures
        r matches Some(y) ==> y.wf() && f6_mul(y@, y@) == curve_rhs(x@) && f6_largest(y@) == want,
        curve_rhs(x@) != f6_zero() && f6_exp(curve_rhs(x@), MODULUS_MINUS_ONE_DIV_TWO@) != f6_one() ==> r is None,
{
    let rhs = x.square().mul(x).add(x).add(&b());
    match rhs.sqrt_vartime() {
        None => None,
        Some(y) => {
            let y = if y.lexicographically_largest() == want {
                y
            } else {
                y.neg()
            };
            if y.lexicographically_largest() == want && y.square().ct_eq(&rhs) {
                Some(y)
            } else {
                None
            }
        },
    }
}

impl AffinePoint {
    /// The 96-byte uncompressed encoding.
    pub fn to_uncompressed(&self) -> (r: Vec<u8>)
        requires
            self.wf(),
        ensures
            r@ == encode_uncompressed(self@),
    {
        if self.infinity {
            flagged_zeros_vec(96, INFINITY_FLAG)
        } else {
            let xb = self.x.to_bytes();
            let yb = self.y.to_bytes();
            let mut v: Vec<u8> = Vec::new();
            let mut i: usize = 0;
            while i < 48
                invariant
                    i <= 48,
                    v@ == xb@.subrange(0, i as int),
                decreases 48 - i,
            {
                v.push(xb[i]);
                i = i + 1;
            }
            let mut j: usize = 0;
            while j < 48
                invariant
                    j <= 48,
                    v@ == xb@ + yb@.subrange(0, j as int),
                decreases 48 - j,
            {
                v.push(yb[j]);
                j = j + 1;
            }
            assert(xb@.subrange(0, 48) == xb@);
            assert(yb@.subrange(0, 48) == yb@);
            v
        }
    }

    /// Decodes an uncompressed encoding; `None` on a wrong length, on
    /// misplaced flags or on coordinates that are not canonical.
    pub fn from_uncompressed(bytes: &[u8]) -> (r: Option<AffinePoint>)
        ensures
            r matches Some(p) ==> p.wf(),
            match (r, decode_uncompressed(bytes@)) {
                (None, None) => true,
                (Some(p), Some(v)) => p@ == v,
                _ => false,
            },
    {
        if bytes.len() != 96 {
            return None;
        }
        let id = flagged_zeros_vec(96, INFINITY_FLAG);
        if bytes_eq(bytes, id.as_slice()) {
            return Some(AffinePoint::identity());
        }
        let mut xb = [0u8; 48];
        let mut yb = [0u8; 48];
        let mut i: usize = 0;
        while i < 48
            invariant
                i <= 48,
                bytes@.len() == 96,
                forall|k: int| 0 <= k < i ==> xb[k] == bytes@[k] && yb[k] == bytes@[k + 48],
            decreases 48 - i,
        {
            xb[i] = bytes[i];
            yb[i] = bytes[i + 48];
            i = i + 1;
        }
        assert(xb@ == bytes@.subrange(0, 48));
        assert(yb@ == bytes@.subrange(48, 96));
        let x = Fp6::from_bytes(&xb);
        let y = Fp6::from_bytes(&yb);
        let p = AffinePoint { x, y, infinity: false };
        let enc = p.to_uncompressed();
        if bytes_eq(enc.as_slice(), bytes) {
            Some(p)
        } else {
            None
        }
    }

    /// The point with abscissa `x` whose y is lexicographically largest or
    /// not as `largest` says; `None` when no square root of x^3 + x + B was
    /// found.
    pub fn from_x(x: &Fp6, largest: bool) -> (r: Option<AffinePoint>)
        requires
            x.wf(),
        ensures
            r matches Some(p) ==> p.wf() && !p.infinity && p.x == *x && f6_mul(p.y@, p.y@) == curve_rhs(x@)
                && f6_largest(p.y@) == largest,
            curve_rhs(x@) != f6_zero() && f6_exp(curve_rhs(x@), MODULUS_MINUS_ONE_DIV_TWO@) != f6_one() ==> r is None,
    {
        match recover_y(x, largest) {
            None => None,
            Some(y) => Some(AffinePoint { x: *x, y, infinity: false }),
        }
    }

    /// The 48-byte compressed encoding.
    pub fn to_compressed(&self) -> (r: [u8; 48])
        requires
            self.wf(),
        ensures
            r@ == encode_compressed(self@),
    {
        if self.infinity {
            let mut r = [0u8; 48];
            r[47] = INFINITY_FLAG;
            assert(r@ == flagged_zeros(48, INFINITY_FLAG));
            r
        } else {
            let mut r = self.x.to_bytes();
            if self.y.lexicographically_largest() {
                r[47] = r[47] | SIGN_FLAG;
            }
            r
        }
    }

    /// Decodes a compressed encoding, recovering y by a square root of
    /// x^3 + x + B and choosing the root whose sign matches the flag.
    /// `None` on a wrong length, on misplaced flags, on an x that is not
    /// canonical, or when no square root was found.
    #[verifier::rlimit(40)]
    pub fn from_compressed(bytes: &[u8]) -> (r: Option<AffinePoint>)
        ensures
            r matches Some(p) ==> p.wf(),
            bytes@.len() != 48 ==> r is None,
            bytes@ == flagged_zeros(48, INFINITY_FLAG) ==> (r matches Some(p) && p@ == affine_identity()),
            bytes@ != flagged_zeros(48, INFINITY_FLAG) ==> (r matches Some(p) ==> (
                compressed_x_ok(bytes@) && !p.infinity && p.x@ == compressed_x(bytes@)
                && f6_mul(p.y@, p.y@) == curve_rhs(p.x@) && f6_largest(p.y@) == (bytes@[47]
                & SIGN_FLAG != 0))),
            bytes@.len() == 48 && curve_rhs(compressed_x(bytes@)) != f6_zero() && f6_exp(
                curve_rhs(compressed_x(bytes@)),
                MODULUS_MINUS_ONE_DIV_TWO@,
            ) != f6_one() && bytes@ != flagged_zeros(48, INFINITY_FLAG) ==> r is None,
    {
        if bytes.len() != 48 {
            return None;
        }
        let id = flagged_zeros_vec(48, INFINITY_FLAG);
        if bytes_eq(bytes, id.as_slice()) {
            return Some(AffinePoint::identity());
        }
        let x = match decode_compressed_x(bytes) {
            None => { return None; },
            Some(x) => x,
        };
        let last = bytes[47];
        let want = last & SIGN_FLAG != 0;
        match recover_y(&x, want) {
            None => None,
            Some(y) => Some(AffinePoint { x, y, infinity: false }),
        }
    }
}

} // verus!
