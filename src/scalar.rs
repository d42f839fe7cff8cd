//! Signed radix-16 recoding of 256-bit scalars.
use vstd::arithmetic::power::{lemma_pow_adds, pow};
use vstd::prelude::*;

verus! {

/// The value of the first `n` signed radix-16 digits, least significant
/// first.
pub open spec fn digits_val(d: Seq<i8>, n: nat) -> int
    decreases n,
{
    if n == 0 {
        0
    } else {
        digits_val(d, (n - 1) as nat) + d[n - 1] * pow(16, (n - 1) as nat)
    }
}

/// The value of the first `n` bytes, least significant first.
pub open spec fn bytes_val(b: Seq<u8>, n: nat) -> int
    decreases n,
{
    if n == 0 {
        0
    } else {
        bytes_val(b, (n - 1) as nat) + b[n - 1] * pow(16, (2 * (n - 1)) as nat)
    }
}

/// Nibble `i` of the bytes `b`, least significant first.
pub open spec fn nibble(b: Seq<u8>, i: int) -> int {
    if i % 2 == 0 {
        (b[i / 2] & 15) as int
    } else {
        ((b[i / 2] >> 4) & 15) as int
    }
}

/// The carry into digit `i` of the signed recoding: one exactly when the
/// previous nibble plus its incoming carry is 8 or more.
pub open spec fn radix_carry(b: Seq<u8>, i: nat) -> int
    decreases i,
{
    if i == 0 {
        0
    } else {
        (nibble(b, i - 1) + radix_carry(b, (i - 1) as nat) + 8) / 16
    }
}

/// Digit `i` of the signed radix-16 recoding of the bytes `b`: the nibble
/// plus its incoming carry, less 16 for the carry it passes on (the top
/// digit keeps it).
pub open spec fn radix_digit(b: Seq<u8>, i: int) -> int {
    let raw = nibble(b, i) + radix_carry(b, i as nat);
    if i == 63 {
        raw
    } else {
        raw - 16 * radix_carry(b, (i + 1) as nat)
    }
}

/// The 64 signed radix-16 digits of the 32 bytes `b`.
pub open spec fn radix_16(b: Seq<u8>) -> Seq<i8> {
    Seq::new(64, |i: int| radix_digit(b, i) as i8)
}

proof fn lemma_digits_frame(a: Seq<i8>, b: Seq<i8>, n: nat)
    requires
        n <= a.len(),
        n <= b.len(),
        forall|k: int| 0 <= k < n ==> a[k] == b[k],
    ensures
        digits_val(a, n) == digits_val(b, n),
    decreases n,
{
    if n > 0 {
        lemma_digits_frame(a, b, (n - 1) as nat);
    }
}

proof fn lemma_digits_update(s: Seq<i8>, j: int, v: i8, n: nat)
    requires
        0 <= j < n,
        n <= s.len(),
    ensures
        digits_val(s.update(j, v), n) == digits_val(s, n) + (v - s[j]) * pow(16, j as nat),
    decreases n,
{
    if j < n - 1 {
        lemma_digits_update(s, j, v, (n - 1) as nat);
    } else {
        lemma_digits_frame(s.update(j, v), s, (n - 1) as nat);
        assert(digits_val(s.update(j, v), n) - digits_val(s, n) == (v - s[j]) * pow(16, j as nat))
            by (nonlinear_arith)
            requires
                digits_val(s.update(j, v), n) == digits_val(s.update(j, v), (n - 1) as nat) + v * pow(16, j as nat),
                digits_val(s, n) == digits_val(s, (n - 1) as nat) + s[j] * pow(16, j as nat),
                digits_val(s.update(j, v), (n - 1) as nat) == digits_val(s, (n - 1) as nat);
    }
}

proof fn lemma_pow16_succ(i: nat)
    ensures
        pow(16, i + 1) == 16 * pow(16, i),
{
    lemma_pow_adds(16, i, 1);
    vstd::arithmetic::power::lemma_pow1(16);
}

/// Recodes a 256-bit little-endian scalar whose top bit is clear into 64
/// signed radix-16 digits, least significant first, each in [-8, 8], with
/// the same value.
pub fn bytes_to_radix_16(bytes: &[u8; 32]) -> (r: [i8; 64])
    requires
        bytes[31] <= 127,
    ensures
        r@ == radix_16(bytes@),
        forall|i: int| 0 <= i < 64 ==> -8 <= #[trigger] r[i] <= 8,
        digits_val(r@, 64) == bytes_val(bytes@, 32),
{
    let mut out = [0i8; 64];
    let mut i: usize = 0;
    while i < 32
        invariant
            i <= 32,
            bytes[31] <= 127,
            forall|k: int| 0 <= k < 2 * i ==> 0 <= #[trigger] out[k] <= 15 && out[k] as int == nibble(bytes@, k),
            2 * i == 64 ==> out[63] <= 7,
            digits_val(out@, (2 * i) as nat) == bytes_val(bytes@, i as nat),
        decreases 32 - i,
    {
        let b = bytes[i];
        assert(b as int == (b & 15) as int + 16 * ((b >> 4) & 15) as int && (b & 15) < 16 && ((b >> 4)
            & 15) < 16) by (bit_vector);
        assert(b <= 127 ==> ((b >> 4) & 15) <= 7) by (bit_vector);
        let lo: i8 = (b & 15) as i8;
        let hi: i8 = ((b >> 4) & 15) as i8;
        let ghost before = out@;
        out[2 * i] = lo;
        let ghost mid = out@;
        out[2 * i + 1] = hi;
        assert((2 * i) / 2 == i as int && (2 * i) % 2 == 0 && (2 * i + 1) / 2 == i as int && (2 * i + 1) % 2 == 1);
        proof {
            let e = (2 * i) as nat;
            lemma_digits_frame(mid, before, e);
            lemma_digits_frame(out@, mid, e + 1);
            lemma_pow16_succ(e);
            assert(digits_val(out@, e + 2) == digits_val(before, e) + lo * pow(16, e) + hi * pow(16, e
                + 1));
            assert(lo * pow(16, e) + hi * pow(16, e + 1) == b * pow(16, e)) by (nonlinear_arith)
                requires
                    b == lo + 16 * hi,
                    pow(16, e + 1) == 16 * pow(16, e);
        }
        i = i + 1;
    }
    let ghost total = digits_val(out@, 64);
    let mut j: usize = 0;
    while j < 63
        invariant
            j <= 63,
            forall|k: int| 0 <= k < j ==> -8 <= #[trigger] out[k] < 8 && out[k] as int == radix_digit(bytes@, k),
            0 <= out[j as int] <= 16,
            out[j as int] as int == nibble(bytes@, j as int) + radix_carry(bytes@, j as nat),
            forall|k: int| j < k < 64 ==> #[trigger] out[k] as int == nibble(bytes@, k),
            forall|k: int| j < k < 63 ==> 0 <= #[trigger] out[k] <= 15,
            0 <= out[63],
            j < 63 ==> out[63] <= 7,
            j == 63 ==> out[63] <= 8,
            digits_val(out@, 64) == total,
        decreases 63 - j,
    {
        let x = out[j];
        let carry: i8 = (x + 8) / 16;
        assert(carry as int == radix_carry(bytes@, (j + 1) as nat));
        let ghost s0 = out@;
        out[j] = x - 16 * carry;
        let ghost s1 = out@;
        out[j + 1] = out[j + 1] + carry;
        proof {
            lemma_digits_update(s0, j as int, (x - 16 * carry) as i8, 64);
            lemma_digits_update(s1, j + 1, (s1[j + 1] + carry) as i8, 64);
            lemma_pow16_succ(j as nat);
            assert((x - 16 * carry - x) * pow(16, j as nat) + carry * pow(16, (j + 1) as nat) == 0)
                by (nonlinear_arith)
                requires
                    pow(16, (j + 1) as nat) == 16 * pow(16, j as nat);
        }
        j = j + 1;
    }
    assert(out@ =~= radix_16(bytes@));
    out
}

} // verus!
