//! Fixed-point scalar arithmetic.
//!
//! Every coordinate, colour channel and ray parameter in this crate is a
//! signed 64-bit integer holding the real value scaled by `FP_ONE` (2^16).
//! Products and quotients round toward zero, exactly as stated by `tdiv`
//! and the spec functions below, so every geometric routine has an exact
//! integer meaning that the verifier can reason about.

use vstd::prelude::*;

verus! {

/// The fixed-point unit: the representation of the real number 1.
pub const FP_ONE: i64 = 65536;

/// Magnitude cap for results of `fp_mul` / `fp_div`: 2^62.
pub const FP_LIMIT: i64 = 0x4000_0000_0000_0000;

/// Truncated (round-toward-zero) division, defined for positive divisors.
pub open spec fn tdiv(a: int, b: int) -> int
    recommends
        b > 0,
{
    if a >= 0 {
        a / b
    } else {
        -((-a) / b)
    }
}

/// Truncated division for any nonzero divisor.
pub open spec fn sdiv(a: int, b: int) -> int
    recommends
        b != 0,
{
    if b > 0 {
        tdiv(a, b)
    } else {
        tdiv(-a, -b)
    }
}

/// The fixed-point product of two scaled values.
pub open spec fn fpmul(a: int, b: int) -> int {
    tdiv(a * b, FP_ONE as int)
}

/// The fixed-point quotient of two scaled values.
pub open spec fn fpdiv(a: int, b: int) -> int
    recommends
        b != 0,
{
    sdiv(a * (FP_ONE as int), b)
}

/// `r` is the integer square root of `n`.
pub open spec fn is_isqrt(r: int, n: int) -> bool {
    0 <= r && r * r <= n && n < (r + 1) * (r + 1)
}

pub proof fn lemma_tdiv_mag(a: int, b: int)
    requires
        b > 0,
    ensures
        -abs_int(a) <= tdiv(a, b) <= abs_int(a),
        abs_int(tdiv(a, b)) * b <= abs_int(a),
        a >= 0 ==> tdiv(a, b) >= 0,
        a <= 0 ==> tdiv(a, b) <= 0,
{
    if a >= 0 {
        vstd::arithmetic::div_mod::lemma_div_nonincreasing(a, b);
        vstd::arithmetic::div_mod::lemma_div_pos_is_pos(a, b);
        vstd::arithmetic::div_mod::lemma_remainder_lower(a, b);
    } else {
        vstd::arithmetic::div_mod::lemma_div_nonincreasing(-a, b);
        vstd::arithmetic::div_mod::lemma_div_pos_is_pos(-a, b);
        vstd::arithmetic::div_mod::lemma_remainder_lower(-a, b);
    }
}

/// Magnitude of a mathematical integer.
pub open spec fn abs_int(a: int) -> int {
    if a >= 0 {
        a
    } else {
        -a
    }
}

pub proof fn lemma_sdiv_mag(a: int, b: int)
    requires
        b != 0,
    ensures
        abs_int(sdiv(a, b)) <= abs_int(a),
        abs_int(sdiv(a, b)) * abs_int(b) <= abs_int(a),
        a >= 0 && b > 0 ==> sdiv(a, b) >= 0,
        a <= 0 && b > 0 ==> sdiv(a, b) <= 0,
{
    if b > 0 {
        lemma_tdiv_mag(a, b);
        if a >= 0 {
            assert(abs_int(sdiv(a, b)) * b <= a);
        }
    } else {
        lemma_tdiv_mag(-a, -b);
    }
}

/// Truncated division is monotone in the numerator for a positive divisor.
pub proof fn lemma_tdiv_mono(a1: int, a2: int, b: int)
    requires
        a1 <= a2,
        b > 0,
    ensures
        tdiv(a1, b) <= tdiv(a2, b),
{
    if a1 >= 0 {
        vstd::arithmetic::div_mod::lemma_div_is_ordered(a1, a2, b);
    } else if a2 < 0 {
        vstd::arithmetic::div_mod::lemma_div_is_ordered(-a2, -a1, b);
    } else {
        vstd::arithmetic::div_mod::lemma_div_pos_is_pos(-a1, b);
        vstd::arithmetic::div_mod::lemma_div_pos_is_pos(a2, b);
    }
}

/// Truncated division is antitone in the numerator for a negative divisor.
pub proof fn lemma_sdiv_mono(a1: int, a2: int, b: int)
    requires
        a1 <= a2,
        b != 0,
    ensures
        b > 0 ==> sdiv(a1, b) <= sdiv(a2, b),
        b < 0 ==> sdiv(a2, b) <= sdiv(a1, b),
{
    if b > 0 {
        lemma_tdiv_mono(a1, a2, b);
    } else {
        lemma_tdiv_mono(-a2, -a1, -b);
    }
}

/// Truncated division by a positive divisor recovers the numerator to
/// within one divisor.
proof fn lemma_tdiv_err(a: int, b: int)
    requires
        b > 0,
    ensures
        abs_int(tdiv(a, b) * b - a) < b,
{
    if a >= 0 {
        vstd::arithmetic::div_mod::lemma_fundamental_div_mod(a, b);
        vstd::arithmetic::div_mod::lemma_mod_division_less_than_divisor(a, b);
        assert((a / b) * b == b * (a / b)) by (nonlinear_arith);
    } else {
        vstd::arithmetic::div_mod::lemma_fundamental_div_mod(-a, b);
        vstd::arithmetic::div_mod::lemma_mod_division_less_than_divisor(-a, b);
        assert(tdiv(a, b) * b == -(((-a) / b) * b)) by (nonlinear_arith)
            requires
                tdiv(a, b) == -((-a) / b),
        ;
        assert(((-a) / b) * b == b * ((-a) / b)) by (nonlinear_arith);
    }
}

/// Truncated division recovers the numerator to within one divisor:
/// `|sdiv(a, b) * b - a| < |b|`.
pub proof fn lemma_sdiv_err(a: int, b: int)
    requires
        b != 0,
    ensures
        abs_int(sdiv(a, b) * b - a) < abs_int(b),
{
    if b > 0 {
        lemma_tdiv_err(a, b);
    } else {
        lemma_tdiv_err(-a, -b);
        assert(sdiv(a, b) * b == -(tdiv(-a, -b) * (-b))) by (nonlinear_arith)
            requires
                sdiv(a, b) == tdiv(-a, -b),
        ;
        assert(abs_int(sdiv(a, b) * b - a) == abs_int(tdiv(-a, -b) * (-b) - (-a)))
            by (nonlinear_arith)
            requires
                sdiv(a, b) * b == -(tdiv(-a, -b) * (-b)),
        ;
    }
}

pub proof fn lemma_fpmul_mag(a: int, b: int)
    ensures
        abs_int(fpmul(a, b)) * (FP_ONE as int) <= abs_int(a * b),
        abs_int(fpmul(a, b)) <= abs_int(a * b),
{
    lemma_tdiv_mag(a * b, FP_ONE as int);
    assert(abs_int(fpmul(a, b)) * 1 <= abs_int(fpmul(a, b)) * (FP_ONE as int)) by (nonlinear_arith)
        requires
            abs_int(fpmul(a, b)) >= 0,
    ;
}

/// Truncated division of two wide integers, magnitudes kept in unsigned
/// arithmetic so that the semantics is exactly `sdiv`.
pub fn tdiv_i128(n: i128, d: i128) -> (q: i128)
    requires
        d != 0,
        -0x4000_0000_0000_0000_0000_0000_0000_0000 < n
            < 0x4000_0000_0000_0000_0000_0000_0000_0000,
        -0x4000_0000_0000_0000_0000_0000_0000_0000 < d
            < 0x4000_0000_0000_0000_0000_0000_0000_0000,
    ensures
        q == sdiv(n as int, d as int),
        abs_int(q as int) <= abs_int(n as int),
{
    let nm: u128 = if n >= 0 {
        n as u128
    } else {
        (-n) as u128
    };
    let dm: u128 = if d >= 0 {
        d as u128
    } else {
        (-d) as u128
    };
    let qm: u128 = nm / dm;
    proof {
        assert(qm <= nm) by {
            vstd::arithmetic::div_mod::lemma_div_nonincreasing(nm as int, dm as int);
        }
    }
    let neg: bool = (n < 0) != (d < 0);
    if neg {
        -(qm as i128)
    } else {
        qm as i128
    }
}

/// Fixed-point multiplication: `(a * b) / FP_ONE`, rounded toward zero.
pub fn fp_mul(a: i64, b: i64) -> (r: i64)
    requires
        -0x4000_0000_0000_0000_0000 <= (a as int) * (b as int) <= 0x4000_0000_0000_0000_0000,
    ensures
        r == fpmul(a as int, b as int),
        abs_int(r as int) * (FP_ONE as int) <= abs_int((a as int) * (b as int)),
{
    let p: i128 = (a as i128) * (b as i128);
    let q: i128 = tdiv_i128(p, FP_ONE as i128);
    proof {
        lemma_tdiv_mag(p as int, FP_ONE as int);
    }
    q as i64
}

/// Fixed-point division: `(a * FP_ONE) / b`, rounded toward zero.
/// The caller must show that the quotient fits in the fixed-point range.
pub fn fp_div(a: i64, b: i64) -> (r: i64)
    requires
        b != 0,
        -(FP_LIMIT as int) <= fpdiv(a as int, b as int) <= FP_LIMIT as int,
    ensures
        r == fpdiv(a as int, b as int),
{
    let p: i128 = (a as i128) * (FP_ONE as i128);
    let q: i128 = tdiv_i128(p, b as i128);
    q as i64
}

/// Euclidean division and remainder by a positive modulus: the quotient
/// is the floor, the remainder is nonnegative — exactly `/` and `%` on
/// mathematical integers.
pub fn floor_divrem(x: i64, m: u64) -> (qr: (i64, i64))
    requires
        0 < m <= 0x10_0000,
        -0x4000_0000_0000_0000 < x < 0x4000_0000_0000_0000,
    ensures
        qr.0 == (x as int) / (m as int),
        qr.1 == (x as int) % (m as int),
        0 <= qr.1 < m,
{
    if x >= 0 {
        let q: u64 = (x as u64) / m;
        let r: u64 = (x as u64) % m;
        (q as i64, r as i64)
    } else {
        let n: u64 = (-x) as u64;
        let nq: u64 = n / m;
        let nr: u64 = n % m;
        if nr == 0 {
            proof {
                vstd::arithmetic::div_mod::lemma_fundamental_div_mod(n as int, m as int);
                assert(x as int == (-(nq as int)) * (m as int) + 0) by (nonlinear_arith)
                    requires
                        x as int == -(n as int),
                        n as int == (m as int) * (nq as int) + (nr as int),
                        nr == 0,
                ;
                vstd::arithmetic::div_mod::lemma_fundamental_div_mod_converse(
                    x as int,
                    m as int,
                    -(nq as int),
                    0,
                );
            }
            (-(nq as i64), 0)
        } else {
            proof {
                vstd::arithmetic::div_mod::lemma_fundamental_div_mod(n as int, m as int);
                assert(x as int == (-(nq as int) - 1) * (m as int) + (m as int - nr as int))
                    by (nonlinear_arith)
                    requires
                        x as int == -(n as int),
                        n as int == (m as int) * (nq as int) + (nr as int),
                ;
                vstd::arithmetic::div_mod::lemma_fundamental_div_mod_converse(
                    x as int,
                    m as int,
                    -(nq as int) - 1,
                    m as int - nr as int,
                );
            }
            (-(nq as i64) - 1, m as i64 - nr as i64)
        }
    }
}

/// The fixed-point representation of pi.
pub const PI_FP: i64 = 205887;

/// The sine approximation on `[0, pi]`: the rational form
/// `16 x (pi - x) / (5 pi^2 - 4 x (pi - x))`, exact for the half-wave
/// ends and within about two percent between.
pub open spec fn bhaskara(m: int) -> int {
    let q = m * (PI_FP as int - m);
    tdiv(16 * q * (FP_ONE as int), 5 * (PI_FP as int) * (PI_FP as int) - 4 * q)
}

/// The full sine: reduce modulo one turn, mirror the second half-wave.
pub open spec fn sin_fp(x: int) -> int {
    let m = x % (2 * PI_FP as int);
    if m <= PI_FP as int {
        bhaskara(m)
    } else {
        -bhaskara(m - PI_FP as int)
    }
}

/// The half-wave approximation stays within `[0, 1]`.
fn bhaskara_exec(m: i64) -> (r: i64)
    requires
        0 <= m <= PI_FP,
    ensures
        r == bhaskara(m as int),
        0 <= r <= FP_ONE,
{
    proof {
        assert(-0x10_0000_0000 <= (m as int) * (PI_FP as int - m as int) <= 0x10_0000_0000)
            by (nonlinear_arith)
            requires
                0 <= m <= PI_FP,
                PI_FP == 205887,
        ;
    }
    let q: i64 = m * (PI_FP - m);
    let num: i128 = 16 * (q as i128) * (FP_ONE as i128);
    proof {
        assert(4 * (q as int) <= (PI_FP as int) * (PI_FP as int) && q >= 0) by (nonlinear_arith)
            requires
                q == m * (PI_FP as int - m),
                0 <= m <= PI_FP,
        ;
    }
    let den: i64 = 5 * PI_FP * PI_FP - 4 * q;
    let r: i128 = tdiv_i128(num, den as i128);
    proof {
        let s = FP_ONE as int;
        let d = den as int;
        assert(16 * (q as int) * s <= s * d) by (nonlinear_arith)
            requires
                d == 5 * (PI_FP as int) * (PI_FP as int) - 4 * (q as int),
                4 * (q as int) <= (PI_FP as int) * (PI_FP as int),
                q >= 0,
                s == 65536,
        ;
        lemma_tdiv_mono(16 * (q as int) * s, s * d, d);
        vstd::arithmetic::div_mod::lemma_div_multiples_vanish(s, d);
        vstd::arithmetic::div_mod::lemma_div_pos_is_pos(16 * (q as int) * s, d);
    }
    r as i64
}

/// The fixed-point sine; always within one unit.
pub fn fp_sin(x: i64) -> (r: i64)
    requires
        -0x4000_0000_0000_0000 < x < 0x4000_0000_0000_0000,
    ensures
        r == sin_fp(x as int),
        -FP_ONE <= r <= FP_ONE,
{
    let (_, m) = floor_divrem(x, (2 * PI_FP) as u64);
    if m <= PI_FP {
        bhaskara_exec(m)
    } else {
        -bhaskara_exec(m - PI_FP)
    }
}

/// Integer square root of a wide unsigned value, by binary search.
pub fn isqrt_u128(n: u128) -> (r: u128)
    ensures
        is_isqrt(r as int, n as int),
{
    let mut lo: u128 = 0;
    let mut hi: u128 = 0x1_0000_0000_0000_0000;
    if n < hi {
        hi = n + 1;
    }
    proof {
        assert((n as int) < (hi as int) * (hi as int)) by (nonlinear_arith)
            requires
                hi == 0x1_0000_0000_0000_0000 || hi == n + 1,
                n < 0x1_0000_0000_0000_0000_0000_0000_0000_0000,
                n >= 0,
        ;
    }
    while lo + 1 < hi
        invariant
            lo < hi,
            (lo as int) * (lo as int) <= n as int,
            (n as int) < (hi as int) * (hi as int),
            hi <= 0x1_0000_0000_0000_0000,
        decreases hi - lo,
    {
        let mid: u128 = lo + (hi - lo) / 2;
        proof {
            assert((mid as int) * (mid as int) < 0x1_0000_0000_0000_0000_0000_0000_0000_0000int)
                by (nonlinear_arith)
                requires
                    0 <= mid < 0x1_0000_0000_0000_0000,
            ;
        }
        if mid * mid <= n {
            lo = mid;
        } else {
            hi = mid;
        }
    }
    lo
}

/// Fixed-point square root of a nonnegative scaled value:
/// the integer square root of `x * FP_ONE`.
pub fn fp_sqrt(x: i64) -> (r: i64)
    requires
        x >= 0,
    ensures
        r >= 0,
        is_isqrt(r as int, (x as int) * (FP_ONE as int)),
{
    proof {
        assert((x as int) * (FP_ONE as int) < 0x8000_0000_0000_0000_0000int) by (nonlinear_arith)
            requires
                0 <= x < 0x8000_0000_0000_0000,
        ;
    }
    let w: u128 = (x as u128) * (FP_ONE as u128);
    let r: u128 = isqrt_u128(w);
    proof {
        assert((r as int) * (r as int) <= (x as int) * (FP_ONE as int));
        assert(r < 0x100_0000_0000) by (nonlinear_arith)
            requires
                (r as int) * (r as int) <= (x as int) * (FP_ONE as int),
                (x as int) * (FP_ONE as int) < 0x8000_0000_0000_0000_0000int,
                r >= 0,
        ;
    }
    r as i64
}

} // verus!
