//! Saturating Q32.32 fixed-point scalar arithmetic.
//!
//! A scalar is an `i64` holding `value * 2^32`. Every operation clips its
//! mathematical result into the `i64` range instead of wrapping, so each
//! executable function below is total and its contract states the exact
//! value it returns, over the spec functions of the same name.

use vstd::prelude::*;
use vstd::arithmetic::div_mod::lemma_fundamental_div_mod;
use vstd::arithmetic::div_mod::lemma_fundamental_div_mod_converse;

verus! {

/// One, in Q32.32: 2^32.
pub const Q_ONE: i64 = 4294967296;

/// A machine vector seen as a sequence of mathematical integers.
pub open spec fn ints_of(s: Seq<i64>) -> Seq<int> {
    s.map_values(|x: i64| x as int)
}

/// The Q32.32 scale factor as a plain integer, for spec arithmetic.
pub open spec fn q_scale() -> int {
    4294967296
}

/// Clips a mathematical integer into the `i64` range.
pub open spec fn clip_s(x: int) -> int {
    if x > i64::MAX as int {
        i64::MAX as int
    } else if x < i64::MIN as int {
        i64::MIN as int
    } else {
        x
    }
}

/// The absolute value.
pub open spec fn abs_s(x: int) -> int {
    if x >= 0 {
        x
    } else {
        -x
    }
}

/// Division truncated toward zero, for a positive divisor: the rounding the
/// executable magnitude arithmetic below produces.
pub open spec fn sdiv_s(x: int, d: int) -> int
    recommends
        d > 0,
{
    if x >= 0 {
        x / d
    } else {
        -((-x) / d)
    }
}

/// Saturating fixed-point addition.
pub open spec fn qadd_s(a: int, b: int) -> int {
    clip_s(a + b)
}

/// Saturating fixed-point subtraction.
pub open spec fn qsub_s(a: int, b: int) -> int {
    clip_s(a - b)
}

/// Saturating fixed-point negation.
pub open spec fn qneg_s(a: int) -> int {
    clip_s(-a)
}

/// Saturating fixed-point product: `(a * b) / 2^32`, truncated toward zero.
pub open spec fn qmul_s(a: int, b: int) -> int {
    clip_s(sdiv_s(a * b, q_scale()))
}

/// Saturating fixed-point quotient `a / b`. Division by zero saturates to
/// the signed extreme of the numerator's sign.
pub open spec fn qdiv_s(a: int, b: int) -> int {
    if b == 0 {
        if a > 0 {
            i64::MAX as int
        } else if a < 0 {
            i64::MIN as int
        } else {
            0
        }
    } else {
        let q = (abs_s(a) * q_scale()) / abs_s(b);
        if (a < 0) != (b < 0) {
            clip_s(-q)
        } else {
            clip_s(q)
        }
    }
}

/// Fixed-point value divided by a small positive plain integer.
pub open spec fn qdivk_s(a: int, k: int) -> int
    recommends
        k >= 1,
{
    sdiv_s(a, k)
}

fn clip128(x: i128) -> (r: i64)
    ensures
        r as int == clip_s(x as int),
{
    if x > i64::MAX as i128 {
        i64::MAX
    } else if x < i64::MIN as i128 {
        i64::MIN
    } else {
        x as i64
    }
}

fn abs_u(a: i64) -> (m: u64)
    ensures
        m as int == abs_s(a as int),
{
    if a >= 0 {
        a as u64
    } else {
        (-(a as i128)) as u64
    }
}

/// Clips `q` (or `-q` when `neg`) into the `i64` range.
fn clip_mag(neg: bool, q: u128) -> (r: i64)
    ensures
        r as int == clip_s(if neg { -(q as int) } else { q as int }),
{
    if neg {
        if q >= 9223372036854775808u128 {
            i64::MIN
        } else {
            (-(q as i128)) as i64
        }
    } else {
        if q > 9223372036854775807u128 {
            i64::MAX
        } else {
            q as i64
        }
    }
}

proof fn lemma_mul_sign_mag(a: int, b: int, ma: int, mb: int) by (nonlinear_arith)
    requires
        ma == abs_s(a),
        mb == abs_s(b),
    ensures
        a * b == if (a < 0) != (b < 0) { -(ma * mb) } else { ma * mb },
        ma * mb >= 0,
{
}

/// Saturating fixed-point addition.
pub fn qadd(a: i64, b: i64) -> (r: i64)
    ensures
        r as int == qadd_s(a as int, b as int),
{
    clip128(a as i128 + b as i128)
}

/// Saturating fixed-point subtraction.
pub fn qsub(a: i64, b: i64) -> (r: i64)
    ensures
        r as int == qsub_s(a as int, b as int),
{
    clip128(a as i128 - b as i128)
}

/// Saturating fixed-point negation.
pub fn qneg(a: i64) -> (r: i64)
    ensures
        r as int == qneg_s(a as int),
{
    clip128(-(a as i128))
}

/// Saturating fixed-point product.
pub fn qmul(a: i64, b: i64) -> (r: i64)
    ensures
        r as int == qmul_s(a as int, b as int),
{
    let ma = abs_u(a) as u128;
    let mb = abs_u(b) as u128;
    proof {
        assert(ma as int * mb as int <= 0x40000000000000000000000000000000int)
            by (nonlinear_arith)
            requires
                ma as int <= 0x8000000000000000int,
                mb as int <= 0x8000000000000000int,
                ma as int >= 0,
                mb as int >= 0,
        ;
    }
    let p: u128 = ma * mb;
    let q: u128 = p / 4294967296u128;
    let neg = (a < 0) != (b < 0);
    proof {
        lemma_mul_sign_mag(a as int, b as int, ma as int, mb as int);
    }
    clip_mag(neg, q)
}

/// Saturating fixed-point quotient.
pub fn qdiv(a: i64, b: i64) -> (r: i64)
    ensures
        r as int == qdiv_s(a as int, b as int),
{
    if b == 0 {
        if a > 0 {
            i64::MAX
        } else if a < 0 {
            i64::MIN
        } else {
            0
        }
    } else {
        let ma = (abs_u(a) as u128) * 4294967296u128;
        let mb = abs_u(b) as u128;
        let q: u128 = ma / mb;
        clip_mag((a < 0) != (b < 0), q)
    }
}

/// ln 2 in Q32.32, truncated: floor(0.6931471805599453 * 2^32).
pub const Q_LN2: i64 = 2977044471;

/// Above this argument (22 in Q32.32) the exponential saturates.
pub const Q_EXP_HI: i64 = 94489280512;

/// Below this argument (-23 in Q32.32) the exponential underflows to zero.
pub const Q_EXP_LO: i64 = -98784247808;

/// 2^k for small nonnegative k.
pub open spec fn pow2_s(k: int) -> int
    decreases k,
{
    if k <= 0 {
        1
    } else {
        2 * pow2_s(k - 1)
    }
}

proof fn lemma_pow2_le(k: int, n: int)
    requires
        0 <= k <= n,
    ensures
        1 <= pow2_s(k),
        pow2_s(k) <= pow2_s(n),
    decreases n,
{
    if n == 0 {
    } else if k == n {
        lemma_pow2_le(k - 1, n - 1);
    } else {
        lemma_pow2_le(k, n - 1);
    }
}

proof fn lemma_pow2_bound(k: int)
    requires
        0 <= k <= 34,
    ensures
        1 <= pow2_s(k) <= 0x400000000,
{
    lemma_pow2_le(k, 34);
    assert(pow2_s(34) == 0x400000000) by {
        reveal_with_fuel(pow2_s, 36);
    }
}

/// Scales a fixed-point value by 2^k, saturating upward and truncating
/// toward zero downward.
pub open spec fn scale_pow2_s(v: int, k: int) -> int {
    if k >= 0 {
        clip_s(v * pow2_s(k))
    } else {
        clip_s(sdiv_s(v, pow2_s(-k)))
    }
}

/// The Horner evaluation of the exponential's Taylor polynomial of degree
/// 16, from term `i` up: `acc_i = 1 + (r * acc_{i+1}) / i`.
pub open spec fn exp_taylor_s(r: int, i: int) -> int
    decreases 17 - i,
{
    if i >= 17 || i < 1 {
        q_scale()
    } else {
        qadd_s(q_scale(), qdivk_s(qmul_s(r, exp_taylor_s(r, i + 1)), i))
    }
}

/// The fixed-point exponential: range reduction by ln 2 followed by the
/// degree-16 Taylor polynomial and a power-of-two scaling.
pub open spec fn q_exp_s(x: int) -> int {
    if x >= Q_EXP_HI as int {
        i64::MAX as int
    } else if x < Q_EXP_LO as int {
        0
    } else {
        scale_pow2_s(exp_taylor_s(x % (Q_LN2 as int), 1), x / (Q_LN2 as int))
    }
}

/// Splits `x` as `k * ln2 + r` with `0 <= r < ln2`.
fn div_ln2(x: i64) -> (kr: (i64, i64))
    requires
        Q_EXP_LO <= x < Q_EXP_HI,
    ensures
        kr.0 as int == (x as int) / (Q_LN2 as int),
        kr.1 as int == (x as int) % (Q_LN2 as int),
        -34 <= kr.0 <= 31,
        0 <= kr.1 < Q_LN2,
{
    let l: u64 = Q_LN2 as u64;
    if x >= 0 {
        let ku: u64 = (x as u64) / l;
        let k = ku as i64;
        proof {
            lemma_fundamental_div_mod(x as u64 as int, l as int);
            lemma_fundamental_div_mod_converse(
                x as int, Q_LN2 as int, ku as int,
                x as int - ku as int * Q_LN2 as int);
        }
        let r = x - k * Q_LN2;
        (k, r)
    } else {
        let m: u64 = (-(x as i128)) as u64;
        let ku: u64 = (m + l - 1) / l;
        let k = -(ku as i64);
        proof {
            lemma_fundamental_div_mod((m + l - 1) as int, l as int);
            assert((ku as int) * (Q_LN2 as int) >= m as int);
            assert(((ku as int) * (Q_LN2 as int)) < (m as int) + (Q_LN2 as int));
            lemma_fundamental_div_mod_converse(
                x as int, Q_LN2 as int, -(ku as int),
                x as int + ku as int * Q_LN2 as int);
        }
        let r = x + (ku as i64) * Q_LN2;
        (k, r)
    }
}

/// The Horner loop for the exponential's Taylor polynomial.
fn exp_taylor(r: i64) -> (acc: i64)
    ensures
        acc as int == exp_taylor_s(r as int, 1),
{
    let mut acc: i64 = Q_ONE;
    let mut i: i64 = 16;
    while i >= 1
        invariant
            0 <= i <= 16,
            acc as int == exp_taylor_s(r as int, i as int + 1),
        decreases i,
    {
        acc = qadd(Q_ONE, qdivk(qmul(r, acc), i));
        i = i - 1;
    }
    acc
}

/// Scales a fixed-point value by 2^k.
fn scale_pow2(v: i64, k: i64) -> (r: i64)
    requires
        -34 <= k <= 34,
    ensures
        r as int == scale_pow2_s(v as int, k as int),
{
    let ka: u64 = if k >= 0 { k as u64 } else { (-k) as u64 };
    let mut p: u64 = 1;
    let mut j: u64 = 0;
    while j < ka
        invariant
            0 <= j <= ka <= 34,
            p as int == pow2_s(j as int),
        decreases ka - j,
    {
        proof {
            lemma_pow2_bound(j as int);
        }
        p = p * 2;
        j = j + 1;
    }
    proof {
        lemma_pow2_bound(ka as int);
    }
    if k >= 0 {
        proof {
            assert((v as int) * (p as int) <= 0x20000000000000000000000000int
                && (v as int) * (p as int) >= -0x20000000000000000000000000int)
                by (nonlinear_arith)
                requires
                    -0x8000000000000000int <= v as int <= 0x8000000000000000int,
                    0 <= p as int <= 0x400000000int,
            ;
        }
        clip128((v as i128) * (p as i128))
    } else {
        let mv = abs_u(v) as u128;
        let q = mv / (p as u128);
        clip_mag(v < 0, q)
    }
}

/// The fixed-point exponential `e^x`.
pub fn q_exp(x: i64) -> (r: i64)
    ensures
        r as int == q_exp_s(x as int),
{
    if x >= Q_EXP_HI {
        i64::MAX
    } else if x < Q_EXP_LO {
        0
    } else {
        let (k, r0) = div_ln2(x);
        let acc = exp_taylor(r0);
        scale_pow2(acc, k)
    }
}

/// Halves `m` until it is below 2, counting the steps in `e`.
pub open spec fn ln_norm_down_s(m: int, e: int) -> (int, int)
    decreases m,
{
    if m >= 2 * q_scale() {
        ln_norm_down_s(m / 2, e + 1)
    } else {
        (m, e)
    }
}

/// Doubles `m` until it reaches 1, counting the steps off `e`.
pub open spec fn ln_norm_up_s(m: int, e: int) -> (int, int)
    decreases 2 * q_scale() - m,
{
    if 1 <= m < q_scale() {
        ln_norm_up_s(2 * m, e - 1)
    } else {
        (m, e)
    }
}

/// The odd-power series of `ln` via `atanh`: sum of `tp / (2j+1)` with `tp`
/// stepping through the odd powers of `t`, ten terms.
pub open spec fn ln_sum_s(t2: int, tp: int, j: int) -> int
    decreases 10 - j,
{
    if j < 0 || j >= 10 {
        0
    } else {
        qadd_s(qdivk_s(tp, 2 * j + 1), ln_sum_s(t2, qmul_s(tp, t2), j + 1))
    }
}

/// The fixed-point natural logarithm: normalization to `[1, 2)`, the
/// `atanh` series there, and `e * ln 2` added back. Nonpositive arguments
/// saturate to the most negative value.
pub open spec fn q_ln_s(y: int) -> int {
    if y <= 0 {
        i64::MIN as int
    } else {
        let down = ln_norm_down_s(y, 0);
        let me = ln_norm_up_s(down.0, down.1);
        let t = qdiv_s(qsub_s(me.0, q_scale()), qadd_s(me.0, q_scale()));
        let s = ln_sum_s(qmul_s(t, t), t, 0);
        clip_s(me.1 * (Q_LN2 as int) + 2 * s)
    }
}

fn ln_sum(t2: i64, tp: i64, j: i64) -> (r: i64)
    requires
        0 <= j,
    ensures
        r as int == ln_sum_s(t2 as int, tp as int, j as int),
    decreases 10 - j,
{
    if j >= 10 {
        0
    } else {
        let rest = ln_sum(t2, qmul(tp, t2), j + 1);
        qadd(qdivk(tp, 2 * j + 1), rest)
    }
}

/// The fixed-point natural logarithm.
pub fn q_ln(y: i64) -> (r: i64)
    ensures
        r as int == q_ln_s(y as int),
{
    if y <= 0 {
        return i64::MIN;
    }
    let mut m: i64 = y;
    let mut e: i64 = 0;
    proof {
        assert(pow2_s(0) == 1);
    }
    while m >= 2 * Q_ONE
        invariant
            1 <= m,
            0 <= e <= 31,
            (m as int) * pow2_s(e as int) <= 2 * (y as int),
            ln_norm_down_s(y as int, 0) == ln_norm_down_s(m as int, e as int),
        decreases m,
    {
        proof {
            let mi = m as int;
            let ei = e as int;
            let yi = y as int;
            let h = mi / 2;
            let p = pow2_s(ei);
            lemma_pow2_le(ei, ei);
            assert(pow2_s(ei + 1) == 2 * p);
            assert(2 * h <= mi && 0 <= h);
            assert(h * (2 * p) <= 2 * yi) by (nonlinear_arith)
                requires
                    2 * h <= mi,
                    0 <= h,
                    1 <= p,
                    mi * p <= 2 * yi,
            ;
            assert(0x200000000int * p <= mi * p) by (nonlinear_arith)
                requires
                    0x200000000int <= mi,
                    1 <= p,
            ;
            if ei >= 31 {
                lemma_pow2_le(31, ei);
                assert(pow2_s(31) == 0x80000000) by {
                    reveal_with_fuel(pow2_s, 33);
                }
            }
            assert(ei <= 30);
        }
        m = ((m as u64) / 2) as i64;
        e = e + 1;
    }
    let mut d: i64 = 0;
    proof {
        assert(pow2_s(0) == 1);
    }
    while m < Q_ONE
        invariant
            1 <= m < 2 * Q_ONE,
            0 <= d <= 32,
            pow2_s(d as int) <= m as int,
            0 <= e <= 31,
            ln_norm_up_s(ln_norm_down_s(y as int, 0).0, ln_norm_down_s(y as int, 0).1)
                == ln_norm_up_s(m as int, (e - d) as int),
        decreases 2 * Q_ONE - m,
    {
        proof {
            if d as int >= 32 {
                lemma_pow2_le(32, d as int);
                assert(pow2_s(32) == 0x100000000) by {
                    reveal_with_fuel(pow2_s, 34);
                }
            }
        }
        m = m * 2;
        d = d + 1;
    }
    let ef: i64 = e - d;
    let t = qdiv(qsub(m, Q_ONE), qadd(m, Q_ONE));
    let s = ln_sum(qmul(t, t), t, 0);
    clip128((ef as i128) * (Q_LN2 as i128) + 2 * (s as i128))
}

/// Fixed-point value divided by a small positive plain integer.
pub fn qdivk(a: i64, k: i64) -> (r: i64)
    requires
        1 <= k,
    ensures
        r as int == qdivk_s(a as int, k as int),
{
    let ma = abs_u(a);
    let q = ma / (k as u64);
    proof {
        assert(q as int <= ma as int) by {
            vstd::arithmetic::div_mod::lemma_div_is_ordered_by_denominator(
                ma as int, 1, k as int);
            vstd::arithmetic::div_mod::lemma_div_basics(ma as int);
        }
    }
    if a >= 0 {
        q as i64
    } else {
        (-(q as i128)) as i64
    }
}

} // verus!
