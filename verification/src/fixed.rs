//! Fixed-point scalar arithmetic.
//!
//! A scalar is an `i64` holding a real quantity times [`SCALE`].  All
//! operations truncate toward zero, exactly as the spec functions here state,
//! so callers can reason about results down to the last unit in the last
//! place.

use vstd::arithmetic::div_mod::lemma_div_is_ordered;
use vstd::prelude::*;

verus! {

/// Number of fixed-point units in 1.0.
pub const SCALE: i64 = 65536;

/// Absolute value over mathematical integers.
pub open spec fn abs_int(a: int) -> int {
    if a < 0 {
        -a
    } else {
        a
    }
}

/// Truncating (round-toward-zero) integer division, the semantics of
/// hardware division, stated over mathematical integers.
pub open spec fn div_trunc(a: int, b: int) -> int {
    let q = abs_int(a) / abs_int(b);
    if (a < 0) <==> (b < 0) {
        q
    } else {
        -q
    }
}

/// The product of two fixed-point scalars: `(a * b) / SCALE`, truncated.
/// The scale is written as its literal so the solver can fold it.
pub open spec fn mul_fx(a: int, b: int) -> int {
    div_trunc(a * b, 65536)
}

/// The quotient of two fixed-point scalars: `(a * SCALE) / b`, truncated.
pub open spec fn divi_fx(a: int, b: int) -> int {
    div_trunc(a * 65536, b)
}

/// `r` is the integer square root of `n`.
pub open spec fn is_isqrt(r: int, n: int) -> bool {
    &&& 0 <= r
    &&& r * r <= n
    &&& n < (r + 1) * (r + 1)
}

/// The integer square root of a nonnegative integer.
pub open spec fn isqrt_int(n: int) -> int {
    choose|r: int| is_isqrt(r, n)
}

/// The square root of a nonnegative fixed-point scalar: since `x` stands for
/// `x / SCALE`, the root in the same representation is `isqrt(x * SCALE)`.
pub open spec fn sqrt_fx(x: int) -> int {
    isqrt_int(x * 65536)
}

/// Magnitudes multiply: `|a * b| == |a| * |b|`.
pub proof fn lemma_abs_mul(a: int, b: int)
    by (nonlinear_arith)
    ensures
        abs_int(a * b) == abs_int(a) * abs_int(b),
{
}

/// A product of bounded factors is bounded by the product of the bounds.
pub proof fn lemma_mul_mag_bound(a: int, b: int, am: int, bm: int)
    by (nonlinear_arith)
    requires
        abs_int(a) <= am,
        abs_int(b) <= bm,
    ensures
        abs_int(a * b) <= am * bm,
{
}

/// Truncated division shrinks magnitudes and commutes with negation.
pub proof fn lemma_div_trunc_mag(a: int, b: int)
    requires
        b != 0,
    ensures
        abs_int(div_trunc(a, b)) == abs_int(a) / abs_int(b),
        abs_int(div_trunc(a, b)) <= abs_int(a),
        div_trunc(-a, b) == -div_trunc(a, b),
        0 <= a && b > 0 ==> div_trunc(a, b) == a / b,
{
    let q = abs_int(a) / abs_int(b);
    assert(0 <= q <= abs_int(a)) by (nonlinear_arith)
        requires
            q == abs_int(a) / abs_int(b),
            abs_int(b) >= 1,
            abs_int(a) >= 0,
    ;
}

/// A bound on the magnitude of a fixed-point product, from bounds on the
/// factors.
pub proof fn lemma_mul_fx_bound(a: int, b: int, am: int, bm: int)
    requires
        abs_int(a) <= am,
        abs_int(b) <= bm,
    ensures
        abs_int(mul_fx(a, b)) <= (am * bm) / 65536,
        abs_int(mul_fx(a, b)) <= am * bm,
{
    lemma_mul_mag_bound(a, b, am, bm);
    lemma_div_trunc_mag(a * b, 65536);
    lemma_div_is_ordered(abs_int(a * b), am * bm, 65536);
    assert((am * bm) / 65536 <= am * bm) by (nonlinear_arith)
        requires
            am * bm >= 0,
    ;
}

/// Fixed-point multiplication.
pub fn fmul(a: i64, b: i64) -> (r: i64)
    requires
        abs_int(mul_fx(a as int, b as int)) <= i64::MAX,
    ensures
        r == mul_fx(a as int, b as int),
{
    proof {
        lemma_mul_mag_bound(a as int, b as int, 0x8000_0000_0000_0000, 0x8000_0000_0000_0000);
    }
    let p: i128 = (a as i128) * (b as i128);
    let q: i128 = p / 65536;
    proof {
        lemma_div_trunc_mag(p as int, 65536);
        assert(q == div_trunc(p as int, 65536));
    }
    q as i64
}

/// Fixed-point division.
pub fn fdiv(a: i64, b: i64) -> (r: i64)
    requires
        b != 0,
        abs_int(divi_fx(a as int, b as int)) <= i64::MAX,
    ensures
        r == divi_fx(a as int, b as int),
{
    proof {
        lemma_mul_mag_bound(a as int, 65536, 0x8000_0000_0000_0000, 65536);
    }
    let p: i128 = (a as i128) * 65536;
    proof {
        lemma_div_trunc_mag(p as int, b as int);
    }
    let q: i128 = if b >= 1 {
        p / (b as i128)
    } else {
        let nb: i128 = -(b as i128);
        proof {
            lemma_div_trunc_mag(p as int, nb as int);
            assert(div_trunc(p as int, b as int) == -div_trunc(p as int, nb as int));
        }
        -(p / nb)
    };
    proof {
        assert(q == div_trunc(p as int, b as int));
    }
    q as i64
}

/// Negating one factor negates a fixed-point product exactly: truncation
/// toward zero is symmetric about zero.
pub proof fn lemma_mul_fx_neg(a: int, b: int)
    ensures
        mul_fx(a, -b) == -mul_fx(a, b),
        mul_fx(-a, b) == -mul_fx(a, b),
{
    assert(a * (-b) == -(a * b)) by (nonlinear_arith);
    assert((-a) * b == -(a * b)) by (nonlinear_arith);
    lemma_div_trunc_mag(a * b, 65536);
}

/// Multiplying by exactly one is exact for either sign: truncating the
/// quotient of `x * SCALE` by the scale gives back `x`.
pub proof fn lemma_mul_fx_identity(x: int)
    ensures
        mul_fx(x, 65536) == x,
{
    lemma_div_trunc_mag(x * 65536, 65536);
    lemma_abs_mul(x, 65536);
    lemma_div_is_ordered(abs_int(x) * 65536, abs_int(x) * 65536, 65536);
    vstd::arithmetic::div_mod::lemma_div_multiples_vanish(abs_int(x), 65536);
    assert(abs_int(x) * 65536 == 65536 * abs_int(x)) by (nonlinear_arith);
}

/// Truncating division by a positive divisor is monotone in the dividend.
pub proof fn lemma_div_trunc_ordered(x: int, y: int, b: int)
    requires
        x <= y,
        b >= 1,
    ensures
        div_trunc(x, b) <= div_trunc(y, b),
{
    lemma_div_trunc_mag(x, b);
    lemma_div_trunc_mag(y, b);
    if x >= 0 {
        lemma_div_is_ordered(x, y, b);
    } else if y < 0 {
        lemma_div_is_ordered(-y, -x, b);
    } else {
        assert(div_trunc(x, b) <= 0) by {
            assert(abs_int(x) / b >= 0) by (nonlinear_arith)
                requires
                    abs_int(x) >= 0,
                    b >= 1,
            ;
        }
        assert(div_trunc(y, b) >= 0) by {
            assert(abs_int(y) / b >= 0) by (nonlinear_arith)
                requires
                    abs_int(y) >= 0,
                    b >= 1,
            ;
        }
    }
}

/// Every nonnegative integer has an integer square root, so the chosen
/// witness of [`isqrt_int`] really is one.
pub proof fn lemma_isqrt_exists(n: int)
    requires
        n >= 0,
    ensures
        is_isqrt(isqrt_int(n), n),
    decreases n,
{
    if n == 0 {
        assert(is_isqrt(0, 0)) by (nonlinear_arith);
        lemma_isqrt_unique(0, 0);
    } else {
        lemma_isqrt_exists(n - 1);
        let p = isqrt_int(n - 1);
        if (p + 1) * (p + 1) <= n {
            assert(is_isqrt(p + 1, n)) by (nonlinear_arith)
                requires
                    is_isqrt(p, n - 1),
                    (p + 1) * (p + 1) <= n,
            ;
            lemma_isqrt_unique(n, p + 1);
        } else {
            assert(is_isqrt(p, n)) by (nonlinear_arith)
                requires
                    is_isqrt(p, n - 1),
                    (p + 1) * (p + 1) > n,
            ;
            lemma_isqrt_unique(n, p);
        }
    }
}

/// Any two integer square roots of the same number agree, so
/// [`isqrt_int`] is the unique witness.
pub proof fn lemma_isqrt_unique(n: int, r: int)
    requires
        is_isqrt(r, n),
    ensures
        isqrt_int(n) == r,
{
    assert(is_isqrt(isqrt_int(n), n)) by {
        assert(exists|q: int| is_isqrt(q, n));
    }
    let c = isqrt_int(n);
    assert(c == r) by (nonlinear_arith)
        requires
            is_isqrt(r, n),
            is_isqrt(c, n),
    ;
}

/// Integer square root of a wide unsigned value, rounded down.
pub fn isqrt_u128(n: u128) -> (r: u128)
    ensures
        is_isqrt(r as int, n as int),
        r == isqrt_int(n as int),
        r < 0x1_0000_0000_0000_0000,
{
    let mut lo: u128 = 0;
    let mut hi: u128 = 0x1_0000_0000_0000_0000;
    proof {
        assert((n as int) < 0x1_0000_0000_0000_0000int * 0x1_0000_0000_0000_0000int) by (nonlinear_arith)
            requires
                n as int <= 0xffffffffffffffffffffffffffffffff,
        ;
    }
    while lo + 1 < hi
        invariant
            0 <= lo < hi <= 0x1_0000_0000_0000_0000,
            (lo as int) * (lo as int) <= n as int,
            (n as int) < (hi as int) * (hi as int),
        decreases hi - lo,
    {
        let mid: u128 = lo + (hi - lo) / 2;
        proof {
            lemma_mul_mag_bound(mid as int, mid as int, 0xffff_ffff_ffff_ffff, 0xffff_ffff_ffff_ffff);
        }
        if mid * mid <= n {
            lo = mid;
        } else {
            hi = mid;
        }
    }
    proof {
        lemma_isqrt_unique(n as int, lo as int);
    }
    lo
}

/// An integer square root grows no faster than the bound of its square.
pub proof fn lemma_isqrt_below(r: int, n: int, m: int)
    by (nonlinear_arith)
    requires
        is_isqrt(r, n),
        n < m * m,
        m >= 0,
    ensures
        r < m,
{
}

/// Fixed-point square root, rounded down.
pub fn fsqrt(x: i64) -> (r: i64)
    requires
        x >= 0,
    ensures
        r == sqrt_fx(x as int),
        is_isqrt(r as int, x as int * 65536),
        r >= 0,
{
    let n: u128 = (x as u128) * 65536;
    proof {
        assert(n as int == (x as int) * 65536);
    }
    let root = isqrt_u128(n);
    proof {
        lemma_isqrt_below(root as int, n as int, 0x1_0000_0000_0000);
    }
    root as i64
}

} // verus!
