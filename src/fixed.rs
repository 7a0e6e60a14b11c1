//! Saturating fixed-point scalars: a raw `i64` stands for `raw / ONE`.
use vstd::prelude::*;

verus! {

/// The raw value of one.
pub const ONE: i64 = 65536;

/// The largest magnitude of a raw value; results saturate here.
pub const LIMIT: i64 = 2147483648;

/// `v` limited to `[-LIMIT, LIMIT]`.
pub open spec fn clamp(v: int) -> int {
    if v > LIMIT {
        LIMIT as int
    } else if v < -LIMIT {
        -LIMIT
    } else {
        v
    }
}

pub open spec fn in_range(v: int) -> bool {
    -LIMIT <= v <= LIMIT
}

/// Division of `n` by a positive `d`, rounded toward zero.
pub open spec fn trunc_div(n: int, d: int) -> int {
    if n >= 0 {
        n / d
    } else {
        -((-n) / d)
    }
}

/// Division rounded toward zero for any divisor; zero where `d == 0`.
pub open spec fn quot(n: int, d: int) -> int {
    if d > 0 {
        trunc_div(n, d)
    } else if d < 0 {
        -trunc_div(n, -d)
    } else {
        0
    }
}

/// Fixed-point product.
pub open spec fn mul_spec(a: int, b: int) -> int {
    clamp(trunc_div(a * b, ONE as int))
}

/// Fixed-point quotient; zero where `b == 0`.
pub open spec fn div_spec(a: int, b: int) -> int {
    clamp(quot(a * ONE, b))
}

/// Saturating sum.
pub open spec fn add_spec(a: int, b: int) -> int {
    clamp(a + b)
}

/// Saturating difference.
pub open spec fn sub_spec(a: int, b: int) -> int {
    clamp(a - b)
}

/// The integer square root: the largest `r` with `r * r <= n`.
pub open spec fn isqrt_spec(n: int) -> int
    decreases n,
{
    if n <= 0 {
        0
    } else {
        let r = isqrt_spec(n - 1);
        if (r + 1) * (r + 1) <= n {
            r + 1
        } else {
            r
        }
    }
}

/// Fixed-point square root; zero for a negative argument.
pub open spec fn sqrt_spec(a: int) -> int {
    if a <= 0 {
        0
    } else {
        clamp(isqrt_spec(a * ONE))
    }
}

pub proof fn lemma_isqrt_bounds(n: int)
    requires
        n >= 0,
    ensures
        isqrt_spec(n) >= 0,
        isqrt_spec(n) * isqrt_spec(n) <= n,
        n < (isqrt_spec(n) + 1) * (isqrt_spec(n) + 1),
    decreases n,
{
    if n > 0 {
        lemma_isqrt_bounds(n - 1);
        let r = isqrt_spec(n - 1);
        if (r + 1) * (r + 1) > n {
            assert(n < (r + 1) * (r + 1));
        } else {
            assert((r + 1) * (r + 1) == n) by (nonlinear_arith)
                requires
                    (r + 1) * (r + 1) <= n,
                    n - 1 < (r + 1) * (r + 1),
            ;
            assert(n < (r + 2) * (r + 2)) by (nonlinear_arith)
                requires
                    (r + 1) * (r + 1) == n,
                    r >= 0,
            ;
        }
    }
}

/// The square root is the only non-negative `r` with `r² <= n < (r + 1)²`.
pub proof fn lemma_isqrt_unique(n: int, r: int)
    requires
        n >= 0,
        r >= 0,
        r * r <= n,
        n < (r + 1) * (r + 1),
    ensures
        isqrt_spec(n) == r,
{
    lemma_isqrt_bounds(n);
    let s = isqrt_spec(n);
    if s < r {
        assert((s + 1) * (s + 1) <= r * r) by (nonlinear_arith)
            requires
                s + 1 <= r,
                s >= 0,
        ;
    } else if s > r {
        assert((r + 1) * (r + 1) <= s * s) by (nonlinear_arith)
            requires
                r + 1 <= s,
                r >= 0,
        ;
    }
}

/// `v` limited to the raw range.
pub fn clamp_wide(v: i128) -> (r: i64)
    ensures
        r == clamp(v as int),
{
    if v > LIMIT as i128 {
        LIMIT
    } else if v < -(LIMIT as i128) {
        -LIMIT
    } else {
        v as i64
    }
}

/// Division of `n` by a positive `d`, rounded toward zero.
pub fn div_trunc(n: i128, d: i128) -> (r: i128)
    requires
        d > 0,
        n > i128::MIN,
    ensures
        r == trunc_div(n as int, d as int),
{
    if n >= 0 {
        n / d
    } else {
        let m: i128 = -n;
        -(m / d)
    }
}

/// Saturating fixed-point product.
pub fn fx_mul(a: i64, b: i64) -> (r: i64)
    requires
        in_range(a as int),
        in_range(b as int),
    ensures
        r == mul_spec(a as int, b as int),
        in_range(r as int),
{
    assert(-0x4000_0000_0000_0000 <= (a as int) * (b as int) <= 0x4000_0000_0000_0000)
        by (nonlinear_arith)
        requires
            -0x8000_0000 <= a <= 0x8000_0000,
            -0x8000_0000 <= b <= 0x8000_0000,
    ;
    let p: i128 = (a as i128) * (b as i128);
    clamp_wide(div_trunc(p, ONE as i128))
}

/// Saturating fixed-point quotient; zero where `b == 0`.
pub fn fx_div(a: i64, b: i64) -> (r: i64)
    requires
        in_range(a as int),
    ensures
        r == div_spec(a as int, b as int),
        in_range(r as int),
{
    let n: i128 = (a as i128) * (ONE as i128);
    if b > 0 {
        clamp_wide(div_trunc(n, b as i128))
    } else if b < 0 {
        let d: i128 = -(b as i128);
        clamp_wide(-div_trunc(n, d))
    } else {
        0
    }
}

/// Saturating sum.
pub fn fx_add(a: i64, b: i64) -> (r: i64)
    requires
        in_range(a as int),
        in_range(b as int),
    ensures
        r == add_spec(a as int, b as int),
        in_range(r as int),
{
    clamp_wide(a as i128 + b as i128)
}

/// Saturating difference.
pub fn fx_sub(a: i64, b: i64) -> (r: i64)
    requires
        in_range(a as int),
        in_range(b as int),
    ensures
        r == sub_spec(a as int, b as int),
        in_range(r as int),
{
    clamp_wide(a as i128 - b as i128)
}

/// The integer square root of a non-negative `n`, by bisection.
pub fn isqrt(n: i128) -> (r: i128)
    requires
        0 <= n < 0x4000_0000_0000_0000_0000_0000_0000_0000,
    ensures
        r == isqrt_spec(n as int),
        0 <= r,
{
    let mut lo: i128 = 0;
    let mut hi: i128 = 0x8000_0000_0000_0000;
    assert(n < hi * hi) by (nonlinear_arith)
        requires
            hi == 0x8000_0000_0000_0000,
            n < 0x4000_0000_0000_0000_0000_0000_0000_0000,
    ;
    while hi - lo > 1
        invariant
            0 <= lo < hi <= 0x8000_0000_0000_0000,
            lo * lo <= n,
            n < hi * hi,
        decreases hi - lo,
    {
        let mid: i128 = lo + (hi - lo) / 2;
        assert(mid * mid <= 0x4000_0000_0000_0000_0000_0000_0000_0000) by (nonlinear_arith)
            requires
                0 <= mid <= 0x8000_0000_0000_0000,
        ;
        if mid * mid <= n {
            lo = mid;
        } else {
            hi = mid;
        }
    }
    proof {
        lemma_isqrt_unique(n as int, lo as int);
    }
    lo
}

/// Saturating fixed-point square root; zero for a non-positive argument.
pub fn fx_sqrt(a: i64) -> (r: i64)
    requires
        in_range(a as int),
    ensures
        r == sqrt_spec(a as int),
        0 <= r <= LIMIT,
{
    if a <= 0 {
        0
    } else {
        assert(0 < (a as int) * (ONE as int) <= 0x8000_0000 * 65536) by (nonlinear_arith)
            requires
                0 < a <= 0x8000_0000,
        ;
        clamp_wide(isqrt((a as i128) * (ONE as i128)))
    }
}

/// Multiplying by one changes nothing.
pub proof fn lemma_mul_one(x: int)
    requires
        in_range(x),
    ensures
        mul_spec(ONE as int, x) == x,
        mul_spec(x, ONE as int) == x,
{
    assert(x * ONE == ONE * x);
    if x >= 0 {
        vstd::arithmetic::div_mod::lemma_div_multiples_vanish(x, ONE as int);
    } else {
        vstd::arithmetic::div_mod::lemma_div_multiples_vanish(-x, ONE as int);
    }
    assert(ONE * (-x) == -(ONE * x));
}

/// Dividing by a positive integer stays in range and keeps the sign.
pub proof fn lemma_trunc_div_range(x: int, n: int)
    requires
        in_range(x),
        n >= 1,
    ensures
        in_range(trunc_div(x, n)),
        x >= 0 ==> trunc_div(x, n) >= 0,
{
    let m = if x >= 0 { x } else { -x };
    vstd::arithmetic::div_mod::lemma_div_is_ordered_by_denominator(m, 1, n);
    vstd::arithmetic::div_mod::lemma_div_is_ordered(0, m, n);
}

} // verus!
