use vstd::prelude::*;

verus! {

/// Fixed-point scale of lengths: one unit of length is `UNIT` steps.
pub const UNIT: i64 = 1000;

/// Fixed-point scale of time: one second is `TIME_UNIT` ticks.
pub const TIME_UNIT: i64 = 1_000_000;

/// Largest magnitude a stored coordinate, velocity or force component may take.
pub const LIMIT: i64 = 1_000_000_000_000;

/// Saturates a value into the representable range `[-LIMIT, LIMIT]`.
pub open spec fn clamp(v: int) -> int {
    if v > LIMIT as int {
        LIMIT as int
    } else if v < -(LIMIT as int) {
        -(LIMIT as int)
    } else {
        v
    }
}

pub open spec fn in_range(v: int) -> bool {
    -(LIMIT as int) <= v <= LIMIT as int
}

pub open spec fn abs(v: int) -> int {
    if v < 0 {
        -v
    } else {
        v
    }
}

/// Division rounding toward zero, for a positive divisor.
pub open spec fn div_trunc(a: int, b: int) -> int {
    if a >= 0 {
        a / b
    } else {
        -((-a) / b)
    }
}

/// The integer square root: the largest `r` with `r * r <= n`.
pub open spec fn is_isqrt(n: int, r: int) -> bool {
    0 <= r && r * r <= n && n < (r + 1) * (r + 1)
}

/// Inputs of the integer square root stay below this bound (2 to the 126th).
pub const ROOT_INPUT_LIMIT: u128 = 0x4000_0000_0000_0000_0000_0000_0000_0000;

/// Fixed-point scale at which square roots are taken, so that a root carries
/// twenty more bits than the integer root of the unscaled value.
pub const ROOT_SCALE: i64 = 1_048_576;

/// The smallest `c` with `c * c >= n`, for a non-negative `n`.
pub open spec fn sqrt_ceil(n: int) -> int {
    if sqrt_floor(n) * sqrt_floor(n) == n {
        sqrt_floor(n)
    } else {
        sqrt_floor(n) + 1
    }
}

/// A non-negative `x` whose square is at most `n <= c * c` is at most `c`.
pub proof fn lemma_below_root(x: int, n: int, c: int)
    requires
        0 <= x,
        0 <= c,
        x * x <= n,
        n <= c * c,
    ensures
        x <= c,
{
    if x > c {
        lemma_square_monotone(c + 1, x);
        assert(c * c < (c + 1) * (c + 1)) by (nonlinear_arith)
            requires
                0 <= c,
        ;
    }
}

/// Truncated division by `c` of a value at most `m * c` in magnitude is at most `m`.
pub proof fn lemma_trunc_bound(a: int, c: int, m: int)
    requires
        c > 0,
        m >= 0,
        abs(a) <= m * c,
    ensures
        abs(div_trunc(a, c)) <= m,
{
    vstd::arithmetic::div_mod::lemma_div_is_ordered(abs(a), m * c, c);
    vstd::arithmetic::div_mod::lemma_div_by_multiple(m, c);
    assert(abs(a) / c >= 0) by (nonlinear_arith)
        requires
            abs(a) >= 0,
            c > 0,
    ;
}

/// Truncated division keeps order of magnitudes: `|a| <= m` gives `|a / c| <= m / c`.
pub proof fn lemma_trunc_monotone(a: int, c: int, m: int)
    requires
        c > 0,
        abs(a) <= m,
    ensures
        abs(div_trunc(a, c)) <= m / c,
{
    vstd::arithmetic::div_mod::lemma_div_is_ordered(abs(a), m, c);
    assert(abs(a) / c >= 0) by (nonlinear_arith)
        requires
            abs(a) >= 0,
            c > 0,
    ;
}

/// Truncated division by `c` misses `a` by less than `c`: `|div_trunc(a, c) * c - a| < c`.
pub proof fn lemma_trunc_remainder(a: int, c: int)
    requires
        c > 0,
    ensures
        abs(div_trunc(a, c) * c - a) < c,
{
    let m = if a >= 0 { a } else { -a };
    vstd::arithmetic::div_mod::lemma_fundamental_div_mod(m, c);
    vstd::arithmetic::div_mod::lemma_mod_bound(m, c);
    let q = m / c;
    assert(q * c == c * q) by (nonlinear_arith);
    assert(m - q * c == m % c);
    if a < 0 {
        assert(div_trunc(a, c) == -q);
        assert((-q) * c == -(q * c)) by (nonlinear_arith);
    }
}

/// The integer square root of a non-negative `n`.
pub open spec fn sqrt_floor(n: int) -> int {
    choose|r: int| is_isqrt(n, r)
}

pub proof fn lemma_mul_bound(a: int, b: int, x: int, y: int)
    requires
        -x <= a <= x,
        -y <= b <= y,
    ensures
        -(x * y) <= a * b <= x * y,
{
    assert(-(x * y) <= a * b <= x * y) by (nonlinear_arith)
        requires
            -x <= a <= x,
            -y <= b <= y,
    ;
}

proof fn lemma_isqrt_unique(n: int, r: int, s: int)
    requires
        is_isqrt(n, r),
        is_isqrt(n, s),
    ensures
        r == s,
{
    if r < s {
        lemma_square_monotone(r + 1, s);
    } else if s < r {
        lemma_square_monotone(s + 1, r);
    }
}

pub fn clamp_wide(v: i128) -> (r: i64)
    ensures
        r as int == clamp(v as int),
{
    if v > LIMIT as i128 {
        LIMIT
    } else if v < -(LIMIT as i128) {
        -LIMIT
    } else {
        v as i64
    }
}

pub fn magnitude(v: i64) -> (r: i64)
    requires
        v > i64::MIN,
    ensures
        r as int == abs(v as int),
{
    if v < 0 {
        -v
    } else {
        v
    }
}

pub fn div_toward_zero(a: i128, b: i128) -> (r: i128)
    requires
        b > 0,
        a > i128::MIN,
    ensures
        r as int == div_trunc(a as int, b as int),
        a >= 0 ==> 0 <= r <= a,
        a < 0 ==> a <= r <= 0,
{
    proof {
        if a >= 0 {
            assert(0 <= (a as int) / (b as int) <= a) by (nonlinear_arith)
                requires
                    a >= 0,
                    b > 0,
            ;
        } else {
            assert(0 <= (-a as int) / (b as int) <= -a) by (nonlinear_arith)
                requires
                    a < 0,
                    b > 0,
            ;
        }
    }
    if a >= 0 {
        a / b
    } else {
        let m: i128 = -a;
        -(m / b)
    }
}

pub proof fn lemma_square_monotone(a: int, b: int)
    requires
        0 <= a <= b,
    ensures
        a * a <= b * b,
{
    assert(a * a <= b * b) by (nonlinear_arith)
        requires
            0 <= a <= b,
    ;
}

/// Integer square root by bisection.
pub fn isqrt(n: u128) -> (r: u128)
    requires
        n < ROOT_INPUT_LIMIT,
    ensures
        is_isqrt(n as int, r as int),
        r as int == sqrt_floor(n as int),
        r < 0x8000_0000_0000_0000,
{
    let mut lo: u128 = 0;
    let mut hi: u128 = 0x8000_0000_0000_0000;
    assert(hi * hi == ROOT_INPUT_LIMIT);
    while lo + 1 < hi
        invariant
            lo < hi <= 0x8000_0000_0000_0000,
            lo * lo <= n,
            n < hi * hi,
        decreases hi - lo,
    {
        let mid: u128 = lo + (hi - lo) / 2;
        proof {
            lemma_square_monotone(mid as int, 0x8000_0000_0000_0000);
        }
        if mid * mid <= n {
            lo = mid;
        } else {
            hi = mid;
        }
    }
    assert(hi == lo + 1);
    proof {
        let s = sqrt_floor(n as int);
        assert(is_isqrt(n as int, lo as int));
        assert(is_isqrt(n as int, s));
        lemma_isqrt_unique(n as int, lo as int, s);
    }
    lo
}

/// The ceiling square root: the smallest `c` with `c * c >= n`.
pub fn isqrt_ceil(n: u128) -> (r: u128)
    requires
        n < ROOT_INPUT_LIMIT,
    ensures
        r as int == sqrt_ceil(n as int),
        n <= r * r,
        r <= 0x8000_0000_0000_0000,
        n > 0 ==> r > 0,
{
    let f: u128 = isqrt(n);
    if f * f == n {
        f
    } else {
        proof {
            assert(n < (f + 1) * (f + 1));
        }
        f + 1
    }
}

} // verus!
