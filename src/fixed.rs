//! Fixed-point arithmetic shared by the simulation: clamping, truncating
//! division, an integer square root and a rational sine.
use vstd::prelude::*;

verus! {

/// Fixed-point unity: a value `v` stands for `v / ONE`.
pub const ONE: i64 = 1000;

/// Half a turn, in milli-degrees.
pub const HALF_TURN: i64 = 180_000;

/// A quarter turn, in milli-degrees.
pub const QUARTER_TURN: i64 = 90_000;

/// `v` limited to `[lo, hi]`.
pub open spec fn clamp_spec(v: int, lo: int, hi: int) -> int {
    if v < lo {
        lo
    } else if v > hi {
        hi
    } else {
        v
    }
}

/// Division rounding toward zero, as the machine does it.
pub open spec fn tdiv(a: int, b: int) -> int {
    if a >= 0 {
        a / b
    } else {
        -((-a) / b)
    }
}

pub fn clamp(v: i64, lo: i64, hi: i64) -> (r: i64)
    requires
        lo <= hi,
    ensures
        r == clamp_spec(v as int, lo as int, hi as int),
        lo <= r <= hi,
{
    if v < lo {
        lo
    } else if v > hi {
        hi
    } else {
        v
    }
}

pub fn div_toward_zero(a: i64, b: i64) -> (r: i64)
    requires
        b > 0,
        a > i64::MIN,
    ensures
        r == tdiv(a as int, b as int),
{
    if a >= 0 {
        a / b
    } else {
        let q = (-a) / b;
        -q
    }
}

/// Bounds of a quotient rounded toward zero.
pub proof fn lemma_tdiv_bounds(a: int, b: int)
    requires
        b > 0,
    ensures
        a >= 0 ==> 0 <= tdiv(a, b) <= a,
        a < 0 ==> a <= tdiv(a, b) <= 0,
        -((if a >= 0 { a } else { -a }) / b) <= tdiv(a, b) <= (if a >= 0 { a } else { -a }) / b,
{
    if a >= 0 {
        assert(a / b <= a) by (nonlinear_arith)
            requires a >= 0, b > 0;
    } else {
        assert((-a) / b <= -a) by (nonlinear_arith)
            requires -a > 0, b > 0;
    }
}

/// A quotient `a * s / len` with `|a| <= len` stays within `[-s, s]`.
pub proof fn lemma_scaled_quotient(a: int, s: int, len: int)
    requires
        -len <= a <= len,
        0 <= s,
        len > 0,
    ensures
        -s <= tdiv(a * s, len) <= s,
{
    if a >= 0 {
        assert(a * s <= len * s) by (nonlinear_arith)
            requires 0 <= a <= len, 0 <= s;
        assert(0 <= a * s) by (nonlinear_arith)
            requires 0 <= a, 0 <= s;
        assert((a * s) / len <= s) by (nonlinear_arith)
            requires 0 <= a * s <= len * s, len > 0;
    } else {
        assert(-(a * s) <= len * s) by (nonlinear_arith)
            requires -len <= a < 0, 0 <= s;
        assert(0 <= -(a * s)) by (nonlinear_arith)
            requires a < 0, 0 <= s;
        assert((-(a * s)) / len <= s) by (nonlinear_arith)
            requires 0 <= -(a * s) <= len * s, len > 0;
    }
}

/// The largest integer whose square is at most `n`.
pub open spec fn is_isqrt(n: int, r: int) -> bool {
    r >= 0 && r * r <= n && n < (r + 1) * (r + 1)
}

/// Largest square that `isqrt` accepts.
pub const ISQRT_MAX: i64 = 1_000_000_000_000_000;

/// Integer square root, by bisection.
pub fn isqrt(n: i64) -> (r: i64)
    requires
        0 <= n <= ISQRT_MAX,
    ensures
        is_isqrt(n as int, r as int),
        r <= 31_622_777,
{
    let mut lo: i64 = 0;
    let mut hi: i64 = 31_622_777;
    assert(31_622_777 * 31_622_777 > ISQRT_MAX) by (nonlinear_arith);
    while hi - lo > 1
        invariant
            0 <= lo < hi <= 31_622_777,
            lo * lo <= n,
            n < hi * hi,
        decreases hi - lo,
    {
        let mid = lo + (hi - lo) / 2;
        assert(mid * mid <= 31_622_777 * 31_622_777) by (nonlinear_arith)
            requires 0 <= mid <= 31_622_777;
        if mid * mid <= n {
            lo = mid;
        } else {
            hi = mid;
        }
    }
    assert(hi == lo + 1);
    lo
}

/// Product used by the rational sine: `x * (HALF_TURN - x)`.
pub open spec fn sine_core(x: int) -> int {
    x * (HALF_TURN - x)
}

/// Sine of `x` milli-degrees, in thousandths, for `0 <= x <= HALF_TURN`,
/// by Bhaskara's rational approximation
/// `4x(180 - x) / (40500 - x(180 - x))` (error below 0.002).
pub open spec fn sin_spec(x: int) -> int {
    4000 * sine_core(x) / (40_500_000_000 - sine_core(x))
}

/// Cosine of `x` milli-degrees, in thousandths, for `0 <= x <= QUARTER_TURN`.
pub open spec fn cos_spec(x: int) -> int {
    sin_spec(QUARTER_TURN - x)
}

pub proof fn lemma_sine_core_bounds(x: int)
    requires
        0 <= x <= HALF_TURN,
    ensures
        0 <= sine_core(x) <= 8_100_000_000,
{
    assert(0 <= x * (180_000 - x) <= 8_100_000_000) by (nonlinear_arith)
        requires 0 <= x <= 180_000;
}

pub proof fn lemma_sin_bounds(x: int)
    requires
        0 <= x <= HALF_TURN,
    ensures
        0 <= sin_spec(x) <= ONE,
{
    lemma_sine_core_bounds(x);
    let p = sine_core(x);
    let d = 40_500_000_000 - p;
    assert(0 <= 4000 * p / d <= 1000) by (nonlinear_arith)
        requires 0 <= p <= 8_100_000_000, d == 40_500_000_000 - p;
}

pub fn sin_milli(x: i64) -> (r: i64)
    requires
        0 <= x <= HALF_TURN,
    ensures
        r == sin_spec(x as int),
        0 <= r <= ONE,
{
    proof {
        lemma_sine_core_bounds(x as int);
        lemma_sin_bounds(x as int);
    }
    let p = x * (HALF_TURN - x);
    4000 * p / (40_500_000_000 - p)
}

pub fn cos_milli(x: i64) -> (r: i64)
    requires
        0 <= x <= QUARTER_TURN,
    ensures
        r == cos_spec(x as int),
        0 <= r <= ONE,
{
    sin_milli(QUARTER_TURN - x)
}

/// `r` is the square root of `n` rounded up.
pub open spec fn is_ceil_sqrt(n: int, r: int) -> bool {
    r >= 0 && n <= r * r && (r == 0 || (r - 1) * (r - 1) < n)
}

/// The square root of `n` rounded up.
pub open spec fn ceil_root(n: int) -> int {
    choose|r: int| is_ceil_sqrt(n, r)
}

/// Only one integer is the rounded-up root of `n`.
pub proof fn lemma_ceil_root_unique(n: int, r: int)
    requires
        is_ceil_sqrt(n, r),
    ensures
        ceil_root(n) == r,
{
    let q = ceil_root(n);
    assert(is_ceil_sqrt(n, q));
    if q < r {
        assert(q * q <= (r - 1) * (r - 1)) by (nonlinear_arith)
            requires 0 <= q <= r - 1;
    } else if r < q {
        assert(r * r <= (q - 1) * (q - 1)) by (nonlinear_arith)
            requires 0 <= r <= q - 1;
    }
}

/// Integer square root rounded up.
pub fn ceil_sqrt(n: i64) -> (r: i64)
    requires
        0 <= n <= ISQRT_MAX,
    ensures
        is_ceil_sqrt(n as int, r as int),
        r == ceil_root(n as int),
        r <= 31_622_778,
{
    let f = isqrt(n);
    assert(f * f <= 31_622_777 * 31_622_777) by (nonlinear_arith)
        requires 0 <= f <= 31_622_777;
    let r = if f * f < n { f + 1 } else { f };
    proof {
        if f * f < n {
            assert(n <= (f + 1) * (f + 1));
        } else {
            assert(f * f == n);
            if f > 0 {
                assert((f - 1) * (f - 1) < f * f) by (nonlinear_arith)
                    requires f > 0;
            }
        }
        lemma_ceil_root_unique(n as int, r as int);
    }
    r
}

/// A quotient rounded toward zero, times its divisor, is no larger in
/// magnitude than the dividend.
pub proof fn lemma_tdiv_times(a: int, b: int)
    requires
        b > 0,
    ensures
        (if tdiv(a, b) >= 0 { tdiv(a, b) } else { -tdiv(a, b) }) * b <= (if a >= 0 { a } else { -a }),
        (if tdiv(a, b) >= 0 { tdiv(a, b) } else { -tdiv(a, b) }) >= 0,
{
    let m = if a >= 0 { a } else { -a };
    assert((m / b) * b <= m) by (nonlinear_arith)
        requires m >= 0, b > 0;
    assert(m / b >= 0) by (nonlinear_arith)
        requires m >= 0, b > 0;
}

/// Scaling `(x, y)` by `s / len`, rounded toward zero, with
/// `x^2 + y^2 <= len^2`, gives a vector no longer than `s`.
pub proof fn lemma_scaled_vector_within(x: int, y: int, s: int, len: int)
    requires
        len > 0,
        s >= 0,
        x * x + y * y <= len * len,
    ensures
        tdiv(x * s, len) * tdiv(x * s, len) + tdiv(y * s, len) * tdiv(y * s, len) <= s * s,
{
    let tx = tdiv(x * s, len);
    let ty = tdiv(y * s, len);
    lemma_tdiv_times(x * s, len);
    lemma_tdiv_times(y * s, len);
    let ax = if tx >= 0 { tx } else { -tx };
    let ay = if ty >= 0 { ty } else { -ty };
    let mx = if x * s >= 0 { x * s } else { -(x * s) };
    let my = if y * s >= 0 { y * s } else { -(y * s) };
    assert(mx * mx == x * x * (s * s)) by (nonlinear_arith)
        requires mx == (if x * s >= 0 { x * s } else { -(x * s) });
    assert(my * my == y * y * (s * s)) by (nonlinear_arith)
        requires my == (if y * s >= 0 { y * s } else { -(y * s) });
    assert((ax * len) * (ax * len) <= mx * mx) by (nonlinear_arith)
        requires 0 <= ax * len <= mx, ax >= 0, len > 0;
    assert((ay * len) * (ay * len) <= my * my) by (nonlinear_arith)
        requires 0 <= ay * len <= my, ay >= 0, len > 0;
    assert((ax * ax + ay * ay) * (len * len) <= (x * x + y * y) * (s * s)) by (nonlinear_arith)
        requires (ax * len) * (ax * len) <= mx * mx, (ay * len) * (ay * len) <= my * my,
            mx * mx == x * x * (s * s), my * my == y * y * (s * s);
    assert((x * x + y * y) * (s * s) <= (len * len) * (s * s)) by (nonlinear_arith)
        requires x * x + y * y <= len * len;
    assert(ax * ax + ay * ay <= s * s) by (nonlinear_arith)
        requires (ax * ax + ay * ay) * (len * len) <= (len * len) * (s * s), len > 0;
    assert(tx * tx == ax * ax) by (nonlinear_arith)
        requires ax == (if tx >= 0 { tx } else { -tx });
    assert(ty * ty == ay * ay) by (nonlinear_arith)
        requires ay == (if ty >= 0 { ty } else { -ty });
}

/// Clamping a move from a point inside `[lo, hi]` never makes it longer.
pub proof fn lemma_clamped_move(o: int, off: int, lo: int, hi: int)
    requires
        lo <= o <= hi,
    ensures
        (clamp_spec(o + off, lo, hi) - o) * (clamp_spec(o + off, lo, hi) - o) <= off * off,
{
    let d = clamp_spec(o + off, lo, hi) - o;
    assert(d * d <= off * off) by (nonlinear_arith)
        requires (0 <= d <= off) || (off <= d <= 0);
}

/// A quotient rounded toward zero, plus one, times the divisor exceeds the
/// dividend in magnitude.
pub proof fn lemma_tdiv_next(a: int, b: int)
    requires
        b > 0,
    ensures
        ((if tdiv(a, b) >= 0 { tdiv(a, b) } else { -tdiv(a, b) }) + 1) * b > (if a >= 0 { a } else { -a }),
{
    let m = if a >= 0 { a } else { -a };
    assert((m / b + 1) * b > m) by (nonlinear_arith)
        requires m >= 0, b > 0;
}

/// Scaling a nonzero `(x, y)` to length `ONE` over its rounded-up length
/// `len >= ONE` loses less than one unit per component: the result is
/// unit length within rounding.
pub proof fn lemma_unit_within_rounding(x: int, y: int, len: int)
    requires
        len >= 1000,
        is_ceil_sqrt(x * x + y * y, len),
    ensures
        ({
            let hx = tdiv(x * 1000, len);
            let hy = tdiv(y * 1000, len);
            let ax = if hx >= 0 { hx } else { -hx };
            let ay = if hy >= 0 { hy } else { -hy };
            (ax + 1) * (ax + 1) + (ay + 1) * (ay + 1) > 998_000
        }),
{
    let hx = tdiv(x * 1000, len);
    let hy = tdiv(y * 1000, len);
    let ax = if hx >= 0 { hx } else { -hx };
    let ay = if hy >= 0 { hy } else { -hy };
    lemma_tdiv_next(x * 1000, len);
    lemma_tdiv_next(y * 1000, len);
    lemma_tdiv_times(x * 1000, len);
    lemma_tdiv_times(y * 1000, len);
    let mx = if x * 1000 >= 0 { x * 1000 } else { -(x * 1000) };
    let my = if y * 1000 >= 0 { y * 1000 } else { -(y * 1000) };
    assert(mx * mx == x * x * 1_000_000) by (nonlinear_arith)
        requires mx == (if x * 1000 >= 0 { x * 1000 } else { -(x * 1000) });
    assert(my * my == y * y * 1_000_000) by (nonlinear_arith)
        requires my == (if y * 1000 >= 0 { y * 1000 } else { -(y * 1000) });
    assert(((ax + 1) * len) * ((ax + 1) * len) >= mx * mx) by (nonlinear_arith)
        requires (ax + 1) * len > mx, mx >= 0;
    assert(((ay + 1) * len) * ((ay + 1) * len) >= my * my) by (nonlinear_arith)
        requires (ay + 1) * len > my, my >= 0;
    let sum = (ax + 1) * (ax + 1) + (ay + 1) * (ay + 1);
    assert(sum * (len * len) >= (x * x + y * y) * 1_000_000) by (nonlinear_arith)
        requires ((ax + 1) * len) * ((ax + 1) * len) >= mx * mx, ((ay + 1) * len) * ((ay + 1) * len) >= my * my,
            mx * mx == x * x * 1_000_000, my * my == y * y * 1_000_000,
            sum == (ax + 1) * (ax + 1) + (ay + 1) * (ay + 1);
    assert((len - 1) * (len - 1) < x * x + y * y);
    assert(sum * (len * len) > (len - 1) * (len - 1) * 1_000_000) by (nonlinear_arith)
        requires sum * (len * len) >= (x * x + y * y) * 1_000_000, (len - 1) * (len - 1) < x * x + y * y;
    assert(sum > 998_000) by (nonlinear_arith)
        requires sum * (len * len) > (len - 1) * (len - 1) * 1_000_000, len >= 1000;
}

} // verus!
