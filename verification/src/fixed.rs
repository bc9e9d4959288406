use vstd::arithmetic::div_mod::{
    lemma_div_is_ordered, lemma_div_is_ordered_by_denominator, lemma_div_multiples_vanish,
    lemma_div_nonincreasing, lemma_div_pos_is_pos,
};
use vstd::prelude::*;

verus! {

/// Number of raw units in one world unit: the fixed-point scale.
pub const ONE: i64 = 65536;

/// The circle constant, in raw units (`pi * ONE`, rounded to nearest).
pub const PI: i64 = 205887;

/// Half of `PI` in raw units, rounded up so that `2 * (PI / 2) >= PI`.
pub const HALF_PI: i64 = 102944;

/// Twice `PI` in raw units, rounded to nearest.
pub const TWO_PI: i64 = 411775;

/// Largest magnitude a numerator may have so that dividing it by any
/// non-zero scalar stays inside `i64` after rescaling (`i64::MAX / ONE`).
pub const DIV_LIM: i64 = 140737488355327;

/// Truncating (round-toward-zero) division for a positive divisor: the
/// rounding rule of every fixed-point operation in this crate.
pub open spec fn tdiv(n: int, d: int) -> int {
    if n >= 0 {
        n / d
    } else {
        -((-n) / d)
    }
}

/// Truncating division for any non-zero divisor.
pub open spec fn sdiv(n: int, d: int) -> int {
    if d >= 0 {
        tdiv(n, d)
    } else {
        -tdiv(n, -d)
    }
}

/// The product of two scalars, rescaled back into raw units.
pub open spec fn fxmul(a: int, b: int) -> int {
    tdiv(a * b, 65536)
}

/// The quotient of two scalars, rescaled into raw units.
pub open spec fn fxdiv(a: int, b: int) -> int {
    sdiv(a * 65536, b)
}

/// The square root of a non-negative number, rounded down.
pub open spec fn sqrt_floor(n: int) -> int
    decreases n,
{
    if n <= 0 {
        0
    } else {
        let r = sqrt_floor(n - 1);
        if (r + 1) * (r + 1) <= n {
            r + 1
        } else {
            r
        }
    }
}

/// The square root of a non-negative scalar, in raw units, rounded down.
pub open spec fn fxsqrt(a: int) -> int {
    sqrt_floor(a * 65536)
}

/// Truncating division never grows the magnitude of a number and keeps
/// its sign (for a divisor of at least one).
pub proof fn lemma_tdiv_nonincreasing(n: int, d: int)
    requires
        d >= 1,
    ensures
        n >= 0 ==> 0 <= tdiv(n, d) <= n,
        n < 0 ==> n <= tdiv(n, d) <= 0,
{
    if n >= 0 {
        lemma_div_nonincreasing(n, d);
        lemma_div_pos_is_pos(n, d);
    } else {
        lemma_div_nonincreasing(-n, d);
        lemma_div_pos_is_pos(-n, d);
    }
}

/// Truncating division is monotone in the numerator.
pub proof fn lemma_tdiv_mono(a: int, b: int, d: int)
    requires
        d >= 1,
        a <= b,
    ensures
        tdiv(a, d) <= tdiv(b, d),
{
    if a >= 0 {
        lemma_div_is_ordered(a, b, d);
    } else if b < 0 {
        lemma_div_is_ordered(-b, -a, d);
    } else {
        lemma_div_pos_is_pos(-a, d);
        lemma_div_pos_is_pos(b, d);
    }
}

/// A bound on the numerator bounds the truncated quotient.
pub proof fn lemma_tdiv_bounded(n: int, d: int, bound: int)
    requires
        d >= 1,
        -bound <= n <= bound,
        0 <= bound,
    ensures
        -bound <= tdiv(n, d) <= bound,
{
    lemma_tdiv_nonincreasing(n, d);
}

/// Dividing a multiple of the divisor recovers the factor exactly.
pub proof fn lemma_tdiv_exact(x: int, d: int)
    requires
        d >= 1,
    ensures
        tdiv(x * d, d) == x,
{
    if x >= 0 {
        assert(x * d >= 0) by (nonlinear_arith)
            requires
                x >= 0,
                d >= 1,
        ;
        lemma_div_multiples_vanish(x, d);
        assert(d * x == x * d) by (nonlinear_arith);
    } else {
        assert(x * d < 0) by (nonlinear_arith)
            requires
                x < 0,
                d >= 1,
        ;
        lemma_div_multiples_vanish(-x, d);
        assert(d * (-x) == -(x * d)) by (nonlinear_arith);
    }
}

/// Truncating division is odd in the numerator.
pub proof fn lemma_tdiv_neg(n: int, d: int)
    requires
        d >= 1,
    ensures
        tdiv(-n, d) == -tdiv(n, d),
{
}

/// Dividing by a scalar of at least one world unit cannot grow the
/// magnitude.
pub proof fn lemma_fxdiv_bounded(a: int, b: int, n: int)
    requires
        65536 <= b,
        -n <= a <= n,
        0 <= n,
    ensures
        -n <= fxdiv(a, b) <= n,
{
    if a >= 0 {
        assert(a * 65536 >= 0);
        lemma_div_is_ordered_by_denominator(a * 65536, 65536, b);
        lemma_tdiv_exact(a, 65536);
        lemma_div_pos_is_pos(a * 65536, b);
    } else {
        assert((-a) * 65536 >= 0);
        lemma_div_is_ordered_by_denominator((-a) * 65536, 65536, b);
        lemma_tdiv_exact(-a, 65536);
        lemma_div_pos_is_pos((-a) * 65536, b);
    }
}

/// Truncating division leaves a remainder strictly smaller than the
/// divisor, on either side of zero.
pub proof fn lemma_tdiv_remainder(n: int, d: int)
    requires
        d >= 1,
    ensures
        -d < n - tdiv(n, d) * d,
        n - tdiv(n, d) * d < d,
        n >= 0 ==> tdiv(n, d) * d <= n,
        n < 0 ==> n <= tdiv(n, d) * d,
{
    if n >= 0 {
        vstd::arithmetic::div_mod::lemma_fundamental_div_mod(n, d);
        vstd::arithmetic::div_mod::lemma_mod_division_less_than_divisor(n, d);
        assert(d * (n / d) == (n / d) * d) by (nonlinear_arith);
    } else {
        vstd::arithmetic::div_mod::lemma_fundamental_div_mod(-n, d);
        vstd::arithmetic::div_mod::lemma_mod_division_less_than_divisor(-n, d);
        assert(d * ((-n) / d) == ((-n) / d) * d) by (nonlinear_arith);
        assert((-((-n) / d)) * d == -(((-n) / d) * d)) by (nonlinear_arith);
    }
}

/// `sqrt_floor` is the floor of the real square root.
pub proof fn lemma_sqrt_floor(n: int)
    requires
        n >= 0,
    ensures
        0 <= sqrt_floor(n),
        sqrt_floor(n) * sqrt_floor(n) <= n,
        n < (sqrt_floor(n) + 1) * (sqrt_floor(n) + 1),
    decreases n,
{
    if n > 0 {
        lemma_sqrt_floor(n - 1);
        let r = sqrt_floor(n - 1);
        if (r + 1) * (r + 1) <= n {
            assert(sqrt_floor(n) == r + 1);
            assert(n <= (r + 1) * (r + 1));
            assert((r + 1) * (r + 1) < (r + 2) * (r + 2)) by (nonlinear_arith)
                requires
                    r >= 0,
            ;
        } else {
            assert(sqrt_floor(n) == r);
        }
    }
}

/// Any non-negative number sitting in the square-root window is `sqrt_floor`.
pub proof fn lemma_sqrt_floor_unique(n: int, r: int)
    requires
        0 <= r,
        r * r <= n,
        n < (r + 1) * (r + 1),
    ensures
        r == sqrt_floor(n),
{
    lemma_sqrt_floor(n);
    let s = sqrt_floor(n);
    if r < s {
        assert((r + 1) * (r + 1) <= s * s) by (nonlinear_arith)
            requires
                0 <= r,
                r + 1 <= s,
        ;
    }
    if s < r {
        assert((s + 1) * (s + 1) <= r * r) by (nonlinear_arith)
            requires
                0 <= s,
                s + 1 <= r,
        ;
    }
}

/// A strict square above `n` bounds `sqrt_floor(n)` strictly.
pub proof fn lemma_sqrt_floor_below(n: int, s: int)
    requires
        0 <= n,
        0 <= s,
        n < s * s,
    ensures
        sqrt_floor(n) < s,
{
    lemma_sqrt_floor(n);
    let r = sqrt_floor(n);
    if r >= s {
        assert(s * s <= r * r) by (nonlinear_arith)
            requires
                0 <= s,
                s <= r,
        ;
    }
}

/// The rescaled product of two scalars, truncated toward zero.
pub fn mul_fx(a: i64, b: i64) -> (r: i64)
    requires
        -604462909807314587287552 <= (a as int) * (b as int) <= 604462909807314587287552,
    ensures
        r as int == fxmul(a as int, b as int),
{
    let p: i128 = (a as i128) * (b as i128);
    let q: i128 = p / 65536;
    proof {
        lemma_tdiv_exact(0x7fffffffffffffffint, 65536);
        lemma_tdiv_exact(-0x7fffffffffffffffint, 65536);
        lemma_tdiv_mono(p as int, 0x7fffffffffffffffint * 65536, 65536);
        lemma_tdiv_mono((-0x7fffffffffffffffint) * 65536, p as int, 65536);
    }
    q as i64
}

/// The rescaled quotient of two scalars, truncated toward zero.
pub fn div_fx(a: i64, b: i64) -> (r: i64)
    requires
        b != 0,
        -DIV_LIM <= a <= DIV_LIM,
    ensures
        r as int == fxdiv(a as int, b as int),
{
    let n: i128 = (a as i128) * 65536;
    let q: i128 = if b >= 1 {
        proof {
            lemma_tdiv_bounded(n as int, b as int, 0x7fffffffffffffff);
        }
        n / (b as i128)
    } else {
        proof {
            lemma_tdiv_bounded(n as int, -(b as int), 0x7fffffffffffffff);
        }
        -(n / (-(b as i128)))
    };
    q as i64
}

/// The rescaled square root of a non-negative scalar, rounded down.
pub fn sqrt_fx(a: i64) -> (r: i64)
    requires
        a >= 0,
    ensures
        r as int == fxsqrt(a as int),
        0 <= r < 36028797018963968,
{
    let x: u128 = (a as u128) * 65536;
    let r = isqrt_u128(x);
    proof {
        assert((x as int) < 36028797018963968int * 36028797018963968) by (nonlinear_arith)
            requires
                (x as int) <= 0x7fffffffffffffffint * 0x10000,
        ;
        lemma_sqrt_floor_below(x as int, 36028797018963968);
    }
    r as i64
}

/// The integer square root of `x`, rounded down, by bisection.
fn isqrt_u128(x: u128) -> (r: u128)
    requires
        x < 85070591730234615865843651857942052864,
    ensures
        r as int == sqrt_floor(x as int),
{
    let mut lo: u128 = 0;
    let mut hi: u128 = 9223372036854775808;
    while lo + 1 < hi
        invariant
            (lo as int) * (lo as int) <= x as int,
            (x as int) < (hi as int) * (hi as int),
            lo < hi,
            hi <= 9223372036854775808,
        decreases hi - lo,
    {
        let mid = lo + (hi - lo) / 2;
        proof {
            assert((mid as int) * (mid as int)
                < 170141183460469231731687303715884105728int) by (nonlinear_arith)
                requires
                    0 <= (mid as int) <= 9223372036854775808int,
            ;
        }
        if mid * mid <= x {
            lo = mid;
        } else {
            hi = mid;
        }
    }
    proof {
        lemma_sqrt_floor_unique(x as int, lo as int);
    }
    lo
}

/// `x` forced into the closed interval `[min, max]`.
pub open spec fn spec_clamp(x: int, min: int, max: int) -> int {
    if x < min {
        min
    } else if x > max {
        max
    } else {
        x
    }
}

/// Force `x` into the closed interval `[min, max]`.
pub fn clamp(x: i64, min: i64, max: i64) -> (r: i64)
    requires
        min <= max,
    ensures
        r as int == spec_clamp(x as int, min as int, max as int),
        min <= r <= max,
{
    let mut x = x;
    if x < min {
        x = min;
    }
    if x > max {
        x = max;
    }
    x
}

/// An angle in degrees converted to radians (`d * PI / 180`, truncated).
pub open spec fn spec_degrees_to_radians(d: int) -> int {
    tdiv(d * 205887, 11796480)
}

/// Convert an angle in degrees to radians, both in raw units.
pub fn degrees_to_radians(degrees: i64) -> (r: i64)
    requires
        -DIV_LIM <= degrees <= DIV_LIM,
    ensures
        r as int == spec_degrees_to_radians(degrees as int),
{
    let p: i128 = (degrees as i128) * 205887;
    let q: i128 = p / 11796480;
    proof {
        lemma_tdiv_bounded(p as int, 11796480, 140737488355327int * 205887);
    }
    q as i64
}

/// The degree-7 Taylor polynomial of the sine, evaluated in raw units.
pub open spec fn spec_sin_quarter(x: int) -> int {
    let x2 = fxmul(x, x);
    let x3 = fxmul(x2, x);
    let x5 = fxmul(x3, x2);
    let x7 = fxmul(x5, x2);
    x - tdiv(x3, 6) + tdiv(x5, 120) - tdiv(x7, 5040)
}

/// The sine of an angle in the first quadrant, by its Taylor polynomial.
pub fn sin_quarter(x: i64) -> (r: i64)
    requires
        0 <= x <= HALF_PI,
    ensures
        r as int == spec_sin_quarter(x as int),
        -131072 <= r <= 131072,
{
    proof {
        assert((x as int) * (x as int) <= 262144int * 65536) by (nonlinear_arith)
            requires
                0 <= x as int <= 131072,
        ;
    }
    let x2 = mul_fx(x, x);
    proof {
        lemma_tdiv_nonincreasing((x as int) * (x as int), 65536);
        lemma_tdiv_mono((x as int) * (x as int), 262144int * 65536, 65536);
        lemma_tdiv_exact(262144int, 65536);
        assert((x2 as int) * (x as int) <= 524288int * 65536) by (nonlinear_arith)
            requires
                0 <= x2 as int <= 262144,
                0 <= x as int <= 131072,
        ;
    }
    let x3 = mul_fx(x2, x);
    proof {
        lemma_tdiv_nonincreasing((x2 as int) * (x as int), 65536);
        lemma_tdiv_mono((x2 as int) * (x as int), 524288int * 65536, 65536);
        lemma_tdiv_exact(524288int, 65536);
        assert((x3 as int) * (x2 as int) <= 2097152int * 65536) by (nonlinear_arith)
            requires
                0 <= x3 as int <= 524288,
                0 <= x2 as int <= 262144,
        ;
    }
    let x5 = mul_fx(x3, x2);
    proof {
        lemma_tdiv_nonincreasing((x3 as int) * (x2 as int), 65536);
        lemma_tdiv_mono((x3 as int) * (x2 as int), 2097152int * 65536, 65536);
        lemma_tdiv_exact(2097152int, 65536);
        assert((x5 as int) * (x2 as int) <= 8388608int * 65536) by (nonlinear_arith)
            requires
                0 <= x5 as int <= 2097152,
                0 <= x2 as int <= 262144,
        ;
    }
    let x7 = mul_fx(x5, x2);
    proof {
        lemma_tdiv_nonincreasing((x5 as int) * (x2 as int), 65536);
        lemma_tdiv_mono((x5 as int) * (x2 as int), 8388608int * 65536, 65536);
        lemma_tdiv_exact(8388608int, 65536);
        lemma_tdiv_nonincreasing(x3 as int, 6);
        lemma_tdiv_nonincreasing(x5 as int, 120);
        lemma_tdiv_nonincreasing(x7 as int, 5040);
    }
    x - x3 / 6 + x5 / 120 - x7 / 5040
}

/// The sine over a full turn, reduced to the first quadrant.
pub open spec fn spec_sin(a: int) -> int {
    if a <= 102944 {
        spec_sin_quarter(a)
    } else if a <= 205887 {
        spec_sin_quarter(205887 - a)
    } else if a <= 308831 {
        -spec_sin_quarter(a - 205887)
    } else {
        -spec_sin_quarter(411775 - a)
    }
}

/// The sine of an angle in `[0, TWO_PI]`, in raw units.
pub fn sin_fx(a: i64) -> (r: i64)
    requires
        0 <= a <= TWO_PI,
    ensures
        r as int == spec_sin(a as int),
        -131072 <= r <= 131072,
{
    if a <= HALF_PI {
        sin_quarter(a)
    } else if a <= PI {
        sin_quarter(PI - a)
    } else if a <= PI + HALF_PI {
        -sin_quarter(a - PI)
    } else {
        -sin_quarter(TWO_PI - a)
    }
}

/// The cosine over a full turn, as the complementary sine.
pub open spec fn spec_cos(a: int) -> int {
    if a <= 102944 {
        spec_sin_quarter(102944 - a)
    } else if a <= 205887 {
        -spec_sin_quarter(a - 102944)
    } else if a <= 308831 {
        -spec_sin_quarter(308831 - a)
    } else {
        spec_sin_quarter(a - 308831)
    }
}

/// The cosine of an angle in `[0, TWO_PI]`, in raw units.
pub fn cos_fx(a: i64) -> (r: i64)
    requires
        0 <= a <= TWO_PI,
    ensures
        r as int == spec_cos(a as int),
        -131072 <= r <= 131072,
{
    if a <= HALF_PI {
        sin_quarter(HALF_PI - a)
    } else if a <= PI {
        -sin_quarter(a - HALF_PI)
    } else if a <= PI + HALF_PI {
        -sin_quarter(PI + HALF_PI - a)
    } else {
        sin_quarter(a - (PI + HALF_PI))
    }
}

} // verus!
