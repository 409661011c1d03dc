//! The integer units the tracker counts in.
//!
//! Money (PED) and damage are counted in units of 10^-12, instants and
//! durations in nanoseconds. One figure is an `i64`; a sum of figures is an
//! `i128`.

use vstd::prelude::*;

verus! {

/// One PED, or one point of damage.
pub const WHOLE: i64 = 1_000_000_000_000;

/// One second.
pub const SECOND: i64 = 1_000_000_000;

/// Two figures closer than this are the same figure.
pub const SAME_WITHIN: i64 = 1_000;

/// An amount of money.
#[derive(Clone, Copy, Debug, PartialEq, Eq, Structural)]
pub struct Ped(pub i64);

impl Ped {
    /// No money.
    pub fn zero() -> (none: Self)
        ensures
            none == Ped(0),
    {
        Ped(0)
    }

    /// Whether there is any money.
    pub fn is_positive(&self) -> (yes: bool)
        ensures
            yes == (self.0 > 0),
    {
        self.0 > 0
    }
}

/// Two figures nearer than the tolerance.
pub open spec fn near(a: int, b: int) -> bool {
    -SAME_WITHIN < a - b < SAME_WITHIN
}

/// Whether two figures are nearer than the tolerance.
pub fn is_near(a: i64, b: i64) -> (yes: bool)
    ensures
        yes == near(a as int, b as int),
{
    let gap: i128 = a as i128 - b as i128;
    -(SAME_WITHIN as i128) < gap && gap < SAME_WITHIN as i128
}

/// The steps a figure is rounded to: tenths, hundredths, ten-thousandths and
/// millionths.
pub const TENTH: i128 = 100_000_000_000;

pub const HUNDREDTH: i128 = 10_000_000_000;

pub const TEN_THOUSANDTH: i128 = 100_000_000;

pub const MILLIONTH: i128 = 1_000_000;

/// A quotient rounded to the nearest integer, a tie to the even one.
pub open spec fn half_even(num: int, den: int) -> int {
    let floor = num / den;
    let rest = num % den;
    if 2 * rest < den {
        floor
    } else if 2 * rest > den {
        floor + 1
    } else if floor % 2 == 0 {
        floor
    } else {
        floor + 1
    }
}

/// A figure rounded to the nearest multiple of a step, a tie to the even
/// multiple.
pub open spec fn rounded(value: int, step: int) -> int {
    half_even(value, step) * step
}

/// Rounding lands within half a step, on an even multiple where two are
/// equally near.
pub proof fn half_even_is_nearest(num: int, den: int)
    requires
        den > 0,
    ensures
        -den <= 2 * (half_even(num, den) * den - num) <= den,
        2 * (half_even(num, den) * den - num) == den || 2 * (half_even(num, den) * den - num)
            == -den ==> half_even(num, den) % 2 == 0,
{
    let floor = num / den;
    let rest = num % den;
    assert(num == floor * den + rest && 0 <= rest < den) by (nonlinear_arith)
        requires
            den > 0,
            floor == num / den,
            rest == num % den,
    ;
    assert((floor + 1) * den == floor * den + den) by (nonlinear_arith);
}

/// The integer nearest a quotient is the only one, ties aside.
pub proof fn half_even_unique(num: int, den: int, value: int)
    requires
        den > 0,
        -den <= 2 * (value * den - num) <= den,
        2 * (value * den - num) == den || 2 * (value * den - num) == -den ==> value % 2 == 0,
    ensures
        value == half_even(num, den),
{
    let floor = num / den;
    let rest = num % den;
    assert(num == floor * den + rest && 0 <= rest < den) by (nonlinear_arith)
        requires
            den > 0,
            floor == num / den,
            rest == num % den,
    ;
    let k = value - floor;
    assert(value * den - num == k * den - rest) by (nonlinear_arith)
        requires
            value == floor + k,
            num == floor * den + rest,
    ;
    if k >= 2 {
        assert(k * den >= 2 * den) by (nonlinear_arith)
            requires
                k >= 2,
                den > 0,
        ;
    }
    if k <= -1 {
        assert(k * den <= -den) by (nonlinear_arith)
            requires
                k <= -1,
                den > 0,
        ;
    }
    if k == 1 {
        assert(k * den == den) by (nonlinear_arith)
            requires
                k == 1,
        ;
    }
    if k == 0 {
        assert(k * den == 0) by (nonlinear_arith)
            requires
                k == 0,
        ;
    }
    if k <= -1 {
        assert(rest == 0 ==> 2 * (k * den - rest) <= -2 * den);
    }
    assert(k == 0 || k == 1);
}

/// Rounding is the same on either side of zero.
pub proof fn half_even_is_odd(num: int, den: int)
    requires
        den > 0,
    ensures
        half_even(-num, den) == -half_even(num, den),
{
    half_even_is_nearest(num, den);
    let value = -half_even(num, den);
    assert(value * den - (-num) == -(half_even(num, den) * den - num)) by (nonlinear_arith)
        requires
            value == -half_even(num, den),
    ;
    half_even_unique(-num, den, value);
}

/// Rounding is the same an even number of wholes further.
pub proof fn half_even_shifts(num: int, den: int, pairs: int)
    requires
        den > 0,
    ensures
        half_even(num + 2 * pairs * den, den) == half_even(num, den) + 2 * pairs,
{
    half_even_is_nearest(num, den);
    let value = half_even(num, den) + 2 * pairs;
    assert(value * den - (num + 2 * pairs * den) == half_even(num, den) * den - num)
        by (nonlinear_arith)
        requires
            value == half_even(num, den) + 2 * pairs,
    ;
    half_even_unique(num + 2 * pairs * den, den, value);
}

/// Rounding a quotient does not depend on how its two sides are scaled.
pub proof fn half_even_scales(num: int, den: int, by: int)
    requires
        den > 0,
        by > 0,
    ensures
        half_even(num * by, den * by) == half_even(num, den),
{
    half_even_is_nearest(num, den);
    let value = half_even(num, den);
    let gap = value * den - num;
    assert(den * by > 0 && value * (den * by) - num * by == gap * by) by (nonlinear_arith)
        requires
            den > 0,
            by > 0,
            gap == value * den - num,
    ;
    assert(-(den * by) <= 2 * (gap * by) <= den * by) by (nonlinear_arith)
        requires
            by > 0,
            -den <= 2 * gap <= den,
    ;
    assert(2 * (gap * by) == den * by ==> 2 * gap == den) by (nonlinear_arith)
        requires
            by > 0,
    ;
    assert(2 * (gap * by) == -(den * by) ==> 2 * gap == -den) by (nonlinear_arith)
        requires
            by > 0,
    ;
    half_even_unique(num * by, den * by, value);
}

/// A number as a multiple of another and a remainder that is not negative.
pub fn divide(num: i128, den: i128) -> (parts: (i128, i128))
    requires
        num > i128::MIN,
        den > 0,
    ensures
        num == parts.0 * den + parts.1,
        0 <= parts.1 < den,
        num >= 0 ==> 0 <= parts.0 <= num,
        num < 0 ==> num <= parts.0 <= 0,
{
    if num >= 0 {
        let (whole, rest): (i128, i128) = (num / den, num % den);
        proof {
            let (n, d) = (num as int, den as int);
            assert(n == (n / d) * d + n % d && 0 <= n % d < d && 0 <= n / d <= n)
                by (nonlinear_arith)
                requires
                    d > 0,
                    n >= 0,
            ;
        }
        (whole, rest)
    } else {
        let (whole, rest): (i128, i128) = ((-num) / den, (-num) % den);
        proof {
            let (n, d) = (-num, den as int);
            assert(n == (n / d) * d + n % d && 0 <= n % d < d && 0 <= n / d <= n)
                by (nonlinear_arith)
                requires
                    d > 0,
                    n >= 0,
            ;
            if n % d > 0 {
                assert(n / d < n) by (nonlinear_arith)
                    requires
                        d > 0,
                        n % d > 0,
                        n / d >= 0,
                        n == (n / d) * d + n % d,
                ;
            }
            assert(-(n / d) * d == -((n / d) * d) && (-(n / d) - 1) * d == -((n / d) * d) - d)
                by (nonlinear_arith);
        }
        if rest == 0 {
            (-whole, 0)
        } else {
            (-whole - 1, den - rest)
        }
    }
}

fn round_positive(num: i128, den: i128) -> (value: i128)
    requires
        num >= 0,
        0 < den <= i128::MAX / 2,
    ensures
        value == half_even(num as int, den as int),
        0 <= value <= num,
{
    let floor: i128 = num / den;
    let rest: i128 = num % den;
    proof {
        let n = num as int;
        let d = den as int;
        assert(n == (n / d) * d + n % d && 0 <= n % d < d && 0 <= n / d <= n) by (nonlinear_arith)
            requires
                d > 0,
                n >= 0,
        ;
        if 2 * (n % d) >= d {
            assert(n % d > 0);
            assert(n / d < n) by (nonlinear_arith)
                requires
                    d > 0,
                    n >= 0,
                    n % d > 0,
                    n == (n / d) * d + n % d,
                    n / d >= 0,
            ;
        }
    }
    if 2 * rest < den {
        floor
    } else if 2 * rest > den {
        floor + 1
    } else if floor % 2 == 0 {
        floor
    } else {
        floor + 1
    }
}

/// A quotient rounded to the nearest integer, a tie to the even one.
pub fn round_quotient(num: i128, den: i128) -> (value: i128)
    requires
        num > i128::MIN,
        0 < den <= i128::MAX / 2,
    ensures
        value == half_even(num as int, den as int),
        num >= 0 ==> 0 <= value <= num,
        num <= 0 ==> num <= value <= 0,
{
    if num >= 0 {
        round_positive(num, den)
    } else {
        proof {
            half_even_is_odd(-num, den as int);
        }
        -round_positive(-num, den)
    }
}

/// A figure rounded half to even to a multiple of a step.
pub fn round_half_even(value: i128, step: i128) -> (nearest: i128)
    requires
        0 < step <= WHOLE,
        -i128::MAX + WHOLE <= value <= i128::MAX - WHOLE,
    ensures
        nearest == rounded(value as int, step as int),
        -step <= 2 * (nearest - value) <= step,
{
    let count: i128 = round_quotient(value, step);
    proof {
        half_even_is_nearest(value as int, step as int);
    }
    count * step
}

/// The largest amount a ratio is taken of.
pub const RATIO_LIMIT: i128 = 100_000_000_000_000_000_000_000_000;

/// How many steps of four decimals a whole has.
pub const PLACES: i128 = 10_000;

/// A ratio of two amounts to four decimals: the exact quotient, rounded once.
pub open spec fn rate(num: int, den: int) -> int {
    half_even(num * PLACES, den) * TEN_THOUSANDTH
}

/// A ratio of two amounts to four decimals, rounded once.
pub fn rate_of(num: i128, den: i128) -> (value: i128)
    requires
        -RATIO_LIMIT <= num <= RATIO_LIMIT,
        0 < den <= RATIO_LIMIT,
    ensures
        value == rate(num as int, den as int),
{
    let scaled: i128 = num * PLACES;
    assert(scaled == num * 10_000);
    let steps: i128 = round_quotient(scaled, den);
    steps * TEN_THOUSANDTH
}

} // verus!
