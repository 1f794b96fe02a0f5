//! The rounding engine: quantizing durations to a granularity.
//!
//! Durations and granularities are whole counts of seconds.  Three
//! modes round a duration up, down, or to the nearest multiple of the
//! granularity (ties resolve away from zero, matching the usual
//! floating-point `round`).  A granularity of at least [`PRESNAP`]
//! seconds first snaps the duration to the nearest [`PRESNAP`]-second
//! boundary, so that a duration a hair away from a boundary rounds
//! exactly as the boundary itself does.

use vstd::prelude::*;

use vstd::arithmetic::div_mod::lemma_fundamental_div_mod_converse;

verus! {

/// Granularities at or above this many seconds get the pre-snap step.
pub const PRESNAP: i64 = 36;

/// Largest duration and granularity magnitude [`round`] accepts;
/// keeps the quantization arithmetic inside the machine range.
pub const ROUND_LIMIT: i64 = 1000000000000000;

/// Rounding modes for [`round`], each carrying its granularity in
/// whole seconds.
#[derive(Copy, Clone, Debug, PartialEq, Eq, Structural)]
pub enum Rounding {
    Up(i64),
    Down(i64),
    Half(i64),
    Off,
}

/// The granularity a mode carries; zero for `Off`.
pub open spec fn spec_granularity(r: Rounding) -> int {
    match r {
        Rounding::Up(g) => g as int,
        Rounding::Down(g) => g as int,
        Rounding::Half(g) => g as int,
        Rounding::Off => 0,
    }
}

/// Floor of the exact quotient `a / d`.
pub open spec fn floor_div(a: int, d: int) -> int {
    a / d
}

/// Ceiling of the exact quotient `a / d`.
pub open spec fn ceil_div(a: int, d: int) -> int {
    -((-a) / d)
}

/// Nearest integer to the exact quotient `a / d`, ties away from zero.
pub open spec fn half_div(a: int, d: int) -> int {
    if a >= 0 {
        (a + d / 2) / d
    } else {
        -(((-a) + d / 2) / d)
    }
}

/// The pre-snap step: durations snap to the nearest [`PRESNAP`]-second
/// boundary whenever the granularity calls for it.
pub open spec fn spec_presnap(x: int, g: int) -> int {
    if g >= PRESNAP {
        half_div(x, PRESNAP as int) * PRESNAP
    } else {
        x
    }
}

/// What [`round`] returns: the pre-snapped duration quantized to the
/// granularity by the mode's division.  A mode whose granularity is
/// not positive leaves the duration untouched, so no division by zero
/// can arise.
pub open spec fn spec_round(x: int, r: Rounding) -> int {
    match r {
        Rounding::Off => x,
        Rounding::Up(g) => if g <= 0 {
            x
        } else {
            ceil_div(spec_presnap(x, g as int), g as int) * g
        },
        Rounding::Down(g) => if g <= 0 {
            x
        } else {
            floor_div(spec_presnap(x, g as int), g as int) * g
        },
        Rounding::Half(g) => if g <= 0 {
            x
        } else {
            half_div(spec_presnap(x, g as int), g as int) * g
        },
    }
}

/// `floor_div(a, d) * d` lands within `d` below `a`.
pub proof fn lemma_floor_div_props(a: int, d: int)
    requires
        d > 0,
    ensures
        floor_div(a, d) * d <= a < floor_div(a, d) * d + d,
{
    vstd::arithmetic::div_mod::lemma_fundamental_div_mod(a, d);
    assert(floor_div(a, d) * d == d * (a / d)) by (nonlinear_arith);
}

/// `ceil_div(a, d) * d` lands within `d` above `a`.
pub proof fn lemma_ceil_div_props(a: int, d: int)
    requires
        d > 0,
    ensures
        a <= ceil_div(a, d) * d < a + d,
{
    vstd::arithmetic::div_mod::lemma_fundamental_div_mod(-a, d);
    assert(ceil_div(a, d) * d == -(d * ((-a) / d))) by (nonlinear_arith);
}

/// `half_div(a, d) * d` lands within `d` of `a` on either side.
pub proof fn lemma_half_div_props(a: int, d: int)
    requires
        d > 0,
    ensures
        a - d < half_div(a, d) * d < a + d,
{
    if a >= 0 {
        vstd::arithmetic::div_mod::lemma_fundamental_div_mod(a + d / 2, d);
        assert(half_div(a, d) * d == d * ((a + d / 2) / d)) by (nonlinear_arith)
            requires
                a >= 0,
                d > 0,
        ;
    } else {
        vstd::arithmetic::div_mod::lemma_fundamental_div_mod((-a) + d / 2, d);
        assert(half_div(a, d) * d == -(d * (((-a) + d / 2) / d))) by (nonlinear_arith)
            requires
                a < 0,
                d > 0,
        ;
    }
}

/// Each of the three quantizing divisions is exact on multiples of
/// the divisor.
pub proof fn lemma_div_exact_on_multiples(a: int, d: int)
    requires
        d > 0,
        a % d == 0,
    ensures
        floor_div(a, d) * d == a,
        ceil_div(a, d) * d == a,
        half_div(a, d) * d == a,
{
    vstd::arithmetic::div_mod::lemma_fundamental_div_mod(a, d);
    let k = a / d;
    assert(a == k * d) by (nonlinear_arith)
        requires
            a == d * k + a % d,
            a % d == 0,
    ;
    assert((-a) == (-k) * d + 0) by (nonlinear_arith)
        requires
            a == k * d,
    ;
    lemma_fundamental_div_mod_converse(-a, d, -k, 0);
    assert(ceil_div(a, d) == k);
    assert(ceil_div(a, d) * d == a) by (nonlinear_arith)
        requires
            ceil_div(a, d) == k,
            a == k * d,
    ;
    if a >= 0 {
        assert(a + d / 2 == k * d + d / 2) by (nonlinear_arith)
            requires
                a == k * d,
        ;
        lemma_fundamental_div_mod_converse(a + d / 2, d, k, d / 2);
        assert(half_div(a, d) * d == a) by (nonlinear_arith)
            requires
                half_div(a, d) == k,
                a == k * d,
        ;
    } else {
        assert((-a) + d / 2 == (-k) * d + d / 2) by (nonlinear_arith)
            requires
                a == k * d,
        ;
        lemma_fundamental_div_mod_converse((-a) + d / 2, d, -k, d / 2);
        assert(half_div(a, d) * d == a) by (nonlinear_arith)
            requires
                half_div(a, d) == -(-k),
                a == k * d,
    ;
    }
    assert(floor_div(a, d) * d == a) by (nonlinear_arith)
        requires
            floor_div(a, d) == k,
            a == k * d,
    ;
}

/// A multiple of the granularity passes through [`spec_round`]
/// unchanged, for every granularity the pre-snap step respects:
/// below [`PRESNAP`], or itself a multiple of [`PRESNAP`].
pub proof fn lemma_round_fixed_on_multiples(y: int, r: Rounding)
    requires
        spec_granularity(r) > 0 ==> y % spec_granularity(r) == 0,
        spec_granularity(r) < PRESNAP || spec_granularity(r) % (PRESNAP as int) == 0,
    ensures
        spec_round(y, r) == y,
{
    let g = spec_granularity(r);
    if g > 0 {
        if g >= PRESNAP {
            let t = g / (PRESNAP as int);
            let m = y / g;
            vstd::arithmetic::div_mod::lemma_fundamental_div_mod(y, g);
            vstd::arithmetic::div_mod::lemma_fundamental_div_mod(g, PRESNAP as int);
            assert(y == (m * t) * (PRESNAP as int) + 0) by (nonlinear_arith)
                requires
                    y == g * m + 0,
                    g == (PRESNAP as int) * t + 0,
            ;
            lemma_fundamental_div_mod_converse(y, PRESNAP as int, m * t, 0);
            lemma_div_exact_on_multiples(y, PRESNAP as int);
            assert(spec_presnap(y, g) == y);
        } else {
            assert(spec_presnap(y, g) == y);
        }
        lemma_div_exact_on_multiples(y, g);
    }
}

/// Rounding is idempotent: rounding a rounded duration again, with
/// the same mode and granularity, changes nothing.  This holds for
/// every positive granularity that the pre-snap step respects:
/// below [`PRESNAP`] seconds, or a whole multiple of it.
pub proof fn lemma_round_idempotent(x: int, r: Rounding)
    requires
        r is Off || spec_granularity(r) > 0,
        spec_granularity(r) < PRESNAP || spec_granularity(r) % (PRESNAP as int) == 0,
    ensures
        spec_round(spec_round(x, r), r) == spec_round(x, r),
{
    let g = spec_granularity(r);
    let y = spec_round(x, r);
    if !(r is Off) {
        let p = spec_presnap(x, g);
        match r {
            Rounding::Up(_) => {
                lemma_fundamental_div_mod_converse(y, g, ceil_div(p, g), 0);
            },
            Rounding::Down(_) => {
                lemma_fundamental_div_mod_converse(y, g, floor_div(p, g), 0);
            },
            Rounding::Half(_) => {
                lemma_fundamental_div_mod_converse(y, g, half_div(p, g), 0);
            },
            Rounding::Off => {},
        }
        assert(y % g == 0);
        lemma_round_fixed_on_multiples(y, r);
    }
}

/// Rounding moves a duration by less than the pre-snap width plus
/// the granularity, and not at all when the granularity is not
/// positive.
pub proof fn lemma_round_range(x: int, r: Rounding)
    ensures
        spec_granularity(r) <= 0 ==> spec_round(x, r) == x,
        spec_granularity(r) > 0 ==> x - PRESNAP - spec_granularity(r) < spec_round(x, r) < x
            + PRESNAP + spec_granularity(r),
{
    let g = spec_granularity(r);
    if g > 0 {
        let p = spec_presnap(x, g);
        if g >= PRESNAP {
            lemma_half_div_props(x, PRESNAP as int);
        }
        match r {
            Rounding::Up(_) => {
                lemma_ceil_div_props(p, g);
            },
            Rounding::Down(_) => {
                lemma_floor_div_props(p, g);
            },
            Rounding::Half(_) => {
                lemma_half_div_props(p, g);
            },
            Rounding::Off => {},
        }
    }
}

/// Rounding with mode `Off` returns the duration unchanged.
pub proof fn lemma_round_none(x: int)
    ensures
        spec_round(x, Rounding::Off) == x,
{
}

/// The zero-granularity guard: a granularity of zero (or below)
/// leaves the duration unchanged instead of dividing by it.
pub proof fn lemma_round_zero_granularity(x: int, g: i64)
    requires
        g <= 0,
    ensures
        spec_round(x, Rounding::Up(g)) == x,
        spec_round(x, Rounding::Down(g)) == x,
        spec_round(x, Rounding::Half(g)) == x,
{
}

impl Rounding {
    /// The granularity this mode carries, in whole seconds.
    pub fn seconds(&self) -> (r: i64)
        ensures
            r == spec_granularity(*self),
    {
        match *self {
            Rounding::Up(g) => g,
            Rounding::Down(g) => g,
            Rounding::Half(g) => g,
            Rounding::Off => 0,
        }
    }
}

/// Floor of the exact quotient, on machine integers.
fn div_floor_i64(a: i64, d: i64) -> (r: i64)
    requires
        0 < d <= ROUND_LIMIT,
        -ROUND_LIMIT - PRESNAP <= a <= ROUND_LIMIT + PRESNAP,
    ensures
        r == floor_div(a as int, d as int),
{
    if a >= 0 {
        a / d
    } else {
        let q = (-a + d - 1) / d;
        proof {
            vstd::arithmetic::div_mod::lemma_fundamental_div_mod(-a + d - 1, d as int);
            let rr = (-a + d - 1) % (d as int);
            assert(a == (-q) * d + (d - 1 - rr)) by (nonlinear_arith)
                requires
                    -a + d - 1 == d * q + rr,
            ;
            lemma_fundamental_div_mod_converse(a as int, d as int, -q as int, d - 1 - rr);
        }
        -q
    }
}

/// Ceiling of the exact quotient, on machine integers.
fn div_ceil_i64(a: i64, d: i64) -> (r: i64)
    requires
        0 < d <= ROUND_LIMIT,
        -ROUND_LIMIT - PRESNAP <= a <= ROUND_LIMIT + PRESNAP,
    ensures
        r == ceil_div(a as int, d as int),
{
    if a >= 0 {
        let q = (a + d - 1) / d;
        proof {
            vstd::arithmetic::div_mod::lemma_fundamental_div_mod(a + d - 1, d as int);
            let rr = (a + d - 1) % (d as int);
            assert(-a == (-q) * d + (d - 1 - rr)) by (nonlinear_arith)
                requires
                    a + d - 1 == d * q + rr,
            ;
            lemma_fundamental_div_mod_converse(-a as int, d as int, -q as int, d - 1 - rr);
        }
        q
    } else {
        -((-a) / d)
    }
}

/// Nearest multiple division, ties away from zero, on machine
/// integers.
fn div_half_i64(a: i64, d: i64) -> (r: i64)
    requires
        0 < d <= ROUND_LIMIT,
        -ROUND_LIMIT - PRESNAP <= a <= ROUND_LIMIT + PRESNAP,
    ensures
        r == half_div(a as int, d as int),
{
    if a >= 0 {
        (a + d / 2) / d
    } else {
        -((-a + d / 2) / d)
    }
}

/// Quantize a duration according to a rounding mode.
///
/// Matches [`spec_round`] exactly: the mode's division applied to the
/// pre-snapped duration, with non-positive granularities leaving the
/// duration untouched.
pub fn round(seconds: i64, rounding: Rounding) -> (r: i64)
    requires
        -ROUND_LIMIT <= seconds <= ROUND_LIMIT,
        spec_granularity(rounding) <= ROUND_LIMIT,
    ensures
        r == spec_round(seconds as int, rounding),
{
    let g = rounding.seconds();
    let pre: i64 = if g >= PRESNAP {
        proof {
            lemma_half_div_props(seconds as int, PRESNAP as int);
        }
        div_half_i64(seconds, PRESNAP) * PRESNAP
    } else {
        seconds
    };
    proof {
        if g > 0 {
            lemma_ceil_div_props(pre as int, g as int);
            lemma_floor_div_props(pre as int, g as int);
            lemma_half_div_props(pre as int, g as int);
        }
    }
    match rounding {
        Rounding::Up(gg) => {
            if gg <= 0 {
                seconds
            } else {
                div_ceil_i64(pre, gg) * gg
            }
        },
        Rounding::Down(gg) => {
            if gg <= 0 {
                seconds
            } else {
                div_floor_i64(pre, gg) * gg
            }
        },
        Rounding::Half(gg) => {
            if gg <= 0 {
                seconds
            } else {
                div_half_i64(pre, gg) * gg
            }
        },
        Rounding::Off => pre,
    }
}

} // verus!
