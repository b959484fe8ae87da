//! Easing functions on rational progress `i / n`, interpolating between two
//! fixed-point values.
use vstd::prelude::*;
use crate::geometry::{floor_div, lemma_mul_within, within};

verus! {

/// Largest number of steps that progress is counted in.
pub const STEPS_MAX: i64 = 0x1_0000;

/// Largest magnitude of an interpolated end point.
pub const VALUE_MAX: i64 = 0x2_0000_0000;

/// How progress maps onto the way from one value to the other.
#[derive(Clone, Copy, Debug, PartialEq, Eq, Structural)]
pub enum Easing {
    /// `t`
    Linear,
    /// `t * t`
    QuadIn,
    /// `t * (2 - t)`
    QuadOut,
    /// `1 + 2.70158 * (t - 1)^3 + 1.70158 * (t - 1)^2`: overshoots, then
    /// settles.
    BackOut,
}

/// The numerator of the eased progress at `t = i / n`, over `ease_den`.
pub open spec fn ease_num(e: Easing, i: int, n: int) -> int {
    match e {
        Easing::Linear => i,
        Easing::QuadIn => i * i,
        Easing::QuadOut => i * (2 * n - i),
        Easing::BackOut => 100000 * (n * n * n) + 270158 * ((i - n) * (i - n) * (i - n)) + 170158
            * ((i - n) * (i - n) * n),
    }
}

pub open spec fn ease_den(e: Easing, n: int) -> int {
    match e {
        Easing::Linear => n,
        Easing::QuadIn => n * n,
        Easing::QuadOut => n * n,
        Easing::BackOut => 100000 * (n * n * n),
    }
}

/// The value eased from `from` toward `to` at progress `i / n`, rounded
/// toward negative infinity.
pub open spec fn ease_spec(e: Easing, i: int, n: int, from: int, to: int) -> int {
    from + ((to - from) * ease_num(e, i, n)) / ease_den(e, n)
}

proof fn lemma_ease_bounds(e: Easing, i: int, n: int)
    requires
        1 <= n <= STEPS_MAX,
        -n <= i <= n,
    ensures
        0 < ease_den(e, n) <= 100000 * (STEPS_MAX * STEPS_MAX * STEPS_MAX),
        within(ease_num(e, i, n), 30 * ease_den(e, n)),
{
    assert(0 < n * n <= STEPS_MAX * STEPS_MAX) by (nonlinear_arith)
        requires
            1 <= n <= STEPS_MAX,
    ;
    assert(0 < n * n * n <= STEPS_MAX * STEPS_MAX * STEPS_MAX) by (nonlinear_arith)
        requires
            1 <= n <= STEPS_MAX,
    ;
    match e {
        Easing::Linear => {},
        Easing::QuadIn => {
            assert(0 <= i * i <= n * n) by (nonlinear_arith)
                requires
                    -n <= i <= n,
            ;
        },
        Easing::QuadOut => {
            assert(within(i * (2 * n - i), 3 * (n * n))) by (nonlinear_arith)
                requires
                    -n <= i <= n,
            ;
        },
        Easing::BackOut => {
            let v = i - n;
            let n3 = n * n * n;
            assert(0 <= v * v * n <= 4 * n3) by (nonlinear_arith)
                requires
                    -2 * n <= v <= 0,
                    n3 == n * n * n,
                    n >= 1,
            ;
            assert(within(v * v * v, 8 * n3)) by (nonlinear_arith)
                requires
                    -2 * n <= v <= 0,
                    n3 == n * n * n,
                    n >= 1,
            ;
        },
    }
}

/// The value eased from `from` toward `to` at progress `i / n`
/// (see `ease_spec`); progress may run from `-1` to `1`.
pub fn ease(e: Easing, i: i64, n: i64, from: i64, to: i64) -> (r: i64)
    requires
        1 <= n <= STEPS_MAX,
        -n <= i <= n,
        within(from as int, VALUE_MAX as int),
        within(to as int, VALUE_MAX as int),
    ensures
        r == ease_spec(e, i as int, n as int, from as int, to as int),
{
    proof {
        lemma_ease_bounds(e, i as int, n as int);
        assert(n * n <= STEPS_MAX * STEPS_MAX) by (nonlinear_arith)
            requires
                1 <= n <= STEPS_MAX,
        ;
        assert(n * n * n <= STEPS_MAX * STEPS_MAX * STEPS_MAX) by (nonlinear_arith)
            requires
                1 <= n <= STEPS_MAX,
        ;
        lemma_mul_within(i as int, i as int, STEPS_MAX as int, STEPS_MAX as int);
        lemma_mul_within(i as int, 2 * n - i, STEPS_MAX as int, 3 * STEPS_MAX);
        let v = i - n;
        lemma_mul_within(v, v, 2 * STEPS_MAX, 2 * STEPS_MAX);
        lemma_mul_within(v * v, v, 4 * STEPS_MAX * STEPS_MAX, 2 * STEPS_MAX);
        lemma_mul_within(v * v, n as int, 4 * STEPS_MAX * STEPS_MAX, STEPS_MAX as int);
    }
    let ii: i128 = i as i128;
    let nn: i128 = n as i128;
    let (num, den): (i128, i128) = match e {
        Easing::Linear => (ii, nn),
        Easing::QuadIn => (ii * ii, nn * nn),
        Easing::QuadOut => (ii * (2 * nn - ii), nn * nn),
        Easing::BackOut => {
            let v: i128 = ii - nn;
            (
                100000 * (nn * nn * nn) + 270158 * (v * v * v) + 170158 * (v * v * nn),
                100000 * (nn * nn * nn),
            )
        },
    };
    let span: i128 = (to as i128) - (from as i128);
    proof {
        assert(num == ease_num(e, i as int, n as int));
        assert(den == ease_den(e, n as int));
        lemma_mul_within(span as int, num as int, 2 * VALUE_MAX, 30 * den);
        assert(2 * VALUE_MAX * (30 * den) == den * (60 * VALUE_MAX)) by (nonlinear_arith);
        assert(2 * VALUE_MAX * (30 * den) <= 2 * VALUE_MAX * (30 * (100000 * (STEPS_MAX
            * STEPS_MAX * STEPS_MAX)))) by (nonlinear_arith)
            requires
                0 < den <= 100000 * (STEPS_MAX * STEPS_MAX * STEPS_MAX),
        ;
        lemma_quot_within(span * num, den as int, 60 * VALUE_MAX);
    }
    let q: i128 = floor_div(span * num, den);
    (from as i128 + q) as i64
}

proof fn lemma_quot_within(a: int, d: int, q: int)
    requires
        within(a, d * q),
        d > 0,
        q >= 0,
    ensures
        within(a / d, q),
{
    vstd::arithmetic::div_mod::lemma_fundamental_div_mod(a, d);
    vstd::arithmetic::div_mod::lemma_mod_bound(a, d);
    let r = a % d;
    let t = a / d;
    assert(within(t, q)) by (nonlinear_arith)
        requires
            a == d * t + r,
            0 <= r < d,
            within(a, d * q),
            d > 0,
    ;
}

} // verus!
