//! Sine and cosine of fixed-point angles.
//!
//! An angle is a number of millionths of a degree; a sine or cosine is a
//! number of millionths. The angle is first folded into the first eighth of a
//! turn, where the Taylor polynomials of sine (to the ninth power) and cosine
//! (to the tenth) are evaluated in billionths and rounded to millionths.

use vstd::prelude::*;
use crate::fixed::{lemma_square_monotone, magnitude, SCALE};

verus! {

/// A full turn, in millionths of a degree.
pub const FULL_TURN: i64 = 360_000_000;

/// A quarter of a turn, in millionths of a degree.
pub const QUARTER_TURN: i64 = 90_000_000;

/// An eighth of a turn, in millionths of a degree.
pub const EIGHTH_TURN: i64 = 45_000_000;

/// One, in the billionths in which the polynomials are evaluated.
pub const FINE: i64 = 1_000_000_000;

/// π / 180 in units of 10⁻¹²: a millionth of a degree times this, divided by
/// `FINE`, is the same angle in billionths of a radian.
pub const RADIANS_PER_DEGREE: i64 = 17_453_292_520;

/// The radian measure, in billionths, of the eighth of a turn.
pub const EIGHTH_TURN_RADIANS: i64 = 785_398_163;

/// The larger of `|sin|` and `|cos|` never falls below this.
pub const MAJOR: i64 = 690_000;

/// An angle of at most an eighth of a turn, converted from millionths of a
/// degree to billionths of a radian.
pub open spec fn radians(degrees: int) -> int {
    degrees * RADIANS_PER_DEGREE / (FINE as int)
}

/// One step of Horner's rule for an alternating series: `1 - y·t / k`.
pub open spec fn horner(y: int, t: int, k: int) -> int {
    FINE - (y * t / (FINE as int)) / k
}

/// `x - x³/3! + x⁵/5! - x⁷/7! + x⁹/9!` in billionths.
pub open spec fn sine_series(x: int) -> int {
    let y = x * x / (FINE as int);
    x * horner(y, horner(y, horner(y, horner(y, FINE as int, 72), 42), 20), 6) / (FINE as int)
}

/// `1 - x²/2! + x⁴/4! - x⁶/6! + x⁸/8! - x¹⁰/10!` in billionths.
pub open spec fn cosine_series(x: int) -> int {
    let y = x * x / (FINE as int);
    horner(y, horner(y, horner(y, horner(y, horner(y, FINE as int, 90), 56), 30), 12), 2)
}

/// Billionths rounded to the nearest millionth.
pub open spec fn rounded(v: int) -> int {
    (v + 500) / 1000
}

/// The sine of an angle between zero and a quarter of a turn.
pub open spec fn quadrant_sine(r: int) -> int {
    if r < EIGHTH_TURN {
        rounded(sine_series(radians(r)))
    } else {
        rounded(cosine_series(radians(QUARTER_TURN - r)))
    }
}

/// The cosine of an angle between zero and a quarter of a turn.
pub open spec fn quadrant_cosine(r: int) -> int {
    quadrant_sine(QUARTER_TURN - r)
}

/// The sine of any angle.
pub open spec fn sine(angle: int) -> int {
    let t = angle % (FULL_TURN as int);
    let r = t % (QUARTER_TURN as int);
    if t < QUARTER_TURN {
        quadrant_sine(r)
    } else if t < 2 * QUARTER_TURN {
        quadrant_cosine(r)
    } else if t < 3 * QUARTER_TURN {
        -quadrant_sine(r)
    } else {
        -quadrant_cosine(r)
    }
}

/// The cosine of any angle.
pub open spec fn cosine(angle: int) -> int {
    let t = angle % (FULL_TURN as int);
    let r = t % (QUARTER_TURN as int);
    if t < QUARTER_TURN {
        quadrant_cosine(r)
    } else if t < 2 * QUARTER_TURN {
        -quadrant_sine(r)
    } else if t < 3 * QUARTER_TURN {
        -quadrant_cosine(r)
    } else {
        quadrant_sine(r)
    }
}

/// A Horner step on arguments between zero and one stays between zero and
/// one, and takes off at most `y / k`.
proof fn lemma_horner_range(y: int, t: int, k: int)
    requires
        0 <= y <= FINE,
        0 <= t <= FINE,
        1 <= k,
    ensures
        0 <= y * t <= FINE * FINE,
        0 <= y * t / (FINE as int) <= y,
        FINE - y / k <= horner(y, t, k) <= FINE,
        0 <= horner(y, t, k),
{
    let one = FINE as int;
    assert(0 <= y * t <= y * one && y * one <= one * one) by (nonlinear_arith)
        requires
            0 <= y <= one,
            0 <= t <= one,
    ;
    let p = y * t / one;
    assert(0 <= p <= y) by (nonlinear_arith)
        requires
            p == y * t / one,
            0 <= y * t <= y * one,
            one > 0,
    ;
    assert(0 <= p / k <= y / k && y / k <= y) by (nonlinear_arith)
        requires
            0 <= p <= y,
            1 <= k,
    ;
}

/// The square of an angle of at most an eighth of a turn, in billionths.
proof fn lemma_square_range(x: int)
    requires
        0 <= x <= EIGHTH_TURN_RADIANS,
    ensures
        0 <= x * x <= 616_850_274_443_774_569,
        0 <= x * x / (FINE as int) <= 616_850_274,
{
    lemma_square_monotone(x, EIGHTH_TURN_RADIANS as int);
    lemma_square_monotone(0, x);
    assert(EIGHTH_TURN_RADIANS * EIGHTH_TURN_RADIANS == 616_850_274_443_774_569int);
}

/// Both series stay between zero and one on the first eighth of a turn, and
/// the cosine series stays above `1 - x²/2`.
pub proof fn lemma_series_range(x: int)
    requires
        0 <= x <= EIGHTH_TURN_RADIANS,
    ensures
        0 <= sine_series(x) <= FINE,
        691_574_863 <= cosine_series(x) <= FINE,
{
    lemma_square_range(x);
    let one = FINE as int;
    let y = x * x / one;
    let s1 = horner(y, one, 72);
    lemma_horner_range(y, one, 72);
    let s2 = horner(y, s1, 42);
    lemma_horner_range(y, s1, 42);
    let s3 = horner(y, s2, 20);
    lemma_horner_range(y, s2, 20);
    let s4 = horner(y, s3, 6);
    lemma_horner_range(y, s3, 6);
    lemma_horner_range(x, s4, 1);
    let c1 = horner(y, one, 90);
    lemma_horner_range(y, one, 90);
    let c2 = horner(y, c1, 56);
    lemma_horner_range(y, c1, 56);
    let c3 = horner(y, c2, 30);
    lemma_horner_range(y, c2, 30);
    let c4 = horner(y, c3, 12);
    lemma_horner_range(y, c3, 12);
    lemma_horner_range(y, c4, 2);
}

/// The radian measure of an angle in the first eighth of a turn.
proof fn lemma_radians_range(r: int)
    requires
        0 <= r <= EIGHTH_TURN,
    ensures
        0 <= r * RADIANS_PER_DEGREE <= 785_398_163_400_000_000,
        0 <= radians(r) <= EIGHTH_TURN_RADIANS,
{
    assert(0 <= r * RADIANS_PER_DEGREE <= EIGHTH_TURN * RADIANS_PER_DEGREE) by (nonlinear_arith)
        requires
            0 <= r <= EIGHTH_TURN,
    ;
}

/// In the first quadrant sine and cosine lie between zero and one, and one
/// of the two is at least `MAJOR`.
pub proof fn lemma_quadrant_range(r: int)
    requires
        0 <= r <= QUARTER_TURN,
    ensures
        0 <= quadrant_sine(r) <= SCALE,
        0 <= quadrant_cosine(r) <= SCALE,
        quadrant_sine(r) >= MAJOR || quadrant_cosine(r) >= MAJOR,
{
    if r < EIGHTH_TURN {
        lemma_radians_range(r);
        lemma_series_range(radians(r));
    } else {
        lemma_radians_range(QUARTER_TURN - r);
        lemma_series_range(radians(QUARTER_TURN - r));
    }
    let m = QUARTER_TURN - r;
    if m < EIGHTH_TURN {
        lemma_radians_range(m);
        lemma_series_range(radians(m));
    } else {
        lemma_radians_range(QUARTER_TURN - m);
        lemma_series_range(radians(QUARTER_TURN - m));
    }
}

/// Sine and cosine of every angle lie between minus one and one, and the
/// larger of their magnitudes is at least `MAJOR`.
pub proof fn lemma_range(angle: int)
    ensures
        -SCALE <= sine(angle) <= SCALE,
        -SCALE <= cosine(angle) <= SCALE,
        magnitude(sine(angle)) >= MAJOR || magnitude(cosine(angle)) >= MAJOR,
{
    let t = angle % (FULL_TURN as int);
    let r = t % (QUARTER_TURN as int);
    lemma_quadrant_range(r);
}

/// At the four cardinal angles sine and cosine are exact.
pub proof fn lemma_cardinal_angles()
    ensures
        sine(0) == 0 && cosine(0) == SCALE,
        sine(QUARTER_TURN as int) == SCALE && cosine(QUARTER_TURN as int) == 0,
        sine(2 * QUARTER_TURN) == 0 && cosine(2 * QUARTER_TURN) == -SCALE,
        sine(3 * QUARTER_TURN) == -SCALE && cosine(3 * QUARTER_TURN) == 0,
{
    assert(radians(0) == 0);
    assert(sine_series(0) == 0);
    assert(0int * 0int / (FINE as int) == 0);
    assert(horner(0, FINE as int, 90) == FINE);
    assert(horner(0, FINE as int, 56) == FINE);
    assert(horner(0, FINE as int, 30) == FINE);
    assert(horner(0, FINE as int, 12) == FINE);
    assert(horner(0, FINE as int, 2) == FINE);
    assert(cosine_series(0) == FINE);
    assert(quadrant_sine(0) == 0);
    assert(quadrant_cosine(0) == SCALE);
}

/// Sine and cosine repeat after a full turn.
pub proof fn lemma_periodic(angle: int)
    ensures
        sine(angle + FULL_TURN) == sine(angle),
        cosine(angle + FULL_TURN) == cosine(angle),
{
    assert((angle + FULL_TURN) % (FULL_TURN as int) == angle % (FULL_TURN as int));
}

/// A quarter of a turn further on, the sine is the cosine and the cosine is
/// the sine negated.
pub proof fn lemma_quarter_turn(angle: int)
    ensures
        sine(angle + QUARTER_TURN) == cosine(angle),
        cosine(angle + QUARTER_TURN) == -sine(angle),
{
    let t = angle % (FULL_TURN as int);
    let u = (angle + QUARTER_TURN) % (FULL_TURN as int);
    assert(u == if t < 3 * QUARTER_TURN { t + QUARTER_TURN } else { t - 3 * QUARTER_TURN });
    assert(u % (QUARTER_TURN as int) == t % (QUARTER_TURN as int));
}

/// The sine is odd and the cosine is even.
pub proof fn lemma_symmetry(angle: int)
    ensures
        sine(-angle) == -sine(angle),
        cosine(-angle) == cosine(angle),
{
    let full = FULL_TURN as int;
    let quarter = QUARTER_TURN as int;
    let t = angle % full;
    let u = (-angle) % full;
    assert(u == if t == 0 { 0 } else { full - t });
    let r = t % quarter;
    let v = u % quarter;
    assert(v == if r == 0 { 0 } else { quarter - r });
    lemma_cardinal_angles();
    assert(quadrant_sine(0) == 0);
}

fn horner_step(y: i64, t: i64, k: i64) -> (r: i64)
    requires
        0 <= y <= FINE,
        0 <= t <= FINE,
        1 <= k,
    ensures
        r == horner(y as int, t as int, k as int),
        0 <= r <= FINE,
{
    proof {
        lemma_horner_range(y as int, t as int, k as int);
    }
    FINE - (y * t / FINE) / k
}

fn sine_of_radians(x: i64) -> (r: i64)
    requires
        0 <= x <= EIGHTH_TURN_RADIANS,
    ensures
        r == sine_series(x as int),
        0 <= r <= FINE,
{
    proof {
        lemma_square_range(x as int);
        lemma_series_range(x as int);
    }
    let y: i64 = x * x / FINE;
    let t: i64 = horner_step(y, FINE, 72);
    let t: i64 = horner_step(y, t, 42);
    let t: i64 = horner_step(y, t, 20);
    let t: i64 = horner_step(y, t, 6);
    proof {
        lemma_horner_range(x as int, t as int, 1);
    }
    x * t / FINE
}

fn cosine_of_radians(x: i64) -> (r: i64)
    requires
        0 <= x <= EIGHTH_TURN_RADIANS,
    ensures
        r == cosine_series(x as int),
        691_574_863 <= r <= FINE,
{
    proof {
        lemma_square_range(x as int);
        lemma_series_range(x as int);
    }
    let y: i64 = x * x / FINE;
    let t: i64 = horner_step(y, FINE, 90);
    let t: i64 = horner_step(y, t, 56);
    let t: i64 = horner_step(y, t, 30);
    let t: i64 = horner_step(y, t, 12);
    horner_step(y, t, 2)
}

fn sine_in_quadrant(r: i64) -> (s: i64)
    requires
        0 <= r <= QUARTER_TURN,
    ensures
        s == quadrant_sine(r as int),
{
    if r < EIGHTH_TURN {
        proof {
            lemma_radians_range(r as int);
        }
        (sine_of_radians(r * RADIANS_PER_DEGREE / FINE) + 500) / 1000
    } else {
        proof {
            lemma_radians_range(QUARTER_TURN - r);
        }
        (cosine_of_radians((QUARTER_TURN - r) * RADIANS_PER_DEGREE / FINE) + 500) / 1000
    }
}

/// The sine and the cosine of `angle`, an angle in millionths of a degree.
pub fn sin_cos(angle: i64) -> (r: (i64, i64))
    ensures
        r.0 == sine(angle as int),
        r.1 == cosine(angle as int),
        -SCALE <= r.0 <= SCALE,
        -SCALE <= r.1 <= SCALE,
        magnitude(r.0 as int) >= MAJOR || magnitude(r.1 as int) >= MAJOR,
{
    let m: i64 = angle % FULL_TURN;
    let t: i64 = if m < 0 {
        m + FULL_TURN
    } else {
        m
    };
    assert(t == (angle as int) % (FULL_TURN as int));
    let r: i64 = t % QUARTER_TURN;
    proof {
        lemma_quadrant_range(r as int);
        lemma_range(angle as int);
    }
    let s: i64 = sine_in_quadrant(r);
    let c: i64 = sine_in_quadrant(QUARTER_TURN - r);
    if t < QUARTER_TURN {
        (s, c)
    } else if t < 2 * QUARTER_TURN {
        (c, -s)
    } else if t < 3 * QUARTER_TURN {
        (-s, -c)
    } else {
        (-c, s)
    }
}

} // verus!
