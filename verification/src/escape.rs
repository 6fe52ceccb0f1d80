//! The escape evaluator: how many iterations of `z <- z * z + c` pass before
//! the orbit leaves the bounding square of half-width two, starting from
//! `z = 0`, with the escape test made before each update.

use vstd::prelude::*;

verus! {

use crate::scaled::div_scale;
use crate::scaled::div_scale_exec;
use crate::scaled::lemma_div_scale_bound;
use crate::scaled::POINT_MAX;
use crate::scaled::SCALE;

/// Largest magnitude, in fixed-point units, that an orbit component can reach:
/// an update of a not-yet-escaped orbit adds at most a few units of four to
/// the point's own components.
const ORBIT_MAX: i64 = 0x2000_0000_0000_0000;

/// Magnitude of a squared term of an update, in fixed-point units: the square
/// of a not-yet-escaped component, divided by `SCALE`, is at most four.
const SQUARE_BOUND: i128 = 0x4_0000_0000;

/// Magnitude of the doubled cross term of an update, in fixed-point units.
const CROSS_BOUND: i128 = 0x8_0000_0000;

/// A point of the complex plane, both components in fixed-point units.
#[derive(Clone, Copy, PartialEq, Eq, Structural)]
pub struct ComplexPoint {
    pub real: i64,
    pub imaginary: i64,
}

impl ComplexPoint {
    /// Both components are small enough that every orbit update stays within
    /// `ORBIT_MAX`, far inside the fixed-point range.
    pub open spec fn wf(self) -> bool {
        &&& -POINT_MAX <= self.real <= POINT_MAX
        &&& -POINT_MAX <= self.imaginary <= POINT_MAX
    }
}

/// The escape test: a component of the orbit lies strictly outside the
/// bounding square of half-width two (per axis, not a circular modulus test).
pub open spec fn escaped(zr: int, zi: int) -> bool {
    ||| zr > 2 * (SCALE as int)
    ||| zr < -2 * (SCALE as int)
    ||| zi > 2 * (SCALE as int)
    ||| zi < -2 * (SCALE as int)
}

/// Real part of one update `z <- z * z + c`: `re(z)^2 - im(z)^2 + re(c)`,
/// each square divided back to fixed-point units.
pub open spec fn step_re(zr: int, zi: int, cr: int) -> int {
    div_scale(zr * zr) - div_scale(zi * zi) + cr
}

/// Imaginary part of one update `z <- z * z + c`: `2 * re(z) * im(z) + im(c)`,
/// the product divided back to fixed-point units.
pub open spec fn step_im(zr: int, zi: int, ci: int) -> int {
    div_scale(2 * zr * zi) + ci
}

/// The iteration index at which the orbit that currently stands at `z`, with
/// index `i`, first fails the escape test, or `max` if it never does through
/// index `max`.
pub open spec fn escape_from(zr: int, zi: int, cr: int, ci: int, i: nat, max: nat) -> nat
    decreases max - i,
{
    if escaped(zr, zi) {
        i
    } else if i >= max {
        max
    } else {
        escape_from(step_re(zr, zi, cr), step_im(zr, zi, ci), cr, ci, (i + 1) as nat, max)
    }
}

/// The count the evaluator owes for point `c` and cap `max`: the orbit starts
/// at zero with index zero.
pub open spec fn spec_escape_count(cr: int, ci: int, max: nat) -> nat {
    escape_from(0, 0, cr, ci, 0, max)
}

/// The count never moves backward past the current index, nor beyond the cap.
proof fn lemma_escape_from_bounds(zr: int, zi: int, cr: int, ci: int, i: nat, max: nat)
    requires
        i <= max,
    ensures
        i <= escape_from(zr, zi, cr, ci, i, max) <= max,
    decreases max - i,
{
    if !escaped(zr, zi) && i < max {
        lemma_escape_from_bounds(
            step_re(zr, zi, cr),
            step_im(zr, zi, ci),
            cr,
            ci,
            (i + 1) as nat,
            max,
        );
    }
}

/// The escape count lies in `[0, max]` for every point and every cap.
pub proof fn lemma_escape_count_in_range(cr: int, ci: int, max: nat)
    ensures
        spec_escape_count(cr, ci, max) <= max,
{
    lemma_escape_from_bounds(0, 0, cr, ci, 0, max);
}

/// The origin never escapes: its orbit stays at zero, so the count is the cap.
pub proof fn lemma_origin_reaches_cap(max: nat)
    ensures
        spec_escape_count(0, 0, max) == max,
{
    lemma_origin_stays(0, max);
}

/// From any index, an orbit standing at zero for the point zero runs to the cap.
proof fn lemma_origin_stays(i: nat, max: nat)
    requires
        i <= max,
    ensures
        escape_from(0, 0, 0, 0, i, max) == max,
    decreases max - i,
{
    assert(div_scale(0) == 0);
    if i < max {
        lemma_origin_stays((i + 1) as nat, max);
    }
}

/// A point with real part three and imaginary part zero: the first update
/// moves the orbit to that point, and the very next check sees it escaped, so
/// the count is one for any positive cap, and zero for a zero cap.
pub proof fn lemma_three_escapes_after_one(max: nat)
    ensures
        max >= 1 ==> spec_escape_count(3 * (SCALE as int), 0, max) == 1,
        spec_escape_count(3 * (SCALE as int), 0, 0) == 0,
{
    let s = SCALE as int;
    assert(div_scale(0) == 0);
    if max >= 1 {
        assert(step_re(0, 0, 3 * s) == 3 * s);
        assert(step_im(0, 0, 0) == 0);
        assert(escaped(3 * s, 0));
        assert(escape_from(3 * s, 0, 3 * s, 0, 1, max) == 1);
        assert(spec_escape_count(3 * s, 0, max) == 1);
    }
}

/// How many iterations of the Mandelbrot recurrence pass before the orbit of
/// `c` leaves the bounding square of half-width two; `max_iterations` when it
/// never does. The escape test precedes each update, so the first check sees
/// `z = 0`.
pub fn escape_count(c: ComplexPoint, max_iterations: usize) -> (count: usize)
    requires
        c.wf(),
    ensures
        count == spec_escape_count(c.real as int, c.imaginary as int, max_iterations as nat),
        count <= max_iterations,
{
    let cr = c.real;
    let ci = c.imaginary;
    let ghost total = spec_escape_count(cr as int, ci as int, max_iterations as nat);
    let mut zr: i64 = 0;
    let mut zi: i64 = 0;
    let mut i: usize = 0;
    proof {
        lemma_escape_from_bounds(0, 0, cr as int, ci as int, 0, max_iterations as nat);
    }
    loop
        invariant
            c.wf(),
            cr == c.real,
            ci == c.imaginary,
            i <= max_iterations,
            -ORBIT_MAX <= zr <= ORBIT_MAX,
            -ORBIT_MAX <= zi <= ORBIT_MAX,
            escape_from(zr as int, zi as int, cr as int, ci as int, i as nat, max_iterations as nat)
                == total,
            total == spec_escape_count(cr as int, ci as int, max_iterations as nat),
            total <= max_iterations,
        decreases max_iterations - i,
    {
        if zr > 2 * SCALE || zr < -2 * SCALE || zi > 2 * SCALE || zi < -2 * SCALE {
            assert(i as nat == total);
            return i;
        }
        if i == max_iterations {
            return max_iterations;
        }
        proof {
            lemma_square_bounded(zr as int);
            lemma_square_bounded(zi as int);
            lemma_cross_bounded(zr as int, zi as int);
        }
        let sq_re: i128 = (zr as i128) * (zr as i128);
        let sq_im: i128 = (zi as i128) * (zi as i128);
        let cross: i128 = 2 * (zr as i128) * (zi as i128);
        proof {
            assert(SQUARE_BOUND * (SCALE as int) == 0x4_0000_0000_0000_0000)
                by (nonlinear_arith);
            assert(CROSS_BOUND * (SCALE as int) == 0x8_0000_0000_0000_0000)
                by (nonlinear_arith);
            lemma_div_scale_bound(sq_re as int, SQUARE_BOUND as int);
            lemma_div_scale_bound(sq_im as int, SQUARE_BOUND as int);
            lemma_div_scale_bound(cross as int, CROSS_BOUND as int);
        }
        let next_re: i128 = div_scale_exec(sq_re) - div_scale_exec(sq_im) + (cr as i128);
        let next_im: i128 = div_scale_exec(cross) + (ci as i128);
        assert(next_re == step_re(zr as int, zi as int, cr as int));
        assert(next_im == step_im(zr as int, zi as int, ci as int));
        zr = next_re as i64;
        zi = next_im as i64;
        i = i + 1;
    }
}

/// The square of a not-yet-escaped component stays within `SQUARE_BOUND`
/// fixed-point units once divided by `SCALE`.
proof fn lemma_square_bounded(a: int)
    requires
        -(2 * (SCALE as int)) <= a <= 2 * (SCALE as int),
    ensures
        0 <= a * a <= 0x4_0000_0000_0000_0000,
{
    assert(0 <= a * a <= 0x4_0000_0000_0000_0000) by (nonlinear_arith)
        requires
            -0x2_0000_0000 <= a <= 0x2_0000_0000,
    ;
}

/// The doubled cross product of two not-yet-escaped components stays within
/// `CROSS_BOUND` fixed-point units once divided by `SCALE`.
proof fn lemma_cross_bounded(a: int, b: int)
    requires
        -(2 * (SCALE as int)) <= a <= 2 * (SCALE as int),
        -(2 * (SCALE as int)) <= b <= 2 * (SCALE as int),
    ensures
        -0x8_0000_0000_0000_0000 <= 2 * a * b <= 0x8_0000_0000_0000_0000,
{
    assert(-0x8_0000_0000_0000_0000 <= 2 * a * b <= 0x8_0000_0000_0000_0000)
        by (nonlinear_arith)
        requires
            -0x2_0000_0000 <= a <= 0x2_0000_0000,
            -0x2_0000_0000 <= b <= 0x2_0000_0000,
    ;
}

} // verus!
