//! Fixed-point plane coordinates.
//!
//! A coordinate is an `i64` that counts units of `1 / SCALE`, so the value it
//! stands for is `bits / SCALE`. All arithmetic on coordinates is exact
//! integer arithmetic; a product of two coordinates is divided by `SCALE`
//! (rounding toward zero) to bring it back to coordinate units.

use vstd::prelude::*;

verus! {

use vstd::arithmetic::div_mod::lemma_div_is_ordered;
use vstd::arithmetic::div_mod::lemma_div_multiples_vanish;
use vstd::arithmetic::div_mod::lemma_div_nonincreasing;
use vstd::arithmetic::div_mod::lemma_div_pos_is_pos;
use vstd::arithmetic::mul::lemma_mul_is_commutative;

/// Number of fixed-point units in one: coordinates count units of `1 / SCALE`.
pub const SCALE: i64 = 0x1_0000_0000;

/// Largest magnitude, in fixed-point units, accepted for a plane-region bound.
pub const BOUND_MAX: i64 = 0x100_0000_0000_0000;

/// Largest magnitude, in fixed-point units, accepted for a component of a
/// complex point handed to the escape evaluator.
pub const POINT_MAX: i64 = 0x1000_0000_0000_0000;

/// Largest product magnitude the scaling division accepts; wide enough for
/// any product of two orbit components, well within `i128`.
pub const PRODUCT_MAX: i128 = 0x1_0000_0000_0000_0000_0000_0000;

/// Division by `SCALE` rounding toward zero: the exact quotient of a
/// fixed-point product, as the evaluator computes it.
pub open spec fn div_scale(p: int) -> int {
    if p >= 0 {
        p / (SCALE as int)
    } else {
        -((-p) / (SCALE as int))
    }
}

/// Divides a product of fixed-point values by `SCALE`, rounding toward zero.
pub(crate) fn div_scale_exec(p: i128) -> (r: i128)
    requires
        -PRODUCT_MAX <= p <= PRODUCT_MAX,
    ensures
        r == div_scale(p as int),
{
    if p >= 0 {
        proof {
            lemma_div_pos_is_pos(p as int, SCALE as int);
            lemma_div_nonincreasing(p as int, SCALE as int);
        }
        ((p as u128) / (SCALE as u128)) as i128
    } else {
        let m: i128 = -p;
        proof {
            lemma_div_pos_is_pos(m as int, SCALE as int);
            lemma_div_nonincreasing(m as int, SCALE as int);
        }
        -(((m as u128) / (SCALE as u128)) as i128)
    }
}

/// A product bounded by `b * SCALE` divides down to a quotient bounded by `b`.
pub proof fn lemma_div_scale_bound(p: int, b: int)
    requires
        0 <= b,
        -(b * (SCALE as int)) <= p <= b * (SCALE as int),
    ensures
        -b <= div_scale(p) <= b,
{
    let s = SCALE as int;
    lemma_mul_is_commutative(b, s);
    lemma_div_multiples_vanish(b, s);
    if p >= 0 {
        lemma_div_pos_is_pos(p, s);
        lemma_div_is_ordered(p, b * s, s);
    } else {
        lemma_div_pos_is_pos(-p, s);
        lemma_div_is_ordered(-p, b * s, s);
    }
}

} // verus!
