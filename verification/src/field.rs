//! The field sampler: maps every cell of a discrete grid to a point of the
//! plane region by linear interpolation, evaluates the escape count there, and
//! assembles the counts row-major, row zero at the region's imaginary minimum.

use vstd::prelude::*;

verus! {

use vstd::arithmetic::div_mod::lemma_div_is_ordered;
use vstd::arithmetic::div_mod::lemma_div_multiples_vanish;
use vstd::arithmetic::div_mod::lemma_div_nonincreasing;
use vstd::arithmetic::div_mod::lemma_div_pos_is_pos;
use vstd::arithmetic::div_mod::lemma_multiply_divide_lt;
use vstd::arithmetic::mul::lemma_mul_inequality;
use vstd::arithmetic::mul::lemma_mul_strict_inequality;
use crate::escape::ComplexPoint;
use crate::escape::escape_count;
use crate::escape::spec_escape_count;
use crate::scaled::BOUND_MAX;
use crate::scaled::SCALE;

/// The rectangle of the complex plane being sampled, all four bounds in
/// fixed-point units.
#[derive(Clone, Copy, PartialEq, Eq, Structural)]
pub struct PlaneRegion {
    pub real_min: i64,
    pub real_max: i64,
    pub imaginary_min: i64,
    pub imaginary_max: i64,
}

impl PlaneRegion {
    /// Each axis runs from its minimum to its maximum (a zero-width axis is
    /// allowed and degenerates to a single sampled value), and every bound is
    /// small enough that the interpolation stays exact.
    pub open spec fn wf(self) -> bool {
        &&& self.real_min <= self.real_max
        &&& self.imaginary_min <= self.imaginary_max
        &&& -BOUND_MAX <= self.real_min
        &&& self.real_max <= BOUND_MAX
        &&& -BOUND_MAX <= self.imaginary_min
        &&& self.imaginary_max <= BOUND_MAX
    }

    /// Whether the region is well formed, for callers outside verified code
    /// that must test the sampler's precondition before calling it.
    pub fn is_well_formed(&self) -> (b: bool)
        ensures
            b == self.wf(),
    {
        self.real_min <= self.real_max && self.imaginary_min <= self.imaginary_max
            && -BOUND_MAX <= self.real_min && self.real_max <= BOUND_MAX
            && -BOUND_MAX <= self.imaginary_min && self.imaginary_max <= BOUND_MAX
    }
}

/// Linear interpolation of cell `index` of `dim` onto the axis `[lo, hi]`:
/// the fraction `index / dim` in fixed-point units, times the axis length,
/// offset by the axis minimum. `index` never reaches `dim`, so the axis
/// maximum itself is never sampled.
pub open spec fn axis_point(index: int, dim: int, lo: int, hi: int) -> int {
    lo + (((index * (SCALE as int)) / dim) * (hi - lo)) / (SCALE as int)
}

/// Real coordinate of grid column `x` of `width`.
pub open spec fn spec_cx(region: PlaneRegion, width: int, x: int) -> int {
    axis_point(x, width, region.real_min as int, region.real_max as int)
}

/// Imaginary coordinate of grid row `y` of `height`.
pub open spec fn spec_cy(region: PlaneRegion, height: int, y: int) -> int {
    axis_point(y, height, region.imaginary_min as int, region.imaginary_max as int)
}

/// The count owed at grid cell `(y, x)`: the escape count of the cell's
/// plane point under cap `max`.
pub open spec fn spec_cell(
    max: nat,
    region: PlaneRegion,
    width: int,
    height: int,
    x: int,
    y: int,
) -> nat {
    spec_escape_count(spec_cx(region, width, x), spec_cy(region, height, y), max)
}

/// What the sampler owes: `height` rows of `width` cells, each cell the
/// escape count of its plane point.
pub open spec fn grid_matches(
    grid: Seq<Seq<usize>>,
    max: nat,
    region: PlaneRegion,
    width: nat,
    height: nat,
) -> bool {
    &&& grid.len() == height
    &&& forall|y: int| 0 <= y < height ==> (#[trigger] grid[y]).len() == width
    &&& forall|y: int, x: int|
        0 <= y < height && 0 <= x < width ==> #[trigger] grid[y][x] == spec_cell(
            max,
            region,
            width as int,
            height as int,
            x,
            y,
        )
}

/// Interpolates one grid index onto one axis of the region.
fn axis_value(index: usize, dim: usize, lo: i64, hi: i64) -> (v: i64)
    requires
        index < dim,
        -BOUND_MAX <= lo <= hi <= BOUND_MAX,
    ensures
        v == axis_point(index as int, dim as int, lo as int, hi as int),
        lo <= v <= hi,
{
    proof {
        assert((index as int) * (SCALE as int) <= 0xFFFF_FFFF_FFFF_FFFF_0000_0000)
            by (nonlinear_arith)
            requires
                0 <= index <= 0xFFFF_FFFF_FFFF_FFFF,
                SCALE == 0x1_0000_0000,
        ;
        lemma_mul_strict_inequality(index as int, dim as int, SCALE as int);
        lemma_multiply_divide_lt((index as int) * (SCALE as int), dim as int, SCALE as int);
        lemma_div_pos_is_pos((index as int) * (SCALE as int), dim as int);
    }
    let num: u128 = (index as u128) * (SCALE as u128);
    let frac: u128 = num / (dim as u128);
    let range: u128 = ((hi as i128) - (lo as i128)) as u128;
    proof {
        assert((frac as int) * (range as int) <= 0x2_0000_0000_0200_0000_0000_0000)
            by (nonlinear_arith)
            requires
                0 <= frac as int <= 0x1_0000_0000,
                0 <= range as int <= 0x200_0000_0000_0000,
        ;
        lemma_mul_inequality(frac as int, SCALE as int, range as int);
        lemma_div_is_ordered(
            (frac as int) * (range as int),
            (SCALE as int) * (range as int),
            SCALE as int,
        );
        lemma_div_multiples_vanish(range as int, SCALE as int);
        lemma_div_pos_is_pos((frac as int) * (range as int), SCALE as int);
    }
    let prod: u128 = frac * range;
    let scaled: u128 = prod / (SCALE as u128);
    let v128: i128 = (lo as i128) + (scaled as i128);
    v128 as i64
}

/// The plane point of grid cell `(y, x)`: column `x` interpolates the real
/// axis, row `y` the imaginary axis.
pub fn point_at(region: PlaneRegion, width: usize, height: usize, x: usize, y: usize) -> (c:
    ComplexPoint)
    requires
        region.wf(),
        x < width,
        y < height,
    ensures
        c.real == spec_cx(region, width as int, x as int),
        c.imaginary == spec_cy(region, height as int, y as int),
        c.wf(),
{
    let re = axis_value(x, width, region.real_min, region.real_max);
    let im = axis_value(y, height, region.imaginary_min, region.imaginary_max);
    ComplexPoint { real: re, imaginary: im }
}

/// Samples the whole region: `height` rows of `width` escape counts, row-major,
/// row zero at the imaginary minimum. A zero `width` or `height` yields the
/// corresponding empty grid.
pub fn sample_field(
    max_iterations: usize,
    region: PlaneRegion,
    width: usize,
    height: usize,
) -> (grid: Vec<Vec<usize>>)
    requires
        region.wf(),
    ensures
        grid_matches(
            grid.deep_view(),
            max_iterations as nat,
            region,
            width as nat,
            height as nat,
        ),
{
    let mut rows: Vec<Vec<usize>> = Vec::new();
    let mut y: usize = 0;
    while y < height
        invariant
            region.wf(),
            y <= height,
            rows@.len() == y,
            forall|yy: int| 0 <= yy < y ==> (#[trigger] rows@[yy])@.len() == width,
            forall|yy: int, xx: int|
                0 <= yy < y && 0 <= xx < width ==> #[trigger] rows@[yy]@[xx] == spec_cell(
                    max_iterations as nat,
                    region,
                    width as int,
                    height as int,
                    xx,
                    yy,
                ),
        decreases height - y,
    {
        let mut row: Vec<usize> = Vec::new();
        let mut x: usize = 0;
        while x < width
            invariant
                region.wf(),
                y < height,
                x <= width,
                row@.len() == x,
                forall|xx: int|
                    0 <= xx < x ==> #[trigger] row@[xx] == spec_cell(
                        max_iterations as nat,
                        region,
                        width as int,
                        height as int,
                        xx,
                        y as int,
                    ),
            decreases width - x,
        {
            let c = point_at(region, width, height, x, y);
            let count = escape_count(c, max_iterations);
            row.push(count);
            x = x + 1;
        }
        rows.push(row);
        y = y + 1;
    }
    proof {
        let g = rows.deep_view();
        assert forall|yy: int| 0 <= yy < height implies (#[trigger] g[yy]).len() == width by {
            assert(g[yy] == rows@[yy].deep_view());
        }
        assert forall|yy: int, xx: int|
            0 <= yy < height && 0 <= xx < width implies #[trigger] g[yy][xx] == spec_cell(
            max_iterations as nat,
            region,
            width as int,
            height as int,
            xx,
            yy,
        ) by {
            assert(g[yy] == rows@[yy].deep_view());
            assert(g[yy][xx] == rows@[yy]@[xx]);
        }
    }
    rows
}

/// A single-cell grid samples exactly the region's minimum corner: with one
/// column and one row, the interpolated point is `(real_min, imaginary_min)`.
pub proof fn lemma_single_cell_is_min_corner(region: PlaneRegion)
    requires
        region.wf(),
    ensures
        spec_cx(region, 1, 0) == region.real_min,
        spec_cy(region, 1, 0) == region.imaginary_min,
{
    let s = SCALE as int;
    assert(0int * s == 0) by (nonlinear_arith);
    assert(0int / 1int == 0);
    assert(0int * (region.real_max - region.real_min) == 0) by (nonlinear_arith);
    assert(0int * (region.imaginary_max - region.imaginary_min) == 0) by (nonlinear_arith);
    assert(0int / s == 0) by {
        lemma_div_pos_is_pos(0, s);
        lemma_div_nonincreasing(0, s);
    }
}

/// The sampler is deterministic: any two grids that satisfy its contract for
/// the same inputs are identical, cell for cell.
pub proof fn lemma_sample_field_deterministic(
    g1: Seq<Seq<usize>>,
    g2: Seq<Seq<usize>>,
    max: nat,
    region: PlaneRegion,
    width: nat,
    height: nat,
)
    requires
        grid_matches(g1, max, region, width, height),
        grid_matches(g2, max, region, width, height),
    ensures
        g1 == g2,
{
    assert forall|y: int| 0 <= y < height implies g1[y] =~= g2[y] by {
        assert forall|x: int| 0 <= x < width implies g1[y][x] == g2[y][x] by {
            assert(g1[y][x] == spec_cell(max, region, width as int, height as int, x, y));
            assert(g2[y][x] == spec_cell(max, region, width as int, height as int, x, y));
        }
    }
    assert(g1 =~~= g2);
}

} // verus!
