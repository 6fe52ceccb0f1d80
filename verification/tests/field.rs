use mandelbrot::ComplexPoint;
use mandelbrot::escape_count;
use mandelbrot::point_at;
use mandelbrot::sample_field;
use mandelbrot::PlaneRegion;
use mandelbrot::SCALE;

fn canonical_region() -> PlaneRegion {
    PlaneRegion {
        real_min: -2 * SCALE,
        real_max: SCALE,
        imaginary_min: -SCALE,
        imaginary_max: SCALE,
    }
}

#[test]
fn dimensions_always_match() {
    let region = canonical_region();
    for (width, height) in [(3usize, 5usize), (0, 4), (4, 0), (0, 0), (1, 1), (7, 2)] {
        let grid = sample_field(10, region, width, height);
        assert_eq!(grid.len(), height);
        for row in &grid {
            assert_eq!(row.len(), width);
        }
    }
}

#[test]
fn single_cell_samples_min_corner() {
    let region = canonical_region();
    let p = point_at(region, 1, 1, 0, 0);
    assert_eq!(p.real, region.real_min);
    assert_eq!(p.imaginary, region.imaginary_min);
    let grid = sample_field(25, region, 1, 1);
    assert_eq!(grid.len(), 1);
    assert_eq!(grid[0].len(), 1);
    let corner = ComplexPoint { real: region.real_min, imaginary: region.imaginary_min };
    assert_eq!(grid[0][0], escape_count(corner, 25));
}

#[test]
fn canonical_silhouette_reference_points() {
    let region = canonical_region();
    let grid = sample_field(1000, region, 230, 66);
    assert_eq!(grid.len(), 66);
    assert_eq!(grid[0].len(), 230);
    // The grid center maps to (-0.5, 0), inside the main cardioid: the cap.
    assert_eq!(grid[33][115], 1000);
    // The corner cell maps to (-2, -1) exactly: it escapes at the second check.
    assert_eq!(grid[0][0], 2);
}

#[test]
fn rightmost_cell_stops_short_of_max() {
    // With two columns over [-2, 1], column 1 samples -2 + 3/2 = -0.5, never
    // the real maximum itself.
    let region = canonical_region();
    let p = point_at(region, 2, 2, 1, 0);
    assert_eq!(p.real, -SCALE / 2);
}

#[test]
fn zero_width_axis_degenerates_to_one_column() {
    let region = PlaneRegion {
        real_min: -SCALE / 2,
        real_max: -SCALE / 2,
        imaginary_min: 0,
        imaginary_max: 0,
    };
    let grid = sample_field(50, region, 4, 3);
    let expected = escape_count(ComplexPoint { real: -SCALE / 2, imaginary: 0 }, 50);
    for row in &grid {
        for &cell in row {
            assert_eq!(cell, expected);
        }
    }
}

#[test]
fn zero_cap_gives_all_zero_grid() {
    let region = canonical_region();
    let grid = sample_field(0, region, 5, 4);
    for row in &grid {
        for &cell in row {
            assert_eq!(cell, 0);
        }
    }
}

#[test]
fn repeated_sampling_is_bit_identical() {
    let region = canonical_region();
    let first = sample_field(300, region, 23, 11);
    let second = sample_field(300, region, 23, 11);
    assert_eq!(first, second);
}

#[test]
fn region_well_formedness_check() {
    assert!(canonical_region().is_well_formed());
    let backwards = PlaneRegion {
        real_min: SCALE,
        real_max: -SCALE,
        imaginary_min: 0,
        imaginary_max: 0,
    };
    assert!(!backwards.is_well_formed());
}
