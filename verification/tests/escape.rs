use mandelbrot::ComplexPoint;
use mandelbrot::escape_count;
use mandelbrot::SCALE;

#[test]
fn origin_reaches_cap() {
    let origin = ComplexPoint { real: 0, imaginary: 0 };
    for cap in [0usize, 1, 7, 1000] {
        assert_eq!(escape_count(origin, cap), cap);
    }
}

#[test]
fn three_real_escapes_after_one() {
    let c = ComplexPoint { real: 3 * SCALE, imaginary: 0 };
    assert_eq!(escape_count(c, 0), 0);
    assert_eq!(escape_count(c, 1), 1);
    assert_eq!(escape_count(c, 5), 1);
    assert_eq!(escape_count(c, 100), 1);
}

#[test]
fn count_stays_within_cap() {
    let points = [
        ComplexPoint { real: 0, imaginary: 0 },
        ComplexPoint { real: -2 * SCALE, imaginary: -SCALE },
        ComplexPoint { real: SCALE / 2, imaginary: SCALE / 3 },
        ComplexPoint { real: -SCALE, imaginary: SCALE / 4 },
        ComplexPoint { real: 3 * SCALE, imaginary: 3 * SCALE },
    ];
    for cap in [0usize, 1, 10, 500] {
        for c in points {
            assert!(escape_count(c, cap) <= cap);
        }
    }
}

#[test]
fn corner_escapes_at_second_check() {
    // Orbit of (-2, -1): the first update lands on (-2, -1) itself, still on
    // the bounding square; the second lands on (1, 3), which has escaped.
    let c = ComplexPoint { real: -2 * SCALE, imaginary: -SCALE };
    assert_eq!(escape_count(c, 1000), 2);
}

#[test]
fn quarter_stays_inside() {
    // (-0.5, 0) lies in the main cardioid: the orbit never escapes.
    let c = ComplexPoint { real: -SCALE / 2, imaginary: 0 };
    assert_eq!(escape_count(c, 1000), 1000);
}
