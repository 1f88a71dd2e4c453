use julia_set::escape::EscapeCounter;
use num_complex::Complex;

/// Counts the escape time of pixel `(x, y)` with the library's counter,
/// feeding it the orbit computed in double precision.
fn escape_time(x: u32, y: u32, w: u32, h: u32, max_iter: u32, radius: f64, c: Complex<f64>) -> u32 {
    let s = (w as f64 / 4.0) / 1.0;
    let mut z = Complex::new((x as f64 - w as f64 / 2.0) / s, (y as f64 - h as f64 / 2.0) / s);
    let mut counter = EscapeCounter::new(max_iter);
    loop {
        if let Some(k) = counter.observe(z.norm_sqr() > radius * radius) {
            return k;
        }
        z = z * z + c;
    }
}

#[test]
fn four_by_four_golden_counts() {
    let c = Complex::new(-0.79, 0.155);
    let expected = [[0, 0, 1, 0], [0, 1, 2, 1], [1, 10, 10, 10], [0, 1, 2, 1]];
    for _run in 0..3 {
        for y in 0..4u32 {
            for x in 0..4u32 {
                assert_eq!(escape_time(x, y, 4, 4, 10, 2.0, c), expected[y as usize][x as usize]);
            }
        }
    }
}

#[test]
fn zero_parameter_never_escapes_near_origin() {
    let c = Complex::new(0.0, 0.0);
    // the image center maps to 0, whose orbit stays at 0
    assert_eq!(escape_time(2, 2, 4, 4, 25, 2.0, c), 25);
}

#[test]
fn start_beyond_radius_counts_zero() {
    let c = Complex::new(0.0, 0.0);
    // pixel (0, 0) maps to (-2, -2), squared magnitude 8 > 4
    assert_eq!(escape_time(0, 0, 4, 4, 25, 2.0, c), 0);
}
