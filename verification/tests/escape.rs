use mandelbrot::escape::escape_time;
use num::Complex;

fn mandelbrot_escape(c: Complex<f64>, limit: usize) -> Option<usize> {
    escape_time(
        Complex { re: 0.0, im: 0.0 },
        limit,
        |z: &Complex<f64>| z.norm_sqr() > 4.0,
        |z: Complex<f64>| z * z + c,
    )
}

#[test]
fn the_origin_never_escapes() {
    for limit in [1usize, 2, 3, 10, 255, 1000] {
        assert_eq!(mandelbrot_escape(Complex { re: 0.0, im: 0.0 }, limit), None);
    }
}

#[test]
fn four_escapes_after_one_step() {
    for limit in [2usize, 3, 10, 255] {
        assert_eq!(mandelbrot_escape(Complex { re: 4.0, im: 0.0 }, limit), Some(1));
    }
}

#[test]
fn an_escape_later_than_the_limit_is_not_seen() {
    assert_eq!(mandelbrot_escape(Complex { re: 4.0, im: 0.0 }, 1), None);
    assert_eq!(mandelbrot_escape(Complex { re: 4.0, im: 0.0 }, 0), None);
    assert_eq!(mandelbrot_escape(Complex { re: 0.0, im: 0.0 }, 0), None);
}

#[test]
fn one_escapes_after_three_steps() {
    // 0, 1, 2, 5: the first state beyond the disc of radius 2 is the fourth.
    assert_eq!(mandelbrot_escape(Complex { re: 1.0, im: 0.0 }, 255), Some(3));
    assert_eq!(mandelbrot_escape(Complex { re: 1.0, im: 0.0 }, 4), Some(3));
    assert_eq!(mandelbrot_escape(Complex { re: 1.0, im: 0.0 }, 3), None);
}

#[test]
fn members_of_the_set_do_not_escape() {
    assert_eq!(mandelbrot_escape(Complex { re: -1.0, im: 0.0 }, 255), None);
    assert_eq!(mandelbrot_escape(Complex { re: 0.0, im: 1.0 }, 255), None);
    assert_eq!(mandelbrot_escape(Complex { re: -2.0, im: 0.0 }, 255), None);
}

#[test]
fn an_escape_time_is_below_the_limit() {
    let limit = 40;
    let mut escaped = 0;
    for i in 0..41 {
        for j in 0..41 {
            let c = Complex { re: -2.0 + 0.1 * i as f64, im: -2.0 + 0.1 * j as f64 };
            if let Some(count) = mandelbrot_escape(c, limit) {
                assert!(count < limit);
                escaped += 1;
            }
        }
    }
    assert!(escaped > 0);
}

#[test]
fn escape_time_counts_the_steps_before_the_first_escape() {
    let over = |z: &u32| *z >= 10;
    let next = |z: u32| z + 3;
    assert_eq!(escape_time(0u32, 100, over, next), Some(4));
    assert_eq!(escape_time(9u32, 100, over, next), Some(1));
    assert_eq!(escape_time(10u32, 100, over, next), Some(0));
    assert_eq!(escape_time(0u32, 5, over, next), Some(4));
    assert_eq!(escape_time(0u32, 4, over, next), None);
    assert_eq!(escape_time(10u32, 0, over, next), None);
}

#[test]
fn escape_time_is_the_same_when_asked_twice() {
    for start in 0u32..20 {
        let first = escape_time(start, 6, |z: &u32| *z > 17, |z: u32| z * 2 + 1);
        let second = escape_time(start, 6, |z: &u32| *z > 17, |z: u32| z * 2 + 1);
        assert_eq!(first, second);
    }
}
