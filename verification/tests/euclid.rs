use mandelbrot::euclid::{gcd, gcd_all};

#[test]
fn test_gcd() {
    assert_eq!(gcd(14, 15), 1);

    assert_eq!(gcd(2 * 3 * 5 * 11 * 17, 3 * 7 * 11 * 13 * 19), 3 * 11);
}

#[test]
fn gcd_of_equal_numbers_is_the_number() {
    assert_eq!(gcd(1, 1), 1);
    assert_eq!(gcd(42, 42), 42);
    assert_eq!(gcd(u64::MAX, u64::MAX), u64::MAX);
}

#[test]
fn gcd_does_not_depend_on_the_order() {
    assert_eq!(gcd(12, 18), 6);
    assert_eq!(gcd(18, 12), 6);
    assert_eq!(gcd(1, 1000), 1);
    assert_eq!(gcd(1000, 1), 1);
}

#[test]
fn gcd_of_a_multiple_is_the_smaller_number() {
    assert_eq!(gcd(7, 7 * 13), 7);
    assert_eq!(gcd(7 * 13, 7), 7);
}

#[test]
fn gcd_divides_both_and_is_the_greatest() {
    let pairs: Vec<(u64, u64)> = vec![(84, 36), (270, 192), (17, 5), (1 << 40, 6 << 20)];
    for (n, m) in pairs {
        let g = gcd(n, m);
        assert!(g > 0);
        assert_eq!(n % g, 0);
        assert_eq!(m % g, 0);
        let mut d = g + 1;
        while d <= n.min(m) && d < g + 1000 {
            assert!(!(n % d == 0 && m % d == 0));
            d += 1;
        }
    }
}

#[test]
fn gcd_all_of_one_number_is_the_number() {
    assert_eq!(gcd_all(&[9]), 9);
    assert_eq!(gcd_all(&[0]), 0);
}

#[test]
fn gcd_all_folds_over_the_numbers() {
    assert_eq!(gcd_all(&[12, 18]), 6);
    assert_eq!(gcd_all(&[12, 18, 8]), 2);
    assert_eq!(gcd_all(&[30, 45, 75, 105]), 15);
    assert_eq!(gcd_all(&[14, 15, 16]), 1);
}
