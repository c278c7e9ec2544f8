use cubesphere::fixed::{isqrt_u128, lerp_scalar, HALF, MILLIONTH, ONE};
use cubesphere::vertex::{distance_squared, normalize};

#[test]
fn lerp_scalar_takes_amount_of_the_first_argument() {
    assert_eq!(lerp_scalar(10, 20, ONE), 10);
    assert_eq!(lerp_scalar(10, 20, 0), 20);
    assert_eq!(lerp_scalar(ONE, 0, ONE / 4), 4194304);
    assert_eq!(lerp_scalar(7, 2, ONE / 3), 3);
}

#[test]
fn lerp_scalar_rounds_down() {
    assert_eq!(lerp_scalar(3, 4, HALF), 3);
    assert_eq!(lerp_scalar(-3, -4, HALF), -4);
    assert_eq!(lerp_scalar(-1, 0, HALF), -1);
}

#[test]
fn lerp_scalar_extrapolates() {
    assert_eq!(lerp_scalar(10, 20, 2 * ONE), 0);
    assert_eq!(lerp_scalar(10, 20, -ONE), 30);
}

#[test]
fn lerp_scalar_of_equal_values_is_that_value() {
    assert_eq!(lerp_scalar(5033165, 5033165, HALF), 5033165);
    assert_eq!(lerp_scalar(-5, -5, 12345), -5);
    assert_eq!(lerp_scalar(i32::MAX, i32::MAX, i32::MIN), i32::MAX);
}

#[test]
fn lerp_scalar_at_the_limits() {
    assert_eq!(lerp_scalar(i32::MAX, i32::MIN, HALF), -1);
    assert_eq!(lerp_scalar(i32::MIN, i32::MIN, HALF), i32::MIN);
    assert_eq!(lerp_scalar(i32::MAX, i32::MAX, HALF), i32::MAX);
}

#[test]
fn isqrt_is_the_floor_of_the_root() {
    assert_eq!(isqrt_u128(0), 0);
    assert_eq!(isqrt_u128(1), 1);
    assert_eq!(isqrt_u128(3), 1);
    assert_eq!(isqrt_u128(4), 2);
    assert_eq!(isqrt_u128(15), 3);
    assert_eq!(isqrt_u128(16), 4);
    assert_eq!(isqrt_u128(3 << 32), 113511);
    assert_eq!(isqrt_u128(3 << 48), 29058990);
    assert_eq!(isqrt_u128(1 << 64), 1 << 32);
    assert_eq!(isqrt_u128((1 << 64) - 1), (1 << 32) - 1);
    assert_eq!(isqrt_u128(u128::MAX), u64::MAX);
}

#[test]
fn isqrt_brackets_its_argument() {
    let mut n: u128 = 1;
    for _ in 0..120 {
        let r = isqrt_u128(n) as u128;
        assert!(r * r <= n);
        assert!((r + 1) * (r + 1) > n);
        n = n * 2 + 1;
    }
}

#[test]
fn distance_squared_is_the_sum_of_squared_differences() {
    assert_eq!(distance_squared((0, 0, 0), (3, 4, 12)), 169);
    assert_eq!(distance_squared((1, 2, 3), (1, 2, 3)), 0);
    assert_eq!(distance_squared((-1, -2, -3), (1, 2, 3)), 4 + 16 + 36);
    let side: u128 = (1 << 32) - 1;
    assert_eq!(
        distance_squared((i32::MIN, i32::MAX, i32::MIN), (i32::MAX, i32::MIN, i32::MAX)),
        3 * side * side
    );
}

#[test]
fn normalize_scales_to_unit_length() {
    assert_eq!(normalize((3 * ONE, 4 * ONE, 0)), (10066329, 13421772, 0));
    assert_eq!(normalize((-3 * ONE, -4 * ONE, 0)), (-10066329, -13421772, 0));
    assert_eq!(normalize((0, 0, 5)), (0, 0, ONE));
    assert_eq!(normalize((0, -7 * ONE, 0)), (0, -ONE, 0));
    assert_eq!(normalize((1, 1, 1)), (9686330, 9686330, 9686330));
    assert_eq!(normalize((ONE, ONE, ONE)), (9686330, 9686330, 9686330));
    assert_eq!(normalize((ONE, -HALF, ONE / 4)), (14644354, -7322177, 3661088));
}

#[test]
fn normalize_at_the_limits() {
    assert_eq!(normalize((i32::MAX, i32::MIN, i32::MAX)), (9686330, -9686330, 9686330));
    assert_eq!(normalize((i32::MIN, 0, 0)), (-ONE, 0, 0));
}

#[test]
fn normalize_twice_stays_within_tolerance() {
    let samples = [
        (3 * ONE, 4 * ONE, 0),
        (1, 1, 1),
        (ONE, -HALF, ONE / 4),
        (12345, -6789, 101112),
        (-1, 2, -3),
        (1, 1, 0),
        (i32::MAX, 17, -5),
    ];
    for p in samples {
        let once = normalize(p);
        assert_ne!(once, (0, 0, 0));
        let twice = normalize(once);
        assert!((twice.0 - once.0).abs() <= 4);
        assert!((twice.1 - once.1).abs() <= 4);
        assert!((twice.2 - once.2).abs() <= 4);
        let moved = distance_squared(twice, once) as f64;
        assert!(moved.sqrt() / (ONE as f64) < 1e-6);
    }
}

#[test]
fn normalize_agrees_with_floating_point() {
    let samples = [
        (3 * ONE, 4 * ONE, 0),
        (3 * ONE, 0, -4 * ONE),
        (ONE, ONE, ONE),
        (ONE, -HALF, ONE / 4),
        (12345, -6789, 101112),
        (1, 1, 0),
    ];
    for p in samples {
        let (x, y, z) = (p.0 as f64, p.1 as f64, p.2 as f64);
        let length = (x * x + y * y + z * z).sqrt();
        let unit = normalize(p);
        assert!((unit.0 as f64 / ONE as f64 - x / length).abs() < 1e-6);
        assert!((unit.1 as f64 / ONE as f64 - y / length).abs() < 1e-6);
        assert!((unit.2 as f64 / ONE as f64 - z / length).abs() < 1e-6);
        let (ux, uy, uz) = (unit.0 as f64, unit.1 as f64, unit.2 as f64);
        assert!(((ux * ux + uy * uy + uz * uz).sqrt() / ONE as f64 - 1.0).abs() < 1e-6);
    }
}

#[test]
fn lerp_scalar_is_within_a_millionth_of_the_exact_blend() {
    let cases = [(0, 1, HALF), (1, 0, HALF), (ONE, -ONE, ONE / 3), (-5033165, 7, 12345), (ONE, 0, 1)];
    for (u, v, t) in cases {
        let exact = (t as f64 * u as f64 + (ONE - t) as f64 * v as f64) / (ONE as f64);
        let r = lerp_scalar(u, v, t) as f64;
        assert!(r <= exact && exact < r + 1.0);
        assert!((exact - r) / (ONE as f64) < 1e-6);
    }
}

#[test]
fn sixteen_units_are_within_a_millionth() {
    assert_eq!(MILLIONTH, 16);
    assert!(MILLIONTH as f64 / ONE as f64 <= 1e-6);
    assert!((MILLIONTH + 1) as f64 / ONE as f64 > 1e-6);
    assert_eq!(ONE, 1 << 24);
    assert_eq!(HALF, 1 << 23);
}
