use rayhem::fixed::{floor_div, isqrt, magnitude, mul_div, UNIT};
use rayhem::geom::{gcd, Cardinal, Vec2f, Vec2i, Vec3f};

#[test]
fn gcd_of_window_sizes() {
    assert_eq!(gcd(640, 480), 160);
    assert_eq!(gcd(480, 640), 160);
    assert_eq!(gcd(1920, 1080), 120);
    assert_eq!(gcd(1280, 800), 160);
    assert_eq!(gcd(17, 5), 1);
    assert_eq!(gcd(12, 12), 12);
}

#[test]
fn gcd_with_zero() {
    assert_eq!(gcd(0, 0), 0);
    assert_eq!(gcd(0, 9), 9);
    assert_eq!(gcd(9, 0), 9);
    assert_eq!(gcd(u32::MAX, 0), u32::MAX);
}

#[test]
fn gcd_divides_both_and_is_greatest() {
    for a in 0u32..40 {
        for b in 0u32..40 {
            let g = gcd(a, b);
            if g == 0 {
                assert_eq!((a, b), (0, 0));
                continue;
            }
            assert_eq!(a % g, 0);
            assert_eq!(b % g, 0);
            for d in 1u32..40 {
                if a % d == 0 && b % d == 0 {
                    assert_eq!(g % d, 0);
                }
            }
        }
    }
}

#[test]
fn floor_div_rounds_down() {
    assert_eq!(floor_div(7, 2), 3);
    assert_eq!(floor_div(-7, 2), -4);
    assert_eq!(floor_div(-8, 2), -4);
    assert_eq!(floor_div(-1, 65536), -1);
    assert_eq!(floor_div(0, 5), 0);
    assert_eq!(floor_div(i128::MIN, 1), i128::MIN);
    assert_eq!(floor_div(i128::MIN, i128::MAX), -2);
    assert_eq!(floor_div(i128::MAX, i128::MAX), 1);
}

#[test]
fn mul_div_takes_the_product_exactly() {
    assert_eq!(mul_div(i64::MAX, i64::MAX, i64::MAX), i64::MAX as i128);
    assert_eq!(mul_div(i64::MIN, i64::MAX, 1), (i64::MIN as i128) * (i64::MAX as i128));
    assert_eq!(mul_div(3, UNIT, 2), 98304);
    assert_eq!(mul_div(-3, UNIT, 2 * UNIT), -2);
}

#[test]
fn isqrt_rounds_down() {
    assert_eq!(isqrt(0), 0);
    assert_eq!(isqrt(1), 1);
    assert_eq!(isqrt(3), 1);
    assert_eq!(isqrt(4), 2);
    assert_eq!(isqrt(99), 9);
    assert_eq!(isqrt(100), 10);
    assert_eq!(isqrt(u128::MAX), u64::MAX);
    assert_eq!(isqrt((u64::MAX as u128) * (u64::MAX as u128) - 1), u64::MAX - 1);
}

#[test]
fn magnitude_is_the_length() {
    assert_eq!(magnitude(3, 4), 5);
    assert_eq!(magnitude(-3, 4), 5);
    assert_eq!(magnitude(0, -7), 7);
    assert_eq!(magnitude(1, 1), 1);
    assert_eq!(magnitude(98304, 98304), 139022);
    assert_eq!(magnitude(i64::MIN, 0), 1u64 << 63);
    assert_eq!(magnitude(i64::MIN, i64::MIN), 13043817825332782212);
}

#[test]
fn flipping_twice_changes_nothing() {
    let v = Vec2f::new(3, -9);
    assert_eq!(v.flipped(), Vec2f::new(-9, 3));
    assert_eq!(v.flipped().flipped(), v);
    for c in [Cardinal::North, Cardinal::East, Cardinal::South, Cardinal::West] {
        assert_eq!(c.flipped().flipped(), c);
    }
    assert_eq!(Cardinal::East.flipped(), Cardinal::North);
    assert_eq!(Cardinal::West.flipped(), Cardinal::South);
}

#[test]
fn heading_points_into_the_entered_cell() {
    assert_eq!(Cardinal::North.heading(), Vec2i::new(0, 1));
    assert_eq!(Cardinal::South.heading(), Vec2i::new(0, -1));
    assert_eq!(Cardinal::East.heading(), Vec2i::new(1, 0));
    assert_eq!(Cardinal::West.heading(), Vec2i::new(-1, 0));
}

#[test]
fn truncate_drops_the_height() {
    assert_eq!(Vec3f::new(1, 2, 3).truncate(), Vec2f::new(1, 2));
}
