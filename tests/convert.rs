use lilight::convert::{to_percentage, to_value};

#[test]
fn half_of_one_hundred() {
    assert_eq!(to_value(100, 50), 50);
    assert_eq!(to_percentage(100, 50), 50);
}

#[test]
fn half_of_255_rounds_half_up() {
    assert_eq!(to_value(255, 50), 128);
    assert_eq!(to_value(255, 49), 125);
}

#[test]
fn rounding_adds_half_the_divisor() {
    assert_eq!(to_percentage(255, 127), 50);
    assert_eq!(to_percentage(3, 1), 33);
    assert_eq!(to_percentage(3, 2), 67);
    assert_eq!(to_value(3, 50), 2);
    assert_eq!(to_value(i32::MAX, 100), i32::MAX as i64);
    assert_eq!(to_percentage(1, i32::MAX), i32::MAX as i64 * 100);
}

#[test]
fn round_trip_is_within_one() {
    for max in [34, 35, 50, 99, 100, 101, 255, 1000, 65535, i32::MAX] {
        for p in 0..=100i64 {
            let back = to_percentage(max, to_value(max, p) as i32);
            assert!((back - p).abs() <= 1, "max {max} p {p} back {back}");
        }
    }
}

#[test]
fn round_trip_fails_for_tiny_maximum() {
    assert_eq!(to_value(1, 49), 0);
    assert_eq!(to_percentage(1, 0), 0);
    assert_eq!(to_value(33, 1), 0);
}
