use lilight::curve::{Curve, CurvePoint};

#[test]
fn t() {
    let curve = Curve::new(vec![
        CurvePoint { x: 0, y: 0 },
        CurvePoint { x: 100, y: 50 },
    ]);
    for i in 0..=200 {
        println!("{i}: {}", curve.apply(i));
    }
    assert_eq!(curve.apply(0), 0);
    assert_eq!(curve.apply(100), 50);
    assert_eq!(curve.apply(50), 25);
}

#[test]
fn single_point_is_constant() {
    let curve = Curve::new(vec![CurvePoint { x: 7, y: 42 }]);
    for x in [i32::MIN, -1000, 0, 7, 8, 1000, i32::MAX] {
        assert_eq!(curve.apply(x), 42);
    }
}

#[test]
fn control_points_are_hit_exactly() {
    let curve = Curve::new(vec![
        CurvePoint { x: 0, y: 10 },
        CurvePoint { x: 50, y: 80 },
        CurvePoint { x: 100, y: 30 },
    ]);
    assert_eq!(curve.apply(0), 10);
    assert_eq!(curve.apply(50), 80);
    assert_eq!(curve.apply(100), 30);
}

#[test]
fn truncation_happens_at_each_step() {
    let curve = Curve::new(vec![
        CurvePoint { x: 0, y: 10 },
        CurvePoint { x: 50, y: 80 },
        CurvePoint { x: 100, y: 30 },
    ]);
    assert_eq!(curve.apply(25), 60);
    assert_eq!(curve.apply(75), 70);
    assert_eq!(curve.apply(-10), -19);
    assert_eq!(curve.apply(120), -24);
    let line = Curve::new(vec![
        CurvePoint { x: 0, y: 0 },
        CurvePoint { x: 100, y: 50 },
    ]);
    assert_eq!(line.apply(33), 16);
}

#[test]
fn empty_curve_is_zero() {
    let curve = Curve::new(vec![]);
    assert_eq!(curve.apply(5), 0);
}

#[test]
fn duplicate_x_cannot_be_evaluated() {
    let curve = Curve::new(vec![
        CurvePoint { x: 3, y: 1 },
        CurvePoint { x: 3, y: 2 },
    ]);
    assert_eq!(curve.try_apply(0), None);
}

#[test]
fn overflowing_evaluation_is_refused() {
    let curve = Curve::new(vec![
        CurvePoint { x: 0, y: i32::MAX },
        CurvePoint { x: 1, y: 0 },
    ]);
    assert_eq!(curve.try_apply(0), Some(i32::MAX));
    assert_eq!(curve.try_apply(-1), None);
}

#[test]
fn points_are_kept_in_order() {
    let curve = Curve::new(vec![
        CurvePoint { x: 1, y: 2 },
        CurvePoint { x: 3, y: 4 },
    ]);
    assert_eq!(
        curve.points(),
        &[CurvePoint { x: 1, y: 2 }, CurvePoint { x: 3, y: 4 }][..]
    );
}
