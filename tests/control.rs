use lilight::attribute::{floor_at_zero, parse_attribute, parse_number};
use lilight::control::{plan_brightness, plan_iteration, POLL_INTERVAL_MS};
use lilight::convert::to_value;
use lilight::curve::{Curve, CurvePoint};
use lilight::request::{Prefix, Type, Value};
use lilight::transition::{Step, Transition};

fn identity_curve() -> Curve {
    Curve::new(vec![
        CurvePoint { x: 0, y: 0 },
        CurvePoint { x: 100, y: 100 },
    ])
}

#[test]
fn reading_to_target_end_to_end() {
    let curve = identity_curve();
    assert_eq!(curve.apply(50), 50);
    let it = plan_iteration(&curve, Some(50));
    let request = Value { prefix: Prefix::Absolute, kind: Type::Percentage, num: 50 };
    assert_eq!(it.request, Some(request));
    assert_eq!(it.sleep_ms, POLL_INTERVAL_MS);
    let settings = Transition { enable: false, time: 100, step: 17 };
    let mut plan = plan_brightness(request, 0, 200, settings).unwrap();
    assert_eq!(plan.target, 100);
    assert_eq!(plan.target, to_value(200, 50));
    assert_eq!(plan.next_step(), Some(Step { value: 100, sleep_ms: 0 }));
    assert_eq!(plan.next_step(), None);
}

#[test]
fn failed_reading_skips_then_loop_goes_on() {
    let curve = identity_curve();
    let failed = plan_iteration(&curve, None);
    assert_eq!(failed.request, None);
    assert_eq!(failed.sleep_ms, 1000);
    let next = plan_iteration(&curve, Some(30));
    assert_eq!(
        next.request,
        Some(Value { prefix: Prefix::Absolute, kind: Type::Percentage, num: 30 })
    );
    assert_eq!(next.sleep_ms, 1000);
}

#[test]
fn unevaluable_reading_skips() {
    let curve = Curve::new(vec![
        CurvePoint { x: 0, y: i32::MAX },
        CurvePoint { x: 1, y: 0 },
    ]);
    assert_eq!(plan_iteration(&curve, Some(-1)).request, None);
}

#[test]
fn device_state_out_of_domain_is_refused() {
    let request = Value { prefix: Prefix::Absolute, kind: Type::Number, num: 5 };
    let settings = Transition::default();
    assert!(plan_brightness(request, 0, 0, settings).is_none());
    assert!(plan_brightness(request, -1, 10, settings).is_none());
    let plan = plan_brightness(request, 0, 10, settings).unwrap();
    assert_eq!(plan.current, 0);
    assert_eq!(plan.target, 5);
}

#[test]
fn attribute_text_is_trimmed_and_read() {
    assert_eq!(parse_attribute("  42\n"), Some(42));
    assert_eq!(parse_attribute("-7\n"), Some(-7));
    assert_eq!(parse_attribute("4 2"), None);
    assert_eq!(parse_attribute(""), None);
    assert_eq!(parse_number(" 42"), None);
    assert_eq!(parse_number("+42"), Some(42));
}

#[test]
fn attribute_without_whitespace_and_unicode_spaces() {
    assert_eq!(parse_attribute("42"), Some(42));
    assert_eq!(parse_attribute("\u{3000}42\u{a0}\t"), Some(42));
    assert_eq!(parse_attribute(" \n "), None);
}

#[test]
fn writes_are_floored_at_zero() {
    assert_eq!(floor_at_zero(-10), 0);
    assert_eq!(floor_at_zero(0), 0);
    assert_eq!(floor_at_zero(37), 37);
}
