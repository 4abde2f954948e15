use lilight::transition::{Step, Transition, TransitionScheduler};

fn run(current: i32, target: i64, settings: Transition) -> Vec<Step> {
    let mut s = TransitionScheduler::new(current, target, settings);
    let mut out = Vec::new();
    while let Some(step) = s.next_step() {
        out.push(step);
    }
    assert_eq!(s.next_step(), None);
    out
}

fn st(value: i64, sleep_ms: u64) -> Step {
    Step { value, sleep_ms }
}

#[test]
fn disabled_transition_writes_target_once() {
    let settings = Transition { enable: false, time: 100, step: 17 };
    assert_eq!(run(10, 90, settings), vec![st(90, 0)]);
}

#[test]
fn zero_durations_write_target_once() {
    assert_eq!(run(10, 90, Transition { enable: true, time: 0, step: 17 }), vec![st(90, 0)]);
    assert_eq!(run(10, 90, Transition { enable: true, time: 100, step: 0 }), vec![st(90, 0)]);
}

#[test]
fn default_transition_makes_six_writes() {
    let writes = run(0, 100, Transition::default());
    assert_eq!(
        writes,
        vec![st(16, 17), st(33, 17), st(50, 17), st(66, 17), st(83, 15), st(100, 0)]
    );
}

#[test]
fn final_write_is_target_despite_rounding() {
    let writes = run(100, 0, Transition { enable: true, time: 100, step: 17 });
    assert_eq!(writes.len(), 6);
    let values: Vec<i64> = writes.iter().map(|s| s.value).collect();
    assert_eq!(values, vec![84, 67, 50, 34, 17, 0]);
    let writes = run(0, 7, Transition { enable: true, time: 100, step: 17 });
    assert_eq!(writes.last(), Some(&st(7, 0)));
}

#[test]
fn exact_division_has_no_extra_step() {
    let writes = run(0, 10, Transition { enable: true, time: 100, step: 25 });
    assert_eq!(writes, vec![st(2, 25), st(5, 25), st(7, 25), st(10, 0)]);
}

#[test]
fn step_longer_than_total_is_one_write() {
    assert_eq!(run(0, 10, Transition { enable: true, time: 10, step: 50 }), vec![st(10, 0)]);
}

#[test]
fn negative_target_is_scheduled_as_is() {
    let writes = run(0, -10, Transition { enable: true, time: 20, step: 10 });
    assert_eq!(writes, vec![st(-5, 10), st(-10, 0)]);
}

#[test]
fn default_settings() {
    assert_eq!(Transition::default(), Transition { enable: true, time: 100, step: 17 });
}

#[test]
fn overrides_replace_given_fields() {
    let base = Transition { enable: false, time: 100, step: 17 };
    assert_eq!(base.with_overrides(None, None), base);
    assert_eq!(
        base.with_overrides(Some(300), None),
        Transition { enable: false, time: 300, step: 17 }
    );
    assert_eq!(
        base.with_overrides(Some(300), Some(5)),
        Transition { enable: false, time: 300, step: 5 }
    );
}
