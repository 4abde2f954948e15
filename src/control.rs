use vstd::prelude::*;

use crate::curve::{curve_value, evaluable, Curve, CurvePoint};
use crate::arith::trunc_div;
use crate::request::{requested_target, resolve, resolved_target, Prefix, Type, Value};
use crate::transition::{
    is_stepped, lemma_last_write_is_target, step_count, Transition, TransitionScheduler,
};

verus! {

/// Milliseconds between two sensor readings of the control loop.
pub const POLL_INTERVAL_MS: u64 = 1000;

/// What one iteration of the control loop does: the request to carry out,
/// if any, then the pause before the next reading.
#[derive(Clone, Copy, Debug)]
pub struct Iteration {
    pub request: Option<Value>,
    pub sleep_ms: u64,
}

/// The iteration that follows a sensor reading (`None` when the reading
/// failed): a reading at which the curve can be evaluated asks for that
/// percentage of the maximum; anything else skips the update. Either way
/// the loop then waits the poll interval.
pub open spec fn iteration_plan(pts: Seq<CurvePoint>, reading: Option<i32>) -> Iteration {
    Iteration {
        request: match reading {
            Some(x) => if evaluable(pts, x as int) {
                Some(
                    Value {
                        prefix: Prefix::Absolute,
                        kind: Type::Percentage,
                        num: curve_value(pts, x as int) as i32,
                    },
                )
            } else {
                None
            },
            None => None,
        },
        sleep_ms: POLL_INTERVAL_MS,
    }
}

/// Decides one iteration of the control loop from the sensor reading.
pub fn plan_iteration(curve: &Curve, reading: Option<i32>) -> (r: Iteration)
    ensures
        r == iteration_plan(curve@, reading),
{
    let request = match reading {
        Some(x) => match curve.try_apply(x) {
            Some(pct) => Some(Value { prefix: Prefix::Absolute, kind: Type::Percentage, num: pct }),
            None => None,
        },
        None => None,
    };
    Iteration { request, sleep_ms: POLL_INTERVAL_MS }
}

/// Plans the writes that carry out `value` on a device whose current value
/// and maximum were just read: `None` when those readings are out of their
/// domain (a negative current value, or a maximum that is not positive).
pub fn plan_brightness(value: Value, current: i32, max: i32, settings: Transition) -> (r: Option<
    TransitionScheduler,
>)
    ensures
        (current >= 0 && max > 0) <==> r is Some,
        r matches Some(s) ==> {
            &&& s.wf()
            &&& s.current == current
            &&& s.target == resolved_target(value, current as int, max as int)
            &&& s.settings == settings
            &&& s.done == 0
        },
{
    if current < 0 || max <= 0 {
        return None;
    }
    let target = resolve(value, current, max);
    Some(TransitionScheduler::new(current, target, settings))
}

/// A failed sensor reading does not end the loop: its iteration skips the
/// update and waits the poll interval, and the next iteration is decided by
/// its own reading alone, exactly as if no reading had failed before it.
pub proof fn lemma_sensor_failure_skips(pts: Seq<CurvePoint>, next: i32)
    ensures
        iteration_plan(pts, None) == (Iteration { request: None, sleep_ms: POLL_INTERVAL_MS }),
        iteration_plan(pts, Some(next)).sleep_ms == POLL_INTERVAL_MS,
        evaluable(pts, next as int) ==> iteration_plan(pts, Some(next)).request == Some(
            Value {
                prefix: Prefix::Absolute,
                kind: Type::Percentage,
                num: curve_value(pts, next as int) as i32,
            },
        ),
{
}

/// The writes planned for a request on a device read as `current >= 0`
/// and `max > 0`: the last is the requested target capped at `max` (a
/// target under the cap, negative ones included, is written as it is); a
/// transition that is not enabled makes that single write; a stepped one
/// makes `ceil(time / step)` writes, each before the last being
/// `current + (target - current) * i / steps` with truncating division.
pub proof fn lemma_planned_writes(s: TransitionScheduler, value: Value, max: i32)
    requires
        s.wf(),
        s.current >= 0,
        max > 0,
        s.target == resolved_target(value, s.current as int, max as int),
    ensures
        s.step_at(s.steps as int).value <= max,
        requested_target(value, s.current as int, max as int) > max ==> s.step_at(
            s.steps as int,
        ).value == max,
        requested_target(value, s.current as int, max as int) <= max ==> s.step_at(
            s.steps as int,
        ).value == requested_target(value, s.current as int, max as int),
        !s.settings.enable ==> s.steps == 1,
        s.steps == step_count(s.settings),
        is_stepped(s.settings) ==> forall|i: int|
            1 <= i < s.steps ==> #[trigger] s.step_at(i).value == (s.current + trunc_div(
                (s.target - s.current) * i,
                s.steps as int,
            )) as i64,
{
    lemma_last_write_is_target(s);
}

} // verus!
