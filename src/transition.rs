use vstd::prelude::*;

use vstd::arithmetic::div_mod::{lemma_div_pos_is_pos, lemma_fundamental_div_mod, lemma_mod_bound};

use crate::arith::{abs, trunc_div};

verus! {

/// Transition settings: whether changes are stepped, over how many
/// milliseconds in all, and how many milliseconds each step lasts.
#[derive(Clone, Copy, Debug, PartialEq, Eq, Structural)]
pub struct Transition {
    pub enable: bool,
    pub time: u64,
    pub step: u64,
}

impl Default for Transition {
    fn default() -> (r: Self)
        ensures
            r == (Transition { enable: true, time: 100, step: 17 }),
    {
        Transition { enable: true, time: 100, step: 17 }
    }
}

/// A transition is stepped when it is enabled and both durations are nonzero.
pub open spec fn is_stepped(t: Transition) -> bool {
    t.enable && t.time != 0 && t.step != 0
}

/// The number of writes a transition makes: `ceil(time / step)` when it is
/// stepped, else the single write of the target.
pub open spec fn step_count(t: Transition) -> int {
    if is_stepped(t) {
        if (t.time as int) % (t.step as int) == 0 {
            (t.time as int) / (t.step as int)
        } else {
            (t.time as int) / (t.step as int) + 1
        }
    } else {
        1
    }
}

/// The value of write `i` (counting from 1) of `steps` writes from `current`
/// toward `target`: the last is the target itself, the others
/// `current + (target - current) * i / steps` with truncating division.
pub open spec fn write_value(current: int, target: int, i: int, steps: int) -> int {
    if i == steps {
        target
    } else {
        current + trunc_div((target - current) * i, steps)
    }
}

/// The pause after write `i`: `min(step, time - step * i)` after each
/// intermediate write, none after the last.
pub open spec fn pause_after(t: Transition, i: int) -> int {
    if i < step_count(t) {
        let rest = t.time - t.step * i;
        if t.step < rest {
            t.step as int
        } else {
            rest
        }
    } else {
        0
    }
}

impl Transition {
    /// These settings with the duration and the step length replaced where
    /// an override is given.
    pub fn with_overrides(&self, time: Option<u64>, step: Option<u64>) -> (r: Transition)
        ensures
            r.enable == self.enable,
            r.time == (match time {
                Some(t) => t,
                None => self.time,
            }),
            r.step == (match step {
                Some(s) => s,
                None => self.step,
            }),
    {
        Transition {
            enable: self.enable,
            time: match time {
                Some(t) => t,
                None => self.time,
            },
            step: match step {
                Some(s) => s,
                None => self.step,
            },
        }
    }
}

/// One write of a transition, and the pause in milliseconds that follows it.
#[derive(Clone, Copy, Debug, PartialEq, Eq, Structural)]
pub struct Step {
    pub value: i64,
    pub sleep_ms: u64,
}

/// The writes of one transition from `current` to `target`, handed out one
/// at a time: `done` of the `steps` writes have been handed out.
#[derive(Clone, Copy, Debug)]
pub struct TransitionScheduler {
    pub current: i32,
    pub target: i64,
    pub settings: Transition,
    pub steps: u64,
    pub done: u64,
}

impl TransitionScheduler {
    pub open spec fn wf(&self) -> bool {
        &&& self.steps == step_count(self.settings)
        &&& self.done <= self.steps
    }

    /// The step handed out as write `i`.
    pub open spec fn step_at(&self, i: int) -> Step {
        Step {
            value: write_value(self.current as int, self.target as int, i, self.steps as int) as i64,
            sleep_ms: pause_after(self.settings, i) as u64,
        }
    }

    /// Plans the transition from `current` to `target` under `settings`.
    pub fn new(current: i32, target: i64, settings: Transition) -> (r: Self)
        ensures
            r.wf(),
            r.current == current,
            r.target == target,
            r.settings == settings,
            r.done == 0,
    {
        let steps: u64 = if settings.enable && settings.time != 0 && settings.step != 0 {
            let q: u64 = settings.time / settings.step;
            if settings.time % settings.step == 0 {
                q
            } else {
                assert(q < settings.time) by {
                    lemma_fundamental_div_mod(settings.time as int, settings.step as int);
                    lemma_mod_bound(settings.time as int, settings.step as int);
                    assert(settings.step * q >= q) by (nonlinear_arith)
                        requires
                            settings.step >= 1,
                            q >= 0,
                    ;
                }
                q + 1
            }
        } else {
            1
        };
        TransitionScheduler { current, target, settings, steps, done: 0 }
    }

    /// Hands out the next write and the pause after it, or `None` once the
    /// final write, of the target itself, has been handed out.
    pub fn next_step(&mut self) -> (r: Option<Step>)
        requires
            old(self).wf(),
        ensures
            final(self).wf(),
            old(self).done < old(self).steps ==> r == Some(old(self).step_at(old(self).done + 1))
                && *final(self) == (TransitionScheduler { done: (old(self).done + 1) as u64, ..*old(self) }),
            old(self).done >= old(self).steps ==> r is None && *final(self) == *old(self),
    {
        if self.done >= self.steps {
            return None;
        }
        let i: u64 = self.done + 1;
        proof {
            lemma_steps_positive(self.settings);
        }
        let value: i64 = if i == self.steps {
            self.target
        } else {
            intermediate(self.current, self.target, i, self.steps)
        };
        let sleep_ms: u64 = if i < self.steps {
            proof {
                lemma_pause_in_range(self.settings, i as int);
            }
            let rest: u64 = self.settings.time - self.settings.step * i;
            if self.settings.step < rest {
                self.settings.step
            } else {
                rest
            }
        } else {
            0
        };
        self.done = i;
        Some(Step { value, sleep_ms })
    }
}

proof fn lemma_steps_positive(t: Transition)
    ensures
        1 <= step_count(t) <= u64::MAX,
{
    if is_stepped(t) {
        lemma_div_pos_is_pos(t.time as int, t.step as int);
        lemma_fundamental_div_mod(t.time as int, t.step as int);
        lemma_mod_bound(t.time as int, t.step as int);
        let q = (t.time as int) / (t.step as int);
        assert(t.step * q >= q) by (nonlinear_arith)
            requires
                t.step >= 1,
                q >= 0,
        ;
        assert(q == 0 ==> t.step * q == 0) by (nonlinear_arith);
    }
}

/// Before the last write, the time already spent stays under the total.
proof fn lemma_pause_in_range(t: Transition, i: int)
    requires
        1 <= i < step_count(t),
    ensures
        is_stepped(t),
        0 < t.step * i < t.time,
{
    let q = (t.time as int) / (t.step as int);
    lemma_fundamental_div_mod(t.time as int, t.step as int);
    lemma_mod_bound(t.time as int, t.step as int);
    assert(t.step * i <= t.step * (step_count(t) - 1)) by (nonlinear_arith)
        requires
            t.step >= 1,
            i <= step_count(t) - 1,
    ;
    assert(t.step * i > 0) by (nonlinear_arith)
        requires
            t.step >= 1,
            i >= 1,
    ;
    assert(t.step * (q - 1) == t.step * q - t.step) by (nonlinear_arith);
}

/// Intermediate write `i` of `steps`: `current + (target - current) * i / steps`,
/// computed over magnitudes so that nothing overflows.
fn intermediate(current: i32, target: i64, i: u64, steps: u64) -> (r: i64)
    requires
        1 <= i < steps,
    ensures
        r == write_value(current as int, target as int, i as int, steps as int),
{
    let up: bool = target >= current as i64;
    let mag: u128 = if up {
        (target as i128 - current as i128) as u128
    } else {
        (current as i128 - target as i128) as u128
    };
    assert(mag < 0x1_0000_0000_0000_0000);
    assert(mag * i < 0x1_0000_0000_0000_0000 * 0x1_0000_0000_0000_0000) by (nonlinear_arith)
        requires
            mag < 0x1_0000_0000_0000_0000,
            i < 0x1_0000_0000_0000_0000,
    ;
    let prod: u128 = mag * i as u128;
    let q: u128 = prod / steps as u128;
    assert(q <= mag) by (nonlinear_arith)
        requires
            q == (prod as int) / (steps as int),
            prod == mag * i,
            1 <= i < steps,
    ;
    let ghost d: int = target - current;
    assert(abs(d * i) == mag * i) by (nonlinear_arith)
        requires
            mag == abs(d),
            i >= 1,
    ;
    assert((d * i >= 0) == (d >= 0)) by (nonlinear_arith)
        requires
            i >= 1,
    ;
    if up {
        (current as i128 + q as i128) as i64
    } else {
        (current as i128 - q as i128) as i64
    }
}

/// A transition that is not enabled makes exactly one write, of the target,
/// with no pause after it.
pub proof fn lemma_disabled_single_write(s: TransitionScheduler)
    requires
        s.wf(),
        !s.settings.enable,
    ensures
        s.steps == 1,
        s.step_at(1) == (Step { value: s.target, sleep_ms: 0 }),
{
}

/// Whatever the rounding of the intermediate writes, the last write of a
/// transition is the target exactly, with no pause after it.
pub proof fn lemma_last_write_is_target(s: TransitionScheduler)
    requires
        s.wf(),
    ensures
        s.steps >= 1,
        s.step_at(s.steps as int) == (Step { value: s.target, sleep_ms: 0 }),
{
    lemma_steps_positive(s.settings);
}

/// Every write of a transition lies between the starting value and the target.
pub proof fn lemma_writes_between(s: TransitionScheduler, i: int)
    requires
        s.wf(),
        1 <= i <= s.steps,
    ensures
        s.current <= s.target ==> s.current <= write_value(s.current as int, s.target as int, i, s.steps as int) <= s.target,
        s.target <= s.current ==> s.target <= write_value(s.current as int, s.target as int, i, s.steps as int) <= s.current,
{
    if i < s.steps {
        let d: int = s.target - s.current;
        let n: int = s.steps as int;
        assert(abs(d * i) == abs(d) * i) by (nonlinear_arith)
            requires
                i >= 1,
        ;
        assert((d * i >= 0) == (d >= 0)) by (nonlinear_arith)
            requires
                i >= 1,
        ;
        assert(abs(d) * i / n <= abs(d)) by (nonlinear_arith)
            requires
                1 <= i < n,
                abs(d) >= 0,
        ;
        assert(abs(d) * i / n >= 0) by (nonlinear_arith)
            requires
                1 <= i < n,
                abs(d) >= 0,
        ;
    }
}

} // verus!
