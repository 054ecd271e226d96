//! The engine's countdown timers, as the simulation sees them.
//!
//! A `Timer` is a value of the engine and its fields are private to it. What
//! the simulation knows of a timer is its `TimerView`; what a tick does to
//! that view is `TimerView::ticked`. Both are stated here as the engine's
//! source has them and are taken on trust; everything built on them is
//! proved.
//!
//! The simulation keeps two kinds of timer: a cadence, which is a running
//! repeating timer, and a countdown, which is a running one-shot timer. The
//! engine counts the periods that one tick completes in 32 bits; a tick that
//! completes more is left out of what the simulation asks of a cadence, so
//! that a cadence fires exactly when its period is reached.
//!
//! All spans are counted in nanoseconds.
use bevy::time::Timer;
use bevy::time::TimerMode;
use std::time::Duration;
use vstd::arithmetic::div_mod::lemma_fundamental_div_mod;
use vstd::arithmetic::div_mod::lemma_fundamental_div_mod_converse;
use vstd::arithmetic::div_mod::lemma_small_mod;
use vstd::prelude::*;

verus! {

/// The engine's `bevy::time::Timer`, carried as an opaque value.
#[verifier::external_type_specification]
#[verifier::external_body]
pub struct ExTimer(Timer);

/// The engine's `bevy::time::TimerMode`: `Once` or `Repeating`.
#[verifier::external_type_specification]
pub struct ExTimerMode(TimerMode);

/// What a timer holds.
pub struct TimerView {
    /// Time accumulated so far. A repeating timer starts over at each
    /// period; a one-shot timer stops at its duration.
    pub elapsed: nat,
    /// The period of a repeating timer, the span of a one-shot timer.
    pub duration: nat,
    pub mode: TimerMode,
    /// Whether the most recent tick found the duration reached.
    pub finished: bool,
    /// How many periods the most recent tick completed, as the engine counts
    /// them in 32 bits.
    pub times_finished: nat,
    pub paused: bool,
}

/// The state of the engine timer `t`.
pub uninterp spec fn timer_view(t: Timer) -> TimerView;

/// The longest span that a `Duration` holds: 2^64 seconds less one
/// nanosecond.
pub open spec fn duration_max_nanos() -> nat {
    18_446_744_073_709_551_615_999_999_999
}

impl TimerView {
    /// A timer that has just been made: running, with nothing elapsed.
    pub open spec fn fresh(duration: nat, mode: TimerMode) -> TimerView {
        TimerView { elapsed: 0, duration, mode, finished: false, times_finished: 0, paused: false }
    }

    /// The most recent tick completed the duration at least once.
    pub open spec fn just_finished(self) -> bool {
        self.times_finished > 0
    }

    /// A tick adds no time: the timer is paused, or it is a one-shot timer
    /// that has finished.
    pub open spec fn is_idle(self) -> bool {
        self.paused || (self.mode == TimerMode::Once && self.finished)
    }

    /// A tick of `delta` is defined: the time to add fits in a `Duration`,
    /// and a repeating timer has a period to divide by.
    pub open spec fn can_tick(self, delta: nat) -> bool {
        self.is_idle() || (self.elapsed + delta <= duration_max_nanos() && (self.mode
            == TimerMode::Repeating ==> self.duration > 0))
    }

    /// The timer is a cadence: a running repeating timer whose period is at
    /// least one nanosecond and at most `u64::MAX` nanoseconds, with less
    /// than a period elapsed.
    pub open spec fn is_cadence(self) -> bool {
        &&& self.mode == TimerMode::Repeating
        &&& !self.paused
        &&& 0 < self.duration <= u64::MAX
        &&& self.elapsed < self.duration
    }

    /// The timer is a countdown: a running one-shot timer of at most
    /// `u64::MAX` nanoseconds that has not finished.
    pub open spec fn is_countdown(self) -> bool {
        &&& self.mode == TimerMode::Once
        &&& !self.paused
        &&& !self.finished
        &&& self.duration <= u64::MAX
        &&& self.elapsed <= self.duration
    }

    /// The engine can count the periods that a tick of `delta` completes:
    /// they are fewer than 2^32, which is what its counter holds.
    pub open spec fn counts_periods(self, delta: nat) -> bool {
        (self.elapsed + delta) / self.duration < 0x1_0000_0000
    }

    /// The timer after a tick of `delta`.
    ///
    /// A paused timer only forgets its last firing. A finished one-shot timer
    /// stays as it is. Otherwise `delta` is added; a one-shot timer that
    /// reaches its duration stops there and fires once, a repeating timer
    /// keeps the remainder and counts the periods completed, modulo 2^32.
    pub open spec fn ticked(self, delta: nat) -> TimerView {
        let total = self.elapsed + delta;
        if self.paused {
            TimerView {
                finished: self.finished && self.mode != TimerMode::Repeating,
                times_finished: 0,
                ..self
            }
        } else if self.mode == TimerMode::Once && self.finished {
            TimerView { times_finished: 0, ..self }
        } else if total < self.duration {
            TimerView { elapsed: total, finished: false, times_finished: 0, ..self }
        } else if self.mode == TimerMode::Repeating {
            let times = (total / self.duration) % 0x1_0000_0000;
            TimerView {
                elapsed: (total - self.duration * times) as nat,
                finished: true,
                times_finished: times,
                ..self
            }
        } else {
            TimerView { elapsed: self.duration, finished: true, times_finished: 1, ..self }
        }
    }
}

/// The time that the steps of `deltas` add up to.
pub open spec fn total(deltas: Seq<nat>) -> nat
    decreases deltas.len(),
{
    if deltas.len() == 0 {
        0
    } else {
        total(deltas.drop_last()) + deltas.last()
    }
}

impl TimerView {
    /// The timer after one tick for each step of `deltas`, in their order.
    pub open spec fn ticked_through(self, deltas: Seq<nat>) -> TimerView
        decreases deltas.len(),
    {
        if deltas.len() == 0 {
            self
        } else {
            self.ticked_through(deltas.drop_last()).ticked(deltas.last())
        }
    }
}

/// The periods that a span completes after `before` are those that
/// `before` and the span complete together, less those of `before`; what is
/// left over is left over of both together.
pub proof fn lemma_periods_add_up(before: nat, delta: nat, period: nat)
    requires
        period > 0,
    ensures
        (before % period + delta) / period == (before + delta) / period - before / period,
        (before % period + delta) % period == (before + delta) % period,
{
    let p = period as int;
    let e = before % period + delta;
    lemma_fundamental_div_mod(before as int, p);
    lemma_fundamental_div_mod(e as int, p);
    let q = before as int / p + e as int / p;
    assert(q * p == p * (before as int / p) + p * (e as int / p)) by (nonlinear_arith)
        requires
            q == before as int / p + e as int / p,
    ;
    lemma_fundamental_div_mod_converse((before + delta) as int, p, q, e as int % p);
}

/// A cadence fires on a tick if and only if the tick reaches its period, and
/// holds afterwards what the time leaves over of a period. This holds of
/// every tick whose periods the engine can count.
pub proof fn lemma_cadence_fires_when_period_is_reached(timer: TimerView, delta: nat)
    requires
        timer.is_cadence(),
        timer.counts_periods(delta),
        delta <= u64::MAX,
    ensures
        timer.can_tick(delta),
        timer.ticked(delta).just_finished() <==> timer.elapsed + delta >= timer.duration,
        timer.ticked(delta).elapsed == (timer.elapsed + delta) % timer.duration,
        timer.ticked(delta).is_cadence(),
        timer.elapsed + delta < timer.duration ==> timer.ticked(delta).elapsed == timer.elapsed
            + delta,
{
    let e = (timer.elapsed + delta) as int;
    let p = timer.duration as int;
    lemma_fundamental_div_mod(e, p);
    if e < p {
        lemma_small_mod(e as nat, p as nat);
        assert(e / p == 0) by (nonlinear_arith)
            requires
                0 <= e < p,
                e == p * (e / p) + e % p,
                e % p == e,
        ;
    } else {
        let q = e / p;
        assert(q > 0) by (nonlinear_arith)
            requires
                e >= p > 0,
                e == p * q + e % p,
                0 <= e % p < p,
        ;
        lemma_small_mod(q as nat, 0x1_0000_0000);
        assert(p * q == timer.duration * (q as nat)) by (nonlinear_arith)
            requires
                p == timer.duration,
                q >= 0,
        ;
    }
}

/// A countdown fires on a tick if and only if the tick reaches its duration;
/// until then it stays a countdown and holds the time ticked.
pub proof fn lemma_countdown_fires_when_duration_is_reached(timer: TimerView, delta: nat)
    requires
        timer.is_countdown(),
        delta <= u64::MAX,
    ensures
        timer.can_tick(delta),
        timer.ticked(delta).just_finished() <==> timer.elapsed + delta >= timer.duration,
        timer.elapsed + delta < timer.duration ==> timer.ticked(delta).is_countdown()
            && timer.ticked(delta).elapsed == timer.elapsed + delta,
{
}

/// A repeating timer follows the periods of the time ticked in all: after
/// any ticks it holds what that time leaves over of a period, and it fires
/// on exactly those ticks on which that time completes a period. On such a
/// tick it counts the periods completed. This holds as long as no single
/// tick completes 2^32 periods or more.
pub proof fn lemma_cadence_follows_periods(period: nat, deltas: Seq<nat>)
    requires
        period > 0,
        forall|k: int|
            0 <= k < deltas.len() ==> total(#[trigger] deltas.take(k + 1)) / period - total(
                deltas.take(k),
            ) / period < 0x1_0000_0000,
    ensures
        ({
            let timer = TimerView::fresh(period, TimerMode::Repeating).ticked_through(deltas);
            let completed = if deltas.len() == 0 {
                0
            } else {
                total(deltas) / period - total(deltas.drop_last()) / period
            };
            &&& timer.elapsed == total(deltas) % period
            &&& timer.duration == period
            &&& timer.mode == TimerMode::Repeating
            &&& !timer.paused
            &&& timer.times_finished == completed
            &&& timer.just_finished() <==> completed > 0
        }),
    decreases deltas.len(),
{
    let fresh = TimerView::fresh(period, TimerMode::Repeating);
    if deltas.len() == 0 {
        lemma_small_mod(0, period);
    } else {
        let front = deltas.drop_last();
        let n = deltas.len() - 1;
        assert forall|k: int| 0 <= k < front.len() implies total(#[trigger] front.take(k + 1))
            / period - total(front.take(k)) / period < 0x1_0000_0000 by {
            assert(front.take(k + 1) =~= deltas.take(k + 1));
            assert(front.take(k) =~= deltas.take(k));
        }
        lemma_cadence_follows_periods(period, front);
        assert(deltas.take(n + 1) =~= deltas);
        assert(deltas.take(n) =~= front);
        let before = fresh.ticked_through(front);
        let spent = total(front);
        lemma_periods_add_up(spent, deltas.last(), period);
        let e = (before.elapsed + deltas.last()) as int;
        let p = period as int;
        lemma_fundamental_div_mod(e, p);
        if e < p {
            lemma_small_mod(e as nat, period);
            assert(e / p == 0) by (nonlinear_arith)
                requires
                    0 <= e < p,
                    e == p * (e / p) + e % p,
                    e % p == e,
            ;
        } else {
            let q = e / p;
            assert(q > 0) by (nonlinear_arith)
                requires
                    e >= p > 0,
                    e == p * q + e % p,
                    0 <= e % p < p,
            ;
            lemma_small_mod(q as nat, 0x1_0000_0000);
        }
    }
}

/// A countdown fires on the first tick on which the time ticked in all
/// reaches its duration, and on no tick before it. Until then it holds the
/// time ticked in all.
pub proof fn lemma_countdown_fires_when_time_is_up(duration: nat, deltas: Seq<nat>)
    requires
        deltas.len() > 0 ==> total(deltas.drop_last()) < duration || deltas.len() == 1,
    ensures
        ({
            let timer = TimerView::fresh(duration, TimerMode::Once).ticked_through(deltas);
            &&& timer.just_finished() <==> deltas.len() > 0 && total(deltas) >= duration
            &&& timer.finished <==> deltas.len() > 0 && total(deltas) >= duration
            &&& !timer.finished ==> timer == (TimerView {
                elapsed: total(deltas),
                ..TimerView::fresh(duration, TimerMode::Once)
            })
        }),
    decreases deltas.len(),
{
    if deltas.len() > 0 {
        let front = deltas.drop_last();
        if front.len() > 0 {
            assert(total(front.drop_last()) <= total(front));
        }
        lemma_countdown_fires_when_time_is_up(duration, front);
    }
}

/// `Timer::just_finished`: whether the most recent tick completed the
/// duration, that is whether its count of completed periods is not zero.
pub assume_specification[ Timer::just_finished ](t: &Timer) -> (fired: bool)
    ensures
        fired == timer_view(*t).just_finished(),
;

/// `Timer::finished`: the timer's `finished` flag.
pub assume_specification[ Timer::finished ](t: &Timer) -> (finished: bool)
    ensures
        finished == timer_view(*t).finished,
;

/// `Timer::paused`: whether the timer's stopwatch is paused.
pub assume_specification[ Timer::paused ](t: &Timer) -> (paused: bool)
    ensures
        paused == timer_view(*t).paused,
;

/// `Timer::mode`: the timer's mode.
pub assume_specification[ Timer::mode ](t: &Timer) -> (mode: TimerMode)
    ensures
        mode == timer_view(*t).mode,
;

/// `Timer::new`, with the duration given in nanoseconds: a running timer of
/// that duration and mode with nothing elapsed.
#[verifier::external_body]
pub(crate) fn new_timer(duration_nanos: u64, mode: TimerMode) -> (t: Timer)
    ensures
        timer_view(t) == TimerView::fresh(duration_nanos as nat, mode),
{
    Timer::new(Duration::from_nanos(duration_nanos), mode)
}

/// `Timer::tick`, with the step given in nanoseconds. The engine panics
/// where the time to add overflows a `Duration` and where a repeating timer
/// has no period; `can_tick` leaves those inputs out.
#[verifier::external_body]
pub(crate) fn tick_timer(t: &mut Timer, delta_nanos: u64)
    requires
        timer_view(*old(t)).can_tick(delta_nanos as nat),
    ensures
        timer_view(*final(t)) == timer_view(*old(t)).ticked(delta_nanos as nat),
{
    t.tick(Duration::from_nanos(delta_nanos));
}

/// `Timer::elapsed`, in nanoseconds.
#[verifier::external_body]
pub(crate) fn elapsed_nanos(t: &Timer) -> (nanos: u128)
    ensures
        nanos == timer_view(*t).elapsed,
{
    t.elapsed().as_nanos()
}

/// `Timer::duration`, in nanoseconds.
#[verifier::external_body]
pub(crate) fn duration_nanos(t: &Timer) -> (nanos: u128)
    ensures
        nanos == timer_view(*t).duration,
{
    t.duration().as_nanos()
}

/// Tells whether `t` can be ticked by `delta_nanos`.
pub fn can_tick(t: &Timer, delta_nanos: u64) -> (b: bool)
    ensures
        b == timer_view(*t).can_tick(delta_nanos as nat),
{
    if t.paused() {
        return true;
    }
    let repeating: bool = match t.mode() {
        TimerMode::Once => false,
        TimerMode::Repeating => true,
    };
    if !repeating && t.finished() {
        return true;
    }
    let limit: u128 = 18_446_744_073_709_551_615_999_999_999;
    let fits: bool = elapsed_nanos(t) <= limit - delta_nanos as u128;
    fits && (!repeating || duration_nanos(t) > 0)
}

/// Tells whether `t` is a cadence.
pub fn is_cadence(t: &Timer) -> (b: bool)
    ensures
        b == timer_view(*t).is_cadence(),
{
    let repeating: bool = match t.mode() {
        TimerMode::Once => false,
        TimerMode::Repeating => true,
    };
    let period: u128 = duration_nanos(t);
    repeating && !t.paused() && 0 < period && period <= u64::MAX as u128 && elapsed_nanos(t)
        < period
}

/// Tells whether `t` is a countdown.
pub fn is_countdown(t: &Timer) -> (b: bool)
    ensures
        b == timer_view(*t).is_countdown(),
{
    let one_shot: bool = match t.mode() {
        TimerMode::Once => true,
        TimerMode::Repeating => false,
    };
    let span: u128 = duration_nanos(t);
    one_shot && !t.paused() && !t.finished() && span <= u64::MAX as u128 && elapsed_nanos(t)
        <= span
}

/// Tells whether `t` is a cadence that can be ticked by `delta_nanos`: the
/// tick completes fewer than 2^32 periods.
pub fn cadence_can_tick(t: &Timer, delta_nanos: u64) -> (b: bool)
    ensures
        b == (timer_view(*t).is_cadence() && timer_view(*t).counts_periods(delta_nanos as nat)),
{
    if !is_cadence(t) {
        return false;
    }
    let total: u128 = elapsed_nanos(t) + delta_nanos as u128;
    total / duration_nanos(t) < 0x1_0000_0000
}

/// Advances `t` by `delta_nanos` and tells whether it fired on this tick.
pub fn tick(t: &mut Timer, delta_nanos: u64) -> (fired: bool)
    requires
        timer_view(*old(t)).can_tick(delta_nanos as nat),
    ensures
        timer_view(*final(t)) == timer_view(*old(t)).ticked(delta_nanos as nat),
        fired == timer_view(*old(t)).ticked(delta_nanos as nat).just_finished(),
{
    tick_timer(t, delta_nanos);
    t.just_finished()
}

} // verus!
