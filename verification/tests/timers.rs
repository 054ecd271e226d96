use bevy::time::Timer;
use bevy::time::TimerMode;
use std::time::Duration;
use tower_defense::clock::cadence_can_tick;
use tower_defense::clock::can_tick;
use tower_defense::clock::is_cadence;
use tower_defense::clock::is_countdown;
use tower_defense::clock::tick;
use tower_defense::components::Health;
use tower_defense::components::Lifetime;
use tower_defense::gap_timer::GapTimer;

const LIMIT: u128 = 18_446_744_073_709_551_615_999_999_999;

fn state(t: &Timer) -> (u128, u128, TimerMode, bool, u32, bool) {
    (
        t.elapsed().as_nanos(),
        t.duration().as_nanos(),
        t.mode(),
        t.finished(),
        t.times_finished_this_tick(),
        t.paused(),
    )
}

#[test]
fn longest_span_is_the_longest_duration() {
    assert_eq!(Duration::MAX.as_nanos(), LIMIT);
}

#[test]
fn repeating_timer_keeps_the_remainder_and_counts_the_periods() {
    let mut t = Timer::new(Duration::from_nanos(100), TimerMode::Repeating);
    assert!(!tick(&mut t, 99));
    assert_eq!(state(&t), (99, 100, TimerMode::Repeating, false, 0, false));
    assert!(tick(&mut t, 1));
    assert_eq!(state(&t), (0, 100, TimerMode::Repeating, true, 1, false));
    assert!(!tick(&mut t, 0));
    assert_eq!(state(&t), (0, 100, TimerMode::Repeating, false, 0, false));
    assert!(tick(&mut t, 350));
    assert_eq!(state(&t), (50, 100, TimerMode::Repeating, true, 3, false));
    assert!(tick(&mut t, 50));
    assert_eq!(state(&t), (0, 100, TimerMode::Repeating, true, 1, false));
}

#[test]
fn repeating_timer_counts_the_periods_in_thirty_two_bits() {
    let mut t = Timer::new(Duration::from_nanos(1), TimerMode::Repeating);
    assert!(!tick(&mut t, 1 << 32));
    assert_eq!(state(&t), (1 << 32, 1, TimerMode::Repeating, true, 0, false));
    assert!(tick(&mut t, 5));
    // (2^32 + 5) periods are counted as 5, and what they leave stays.
    assert_eq!(state(&t), (1 << 32, 1, TimerMode::Repeating, true, 5, false));

    let mut u = Timer::new(Duration::from_nanos(2), TimerMode::Repeating);
    assert!(tick(&mut u, (3 << 32) + 7));
    // 3 * 2^31 + 3 periods are counted as 2^31 + 3.
    assert_eq!(state(&u), ((2 << 32) + 1, 2, TimerMode::Repeating, true, (1 << 31) + 3, false));
}

#[test]
fn one_shot_timer_stops_at_its_duration_and_fires_once() {
    let mut t = Timer::new(Duration::from_nanos(100), TimerMode::Once);
    assert!(!tick(&mut t, 40));
    assert!(!tick(&mut t, 59));
    assert_eq!(state(&t), (99, 100, TimerMode::Once, false, 0, false));
    assert!(tick(&mut t, 1000));
    assert_eq!(state(&t), (100, 100, TimerMode::Once, true, 1, false));
    assert!(!tick(&mut t, 1000));
    assert_eq!(state(&t), (100, 100, TimerMode::Once, true, 0, false));
}

#[test]
fn timer_without_duration_fires_on_its_first_tick() {
    let mut t = Timer::new(Duration::ZERO, TimerMode::Once);
    assert!(can_tick(&t, 0));
    assert!(tick(&mut t, 0));
    assert_eq!(state(&t), (0, 0, TimerMode::Once, true, 1, false));
}

#[test]
fn paused_timer_forgets_its_last_firing_only() {
    let mut t = Timer::new(Duration::from_nanos(100), TimerMode::Repeating);
    assert!(tick(&mut t, 130));
    t.pause();
    assert!(can_tick(&t, u64::MAX));
    assert!(!tick(&mut t, 500));
    assert_eq!(state(&t), (30, 100, TimerMode::Repeating, false, 0, true));

    let mut once = Timer::new(Duration::from_nanos(100), TimerMode::Once);
    assert!(tick(&mut once, 130));
    once.pause();
    assert!(!tick(&mut once, 500));
    assert_eq!(state(&once), (100, 100, TimerMode::Once, true, 0, true));
}

#[test]
fn can_tick_tells_where_a_tick_is_defined() {
    let fresh = Timer::new(Duration::from_nanos(100), TimerMode::Repeating);
    assert!(can_tick(&fresh, 0));
    assert!(can_tick(&fresh, u64::MAX));

    let no_period = Timer::new(Duration::ZERO, TimerMode::Repeating);
    assert!(!can_tick(&no_period, 0));
    assert!(!can_tick(&no_period, 5));

    let mut late = Timer::new(Duration::from_nanos(100), TimerMode::Repeating);
    late.set_elapsed(Duration::MAX - Duration::from_nanos(7));
    assert!(can_tick(&late, 7));
    assert!(!can_tick(&late, 8));
    assert!(tick(&mut late, 7));
    assert_eq!(late.elapsed().as_nanos(), LIMIT - 100 * (((LIMIT / 100) % (1 << 32)) as u128));

    let mut done = Timer::new(Duration::MAX, TimerMode::Once);
    done.set_elapsed(Duration::MAX);
    assert!(can_tick(&done, 0));
    assert!(!can_tick(&done, 1));
    assert!(tick(&mut done, 0));
    assert!(can_tick(&done, u64::MAX));
    assert!(!tick(&mut done, u64::MAX));
}

#[test]
fn lifetime_is_a_one_shot_countdown() {
    let lifetime = Lifetime::new(10_000_000_000);
    assert_eq!(
        state(&lifetime.timer),
        (0, 10_000_000_000, TimerMode::Once, false, 0, false)
    );
    let longest = Lifetime::new(u64::MAX);
    assert_eq!(longest.timer.duration().as_nanos(), u64::MAX as u128);
}

#[test]
fn health_loses_what_is_taken_and_may_go_below_zero() {
    let mut health = Health { val: 3000 };
    assert!(health.alive());
    health.hurt(1000);
    assert_eq!(health, Health { val: 2000 });
    health.hurt(2000);
    assert_eq!(health, Health { val: 0 });
    assert!(!health.alive());
    health.hurt(1);
    assert_eq!(health, Health { val: -1 });
    assert!(!health.alive());
    health.hurt(0);
    assert_eq!(health, Health { val: -1 });
}

#[test]
fn health_stops_at_the_least_value() {
    let mut health = Health { val: i64::MIN + 5 };
    health.hurt(5);
    assert_eq!(health, Health { val: i64::MIN });
    health.hurt(u32::MAX);
    assert_eq!(health, Health { val: i64::MIN });
    let mut other = Health { val: i64::MIN + 5 };
    other.hurt(6);
    assert_eq!(other, Health { val: i64::MIN });
}

#[test]
fn gap_timer_counts_the_gaps_and_starts_over() {
    let mut timer = GapTimer::new(200);
    assert_eq!(timer, GapTimer { last: 0, gap: 200 });
    assert_eq!(timer.tick(199), 0);
    assert_eq!(timer, GapTimer { last: 0, gap: 200 });
    assert_eq!(timer.tick(200), 1);
    assert_eq!(timer, GapTimer { last: 200, gap: 200 });
    assert_eq!(timer.tick(200), 0);
    assert_eq!(timer.tick(399), 0);
    assert_eq!(timer, GapTimer { last: 200, gap: 200 });
    assert_eq!(timer.tick(1099), 4);
    assert_eq!(timer, GapTimer { last: 1099, gap: 200 });
}

#[test]
fn gap_timer_counts_in_thirty_two_bits() {
    let mut timer = GapTimer::new(1);
    assert_eq!(timer.tick((1 << 32) + 3), 3);
    assert_eq!(timer.last, (1 << 32) + 3);
    let mut other = GapTimer::new(1);
    assert_eq!(other.tick(1 << 32), 0);
    assert_eq!(other.last, 1 << 32);
    let mut wide = GapTimer::new(3);
    assert_eq!(wide.tick(u128::MAX), ((u128::MAX / 3) % (1 << 32)) as u32);
}

#[test]
fn gap_timer_tells_when_it_can_be_ticked() {
    let timer = GapTimer { last: 50, gap: 10 };
    assert!(timer.is_tickable(50));
    assert!(timer.is_tickable(u128::MAX));
    assert!(!timer.is_tickable(49));
    assert!(!GapTimer::default().is_tickable(5));
    assert_eq!(GapTimer::default(), GapTimer { last: 0, gap: 0 });
}

#[test]
fn cadence_is_a_running_repeating_timer_within_its_period() {
    let span = Duration::from_nanos(100);
    let mut t = Timer::new(span, TimerMode::Repeating);
    assert!(is_cadence(&t));
    assert!(!is_countdown(&t));
    t.set_elapsed(Duration::from_nanos(99));
    assert!(is_cadence(&t));
    t.set_elapsed(span);
    assert!(!is_cadence(&t));
    t.set_elapsed(Duration::ZERO);
    t.pause();
    assert!(!is_cadence(&t));
    assert!(!is_cadence(&Timer::new(Duration::ZERO, TimerMode::Repeating)));
    assert!(!is_cadence(&Timer::new(span, TimerMode::Once)));
    assert!(is_cadence(&Timer::new(Duration::from_nanos(u64::MAX), TimerMode::Repeating)));
    assert!(!is_cadence(&Timer::new(Duration::from_nanos(u64::MAX) + Duration::from_nanos(1), TimerMode::Repeating)));
}

#[test]
fn countdown_is_a_running_one_shot_timer_that_has_not_finished() {
    let span = Duration::from_nanos(100);
    let mut t = Timer::new(span, TimerMode::Once);
    assert!(is_countdown(&t));
    assert!(!is_cadence(&t));
    t.set_elapsed(span);
    assert!(is_countdown(&t));
    t.set_elapsed(Duration::from_nanos(101));
    assert!(!is_countdown(&t));
    t.set_elapsed(Duration::from_nanos(5));
    t.pause();
    assert!(!is_countdown(&t));
    t.unpause();
    assert!(tick(&mut t, 95));
    assert!(!is_countdown(&t));
    assert!(is_countdown(&Timer::new(Duration::ZERO, TimerMode::Once)));
    assert!(is_countdown(&Timer::new(Duration::from_nanos(u64::MAX), TimerMode::Once)));
    assert!(!is_countdown(&Timer::new(Duration::MAX, TimerMode::Once)));
    assert!(!is_countdown(&Timer::new(span, TimerMode::Repeating)));
}

#[test]
fn cadence_can_tick_while_the_periods_can_be_counted() {
    let mut t = Timer::new(Duration::from_nanos(3), TimerMode::Repeating);
    t.set_elapsed(Duration::from_nanos(2));
    // (2 + delta) / 3 must stay below 2^32.
    assert!(cadence_can_tick(&t, 0));
    assert!(cadence_can_tick(&t, 3 * (1 << 32) - 3));
    assert!(!cadence_can_tick(&t, 3 * (1 << 32) - 2));
    assert!(!cadence_can_tick(&t, u64::MAX));
    assert!(tick(&mut t, 3 * (1 << 32) - 3));
    assert_eq!(state(&t), (2, 3, TimerMode::Repeating, true, u32::MAX, false));
    assert!(!cadence_can_tick(&Timer::new(Duration::from_nanos(3), TimerMode::Once), 1));
    assert!(!cadence_can_tick(&Timer::new(Duration::ZERO, TimerMode::Repeating), 1));
}
