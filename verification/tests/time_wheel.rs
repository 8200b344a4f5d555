//! Behaviour of the timing wheel.

use udp_transfer::duration::Duration;
use udp_transfer::time_wheel::{ConfigError, Expired, TimerError, Wheel, WheelConfig};

fn config(base_tick: u64, slots: &[usize]) -> WheelConfig {
    let mut builder = WheelConfig::builder().base_tick(Duration::from_nanos(base_tick));
    for &slot_count in slots {
        builder = builder.level_slots(slot_count);
    }
    builder.build().expect("test wheel configuration")
}

fn expired_items(expired: &[Expired<&'static str>]) -> Vec<&'static str> {
    expired.iter().map(|entry| entry.item).collect()
}

#[test]
fn validates_builder_and_derives_aligned_levels() {
    assert_eq!(
        WheelConfig::builder()
            .base_tick(Duration::zero())
            .level_slots(4)
            .build(),
        Err(ConfigError::ZeroTick)
    );
    assert!(matches!(
        WheelConfig::builder().build(),
        Err(ConfigError::InvalidLevelCount { .. })
    ));
    assert!(matches!(
        WheelConfig::builder().level_slots(3).build(),
        Err(ConfigError::InvalidSlotCount { level: 0, .. })
    ));
    assert!(matches!(
        WheelConfig::builder()
            .level_slots(1 << 16)
            .level_slots(1 << 16)
            .level_slots(1 << 16)
            .level_slots(1 << 16)
            .level_slots(2)
            .build(),
        Err(ConfigError::DerivedRangeOverflow { level: 3 })
    ));

    let config = config(10_000_000, &[4, 8, 2]);
    assert_eq!(config.base_tick(), Duration::from_millis(10));
    assert_eq!(config.level_count(), 3);
    assert_eq!(config.total_slots(), 14);
}

#[test]
fn rounds_delays_up_without_early_expiration() {
    let mut wheel = Wheel::new(config(10_000_000, &[16, 4]));
    for (item, delay) in [
        ("1ms", 1),
        ("9ms", 9),
        ("10ms", 10),
        ("19ms", 19),
        ("20ms", 20),
    ] {
        wheel
            .insert(item, Duration::from_millis(delay))
            .expect("timer insertion");
    }

    let mut expired = Vec::new();
    wheel
        .advance_by(Duration::from_millis(10), &mut expired)
        .expect("wheel advance");
    assert_eq!(expired_items(&expired), vec!["1ms", "9ms", "10ms"]);
    expired.clear();
    wheel
        .advance_by(Duration::from_millis(9), &mut expired)
        .expect("wheel advance");
    assert!(expired.is_empty());
    wheel
        .advance_by(Duration::from_millis(1), &mut expired)
        .expect("wheel advance");
    assert_eq!(expired_items(&expired), vec!["19ms", "20ms"]);
}

#[test]
fn accumulates_sub_tick_time_and_expires_zero_delay() {
    let mut wheel = Wheel::new(config(10_000_000, &[16]));
    wheel
        .insert("delayed", Duration::from_millis(10))
        .expect("timer insertion");
    let mut expired = Vec::new();
    for _ in 0..9 {
        wheel
            .advance_by(Duration::from_millis(1), &mut expired)
            .expect("wheel advance");
    }
    assert!(expired.is_empty());
    wheel
        .advance_by(Duration::from_millis(1), &mut expired)
        .expect("wheel advance");
    assert_eq!(expired_items(&expired), vec!["delayed"]);

    wheel
        .insert("immediate", Duration::zero())
        .expect("timer insertion");
    expired.clear();
    wheel
        .advance_by(Duration::zero(), &mut expired)
        .expect("zero advance");
    assert_eq!(expired_items(&expired), vec!["immediate"]);
}

#[test]
fn cancel_and_reschedule_are_immediate_and_generation_safe() {
    let mut wheel = Wheel::new(config(10_000_000, &[4, 4, 4]));
    let canceled = wheel
        .insert("canceled", Duration::from_secs(10))
        .expect("timer insertion");
    assert_eq!(wheel.len(), 1);
    assert_eq!(wheel.cancel(canceled), Some("canceled"));
    assert_eq!(wheel.len(), 0);
    assert!(wheel.is_empty());
    assert_eq!(wheel.next_deadline(), Ok(None));
    assert_eq!(wheel.cancel(canceled), None);
    assert_eq!(
        wheel.reschedule(canceled, Duration::longest()),
        Err(TimerError::StaleTimerId)
    );

    let reused = wheel
        .insert("reused", Duration::from_secs(10))
        .expect("timer insertion");
    assert_eq!(wheel.cancel(canceled), None);
    assert_eq!(wheel.len(), 1);
    wheel
        .reschedule(reused, Duration::from_millis(10))
        .expect("timer reschedule");
    let mut expired = Vec::new();
    wheel
        .advance_by(Duration::from_millis(10), &mut expired)
        .expect("wheel advance");
    assert_eq!(expired_items(&expired), vec!["reused"]);
    assert_eq!(
        wheel.reschedule(reused, Duration::zero()),
        Err(TimerError::StaleTimerId)
    );
}

#[test]
fn cascades_multiple_levels_and_handles_rounds() {
    let mut wheel = Wheel::new(config(10_000_000, &[4, 4, 4]));
    wheel
        .insert("level-one", Duration::from_millis(150))
        .expect("timer insertion");
    wheel
        .insert("level-two-round", Duration::from_millis(700))
        .expect("timer insertion");
    let mut expired = Vec::new();
    wheel
        .advance_by(Duration::from_millis(149), &mut expired)
        .expect("wheel advance");
    assert!(expired.is_empty());
    wheel
        .advance_by(Duration::from_millis(1), &mut expired)
        .expect("wheel advance");
    assert_eq!(expired_items(&expired), vec!["level-one"]);
    expired.clear();
    wheel
        .advance_by(Duration::from_millis(549), &mut expired)
        .expect("wheel advance");
    assert!(expired.is_empty());
    wheel
        .advance_by(Duration::from_millis(1), &mut expired)
        .expect("wheel advance");
    assert_eq!(expired_items(&expired), vec!["level-two-round"]);
}

#[test]
fn fast_forwards_large_jumps_and_keeps_future_timers() {
    let mut wheel = Wheel::new(config(10_000_000, &[4, 4, 4]));
    wheel
        .insert("expired", Duration::from_secs(1))
        .expect("timer insertion");
    wheel
        .insert("future", Duration::from_secs(1_000))
        .expect("timer insertion");
    let mut expired = Vec::new();
    let report = wheel
        .advance_by(Duration::from_secs(100), &mut expired)
        .expect("wheel advance");
    assert!(report.fast_forwarded);
    assert_eq!(expired_items(&expired), vec!["expired"]);
    assert_eq!(wheel.len(), 1);
    assert_eq!(wheel.next_deadline(), Ok(Some(Duration::from_secs(900))));
}

#[test]
fn next_deadline_returns_the_global_earliest_deadline() {
    let mut wheel = Wheel::new(config(10_000_000, &[4, 4]));
    wheel
        .insert("upper", Duration::from_millis(50))
        .expect("timer insertion");
    assert_eq!(wheel.next_deadline(), Ok(Some(Duration::from_millis(50))));
    let mut expired = Vec::new();
    wheel
        .advance_by(Duration::from_millis(40), &mut expired)
        .expect("wheel advance");
    assert!(expired.is_empty());
    assert_eq!(wheel.next_deadline(), Ok(Some(Duration::from_millis(10))));
    wheel
        .advance_by(Duration::zero(), &mut expired)
        .expect("zero advance");
    assert!(expired.is_empty());
    wheel
        .advance_by(Duration::from_millis(10), &mut expired)
        .expect("wheel advance");
    assert_eq!(expired_items(&expired), vec!["upper"]);
}

#[test]
fn next_deadline_subtracts_sub_tick_remainder() {
    let mut wheel = Wheel::new(config(10_000_000, &[4]));
    wheel
        .insert("deadline", Duration::from_millis(20))
        .expect("timer insertion");
    let mut expired = Vec::new();
    wheel
        .advance_by(Duration::from_millis(5), &mut expired)
        .expect("wheel advance");
    assert!(expired.is_empty());
    assert_eq!(wheel.next_deadline(), Ok(Some(Duration::from_millis(15))));
    wheel
        .advance_by(Duration::from_millis(1), &mut expired)
        .expect("wheel advance");
    assert_eq!(wheel.next_deadline(), Ok(Some(Duration::from_millis(14))));
}

#[test]
fn next_deadline_switches_root_after_insert_reschedule_and_cancel() {
    let mut wheel = Wheel::new(config(10_000_000, &[4, 4, 4]));
    let later = wheel
        .insert("later", Duration::from_millis(30))
        .expect("timer insertion");
    let earliest = wheel
        .insert("earliest", Duration::from_millis(10))
        .expect("timer insertion");
    assert_eq!(wheel.next_deadline(), Ok(Some(Duration::from_millis(10))));

    wheel
        .reschedule(earliest, Duration::from_millis(40))
        .expect("timer reschedule");
    assert_eq!(wheel.next_deadline(), Ok(Some(Duration::from_millis(30))));

    let newest = wheel
        .insert("newest", Duration::from_millis(10))
        .expect("timer insertion");
    assert_eq!(wheel.next_deadline(), Ok(Some(Duration::from_millis(10))));
    assert_eq!(wheel.cancel(newest), Some("newest"));
    assert_eq!(wheel.next_deadline(), Ok(Some(Duration::from_millis(30))));
    assert_eq!(wheel.cancel(later), Some("later"));
    assert_eq!(wheel.next_deadline(), Ok(Some(Duration::from_millis(40))));
}

#[test]
fn next_deadline_returns_zero_without_expiring_timer() {
    let mut wheel = Wheel::new(config(10_000_000, &[4]));
    wheel
        .insert("immediate", Duration::zero())
        .expect("timer insertion");
    assert_eq!(wheel.next_deadline(), Ok(Some(Duration::zero())));
    let mut expired = Vec::new();
    assert_eq!(wheel.len(), 1);
    wheel
        .advance_by(Duration::zero(), &mut expired)
        .expect("zero advance");
    assert_eq!(expired_items(&expired), vec!["immediate"]);
}

#[test]
fn next_deadline_reports_duration_overflow_without_mutating_state() {
    let mut wheel = Wheel::new(config(u64::MAX, &[2]));
    wheel
        .insert("overflow", Duration::longest())
        .expect("timer insertion");
    assert_eq!(wheel.next_deadline(), Err(TimerError::DeadlineOverflow));
    assert_eq!(wheel.len(), 1);
    assert!(!wheel.is_empty());
}

#[test]
fn advance_overflow_does_not_change_clock() {
    let mut wheel: Wheel<()> = Wheel::new(config(1, &[4]));
    let mut expired = Vec::new();
    wheel
        .advance_by(Duration::from_nanos(u64::MAX - 1), &mut expired)
        .expect("wheel advance");
    assert_eq!(wheel.current_tick(), u64::MAX - 1);
    wheel
        .advance_by(Duration::from_nanos(1), &mut expired)
        .expect("wheel may advance to the maximum tick");
    assert_eq!(
        wheel.advance_by(Duration::from_nanos(1), &mut expired),
        Err(TimerError::ClockOverflow)
    );
    assert_eq!(wheel.current_tick(), u64::MAX);
}

#[test]
fn default_wheel_has_three_levels_of_ten_milliseconds() {
    let config = WheelConfig::default();
    assert_eq!(config.base_tick(), Duration::from_millis(10));
    assert_eq!(config.level_count(), 3);
    assert_eq!(config.total_slots(), 640);
}

#[test]
fn configuration_errors_name_what_is_wrong() {
    let nine = (0..9).fold(WheelConfig::builder(), |builder, _| builder.level_slots(2));
    assert_eq!(
        nine.build(),
        Err(ConfigError::InvalidLevelCount { count: 9, max: 8 })
    );
    let large = (0..5).fold(WheelConfig::builder(), |builder, _| builder.level_slots(65_536));
    assert_eq!(
        large.build(),
        Err(ConfigError::DerivedRangeOverflow { level: 3 })
    );
    assert_eq!(
        WheelConfig::builder().base_tick(Duration::longest()).level_slots(4).build(),
        Err(ConfigError::TickRangeOverflow)
    );
    assert_eq!(
        ConfigError::InvalidLevelCount { count: 9, max: 8 }.message(),
        "invalid level count 9; expected 1..=8"
    );
    assert_eq!(
        ConfigError::InvalidSlotCount { level: 2, slot_count: 3 }.message(),
        "invalid slot count 3 for level 2; expected a power of two in 2..=65536"
    );
    assert_eq!(TimerError::StaleTimerId.message(), "timer ID is stale or does not belong to this wheel");
}

#[test]
fn timers_never_fire_early_nor_a_tick_late() {
    for delay in [0_u64, 1, 9_999_999, 10_000_000, 10_000_001, 159_999_999, 1_000_000_000] {
        let mut wheel = Wheel::new(config(10_000_000, &[4, 4, 4]));
        wheel.insert("timer", Duration::from_nanos(delay)).unwrap();
        let mut expired = Vec::new();
        let mut passed = 0_u64;
        wheel.advance_by(Duration::zero(), &mut expired).unwrap();
        while expired.is_empty() {
            wheel.advance_by(Duration::from_millis(1), &mut expired).unwrap();
            passed += 1_000_000;
        }
        assert!(passed >= delay);
        assert!(passed - delay < 20_000_000);
    }
}

#[test]
fn handles_stay_stale_when_their_slots_are_used_again() {
    let mut wheel = Wheel::new(config(10_000_000, &[4, 4]));
    let cancelled = wheel.insert(1_u64, Duration::from_millis(50)).unwrap();
    assert_eq!(wheel.cancel(cancelled), Some(1));
    let second = wheel.insert(2, Duration::from_millis(50)).unwrap();
    assert_ne!(second, cancelled);
    assert_eq!(wheel.cancel(cancelled), None);
    let mut fired = Vec::new();
    wheel.advance_by(Duration::from_millis(60), &mut fired).unwrap();
    let third = wheel.insert(3, Duration::from_millis(50)).unwrap();
    wheel.advance_by(Duration::from_millis(60), &mut fired).unwrap();
    let ids: Vec<_> = fired.iter().map(|entry| entry.id).collect();
    assert_eq!(ids, vec![second, third]);
    assert_eq!((wheel.cancel(second), wheel.cancel(third)), (None, None));
}

#[test]
fn two_advances_are_as_good_as_one() {
    let mut once = Wheel::new(config(10_000_000, &[4, 4]));
    let mut twice = Wheel::new(config(10_000_000, &[4, 4]));
    for delay in [5_u64, 15, 25, 95, 400] {
        once.insert(delay, Duration::from_millis(delay)).unwrap();
        twice.insert(delay, Duration::from_millis(delay)).unwrap();
    }
    let mut first = Vec::new();
    let mut second = Vec::new();
    once.advance_by(Duration::from_millis(97), &mut first).unwrap();
    twice.advance_by(Duration::from_millis(38), &mut second).unwrap();
    twice.advance_by(Duration::from_millis(59), &mut second).unwrap();
    let mut left: Vec<u64> = first.iter().map(|entry| entry.item).collect();
    let mut right: Vec<u64> = second.iter().map(|entry| entry.item).collect();
    left.sort();
    right.sort();
    assert_eq!(left, right);
    assert_eq!(once.tick_duration(), Duration::from_millis(10));
    assert_eq!(once.current_tick(), twice.current_tick());
    assert_eq!(once.next_deadline(), twice.next_deadline());
}

#[test]
fn clear_gives_back_every_item() {
    let mut wheel = Wheel::new(config(10_000_000, &[4, 4]));
    for item in 0..5_u64 {
        wheel.insert(item, Duration::from_millis(item * 7)).unwrap();
    }
    let mut items = Vec::new();
    wheel.clear(&mut items);
    items.sort();
    assert_eq!(items, vec![0, 1, 2, 3, 4]);
    assert!(wheel.is_empty());
    assert_eq!(wheel.next_deadline(), Ok(None));
}

#[test]
fn overflowing_times_are_refused() {
    let mut wheel: Wheel<u8> = Wheel::new(config(1, &[4]));
    assert_eq!(wheel.insert(1, Duration::longest()), Err(TimerError::DelayOverflow));
    let mut expired = Vec::new();
    assert_eq!(
        wheel.advance_by(Duration::longest(), &mut expired),
        Err(TimerError::ElapsedOverflow)
    );
    assert_eq!(wheel.len(), 0);
}

#[test]
fn timers_of_one_slot_fire_in_the_order_in_which_they_went_there() {
    let mut wheel = Wheel::new(config(10_000_000, &[4, 4, 4]));
    let delay = Duration::from_millis(300);
    let first = wheel.insert("first", delay).unwrap();
    wheel.insert("second", delay).unwrap();
    let third = wheel.insert("third", delay).unwrap();
    wheel.insert("fourth", delay).unwrap();
    assert_eq!(wheel.cancel(third), Some("third"));
    wheel.reschedule(first, delay).unwrap();
    wheel.insert("fifth", delay).unwrap();
    let mut expired = Vec::new();
    for _ in 0..29 {
        wheel.advance_by(Duration::from_millis(10), &mut expired).unwrap();
    }
    assert!(expired.is_empty());
    wheel.advance_by(Duration::from_millis(10), &mut expired).unwrap();
    assert_eq!(expired_items(&expired), ["second", "fourth", "first", "fifth"]);
}

#[test]
fn timers_of_one_tick_fire_in_the_order_of_their_slots() {
    let mut wheel = Wheel::new(config(10_000_000, &[4, 4]));
    let mut expired = Vec::new();
    wheel.insert("edge", Duration::from_millis(40)).unwrap();
    wheel.insert("early", Duration::from_millis(60)).unwrap();
    wheel.advance_by(Duration::from_millis(10), &mut expired).unwrap();
    wheel.insert("direct", Duration::from_millis(30)).unwrap();
    wheel.advance_by(Duration::from_millis(20), &mut expired).unwrap();
    wheel.insert("late", Duration::from_millis(30)).unwrap();
    assert!(expired.is_empty());
    wheel.advance_by(Duration::from_millis(30), &mut expired).unwrap();
    assert_eq!(expired_items(&expired), ["edge", "direct", "late", "early"]);
}

#[test]
fn a_timer_fires_in_time_and_once_whatever_else_happens() {
    let mut wheel = Wheel::new(config(10_000_000, &[4, 4]));
    let mut expired = Vec::new();
    wheel.advance_by(Duration::from_millis(7), &mut expired).unwrap();
    let watched = wheel.insert("watched", Duration::from_millis(123)).unwrap();
    let mut passed = 0_u64;
    let mut fired_after = Vec::new();
    for step in [3_u64, 40, 0, 61, 18, 1, 30, 200] {
        let other = wheel.insert("cancelled", Duration::from_millis(step)).unwrap();
        let moved = wheel.insert("moved", Duration::from_millis(1)).unwrap();
        wheel.reschedule(moved, Duration::from_secs(900)).unwrap();
        assert_eq!(wheel.cancel(other), Some("cancelled"));
        expired.clear();
        wheel.advance_by(Duration::from_millis(step), &mut expired).unwrap();
        passed += step;
        for entry in &expired {
            assert_eq!((entry.id, entry.item), (watched, "watched"));
            fired_after.push(passed);
        }
    }
    assert_eq!(fired_after, vec![123]);
    assert_eq!(wheel.cancel(watched), None);
}

#[test]
fn a_copied_builder_builds_the_same() {
    let builder = WheelConfig::builder().base_tick(Duration::from_millis(3)).level_slots(8);
    let copy = builder.clone();
    let built = copy.level_slots(4).build().unwrap();
    assert_eq!(built.total_slots(), 12);
    assert_eq!(builder.build().unwrap().total_slots(), 8);
    assert_eq!(built.base_tick(), Duration::from_millis(3));
}
