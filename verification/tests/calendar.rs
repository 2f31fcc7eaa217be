use aleym_core::clock::NANOS_PER_MILLI;
use aleym_core::ml::scheduler::{enforce_interval_limits, fetch_window_millis, Calender, IntervalLimits};
use aleym_core::ml::SchedulerError;

const MINUTE: i128 = 60 * 1_000_000_000;
const HOUR: i128 = 60 * MINUTE;

fn default_limits() -> IntervalLimits {
    IntervalLimits::default()
}

#[test]
fn default_interval_limits() {
    assert_eq!(IntervalLimits::default(), IntervalLimits { min_fetch_interval: 5 * MINUTE, max_fetch_interval: 12 * HOUR });
}

fn now_nanos() -> i128 {
    time::OffsetDateTime::now_utc().unix_timestamp_nanos()
}

#[test]
fn calender_logic() {
    let mut calendar = Calender::new(default_limits());

    assert!(calendar.next_time().is_none());
    assert!(calendar.pop_due(now_nanos()).is_empty());

    let now = now_nanos();

    let uuid1 = uuid::Uuid::new_v4().as_u128();
    let uuid2 = uuid::Uuid::new_v4().as_u128();
    let uuid3 = uuid::Uuid::new_v4().as_u128();

    calendar.schedule_at(uuid1, now + 2 * HOUR);
    calendar.schedule_at(uuid2, now + HOUR);

    assert_eq!(calendar.next_time(), Some(now + HOUR));

    let due = calendar.pop_due(now + 65 * MINUTE);

    assert_eq!(due.len(), 1);
    assert!(due.contains(&uuid2));
    assert!(!calendar.is_empty());

    let result = calendar.unschedule_fetch(uuid3);
    assert!(result.is_err());
    match result {
        Err(SchedulerError::SourceNotScheduled(id)) => assert_eq!(id, uuid3),
        _ => panic!("Expected SourceNotScheduled"),
    }

    calendar.unschedule_fetch(uuid1).unwrap();
    assert!(calendar.is_empty());
}

#[test]
fn pop_due_returns_sources_in_time_order() {
    let mut calendar = Calender::new(default_limits());
    calendar.schedule_at(3, 300);
    calendar.schedule_at(1, 100);
    calendar.schedule_at(2, 200);
    calendar.schedule_at(4, 100);
    calendar.schedule_at(5, 400);
    assert_eq!(calendar.next_time(), Some(100));
    let due = calendar.pop_due(300);
    assert_eq!(due, vec![1, 4, 2, 3]);
    assert_eq!(calendar.next_time(), Some(400));
    assert!(calendar.pop_due(399).is_empty());
    assert_eq!(calendar.pop_due(400), vec![5]);
    assert!(calendar.is_empty());
}

#[test]
fn pop_at_next_time_is_not_empty() {
    let mut calendar = Calender::new(default_limits());
    calendar.schedule_at(9, -50);
    calendar.schedule_at(8, 70);
    let next = calendar.next_time().unwrap();
    let due = calendar.pop_due(next);
    assert_eq!(due, vec![9]);
}

#[test]
fn unschedule_undoes_schedule() {
    let mut calendar = Calender::new(default_limits());
    calendar.schedule_at(1, 10);
    calendar.schedule_at(2, 10);
    calendar.schedule_at(7, 20);
    calendar.unschedule_fetch(7).unwrap();
    assert_eq!(calendar.next_time(), Some(10));
    assert_eq!(calendar.pop_due(15), vec![1, 2]);
    assert!(calendar.is_empty());
}

#[test]
fn unschedule_removes_earliest_occurrence_only() {
    let mut calendar = Calender::new(default_limits());
    calendar.schedule_at(5, 30);
    calendar.schedule_at(5, 10);
    calendar.schedule_at(6, 10);
    calendar.unschedule_fetch(5).unwrap();
    assert_eq!(calendar.pop_due(100), vec![6, 5]);
    assert_eq!(calendar.unschedule_fetch(5), Err(SchedulerError::SourceNotScheduled(5)));
}

#[test]
fn schedule_with_offset_starts_at_lower_bound() {
    let mut calendar = Calender::new(default_limits());
    calendar.schedule_with_offset(11, 1_000, 7 * MINUTE, 3);
    assert_eq!(calendar.next_time(), Some(1_000 + 7 * MINUTE + 3 * NANOS_PER_MILLI));
}

#[test]
fn schedule_source_stays_within_window() {
    let limits = default_limits();
    let now = now_nanos();
    for _ in 0..20 {
        let mut calendar = Calender::new(limits);
        calendar.schedule_source(42, now, 10 * MINUTE, 20 * MINUTE);
        let t = calendar.next_time().unwrap();
        assert!(t >= now + 10 * MINUTE);
        assert!(t <= now + 20 * MINUTE);
        assert_eq!((t - now - 10 * MINUTE) % NANOS_PER_MILLI, 0);
        assert_eq!(calendar.pop_due(t), vec![42]);
    }
}

#[test]
fn schedule_source_without_window_uses_lower_bound() {
    let mut calendar = Calender::new(default_limits());
    calendar.schedule_source(1, 0, 20 * MINUTE, 10 * MINUTE);
    assert_eq!(calendar.next_time(), Some(20 * MINUTE));
    let mut calendar = Calender::new(default_limits());
    calendar.schedule_source(2, 0, 15 * MINUTE, 15 * MINUTE);
    assert_eq!(calendar.next_time(), Some(15 * MINUTE));
}

#[test]
fn fetch_window_in_milliseconds() {
    assert_eq!(fetch_window_millis(MINUTE, 2 * MINUTE), 60_000);
    assert_eq!(fetch_window_millis(0, 1_999_999), 1);
    assert_eq!(fetch_window_millis(5, 5), 0);
    assert_eq!(fetch_window_millis(10, 5), 0);
}

#[test]
fn interval_limits_are_enforced() {
    let limits = default_limits();
    assert_eq!(enforce_interval_limits(limits, MINUTE, 13 * HOUR), (5 * MINUTE, 12 * HOUR));
    assert_eq!(enforce_interval_limits(limits, 30 * MINUTE, 2 * HOUR), (30 * MINUTE, 2 * HOUR));
    assert_eq!(enforce_interval_limits(limits, 20 * HOUR, MINUTE), (12 * HOUR, 5 * MINUTE));
}
