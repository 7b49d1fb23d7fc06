use chrono::{DateTime, Duration, Utc};

use taskkit::cron_parser::next_run;
use taskkit::domain::scheduler::{Schedule, ScheduleKind, UtcTime};

fn utc(t: DateTime<Utc>) -> UtcTime {
    UtcTime { secs: t.timestamp(), nanos: t.timestamp_subsec_nanos() }
}

fn now() -> UtcTime {
    utc(Utc::now())
}

#[test]
fn test_once_schedule() {
    let future = utc(Utc::now() + Duration::hours(1));
    let schedule = Schedule::once("task-1", future);

    assert!(schedule.active);
    assert_eq!(schedule.task_id, "task-1");
}

#[test]
fn test_interval_schedule() {
    let schedule = Schedule::interval("task-1", 3600);

    assert!(schedule.active);
    assert!(schedule.next_run.is_some());
}

#[test]
fn test_schedule_tick() {
    let future = utc(Utc::now() + Duration::hours(1));
    let mut schedule = Schedule::once("task-1", future);

    schedule.tick();
    assert!(schedule.last_run.is_some());
}

#[test]
fn test_schedule_once_sets_next_run_to_target() {
    let future = utc(Utc::now() + Duration::hours(2));
    let schedule = Schedule::once("task-x", future);
    assert_eq!(schedule.task_id, "task-x");
    assert!(schedule.active);
    assert_eq!(schedule.next_run, Some(future));
    assert!(schedule.last_run.is_none());
}

#[test]
fn test_schedule_cron_initial_next_run_is_in_future() {
    let schedule = Schedule::cron("cron-task", "0 0 * * *");
    assert!(schedule.active);
    let next = schedule.next_run.expect("cron schedule should compute a next_run");
    assert!(next.is_after(&now()));
}

#[test]
fn test_schedule_kind_once_past_returns_none() {
    let past = utc(Utc::now() - Duration::days(1));
    let kind = ScheduleKind::Once { at: past };
    assert!(kind.next_run(now()).is_none());
}

#[test]
fn test_schedule_kind_interval_is_deterministic() {
    let t = Utc::now();
    let kind = ScheduleKind::Interval { every: 120 };
    assert_eq!(kind.next_run(utc(t)), Some(utc(t + Duration::seconds(120))));
}

#[test]
fn test_schedule_kind_weekly_is_one_week_later() {
    let t = Utc::now();
    let kind = ScheduleKind::Weekly { days: vec!["mon".to_string(), "wed".to_string()], at: "10:00".to_string() };
    let next = kind.next_run(utc(t)).expect("weekly should be Some");
    assert_eq!(next, utc(t + Duration::weeks(1)));
}

#[test]
fn test_schedule_kind_daily_is_one_day_later() {
    let t = Utc::now();
    let kind = ScheduleKind::Daily { at: "09:00".to_string() };
    let next = kind.next_run(utc(t)).expect("daily should be Some");
    assert_eq!(next, utc(t + Duration::days(1)));
}

#[test]
fn test_schedule_tick_updates_last_run() {
    let future = utc(Utc::now() + Duration::hours(1));
    let mut schedule = Schedule::once("task-tick", future);
    assert!(schedule.last_run.is_none());
    schedule.tick();
    assert!(schedule.last_run.is_some());
}

#[test]
fn test_schedule_pause_and_resume_round_trip() {
    let mut schedule = Schedule::interval("task-pr", 60);
    assert!(schedule.active);
    schedule.pause();
    assert!(!schedule.active);
    schedule.resume();
    assert!(schedule.active);
    schedule.pause();
    schedule.pause();
    assert!(!schedule.active);
}

// 2015-05-15T00:00:00Z is 1431648000 seconds after the epoch (a Friday).
const MAY_15_2015: i64 = 1_431_648_000;

#[test]
fn cron_next_run_daily_midnight() {
    assert_eq!(next_run("0 0 * * *", MAY_15_2015), Ok(MAY_15_2015 + 86_400));
    assert_eq!(next_run("0 0 * * *", MAY_15_2015 - 1), Ok(MAY_15_2015));
}

#[test]
fn cron_next_run_is_strictly_after_the_current_minute() {
    assert_eq!(next_run("* * * * *", MAY_15_2015 + 30), Ok(MAY_15_2015 + 60));
    assert_eq!(next_run("* * * * *", MAY_15_2015), Ok(MAY_15_2015 + 60));
}

#[test]
fn cron_next_run_weekday_and_hour() {
    // Mondays at 09:30: the Monday after Friday 2015-05-15 is 2015-05-18.
    let expected = MAY_15_2015 + 3 * 86_400 + 9 * 3_600 + 30 * 60;
    assert_eq!(next_run("30 9 * * 1", MAY_15_2015), Ok(expected));
}

#[test]
fn cron_next_run_before_the_epoch() {
    // 1969-12-31T23:59:30Z: the next whole minute is the epoch itself.
    assert_eq!(next_run("* * * * *", -30), Ok(0));
}

#[test]
fn cron_next_run_rejects_bad_expressions() {
    assert_eq!(next_run("* * *", 0), Err("cron must have 5 fields, got 3".to_string()));
    assert_eq!(next_run("*/0 * * * *", 0), Err("step cannot be 0".to_string()));
}

#[test]
fn cron_next_run_never_matching() {
    assert_eq!(
        next_run("0 0 31 2 *", MAY_15_2015),
        Err("no time within a year matches the expression".to_string())
    );
}

#[test]
fn schedule_kind_cron_next_run() {
    let kind = ScheduleKind::Cron { expression: "0 0 * * *".to_string() };
    let from = UtcTime { secs: MAY_15_2015 + 5, nanos: 7 };
    assert_eq!(kind.next_run(from), Some(UtcTime { secs: MAY_15_2015 + 86_400, nanos: 0 }));
    let bad = ScheduleKind::Cron { expression: "nope".to_string() };
    assert_eq!(bad.next_run(from), None);
}

#[test]
fn schedule_tick_moves_an_interval_on() {
    let mut schedule = Schedule::interval("every-minute", 60);
    let first = schedule.next_run.expect("interval schedules start with a next run");
    schedule.tick();
    assert_eq!(schedule.last_run, Some(first));
    assert_eq!(schedule.next_run, Some(UtcTime { secs: first.secs + 60, nanos: first.nanos }));
}

#[test]
fn schedule_tick_keeps_a_passed_once_run() {
    let at = UtcTime { secs: MAY_15_2015, nanos: 0 };
    let mut schedule = Schedule::once("past", at);
    schedule.tick_at(UtcTime { secs: MAY_15_2015 + 10, nanos: 0 });
    assert_eq!(schedule.last_run, Some(at));
    assert_eq!(schedule.next_run, Some(at));
}

#[test]
fn utc_time_ordering() {
    let a = UtcTime { secs: 10, nanos: 5 };
    assert!(a.is_after(&UtcTime { secs: 10, nanos: 4 }));
    assert!(a.is_after(&UtcTime { secs: 9, nanos: 999_999_999 }));
    assert!(!a.is_after(&a));
    assert!(!a.is_after(&UtcTime { secs: 11, nanos: 0 }));
}
