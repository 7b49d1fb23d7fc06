//! Schedules: when a task runs next, from a one-off instant, a fixed
//! interval, a cron expression, or a daily or weekly period.

use vstd::prelude::*;

use crate::cron_parser::{cron_error, cron_next};
use crate::external::{new_uuid_string, utc_now};

verus! {

/// Unique schedule identifier.
#[derive(Debug, Clone, PartialEq, Eq, Hash)]
pub struct ScheduleId(pub String);

impl ScheduleId {
    /// A fresh random identifier.
    pub fn new() -> (r: Self)
        ensures
            r.0@.len() == 36,
    {
        ScheduleId(new_uuid_string())
    }
}

impl Default for ScheduleId {
    fn default() -> (r: Self)
        ensures
            r.0@.len() == 36,
    {
        ScheduleId::new()
    }
}

/// An instant in UTC: whole seconds since the Unix epoch (leap seconds not
/// counted) and the nanoseconds past that second.
#[derive(Debug, Clone, Copy, PartialEq, Eq, Structural)]
pub struct UtcTime {
    /// Whole seconds since 1970-01-01T00:00:00Z.
    pub secs: i64,
    /// Nanoseconds past `secs`.
    pub nanos: u32,
}

/// `a` comes after `b`.
pub open spec fn later(a: UtcTime, b: UtcTime) -> bool {
    a.secs > b.secs || (a.secs == b.secs && a.nanos > b.nanos)
}

/// `t` moved by `n` whole seconds.
pub open spec fn shifted(t: UtcTime, n: int) -> UtcTime {
    UtcTime { secs: (t.secs + n) as i64, nanos: t.nanos }
}

/// An instant that the clock can report: not before the Unix epoch and
/// within the years that chrono represents.
pub open spec fn clock_reading(t: UtcTime) -> bool {
    0 <= t.secs < 8_300_000_000_000 && t.nanos < 1_000_000_000
}

impl UtcTime {
    /// The current instant.
    pub fn now() -> (r: UtcTime)
        ensures
            clock_reading(r),
    {
        utc_now()
    }

    /// Whether this instant comes after `other`.
    pub fn is_after(&self, other: &UtcTime) -> (r: bool)
        ensures
            r == later(*self, *other),
    {
        self.secs > other.secs || (self.secs == other.secs && self.nanos > other.nanos)
    }
}

/// The longest span, either way, that a schedule interval may have: the
/// most whole seconds `chrono::TimeDelta::seconds` accepts (`i64::MAX /
/// 1000`).
pub const MAX_SPAN_SECS: i64 = 9_223_372_036_854_775i64;

/// Seconds in a day.
pub const DAY_SECS: i64 = 86_400i64;

/// Seconds in a week.
pub const WEEK_SECS: i64 = 604_800i64;

/// Kind of schedule.
#[derive(Debug, Clone)]
pub enum ScheduleKind {
    /// One-time execution at a specific instant.
    Once { at: UtcTime },
    /// Repeated at a fixed interval, in seconds.
    Interval { every: i64 },
    /// Cron-based schedule.
    Cron { expression: String },
    /// Daily at a specific time of day.
    Daily { at: String },
    /// Weekly on specific days.
    Weekly { days: Vec<String>, at: String },
}

/// The interval of an interval schedule is a span that chrono accepts.
pub open spec fn span_ok(kind: ScheduleKind) -> bool {
    match kind {
        ScheduleKind::Interval { every } => -MAX_SPAN_SECS <= every <= MAX_SPAN_SECS,
        _ => true,
    }
}

/// Whether the next run after `from` can be computed: the interval is a
/// span that chrono accepts, and the moved instant's seconds fit in `i64`.
pub open spec fn next_run_defined(kind: ScheduleKind, from: UtcTime) -> bool {
    &&& span_ok(kind)
    &&& match kind {
        ScheduleKind::Interval { every } => i64::MIN <= from.secs + every <= i64::MAX,
        ScheduleKind::Daily { .. } => from.secs + DAY_SECS <= i64::MAX,
        ScheduleKind::Weekly { .. } => from.secs + WEEK_SECS <= i64::MAX,
        _ => true,
    }
}

/// When a schedule of `kind` runs next, counting from `from`: a one-off
/// instant while it is still ahead; `from` moved by the interval, a day
/// or a week; for a cron expression, the next whole minute it matches
/// (none when the expression is rejected or matches nothing within a
/// year).
pub open spec fn next_run_of(kind: ScheduleKind, from: UtcTime) -> Option<UtcTime> {
    match kind {
        ScheduleKind::Once { at } => if later(at, from) {
            Some(at)
        } else {
            None
        },
        ScheduleKind::Interval { every } => Some(shifted(from, every as int)),
        ScheduleKind::Cron { expression } => if cron_error(expression@) is Some {
            None
        } else {
            match cron_next(expression@, from.secs as int) {
                Some(t) => Some(UtcTime { secs: t as i64, nanos: 0 }),
                None => None,
            }
        },
        ScheduleKind::Daily { .. } => Some(shifted(from, DAY_SECS as int)),
        ScheduleKind::Weekly { .. } => Some(shifted(from, WEEK_SECS as int)),
    }
}

impl ScheduleKind {
    /// Calculates the next execution time, counting from `from`.
    pub fn next_run(&self, from: UtcTime) -> (r: Option<UtcTime>)
        requires
            next_run_defined(*self, from),
        ensures
            r == next_run_of(*self, from),
    {
        match self {
            ScheduleKind::Once { at } => {
                if at.is_after(&from) {
                    Some(*at)
                } else {
                    None
                }
            },
            ScheduleKind::Interval { every } => Some(UtcTime { secs: from.secs + *every, nanos: from.nanos }),
            ScheduleKind::Cron { expression } => {
                match crate::cron_parser::next_run(expression.as_str(), from.secs) {
                    Ok(t) => Some(UtcTime { secs: t, nanos: 0 }),
                    Err(_) => None,
                }
            },
            ScheduleKind::Daily { .. } => Some(UtcTime { secs: from.secs + DAY_SECS, nanos: from.nanos }),
            ScheduleKind::Weekly { .. } => Some(UtcTime { secs: from.secs + WEEK_SECS, nanos: from.nanos }),
        }
    }
}

/// A schedule attached to a task.
#[derive(Debug, Clone)]
pub struct Schedule {
    /// Unique identifier.
    pub id: ScheduleId,
    /// Associated task ID.
    pub task_id: String,
    /// Schedule kind.
    pub kind: ScheduleKind,
    /// Whether the schedule is active.
    pub active: bool,
    /// Last execution time.
    pub last_run: Option<UtcTime>,
    /// Next execution time.
    pub next_run: Option<UtcTime>,
    /// Creation time.
    pub created_at: UtcTime,
}

/// The instant a tick counts from: the run that just became the last
/// one, or the current instant `now` when none was due.
pub open spec fn tick_from(s: Schedule, now: UtcTime) -> UtcTime {
    match s.next_run {
        Some(t) => t,
        None => now,
    }
}

/// The schedule after a tick at `now`: the due run becomes the last run,
/// and the next run moves on when the kind gives one (it stays otherwise).
pub open spec fn ticked(s: Schedule, now: UtcTime) -> Schedule {
    Schedule {
        last_run: s.next_run,
        next_run: match next_run_of(s.kind, tick_from(s, now)) {
            Some(n) => Some(n),
            None => s.next_run,
        },
        ..s
    }
}

impl Schedule {
    /// A new active one-time schedule for `task_id`, due at `at`.
    pub fn once(task_id: &str, at: UtcTime) -> (r: Self)
        ensures
            r.id.0@.len() == 36,
            r.task_id@ == task_id@,
            r.kind == (ScheduleKind::Once { at }),
            r.active,
            r.last_run is None,
            r.next_run == Some(at),
            clock_reading(r.created_at),
    {
        Schedule {
            id: ScheduleId::new(),
            task_id: String::from_str(task_id),
            kind: ScheduleKind::Once { at },
            active: true,
            last_run: None,
            next_run: Some(at),
            created_at: utc_now(),
        }
    }

    /// A new active schedule for `task_id` repeating every `every_seconds`
    /// seconds, first due one interval after its creation.
    pub fn interval(task_id: &str, every_seconds: i64) -> (r: Self)
        requires
            -MAX_SPAN_SECS <= every_seconds <= MAX_SPAN_SECS,
        ensures
            r.id.0@.len() == 36,
            r.task_id@ == task_id@,
            r.kind == (ScheduleKind::Interval { every: every_seconds }),
            r.active,
            r.last_run is None,
            r.next_run == Some(shifted(r.created_at, every_seconds as int)),
            clock_reading(r.created_at),
    {
        let now = utc_now();
        Schedule {
            id: ScheduleId::new(),
            task_id: String::from_str(task_id),
            kind: ScheduleKind::Interval { every: every_seconds },
            active: true,
            last_run: None,
            next_run: Some(UtcTime { secs: now.secs + every_seconds, nanos: now.nanos }),
            created_at: now,
        }
    }

    /// A new active schedule for `task_id` following the cron expression
    /// `expression`, first due at its next firing after the creation
    /// instant (none when it is rejected or never fires within a year).
    pub fn cron(task_id: &str, expression: &str) -> (r: Self)
        ensures
            r.id.0@.len() == 36,
            r.task_id@ == task_id@,
            r.kind matches ScheduleKind::Cron { expression: e } && e@ == expression@,
            r.active,
            r.last_run is None,
            r.next_run == next_run_of(r.kind, r.created_at),
            clock_reading(r.created_at),
    {
        let now = utc_now();
        let kind = ScheduleKind::Cron { expression: String::from_str(expression) };
        let next_run = kind.next_run(now);
        Schedule {
            id: ScheduleId::new(),
            task_id: String::from_str(task_id),
            kind,
            active: true,
            last_run: None,
            next_run,
            created_at: now,
        }
    }

    /// Records that the due run happened, `now` being the current instant:
    /// the due run becomes the last run and the next one is computed from
    /// it (from `now` when none was due).
    pub fn tick_at(&mut self, now: UtcTime)
        requires
            next_run_defined(old(self).kind, tick_from(*old(self), now)),
        ensures
            *final(self) == ticked(*old(self), now),
    {
        self.last_run = self.next_run;
        let from = match self.last_run {
            Some(t) => t,
            None => now,
        };
        match self.kind.next_run(from) {
            Some(next) => {
                self.next_run = Some(next);
            },
            None => {},
        }
    }

    /// Records that the due run happened, reading the clock for the case
    /// where none was due.
    pub fn tick(&mut self)
        requires
            span_ok(old(self).kind),
            old(self).next_run matches Some(t) ==> next_run_defined(old(self).kind, t),
        ensures
            exists|now: UtcTime| #![trigger ticked(*old(self), now)]
                clock_reading(now) && *final(self) == ticked(*old(self), now),
    {
        let now = utc_now();
        let ghost before = *self;
        self.tick_at(now);
        assert(*self == ticked(before, now));
    }

    /// Pauses the schedule.
    pub fn pause(&mut self)
        ensures
            *final(self) == (Schedule { active: false, ..*old(self) }),
    {
        self.active = false;
    }

    /// Resumes the schedule.
    pub fn resume(&mut self)
        ensures
            *final(self) == (Schedule { active: true, ..*old(self) }),
    {
        self.active = true;
    }
}


/// A one-off schedule runs at its instant while that instant is still
/// ahead of `from`, and never once it has passed.
pub proof fn lemma_once_runs_at_its_instant(at: UtcTime, from: UtcTime)
    ensures
        later(at, from) ==> next_run_of(ScheduleKind::Once { at }, from) == Some(at),
        !later(at, from) ==> next_run_of(ScheduleKind::Once { at }, from) is None,
{
}

/// A one-off, daily or weekly schedule, or an interval schedule with a
/// positive interval, always has its next run strictly after `from` when
/// it has one; the repeating ones always have one.
pub proof fn lemma_next_run_is_after(kind: ScheduleKind, from: UtcTime)
    requires
        next_run_defined(kind, from),
        kind !is Cron,
        kind matches ScheduleKind::Interval { every } ==> every > 0,
    ensures
        kind !is Once ==> next_run_of(kind, from) is Some,
        next_run_of(kind, from) matches Some(t) ==> later(t, from),
{
}

/// A repeating schedule moves `from` forward by exactly its period (the
/// interval, a day or a week), keeping the sub-second part.
pub proof fn lemma_repeating_schedules_advance_by_their_period(kind: ScheduleKind, from: UtcTime)
    requires
        next_run_defined(kind, from),
    ensures
        kind matches ScheduleKind::Interval { every } ==> (next_run_of(kind, from) matches Some(t)
            && t.secs == from.secs + every && t.nanos == from.nanos),
        kind is Daily ==> (next_run_of(kind, from) matches Some(t)
            && t.secs == from.secs + 86_400 && t.nanos == from.nanos),
        kind is Weekly ==> (next_run_of(kind, from) matches Some(t)
            && t.secs == from.secs + 604_800 && t.nanos == from.nanos),
{
}


/// Ticking a repeating schedule whose run was due makes that run the last
/// one and moves the next run strictly past it; nothing else about the
/// schedule changes.
pub proof fn lemma_tick_moves_repeating_schedules_forward(s: Schedule, now: UtcTime)
    requires
        s.next_run is Some,
        next_run_defined(s.kind, s.next_run->0),
        s.kind is Interval || s.kind is Daily || s.kind is Weekly,
        s.kind matches ScheduleKind::Interval { every } ==> every > 0,
    ensures
        ticked(s, now).last_run == s.next_run,
        ticked(s, now).next_run matches Some(n) && later(n, s.next_run->0),
        ticked(s, now).kind == s.kind,
        ticked(s, now).active == s.active,
        ticked(s, now).task_id == s.task_id,
        ticked(s, now).id == s.id,
        ticked(s, now).created_at == s.created_at,
{
    lemma_next_run_is_after(s.kind, s.next_run->0);
}

/// Ticking a one-off schedule at its due instant leaves no later run: the
/// run becomes the last one and the next run stays where it was.
pub proof fn lemma_tick_once_fires_once(s: Schedule, now: UtcTime, at: UtcTime)
    requires
        s.kind == (ScheduleKind::Once { at }),
        s.next_run == Some(at),
    ensures
        ticked(s, now).last_run == Some(at),
        ticked(s, now).next_run == Some(at),
{
}

} // verus!
