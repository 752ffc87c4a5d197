//! Calendar arithmetic on timestamps.
//!
//! A timestamp is a count of whole seconds since 1970-01-01 00:00:00 on the
//! wall clock of the engine's time zone. Days are the buckets under which
//! counters are persisted: a day is named by the timestamp of its midnight.

use vstd::prelude::*;

verus! {

/// Seconds on the engine's wall clock since the start of 1970.
pub type Timestamp = i64;

/// Length of a day in seconds.
pub const SECONDS_PER_DAY: i64 = 86_400;

/// Length of the trailing ranking window in seconds (thirty days).
pub const TRAILING_WINDOW: i64 = 2_592_000;

/// The midnight that opens the day to which `t` belongs.
pub open spec fn day_of(t: int) -> int {
    t - t % (SECONDS_PER_DAY as int)
}

/// The instant thirty days before `now`.
pub open spec fn trailing_start(now: int) -> int {
    now - TRAILING_WINDOW
}

/// What the comparison of the day seen at the previous tick with the day
/// seen now means for the scheduler.
#[derive(Clone, Copy, Debug, PartialEq, Eq, Structural)]
pub enum DayTransition {
    /// Both ticks fall on one day.
    SameDay,
    /// The clock moved on to a later day: counters roll over.
    Rollover,
    /// The clock reports a day before the last one seen: nothing rolls over.
    ClockAnomaly,
}

/// The transition from the day `last_seen` to the day `today`.
pub open spec fn transition_between(last_seen: int, today: int) -> DayTransition {
    if today == last_seen {
        DayTransition::SameDay
    } else if today > last_seen {
        DayTransition::Rollover
    } else {
        DayTransition::ClockAnomaly
    }
}

/// Computes the midnight that opens the day of `t`. The earliest
/// representable day has no representable midnight; for such a `t` the
/// result is `None`.
pub fn day_start(t: Timestamp) -> (midnight: Option<Timestamp>)
    ensures
        midnight == (if day_of(t as int) >= i64::MIN {
            Some(day_of(t as int) as i64)
        } else {
            None
        }),
        midnight matches Some(m) ==> m <= t < m + SECONDS_PER_DAY && m % SECONDS_PER_DAY == 0,
{
    let wide: i128 = t as i128;
    let day: i128 = SECONDS_PER_DAY as i128;
    let rem: i128 = wide % day;
    let offset: i128 = if rem < 0 {
        rem + day
    } else {
        rem
    };
    assert(offset == (t as int) % (SECONDS_PER_DAY as int)) by {
        lemma_euclid_of_truncated(t as int, rem as int);
    }
    let start: i128 = wide - offset;
    if start < i64::MIN as i128 {
        None
    } else {
        Some(start as i64)
    }
}

/// The day before `today`, where timestamps reach that far back.
pub fn previous_day(today: Timestamp) -> (yesterday: Option<Timestamp>)
    ensures
        yesterday == (if today - SECONDS_PER_DAY >= i64::MIN {
            Some((today - SECONDS_PER_DAY) as i64)
        } else {
            None
        }),
{
    if today < i64::MIN + SECONDS_PER_DAY {
        None
    } else {
        Some(today - SECONDS_PER_DAY)
    }
}

/// Compares the day recorded at the previous tick with the current day.
pub fn day_transition(last_seen: Timestamp, today: Timestamp) -> (transition: DayTransition)
    ensures
        transition == transition_between(last_seen as int, today as int),
{
    if today == last_seen {
        DayTransition::SameDay
    } else if today > last_seen {
        DayTransition::Rollover
    } else {
        DayTransition::ClockAnomaly
    }
}

/// Start of the trailing thirty-day window that ends at `now`, held at the
/// earliest representable instant where the subtraction would leave the
/// range of timestamps.
pub fn trailing_window_start(now: Timestamp) -> (start: Timestamp)
    ensures
        start == (if trailing_start(now as int) >= i64::MIN {
            trailing_start(now as int)
        } else {
            i64::MIN as int
        }),
{
    if now < i64::MIN + TRAILING_WINDOW {
        i64::MIN
    } else {
        now - TRAILING_WINDOW
    }
}

/// The instant that the system clock shows, on the wall clock of the
/// engine's time zone (Asia/Shanghai): `Utc::now` of the `chrono` crate,
/// moved to that zone by `chrono_tz`. Nothing is promised of the reading.
#[verifier::external_body]
pub fn now_shanghai() -> (now: Timestamp) {
    chrono::Utc::now().with_timezone(&chrono_tz::Asia::Shanghai).naive_local().and_utc().timestamp()
}

/// Reads the clock: the current instant, and the midnight that opened the
/// current day.
pub fn current_day() -> (reading: (Timestamp, Option<Timestamp>))
    ensures
        reading.1 == (if day_of(reading.0 as int) >= i64::MIN {
            Some(day_of(reading.0 as int) as i64)
        } else {
            None
        }),
{
    let now = now_shanghai();
    (now, day_start(now))
}

proof fn lemma_euclid_of_truncated(t: int, rem: int)
    requires
        rem == (if t >= 0 {
            t % 86_400
        } else {
            -((-t) % 86_400)
        }),
    ensures
        t % 86_400 == (if rem < 0 {
            rem + 86_400
        } else {
            rem
        }),
{
    if t < 0 {
        let q: int = (-t) / 86_400;
        let r: int = (-t) % 86_400;
        assert(-t == 86_400 * q + r) by (nonlinear_arith)
            requires
                q == (-t) / 86_400,
                r == (-t) % 86_400,
        ;
        if r == 0 {
            assert(t % 86_400 == 0) by (nonlinear_arith)
                requires
                    t == 86_400 * (-q),
            ;
        } else {
            assert(t % 86_400 == 86_400 - r) by (nonlinear_arith)
                requires
                    t == 86_400 * (-q - 1) + (86_400 - r),
                    0 < r < 86_400,
            ;
        }
    }
}

} // verus!
