//! Wall-clock arithmetic in the club's fixed time zone (Asia/Kolkata) and the
//! computation of the next daily boundary at which the batch runs.
use chrono::TimeZone;
use chrono::Datelike;
use chrono::Offset;
use vstd::prelude::*;

verus! {

/// Seconds in one calendar day.
pub const SECONDS_PER_DAY: u32 = 86400;

/// Day number of 1970-01-01 counted as chrono's `num_days_from_ce` counts
/// (0001-01-01 is day 1).
pub const UNIX_EPOCH_DAY: i64 = 719163;

/// Offset from UTC, in seconds, of Asia/Kolkata at the given UTC instant.
pub uninterp spec fn kolkata_offset_at(utc_secs: int) -> int;

/// Instants within about 34,000 years of 1970, all of which chrono represents.
pub open spec fn in_clock_range(utc_secs: int) -> bool {
    -1099511627776 <= utc_secs <= 1099511627776
}

/// Relies on chrono-tz's `Asia::Kolkata` through `TimeZone::offset_from_utc_datetime`
/// and chrono's `FixedOffset::local_minus_utc`, whose value always lies
/// strictly within one day; `None` only where chrono's
/// `DateTime::from_timestamp` cannot represent the instant, which is outside
/// its range of years (about 262,000 each way).
#[verifier::external_body]
fn kolkata_offset_seconds(utc_secs: i64) -> (r: Option<i32>)
    ensures
        in_clock_range(utc_secs as int) ==> r is Some,
        (r matches Some(o) ==> o == kolkata_offset_at(utc_secs as int) && -86400 < o < 86400),
{
    match chrono::DateTime::from_timestamp(utc_secs, 0) {
        Some(t) => Some(
            chrono_tz::Asia::Kolkata.offset_from_utc_datetime(&t.naive_utc()).fix().local_minus_utc(),
        ),
        None => None,
    }
}

/// A wall-clock reading: a day number (days since 1970-01-01) and the second
/// within that day.
#[derive(Clone, Copy, Debug, PartialEq, Eq, Structural)]
pub struct LocalTime {
    pub day: i64,
    pub second: u32,
}

impl LocalTime {
    pub open spec fn wf(self) -> bool {
        self.second < SECONDS_PER_DAY
    }

    /// Seconds since 1970-01-01 00:00:00 on the wall clock.
    pub open spec fn seconds(self) -> int {
        self.day * 86400 + self.second
    }
}

/// The wall-clock reading of `local_secs` seconds since the epoch of the local clock.
pub open spec fn local_time_of(local_secs: int) -> LocalTime {
    LocalTime { day: (local_secs / 86400) as i64, second: (local_secs % 86400) as u32 }
}

/// The next run of the daily job: the day on which it falls and how long to
/// wait for it, in seconds.
#[derive(Clone, Copy, Debug, PartialEq, Eq, Structural)]
pub struct NextRun {
    pub day: i64,
    pub delay: u64,
}

/// The first moment, strictly after `now` or equal to it only when `now` is
/// before today's boundary, at which the wall clock reads `boundary` seconds
/// past midnight.
pub open spec fn next_run_spec(now: LocalTime, boundary: int) -> NextRun {
    if now.second >= boundary {
        NextRun { day: (now.day + 1) as i64, delay: (86400 - now.second + boundary) as u64 }
    } else {
        NextRun { day: now.day, delay: (boundary - now.second) as u64 }
    }
}

/// Computes the next boundary from a local wall-clock reading: today's
/// boundary when it is still ahead, else tomorrow's.
pub fn next_boundary(now: LocalTime, boundary: u32) -> (r: NextRun)
    requires
        now.wf(),
        boundary < SECONDS_PER_DAY,
        now.day < i64::MAX,
    ensures
        r == next_run_spec(now, boundary as int),
        r.delay > 0,
        r.delay <= 86400,
        (LocalTime { day: r.day, second: boundary }).seconds() == now.seconds() + r.delay,
{
    if now.second >= boundary {
        NextRun { day: now.day + 1, delay: (SECONDS_PER_DAY - now.second + boundary) as u64 }
    } else {
        NextRun { day: now.day, delay: (boundary - now.second) as u64 }
    }
}

/// Reads the local wall clock from a UTC instant and the zone's offset at it.
pub fn local_time_at(utc_secs: i64, offset: i32) -> (r: Option<LocalTime>)
    requires
        -86400 < offset < 86400,
    ensures
        (r is Some) <==> (i64::MIN <= utc_secs + offset <= i64::MAX),
        (r matches Some(t) ==> t == local_time_of(utc_secs + offset) && t.wf()),
{
    match utc_secs.checked_add(offset as i64) {
        Some(local) => {
            let day = local.checked_div_euclid(86400).unwrap();
            let second = local.checked_rem_euclid(86400).unwrap();
            proof {
                assert(day == local / 86400 && second == local % 86400);
            }
            Some(LocalTime { day, second: second as u32 })
        },
        None => None,
    }
}

/// The next run of the daily job as seen from the UTC instant `utc_secs`,
/// given the zone's offset at that instant.
pub fn next_run_from_utc(utc_secs: i64, offset: i32, boundary: u32) -> (r: Option<NextRun>)
    requires
        -86400 < offset < 86400,
        boundary < SECONDS_PER_DAY,
    ensures
        (r is Some) <==> (i64::MIN <= utc_secs + offset <= i64::MAX),
        (r matches Some(n) ==> n == next_run_spec(local_time_of(utc_secs + offset), boundary as int)),
{
    match local_time_at(utc_secs, offset) {
        Some(now) => {
            proof {
                assert(now.day < i64::MAX) by (nonlinear_arith)
                    requires now.day == (utc_secs + offset) / 86400, utc_secs + offset <= i64::MAX;
            }
            Some(next_boundary(now, boundary))
        },
        None => None,
    }
}

/// The next run of the daily job in Asia/Kolkata, seen from the UTC instant
/// `utc_secs`. `None` only where the zone's offset cannot be had for that
/// instant or the local reading leaves the range of `i64`.
pub fn next_kolkata_run(utc_secs: i64, boundary: u32) -> (r: Option<NextRun>)
    requires
        boundary < SECONDS_PER_DAY,
    ensures
        in_clock_range(utc_secs as int) ==> r is Some,
        (r matches Some(n) ==> n == next_run_spec(
            local_time_of(utc_secs + kolkata_offset_at(utc_secs as int)),
            boundary as int,
        )),
{
    match kolkata_offset_seconds(utc_secs) {
        Some(offset) => next_run_from_utc(utc_secs, offset, boundary),
        None => None,
    }
}

/// The (year, month) of the calendar date numbered `day` as chrono's
/// `num_days_from_ce` numbers dates.
pub uninterp spec fn year_month_of(day: int) -> (int, int);

/// Relies on chrono's `NaiveDate::from_num_days_from_ce_opt`, `year` and
/// `month`: months run from 1 to 12; `None` outside chrono's range of dates,
/// which holds every day from 0001-01-01 (day 1) to 9999-12-31 (day 3652059).
#[verifier::external_body]
pub(crate) fn calendar_year_month(day: i32) -> (r: Option<(i32, u32)>)
    ensures
        1 <= day <= 3652059 ==> r is Some,
        (r matches Some(ym) ==> (ym.0 as int, ym.1 as int) == year_month_of(day as int) && 1 <= ym.1 <= 12),
{
    match chrono::NaiveDate::from_num_days_from_ce_opt(day) {
        Some(d) => Some((d.year(), d.month())),
        None => None,
    }
}

/// The calendar date, numbered as chrono's `num_days_from_ce` numbers dates,
/// on the local wall clock that reads `now`.
pub open spec fn ce_day_of(now: LocalTime) -> int {
    now.day + UNIX_EPOCH_DAY
}

/// The wall-clock reading in Asia/Kolkata at the UTC instant `utc_secs`.
pub fn kolkata_now(utc_secs: i64) -> (r: Option<LocalTime>)
    ensures
        in_clock_range(utc_secs as int) ==> r is Some,
        (r matches Some(t) ==> t == local_time_of(utc_secs + kolkata_offset_at(utc_secs as int)) && t.wf()),
{
    match kolkata_offset_seconds(utc_secs) {
        Some(offset) => local_time_at(utc_secs, offset),
        None => None,
    }
}

/// Today's date in Asia/Kolkata at the UTC instant `utc_secs`, numbered as
/// chrono's `num_days_from_ce` numbers dates.
pub fn kolkata_today(utc_secs: i64) -> (r: Option<i32>)
    ensures
        in_clock_range(utc_secs as int) ==> r is Some,
        (r matches Some(d) ==> d == ce_day_of(
            local_time_of(utc_secs + kolkata_offset_at(utc_secs as int)),
        )),
{
    let offset = match kolkata_offset_seconds(utc_secs) {
        Some(o) => o,
        None => return None,
    };
    match local_time_at(utc_secs, offset) {
        Some(now) => {
            proof {
                if in_clock_range(utc_secs as int) {
                    let local = utc_secs + offset;
                    assert(-2000000000 <= local / 86400 <= 2000000000) by (nonlinear_arith)
                        requires -1099511800000 <= local <= 1099511800000;
                }
            }
            if now.day >= -2000000000 && now.day <= 2000000000 {
                Some((now.day + UNIX_EPOCH_DAY) as i32)
            } else {
                None
            }
        },
        None => None,
    }
}

/// Once today's boundary has been reached, the next run is tomorrow's, never
/// today's again: from the last second of a day it is one second plus the
/// boundary away, and a reading just past the boundary waits almost a day.
pub proof fn lemma_next_run_after_boundary(now: LocalTime, boundary: int)
    requires
        now.wf(),
        0 <= boundary < 86400,
        now.second >= boundary,
        now.day < i64::MAX,
    ensures
        next_run_spec(now, boundary).day == now.day + 1,
        next_run_spec(now, boundary).delay == 86400 - now.second + boundary,
        now.second == 86399 ==> next_run_spec(now, boundary).delay == 1 + boundary,
        now.second == boundary + 1 ==> next_run_spec(now, boundary).delay == 86399,
{
}

/// Before today's boundary, the next run is today's, and never more than the
/// boundary away.
pub proof fn lemma_next_run_before_boundary(now: LocalTime, boundary: int)
    requires
        now.wf(),
        0 <= boundary < 86400,
        now.second < boundary,
    ensures
        next_run_spec(now, boundary).day == now.day,
        0 < next_run_spec(now, boundary).delay <= boundary,
{
}

} // verus!
