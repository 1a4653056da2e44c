//! When a daily job runs next.
use chrono::{NaiveTime, Timelike};
use vstd::prelude::*;

verus! {

pub const SECONDS_PER_DAY: u64 = 24 * 60 * 60;

/// The hour and minute of an `HH:MM` time of day; none where the text is
/// not such a time.
pub uninterp spec fn hour_minute_of(s: Seq<char>) -> Option<(int, int)>;

/// Relies on chrono's `NaiveTime::parse_from_str` with the format `%H:%M`,
/// and on `Timelike::hour` (0 to 23) and `Timelike::minute` (0 to 59) to
/// read the parsed time.
#[verifier::external_body]
fn parse_hour_minute(s: &str) -> (r: Option<(u32, u32)>)
    ensures
        match r {
            Some((h, m)) => hour_minute_of(s@) == Some((h as int, m as int)) && h < 24 && m < 60,
            None => hour_minute_of(s@) is None,
        },
{
    match NaiveTime::parse_from_str(s, "%H:%M") {
        Ok(t) => Some((t.hour(), t.minute())),
        Err(_) => None,
    }
}

/// Seconds from `now` to the next run at `at`, both in seconds of the day:
/// later today, or tomorrow where that time of day has passed.
pub open spec fn delay_until(now: int, at: int) -> int {
    if now > at {
        at + SECONDS_PER_DAY - now
    } else {
        at - now
    }
}

/// Seconds from `now_seconds_of_day` until the next run of a daily job set
/// for the `HH:MM` time `run_at`; none where `run_at` is not such a time.
pub fn seconds_until_next_run(now_seconds_of_day: u64, run_at: &str) -> (r: Option<u64>)
    requires
        now_seconds_of_day < SECONDS_PER_DAY,
    ensures
        r == match hour_minute_of(run_at@) {
            Some((h, m)) => Some(delay_until(now_seconds_of_day as int, h * 3600 + m * 60) as u64),
            None => None::<u64>,
        },
        r is Some ==> 0 <= r->0 <= SECONDS_PER_DAY,
{
    match parse_hour_minute(run_at) {
        Some((h, m)) => {
            let at = h as u64 * 3600 + m as u64 * 60;
            if now_seconds_of_day > at {
                Some(at + SECONDS_PER_DAY - now_seconds_of_day)
            } else {
                Some(at - now_seconds_of_day)
            }
        },
        None => None,
    }
}

} // verus!
