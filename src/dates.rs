//! Calendar dates as day numbers, and the issuance of a dated settlement.
use chrono::{Datelike, NaiveDate};
use vstd::prelude::*;
use crate::issuance::{daily_ntx_issuance, issuance_units};

verus! {

/// The day number of a `YYYY-MM-DD` date, counted from the first day of the
/// common era; none where the text is not such a date.
pub uninterp spec fn ymd_day_number(s: Seq<char>) -> Option<int>;

/// Relies on chrono's `NaiveDate::parse_from_str` with the format
/// `%Y-%m-%d` to read the date, and on `Datelike::num_days_from_ce` to
/// number it (consecutive days get consecutive numbers).
#[verifier::external_body]
fn parse_day_number(s: &str) -> (r: Option<i32>)
    ensures
        match r {
            Some(d) => ymd_day_number(s@) == Some(d as int),
            None => ymd_day_number(s@) is None,
        },
{
    match NaiveDate::parse_from_str(s, "%Y-%m-%d") {
        Ok(date) => Some(date.num_days_from_ce()),
        Err(_) => None,
    }
}

/// Days from `genesis_date` to `current_date`, both `YYYY-MM-DD`; none
/// where either is not a date.
pub fn days_between(current_date: &str, genesis_date: &str) -> (r: Option<i64>)
    ensures
        r == match (ymd_day_number(current_date@), ymd_day_number(genesis_date@)) {
            (Some(c), Some(g)) => Some((c - g) as i64),
            _ => None::<i64>,
        },
{
    match (parse_day_number(current_date), parse_day_number(genesis_date)) {
        (Some(c), Some(g)) => Some(c as i64 - g as i64),
        _ => None,
    }
}

/// The issuance, in micro-units, of the settlement date `current_date` for a
/// platform whose genesis date is `genesis_date`; none where either is not a
/// `YYYY-MM-DD` date.
pub fn daily_ntx_issuance_for_dates(current_date: &str, genesis_date: &str) -> (r: Option<u64>)
    ensures
        r == match (ymd_day_number(current_date@), ymd_day_number(genesis_date@)) {
            (Some(c), Some(g)) => Some(issuance_units(c - g) as u64),
            _ => None::<u64>,
        },
{
    match (parse_day_number(current_date), parse_day_number(genesis_date)) {
        (Some(c), Some(g)) => Some(daily_ntx_issuance(c as i64 - g as i64)),
        _ => None,
    }
}

} // verus!
