//! The Goldfish real-time clock: a 64-bit nanosecond counter, read as two
//! 32-bit registers, and the UTC date and time it gives.
use chrono::{Datelike, Timelike};
use vstd::prelude::*;

verus! {

/// The clock's registers, at MMIO address `base`.
pub struct RtcGoldfish {
    pub base: u64,
}

impl RtcGoldfish {
    pub fn new(base: u64) -> (r: RtcGoldfish)
        ensures
            r.base == base,
    {
        RtcGoldfish { base }
    }
}

/// Nanoseconds in a second.
pub const NSECS_PER_SEC: u64 = 1_000_000_000;

/// Whole seconds since the epoch that the counter gives, from its low and
/// high halves.
pub fn seconds_from_counter(low: u32, high: u32) -> (r: u64)
    ensures
        r == (high as int * 0x1_0000_0000 + low as int) / NSECS_PER_SEC as int,
{
    let t = (high as u64) * 0x1_0000_0000 + low as u64;
    t / NSECS_PER_SEC
}

/// Whether `y` is a leap year of the Gregorian calendar.
pub open spec fn is_leap_year(y: int) -> bool {
    y % 4 == 0 && (y % 100 != 0 || y % 400 == 0)
}

/// Days in month `m` (1 to 12) of year `y`.
pub open spec fn month_days(y: int, m: int) -> int {
    if m == 2 {
        if is_leap_year(y) { 29 } else { 28 }
    } else if m == 4 || m == 6 || m == 9 || m == 11 {
        30
    } else {
        31
    }
}

/// Days of year `y` before the first of month `m` (1 to 12).
pub open spec fn days_before_month(y: int, m: int) -> int {
    let common = if m == 1 { 0int } else if m == 2 { 31 } else if m == 3 { 59 } else if m == 4 { 90 } else if m
        == 5 { 120 } else if m == 6 { 151 } else if m == 7 { 181 } else if m == 8 { 212 } else if m == 9 { 243 } else if m
        == 10 { 273 } else if m == 11 { 304 } else { 334 };
    common + if m > 2 && is_leap_year(y) { 1int } else { 0 }
}

/// Days from 1970-01-01 to the date `y`-`m`-`d` of the proleptic Gregorian
/// calendar (negative before it).
pub open spec fn days_from_epoch(y: int, m: int, d: int) -> int {
    365 * y + (y - 1) / 4 - (y - 1) / 100 + (y - 1) / 400 + days_before_month(y, m) + d - 1 - 719527
}

/// `date` (year, month, day) is the UTC calendar date of second `secs`
/// since the epoch.
pub open spec fn is_utc_date(secs: int, date: (i32, u32, u32)) -> bool {
    &&& 1 <= date.1 <= 12
    &&& 1 <= date.2 <= month_days(date.0 as int, date.1 as int)
    &&& days_from_epoch(date.0 as int, date.1 as int, date.2 as int) == secs / 86400
}

proof fn lemma_date_within_year(y: int, m: int, d: int)
    requires
        1 <= m <= 12,
        1 <= d <= month_days(y, m),
    ensures
        days_from_epoch(y, 1, 1) <= days_from_epoch(y, m, d) < days_from_epoch(y + 1, 1, 1),
{
    assert(y / 4 - (y - 1) / 4 == if y % 4 == 0 { 1int } else { 0 });
    assert(y / 100 - (y - 1) / 100 == if y % 100 == 0 { 1int } else { 0 });
    assert(y / 400 - (y - 1) / 400 == if y % 400 == 0 { 1int } else { 0 });
}

proof fn lemma_years_in_order(a: int, b: int)
    requires
        a < b,
    ensures
        days_from_epoch(a + 1, 1, 1) <= days_from_epoch(b, 1, 1),
{
    assert((b - 1) / 4 >= a / 4);
    assert((b - 1) / 100 - a / 100 <= (b - 1 - a) / 100 + 1);
    assert((b - 1) / 400 >= a / 400);
}

proof fn lemma_months_in_order(y: int, a: int, b: int)
    requires
        1 <= a < b <= 12,
    ensures
        days_before_month(y, a) + month_days(y, a) <= days_before_month(y, b),
{
}

/// A second since the epoch falls on one calendar date only.
pub proof fn lemma_utc_date_unique(secs: int, a: (i32, u32, u32), b: (i32, u32, u32))
    requires
        is_utc_date(secs, a),
        is_utc_date(secs, b),
    ensures
        a == b,
{
    let (ya, ma, da) = (a.0 as int, a.1 as int, a.2 as int);
    let (yb, mb, db) = (b.0 as int, b.1 as int, b.2 as int);
    lemma_date_within_year(ya, ma, da);
    lemma_date_within_year(yb, mb, db);
    if ya < yb {
        lemma_years_in_order(ya, yb);
    } else if yb < ya {
        lemma_years_in_order(yb, ya);
    } else if ma < mb {
        lemma_months_in_order(ya, ma, mb);
    } else if mb < ma {
        lemma_months_in_order(ya, mb, ma);
    }
}

/// `chrono::DateTime::from_timestamp(secs, 0)` and the year, month and day
/// of its date. Claimed: where chrono gives a date, it is the calendar date
/// of `secs` (chrono counts in the proleptic Gregorian calendar) with a
/// year within chrono's range (-262143 to 262142), and chrono gives one for
/// the seconds of the next six centuries (the source refuses only days
/// outside that range of years).
#[verifier::external_body]
fn utc_date_of(secs: i64) -> (r: Option<(i32, u32, u32)>)
    ensures
        r matches Some(d) ==> is_utc_date(secs as int, d) && -262143 <= d.0 <= 262142,
        0 <= secs <= 20_000_000_000 ==> r is Some,
{
    match chrono::DateTime::from_timestamp(secs, 0) {
        Some(dt) => {
            let d = dt.date_naive();
            Some((d.year(), d.month(), d.day()))
        },
        None => None,
    }
}

/// `chrono::DateTime::from_timestamp(secs, 0)` and the hour, minute and
/// second of its time of day. Claimed: these are the second of the day
/// (`secs` modulo 86400, which the source takes with `rem_euclid`) split
/// into hours, minutes and seconds, and chrono gives them for the seconds
/// of the next six centuries.
#[verifier::external_body]
fn utc_time_of(secs: i64) -> (r: Option<(u32, u32, u32)>)
    ensures
        r matches Some(t) ==> t.0 == secs % 86400 / 3600 && t.1 == secs % 3600 / 60 && t.2 == secs % 60,
        0 <= secs <= 20_000_000_000 ==> r is Some,
{
    match chrono::DateTime::from_timestamp(secs, 0) {
        Some(dt) => {
            let t = dt.time();
            Some((t.hour(), t.minute(), t.second()))
        },
        None => None,
    }
}

/// The date at second `ts` since the epoch, as years since 2000 (modulo
/// 256), month and day.
pub fn date_from_seconds(ts: u64) -> (r: Result<(u8, u8, u8), ()>)
    ensures
        ts <= 20_000_000_000 ==> r is Ok,
        r matches Ok(d) ==> exists|date: (i32, u32, u32)|
            {
                &&& #[trigger] is_utc_date((ts as i64) as int, date)
                &&& d == ((date.0 - 2000) as u8, date.1 as u8, date.2 as u8)
            },
{
    match utc_date_of(ts as i64) {
        Some((y, m, d)) => {
            assert(is_utc_date((ts as i64) as int, (y, m, d)));
            Ok(((y - 2000) as u8, m as u8, d as u8))
        },
        None => Err(()),
    }
}

/// The time of day at second `ts` since the epoch: hour, minute, second.
pub fn time_from_seconds(ts: u64) -> (r: Result<(u8, u8, u8), ()>)
    ensures
        ts <= 20_000_000_000 ==> r == Ok::<(u8, u8, u8), ()>(
            ((ts % 86400 / 3600) as u8, (ts % 3600 / 60) as u8, (ts % 60) as u8),
        ),
{
    match utc_time_of(ts as i64) {
        Some((h, m, s)) => Ok((h as u8, m as u8, s as u8)),
        None => Err(()),
    }
}

} // verus!
