//! Calendar dates and the timestamp texts the runtime and the RPC service write.

use vstd::prelude::*;

use std::time::SystemTimeError;

use crate::openai::parse_u64_spec;
use crate::text::{push_zero_padded, zero_padded};

verus! {

/// `std::time::SystemTimeError`, held opaque.
#[verifier::external_type_specification]
#[verifier::external_body]
pub struct ExSystemTimeError(std::time::SystemTimeError);

/// Whether `y` is a leap year of the proleptic Gregorian calendar.
pub open spec fn is_leap_year(y: int) -> bool {
    (y % 4 == 0 && y % 100 != 0) || y % 400 == 0
}

/// The number of days of year `y`.
pub open spec fn year_length(y: int) -> int {
    if is_leap_year(y) {
        366
    } else {
        365
    }
}

/// The number of days of month `m` (1 to 12) of year `y`.
pub open spec fn month_length(y: int, m: int) -> int {
    if m == 2 {
        if is_leap_year(y) {
            29
        } else {
            28
        }
    } else if m == 4 || m == 6 || m == 9 || m == 11 {
        30
    } else {
        31
    }
}

/// The number of days of year `y` before the first of month `m` (1 to 12).
pub open spec fn days_before_month(y: int, m: int) -> int
    decreases m,
{
    if m <= 1 {
        0
    } else {
        days_before_month(y, m - 1) + month_length(y, m - 1)
    }
}

/// The number of leap years before year `y`, counted from a fixed origin.
pub open spec fn leap_years_before(y: int) -> int {
    (y - 1) / 4 - (y - 1) / 100 + (y - 1) / 400
}

/// The number of days from 1970-01-01 to the first of January of year `y` (negative before
/// 1970).
pub open spec fn days_before_year(y: int) -> int {
    365 * (y - 1970) + leap_years_before(y) - leap_years_before(1970)
}

/// The day number, counted from 1970-01-01 as day 0, of the date `y`-`m`-`d`.
pub open spec fn days_from_civil(y: int, m: int, d: int) -> int {
    days_before_year(y) + days_before_month(y, m) + d - 1
}

/// Whether `y`-`m`-`d` is a date of the proleptic Gregorian calendar.
pub open spec fn is_valid_date(y: int, m: int, d: int) -> bool {
    1 <= m <= 12 && 1 <= d <= month_length(y, m)
}

/// A year after `y` starts as many days later as year `y` has.
proof fn lemma_next_year(y: int)
    ensures
        days_before_year(y + 1) == days_before_year(y) + year_length(y),
{
    assert(y / 4 - (y - 1) / 4 == (if y % 4 == 0 { 1int } else { 0int })) by (nonlinear_arith);
    assert(y / 100 - (y - 1) / 100 == (if y % 100 == 0 { 1int } else { 0int })) by (nonlinear_arith);
    assert(y / 400 - (y - 1) / 400 == (if y % 400 == 0 { 1int } else { 0int })) by (nonlinear_arith);
    assert(y % 400 == 0 ==> y % 100 == 0 && y % 4 == 0) by (nonlinear_arith);
    assert(y % 100 == 0 ==> y % 4 == 0) by (nonlinear_arith);
}

/// Four hundred years always have 146097 days.
proof fn lemma_next_era(y: int)
    ensures
        days_before_year(y + 400) == days_before_year(y) + 146097,
{
    assert((y + 399) / 4 == (y - 1) / 4 + 100) by (nonlinear_arith);
    assert((y + 399) / 100 == (y - 1) / 100 + 4) by (nonlinear_arith);
    assert((y + 399) / 400 == (y - 1) / 400 + 1) by (nonlinear_arith);
}

/// `k` blocks of four hundred years have `k` times 146097 days.
proof fn lemma_eras(y: int, k: int)
    requires
        k >= 0,
    ensures
        days_before_year(y + 400 * k) == days_before_year(y) + 146097 * k,
    decreases k,
{
    if k > 0 {
        lemma_eras(y, k - 1);
        lemma_next_era(y + 400 * (k - 1));
        assert(y + 400 * (k - 1) + 400 == y + 400 * k);
    }
}

/// The year `1970 + 400 * k` starts `146097 * k` days after 1970-01-01, for any `k`.
proof fn lemma_eras_signed(k: int)
    ensures
        days_before_year(1970 + 400 * k) == 146097 * k,
{
    if k >= 0 {
        lemma_eras(1970, k);
    } else {
        lemma_eras(1970 + 400 * k, -k);
        assert(1970 + 400 * k + 400 * (-k) == 1970);
    }
}

/// The twelve months make up the year.
proof fn lemma_year_of_days(y: int)
    ensures
        days_before_month(y, 13) == year_length(y),
{
    reveal_with_fuel(days_before_month, 13);
}

/// The Euclidean remainder of `a` by a positive `b`.
fn euclid_rem(a: i64, b: i64) -> (r: i64)
    requires
        b > 0,
    ensures
        r == a % b,
{
    match a.checked_rem_euclid(b) {
        Some(r) => r,
        None => 0,
    }
}

/// Whether `y` is a leap year.
fn leap(y: i64) -> (r: bool)
    ensures
        r == is_leap_year(y as int),
{
    (euclid_rem(y, 4) == 0 && euclid_rem(y, 100) != 0) || euclid_rem(y, 400) == 0
}

/// The number of days of year `y`.
fn year_len(y: i64) -> (r: i64)
    ensures
        r == year_length(y as int),
{
    if leap(y) {
        366
    } else {
        365
    }
}

/// The number of days of month `m` of year `y`.
fn month_len(y: i64, m: i64) -> (r: i64)
    ensures
        r == month_length(y as int, m as int),
{
    if m == 2 {
        if leap(y) {
            29
        } else {
            28
        }
    } else if m == 4 || m == 6 || m == 9 || m == 11 {
        30
    } else {
        31
    }
}

/// The date of day `days_since_unix_epoch`, counted from 1970-01-01 as day 0, in the
/// proleptic Gregorian calendar: (year, month, day of month).
pub fn utc_date_from_days(days_since_unix_epoch: i64) -> (r: (i64, u32, u32))
    requires
        days_since_unix_epoch <= i64::MAX - 719468,
    ensures
        is_valid_date(r.0 as int, r.1 as int, r.2 as int),
        days_from_civil(r.0 as int, r.1 as int, r.2 as int) == days_since_unix_epoch,
        -1000000000000000000 <= r.0 <= 1000000000000000000,
{
    let z = days_since_unix_epoch;
    let era: i64 = match z.checked_div_euclid(146097) {
        Some(q) => q,
        None => 0,
    };
    proof {
        assert(era == z / 146097);
        assert(146097 * era <= z < 146097 * (era + 1)) by (nonlinear_arith)
            requires
                era == z / 146097,
        ;
        assert(-64000000000000 <= era <= 64000000000000) by (nonlinear_arith)
            requires
                era == z / 146097,
                i64::MIN <= z <= i64::MAX,
        ;
        lemma_eras_signed(era as int);
        lemma_eras_signed(era + 1);
        assert(1970 + 400 * (era + 1) == 1970 + 400 * era + 400);
    }
    let mut rem: i64 = euclid_rem(z, 146097);
    assert(rem == z - 146097 * era) by (nonlinear_arith)
        requires
            era == z / 146097,
            rem == z % 146097,
    ;
    let mut year: i64 = 1970 + 400 * era;
    let ghost era_end: int = year + 400;
    while rem >= year_len(year)
        invariant
            0 <= rem,
            days_before_year(year as int) + rem == z,
            year < era_end,
            z < days_before_year(era_end),
            era_end <= 1000000000000000000,
            year >= -1000000000000000000,
        decreases rem,
    {
        proof {
            lemma_next_year(year as int);
        }
        let length = year_len(year);
        rem = rem - length;
        year = year + 1;
    }
    proof {
        lemma_year_of_days(year as int);
    }
    let ghost y = year as int;
    let mut month: i64 = 1;
    while month < 12 && rem >= month_len(year, month)
        invariant
            1 <= month <= 12,
            0 <= rem,
            y == year,
            days_before_month(y, month as int) + rem + days_before_year(y) == z,
            days_before_month(y, month as int) + rem < year_length(y),
            days_before_month(y, 13) == year_length(y),
        decreases 12 - month,
    {
        let length = month_len(year, month);
        rem = rem - length;
        month = month + 1;
    }
    proof {
        if month == 12 {
            assert(days_before_month(y, 13) == days_before_month(y, 12) + month_length(y, 12));
        }
    }
    (year, month as u32, (rem + 1) as u32)
}

/// `v` in decimal, padded with zeros to at least `width` characters, a minus sign counting as
/// one of them, as `format!("{v:0width$}")` writes it.
pub open spec fn signed_padded(v: int, width: nat) -> Seq<char> {
    if v < 0 {
        "-"@ + zero_padded((-v) as nat, if width >= 1 {
            (width - 1) as nat
        } else {
            0
        })
    } else {
        zero_padded(v as nat, width)
    }
}

/// The RFC 3339 text of the date `y`-`m`-`d` at second `second_of_day` of that day and
/// `millis` milliseconds: `YYYY-MM-DDTHH:MM:SS.mmmZ`.
pub open spec fn rfc3339_text(y: int, m: int, d: int, second_of_day: int, millis: int) -> Seq<
    char,
> {
    signed_padded(y, 4) + "-"@ + zero_padded(m as nat, 2) + "-"@ + zero_padded(d as nat, 2) + "T"@
        + zero_padded((second_of_day / 3600) as nat, 2) + ":"@ + zero_padded(
        (second_of_day % 3600 / 60) as nat,
        2,
    ) + ":"@ + zero_padded((second_of_day % 60) as nat, 2) + "."@ + zero_padded(millis as nat, 3)
        + "Z"@
}

/// Whether `text` is the RFC 3339 text of `seconds` whole seconds and `millis` milliseconds
/// after the Unix epoch, the seconds read as a signed 64-bit count.
pub open spec fn is_rfc3339_of(text: Seq<char>, seconds: u64, millis: int) -> bool {
    let s = (seconds as i64) as int;
    exists|y: int, m: int, d: int|
        is_valid_date(y, m, d) && days_from_civil(y, m, d) == s / 86400 && text == rfc3339_text(
            y,
            m,
            d,
            s % 86400,
            millis,
        )
}

/// Appends `v` in decimal, zero-padded to `width` characters with the sign counted.
fn push_signed_padded(out: &mut String, v: i64, width: usize)
    requires
        v > i64::MIN,
        width >= 1,
    ensures
        final(out)@ == old(out)@ + signed_padded(v as int, width as nat),
{
    if v < 0 {
        out.append("-");
        proof { reveal_strlit("-"); }
        push_zero_padded(out, (-v) as u64, width - 1);
    } else {
        push_zero_padded(out, v as u64, width);
    }
}

/// The RFC 3339 text of `seconds` whole seconds and `millis` milliseconds after the Unix
/// epoch, in UTC.
pub fn rfc3339_from_unix(seconds: u64, millis: u32) -> (r: String)
    requires
        millis < 1000,
    ensures
        is_rfc3339_of(r@, seconds, millis as int),
{
    let s = seconds as i64;
    let days: i64 = match s.checked_div_euclid(86400) {
        Some(q) => q,
        None => 0,
    };
    let second_of_day = euclid_rem(s, 86400);
    proof {
        assert(-200000000000000 <= days <= 200000000000000) by (nonlinear_arith)
            requires
                days == s / 86400,
                i64::MIN <= s <= i64::MAX,
        ;
    }
    let (year, month, day) = utc_date_from_days(days);
    let hour = second_of_day / 3600;
    let minute = second_of_day % 3600 / 60;
    let second = second_of_day % 60;
    let mut out = String::new();
    push_signed_padded(&mut out, year, 4);
    out.append("-");
    push_zero_padded(&mut out, month as u64, 2);
    out.append("-");
    push_zero_padded(&mut out, day as u64, 2);
    out.append("T");
    push_zero_padded(&mut out, hour as u64, 2);
    out.append(":");
    push_zero_padded(&mut out, minute as u64, 2);
    out.append(":");
    push_zero_padded(&mut out, second as u64, 2);
    out.append(".");
    push_zero_padded(&mut out, millis as u64, 3);
    out.append("Z");
    proof {
        reveal_strlit("-");
        reveal_strlit("T");
        reveal_strlit(":");
        reveal_strlit(".");
        reveal_strlit("Z");
        assert(out@ =~= rfc3339_text(
            year as int,
            month as int,
            day as int,
            second_of_day as int,
            millis as int,
        ));
    }
    out
}

/// The RFC 3339 UTC text, with milliseconds, of an instant given by its offset from the Unix
/// epoch: `since_epoch` is what `SystemTime::duration_since(UNIX_EPOCH)` gave for it, as whole
/// seconds and milliseconds, or the error it gave for an instant before the epoch. The text is
/// that of the offset; the error is handed back as it is.
pub fn rfc3339_now(since_epoch: Result<(u64, u32), SystemTimeError>) -> (r: Result<
    String,
    SystemTimeError,
>)
    requires
        since_epoch matches Ok((_, millis)) ==> millis < 1000,
    ensures
        match since_epoch {
            Ok((seconds, millis)) => r matches Ok(text) && is_rfc3339_of(
                text@,
                seconds,
                millis as int,
            ),
            Err(error) => r == Err::<String, SystemTimeError>(error),
        },
{
    match since_epoch {
        Ok((seconds, millis)) => Ok(rfc3339_from_unix(seconds, millis)),
        Err(error) => Err(error),
    }
}

/// Whole seconds since the Unix epoch by the system clock, from `SystemTime::now`,
/// `duration_since(UNIX_EPOCH)` and `Duration::as_secs`; `None` when the clock lies before the
/// epoch. Nothing is claimed: it reads the clock.
#[verifier::external_body]
fn unix_seconds_now() -> Option<u64> {
    std::time::SystemTime::now().duration_since(std::time::UNIX_EPOCH).ok().map(|d| d.as_secs())
}

/// A timestamp of whole seconds since the Unix epoch, written with twenty digits.
pub fn seconds_timestamp(seconds: u64) -> (r: String)
    ensures
        r@ == zero_padded(seconds as nat, 20),
{
    let mut out = String::new();
    push_zero_padded(&mut out, seconds, 20);
    out
}

/// The UTC timestamp of now that persisted events carry: whole seconds since the Unix epoch,
/// written with twenty digits; second zero when the clock lies before the epoch.
pub fn utc_now() -> (r: String)
    ensures
        exists|seconds: u64| r@ == zero_padded(seconds as nat, 20),
{
    let seconds = match unix_seconds_now() {
        Some(seconds) => seconds,
        None => 0,
    };
    seconds_timestamp(seconds)
}

/// The expiry of an approval requested at `now`, a timestamp of whole seconds: `now` plus the
/// timeout, held at `u64::MAX`, written with twenty digits; a `now` that is no number of
/// seconds is kept as it is.
pub fn approval_expires_at(now: &str, timeout_secs: u64) -> (r: String)
    ensures
        match parse_u64_spec(now@) {
            Some(v) => r@ == zero_padded(
                if v + timeout_secs > u64::MAX {
                    u64::MAX as nat
                } else {
                    (v + timeout_secs) as nat
                },
                20,
            ),
            None => r@ == now@,
        },
{
    match crate::openai::parse_u64(now) {
        Some(seconds) => seconds_timestamp(seconds.saturating_add(timeout_secs)),
        None => now.to_owned(),
    }
}

} // verus!
