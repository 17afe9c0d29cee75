//! Hotline 8-byte dates (`year:2 | msecs:2 | secs:4`).
//!
//! Two wire forms coexist: the modern form carries the real year and the
//! seconds since January 1 of that year; the Mac form carries the year 1904
//! and the seconds since 1904-01-01 00:00:00.
use vstd::prelude::*;
use crate::bytes::{be_u16, be_u32, read_u16_be, read_u32_be};
use crate::text::{decimal, digit, push_char, push_decimal, two_digits};

verus! {

pub open spec fn is_leap(y: int) -> bool {
    (y % 4 == 0 && y % 100 != 0) || y % 400 == 0
}

/// Seconds in calendar year `y`.
pub open spec fn year_secs(y: int) -> int {
    if is_leap(y) { 31622400 } else { 31536000 }
}

/// Walks whole years forward from `y`, consuming `rem` seconds, and returns
/// the year reached and the seconds left inside it.
pub open spec fn resolve_epoch(y: int, rem: int) -> (int, int)
    decreases rem,
{
    if rem < year_secs(y) || rem < 0 {
        (y, rem)
    } else {
        resolve_epoch(y + 1, rem - year_secs(y))
    }
}

/// Seconds from 1904-01-01 to January 1 of `y` (`y >= 1904`).
pub open spec fn secs_since_1904(y: int) -> int
    decreases y - 1904,
{
    if y <= 1904 { 0 } else { secs_since_1904(y - 1) + year_secs(y - 1) }
}

/// Days in month `m` (`0` is January).
pub open spec fn month_days(m: int, leap: bool) -> int {
    if m == 1 {
        if leap { 29 } else { 28 }
    } else if m == 3 || m == 5 || m == 8 || m == 10 {
        30
    } else {
        31
    }
}

/// The (1-based month, 1-based day) of day `days` of a year, counting months
/// from `m`; `None` when the year has fewer days.
pub open spec fn month_and_day(days: int, leap: bool, m: int) -> Option<(int, int)>
    decreases 12 - m,
{
    if m >= 12 {
        None
    } else if days < month_days(m, leap) {
        Some((m + 1, days + 1))
    } else {
        month_and_day(days - month_days(m, leap), leap, m + 1)
    }
}

/// A calendar instant with minute resolution.
pub struct DateParts {
    pub year: int,
    pub month: int,
    pub day: int,
    pub hour: int,
    pub minute: int,
}

/// The calendar instant that a Hotline date denotes; `None` for the absent
/// date (year 0) and for offsets past the end of the year.
pub open spec fn hotline_date_parts(year: u16, secs: u32) -> Option<DateParts> {
    if year == 0 {
        None
    } else {
        let (y, s) = if year == 1904 { resolve_epoch(1904, secs as int) } else { (year as int, secs as int) };
        match month_and_day(s / 86400, is_leap(y), 0) {
            Some((month, day)) => Some(
                DateParts { year: y, month, day, hour: (s % 86400) / 3600, minute: (s % 3600) / 60 },
            ),
            None => None,
        }
    }
}

/// `h` on a 12-hour clock.
pub open spec fn hour12(h: int) -> int {
    if h == 0 { 12 } else if h > 12 { h - 12 } else { h }
}

/// The 12-hour clock shows every hour of the day as 1 to 12, equal to the
/// hour modulo 12 (midnight and noon as 12).
pub proof fn lemma_twelve_hour_clock(h: int)
    requires
        0 <= h < 24,
    ensures
        1 <= hour12(h) <= 12,
        hour12(h) % 12 == h % 12,
{
}

/// `"M/D/YYYY h:mm AM"`.
pub open spec fn format_date(p: DateParts) -> Seq<char> {
    decimal(p.month as nat) + seq!['/'] + decimal(p.day as nat) + seq!['/'] + decimal(p.year as nat)
        + seq![' '] + decimal(hour12(p.hour) as nat) + seq![':'] + two_digits(p.minute as nat)
        + seq![' '] + (if p.hour < 12 { seq!['A', 'M'] } else { seq!['P', 'M'] })
}

pub open spec fn hotline_date_text(year: u16, secs: u32) -> Option<Seq<char>> {
    match hotline_date_parts(year, secs) {
        Some(p) => Some(format_date(p)),
        None => None,
    }
}

proof fn lemma_resolve_epoch_bound(y: int, rem: int)
    requires
        rem >= 0,
    ensures
        resolve_epoch(y, rem).0 >= y,
        (resolve_epoch(y, rem).0 - y) * 31536000 <= rem,
        0 <= resolve_epoch(y, rem).1 < year_secs(resolve_epoch(y, rem).0),
    decreases rem,
{
    if rem >= year_secs(y) {
        lemma_resolve_epoch_bound(y + 1, rem - year_secs(y));
    }
}

proof fn lemma_month_and_day_bounds(days: int, leap: bool, m: int)
    requires
        0 <= days,
        0 <= m,
    ensures
        month_and_day(days, leap, m) matches Some((mo, d)) ==> m + 1 <= mo <= 12 && 1 <= d <= 31,
    decreases 12 - m,
{
    if m < 12 && days >= month_days(m, leap) {
        lemma_month_and_day_bounds(days - month_days(m, leap), leap, m + 1);
    }
}

fn is_leap_year(y: u32) -> (b: bool)
    ensures
        b == is_leap(y as int),
{
    (y % 4 == 0 && y % 100 != 0) || y % 400 == 0
}

fn days_in_month(m: u32, leap: bool) -> (d: u32)
    ensures
        d == month_days(m as int, leap),
{
    if m == 1 {
        if leap { 29 } else { 28 }
    } else if m == 3 || m == 5 || m == 8 || m == 10 {
        30
    } else {
        31
    }
}

/// The year and the seconds into it that `(year, secs)` denotes.
fn resolve_year(year: u16, secs: u32) -> (r: (u32, u32))
    requires
        year != 0,
    ensures
        (r.0 as int, r.1 as int) == (if year == 1904 { resolve_epoch(1904, secs as int) } else { (year as int, secs as int) }),
        r.0 <= 65535,
{
    if year == 1904 {
        let mut y: u32 = 1904;
        let mut remaining: u32 = secs;
        loop
            invariant
                1904 <= y,
                (y - 1904) * 31536000 <= secs - remaining,
                remaining <= secs,
                resolve_epoch(y as int, remaining as int) == resolve_epoch(1904, secs as int),
            ensures
                1904 <= y <= 2100,
                resolve_epoch(1904, secs as int) == (y as int, remaining as int),
            decreases remaining,
        {
            let leap = is_leap_year(y);
            let year_len: u32 = if leap { 31622400 } else { 31536000 };
            if remaining < year_len {
                break;
            }
            remaining = remaining - year_len;
            y = y + 1;
        }
        (y, remaining)
    } else {
        (year as u32, secs)
    }
}

/// The (1-based month, 0-based day of month) of day `total_days` of a year,
/// or month 0 when the year has fewer days.
fn month_of_day(total_days: u32, leap: bool) -> (r: (u32, u32))
    ensures
        r.0 == 0 ==> month_and_day(total_days as int, leap, 0) is None,
        r.0 != 0 ==> month_and_day(total_days as int, leap, 0) == Some((r.0 as int, r.1 + 1)),
        r.0 != 0 ==> 1 <= r.0 <= 12 && r.1 < 31,
{
    proof { lemma_month_and_day_bounds(total_days as int, leap, 0); }
    let mut remaining = total_days;
    let mut i: u32 = 0;
    while i < 12
        invariant
            i <= 12,
            month_and_day(remaining as int, leap, i as int) == month_and_day(total_days as int, leap, 0),
        decreases 12 - i,
    {
        let dim = days_in_month(i, leap);
        if remaining < dim {
            return (i + 1, remaining);
        }
        remaining = remaining - dim;
        i = i + 1;
    }
    (0, remaining)
}

/// Formats a calendar instant as `"M/D/YYYY h:mm AM"`.
fn format_parts(month: u32, day: u32, year: u32, hour: u32, minute: u32) -> (text: String)
    requires
        hour < 24,
        minute < 60,
    ensures
        text@ == format_date(DateParts { year: year as int, month: month as int, day: day as int, hour: hour as int, minute: minute as int }),
{
    let h12: u32 = if hour == 0 { 12 } else if hour > 12 { hour - 12 } else { hour };
    let mut text = String::new();
    push_decimal(&mut text, month as u64);
    push_char(&mut text, '/');
    push_decimal(&mut text, day as u64);
    push_char(&mut text, '/');
    push_decimal(&mut text, year as u64);
    push_char(&mut text, ' ');
    push_decimal(&mut text, h12 as u64);
    push_char(&mut text, ':');
    push_char(&mut text, digit((minute / 10) as u64));
    push_char(&mut text, digit((minute % 10) as u64));
    push_char(&mut text, ' ');
    if hour < 12 {
        push_char(&mut text, 'A');
    } else {
        push_char(&mut text, 'P');
    }
    push_char(&mut text, 'M');
    let ghost p = DateParts { year: year as int, month: month as int, day: day as int, hour: hour as int, minute: minute as int };
    assert(text@ =~= format_date(p));
    text
}

/// Decodes the Hotline date `(year, secs)` into `"M/D/YYYY h:mm AM"` text.
/// Year 1904 selects the Mac epoch form; any other non-zero year the modern
/// form. Returns `None` for the absent date (year 0) and for offsets that run
/// past the end of the year.
pub fn decode_hotline_date(year: u16, secs: u32) -> (r: Option<String>)
    ensures
        r is Some <==> hotline_date_text(year, secs) is Some,
        r matches Some(s) ==> s@ == hotline_date_text(year, secs).unwrap(),
{
    if year == 0 {
        return None;
    }
    let (resolved_year, secs_in_year) = resolve_year(year, secs);
    let leap = is_leap_year(resolved_year);
    let total_days = secs_in_year / 86400;
    let day_secs = secs_in_year % 86400;
    let hour = day_secs / 3600;
    let minute = (day_secs % 3600) / 60;
    assert(minute == (secs_in_year % 3600) / 60) by (nonlinear_arith)
        requires
            day_secs == secs_in_year % 86400,
            minute == (day_secs % 3600) / 60;
    let (month, day0) = month_of_day(total_days, leap);
    if month == 0 {
        return None;
    }
    Some(format_parts(month, day0 + 1, resolved_year, hour, minute))
}

/// Decodes a whole 8-byte date field; any other width, and the absent date,
/// decode to `None`.
pub fn decode_date_field(data: &[u8]) -> (r: Option<String>)
    ensures
        data@.len() != 8 ==> r is None,
        data@.len() == 8 ==> {
            let t = hotline_date_text(be_u16(data@[0], data@[1]) as u16, be_u32(data@[4], data@[5], data@[6], data@[7]) as u32);
            &&& r is Some <==> t is Some
            &&& r matches Some(s) ==> s@ == t.unwrap()
        },
{
    if data.len() != 8 {
        return None;
    }
    decode_hotline_date(read_u16_be(data[0], data[1]), read_u32_be(data[4], data[5], data[6], data[7]))
}

proof fn lemma_secs_since_1904_grows(z: int, y: int)
    requires
        1904 <= z <= y,
    ensures
        secs_since_1904(y) - secs_since_1904(z) >= (y - z) * 31536000,
    decreases y - z,
{
    if y > z {
        lemma_secs_since_1904_grows(z, y - 1);
    }
}

proof fn lemma_resolve_from(z: int, y: int, s: int)
    requires
        1904 <= z <= y,
        0 <= s < year_secs(y),
    ensures
        resolve_epoch(z, secs_since_1904(y) - secs_since_1904(z) + s) == (y, s),
    decreases y - z,
{
    if z < y {
        lemma_secs_since_1904_grows(z + 1, y);
        assert(secs_since_1904(z + 1) == secs_since_1904(z) + year_secs(z));
        lemma_resolve_from(z + 1, y, s);
    }
}

/// Both wire forms of a date denote the same instant: the Mac-epoch form of
/// an instant (year 1904, seconds since 1904-01-01) decodes exactly as its
/// modern form (the year itself, seconds since January 1 of that year).
pub proof fn lemma_epoch_form_matches_modern_form(year: u16, secs: u32)
    requires
        1904 <= year,
        secs < year_secs(year as int),
        secs_since_1904(year as int) + secs <= u32::MAX,
    ensures
        hotline_date_text(1904, (secs_since_1904(year as int) + secs) as u32) == hotline_date_text(year, secs),
        hotline_date_parts(1904, (secs_since_1904(year as int) + secs) as u32) == hotline_date_parts(year, secs),
{
    lemma_resolve_from(1904, year as int, secs as int);
}

/// Days of a year that come before month `month` (1 to 12; 13 for the
/// whole year) in the Gregorian calendar: 31 in January, 28 in February (29
/// in a leap year), 31 in March, 30 in April, 31 in May, 30 in June, 31 in
/// July and August, 30 in September, 31 in October, 30 in November and 31
/// in December.
pub open spec fn days_before_month(month: int, leap: bool) -> int {
    let common: int = if month <= 1 {
        0
    } else if month == 2 {
        31
    } else if month == 3 {
        59
    } else if month == 4 {
        90
    } else if month == 5 {
        120
    } else if month == 6 {
        151
    } else if month == 7 {
        181
    } else if month == 8 {
        212
    } else if month == 9 {
        243
    } else if month == 10 {
        273
    } else if month == 11 {
        304
    } else if month == 12 {
        334
    } else {
        365
    };
    if leap && month >= 3 { common + 1 } else { common }
}

proof fn lemma_month_and_day_follows_calendar(d: int, leap: bool, m: int)
    requires
        0 <= m <= 12,
        days_before_month(m + 1, leap) <= d,
    ensures
        month_and_day(d - days_before_month(m + 1, leap), leap, m) is Some <==> d < days_before_month(13, leap),
        month_and_day(d - days_before_month(m + 1, leap), leap, m) matches Some((mo, dd)) ==> {
            &&& m + 1 <= mo <= 12
            &&& days_before_month(mo, leap) <= d < days_before_month(mo + 1, leap)
            &&& dd == d - days_before_month(mo, leap) + 1
        },
    decreases 12 - m,
{
    if m < 12 {
        assert(month_days(m, leap) == days_before_month(m + 2, leap) - days_before_month(m + 1, leap));
        if d - days_before_month(m + 1, leap) >= month_days(m, leap) {
            lemma_month_and_day_follows_calendar(d, leap, m + 1);
        }
    }
}

/// A decoded date follows the Gregorian calendar: its day of the year (from
/// the seconds into the year that the date denotes) falls in the month
/// decoded, at the day decoded, with the month lengths of the calendar; and
/// a date decodes exactly when that day lies within the year. So day 273 of
/// a common year is October 1, never September 31.
pub proof fn lemma_decoded_date_follows_calendar(year: u16, secs: u32)
    requires
        year != 0,
    ensures
        ({
            let (y, s) = if year == 1904 { resolve_epoch(1904, secs as int) } else { (year as int, secs as int) };
            let d = s / 86400;
            let leap = is_leap(y);
            &&& hotline_date_parts(year, secs) is Some <==> d < days_before_month(13, leap)
            &&& hotline_date_parts(year, secs) matches Some(p) ==> {
                &&& p.year == y
                &&& 1 <= p.month <= 12
                &&& days_before_month(p.month, leap) <= d < days_before_month(p.month + 1, leap)
                &&& p.day == d - days_before_month(p.month, leap) + 1
            }
        }),
{
    let (y, s) = if year == 1904 { resolve_epoch(1904, secs as int) } else { (year as int, secs as int) };
    if year == 1904 {
        lemma_resolve_epoch_bound(1904, secs as int);
    }
    lemma_month_and_day_follows_calendar(s / 86400, is_leap(y), 0);
}

/// Every decoded date names a real month, a day of 1 to 31, and a time of day.
pub proof fn lemma_decoded_parts_in_range(year: u16, secs: u32)
    ensures
        hotline_date_parts(year, secs) matches Some(p) ==> {
            &&& 1 <= p.month <= 12
            &&& 1 <= p.day <= 31
            &&& 0 <= p.hour < 24
            &&& 0 <= p.minute < 60
        },
{
    if year != 0 {
        let (y, s) = if year == 1904 { resolve_epoch(1904, secs as int) } else { (year as int, secs as int) };
        if year == 1904 {
            lemma_resolve_epoch_bound(1904, secs as int);
        }
        lemma_month_and_day_bounds(s / 86400, is_leap(y), 0);
    }
}

} // verus!
