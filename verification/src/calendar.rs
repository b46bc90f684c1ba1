//! UTC dates and clock times, and how they are written.

use vstd::prelude::*;
use vstd::string::*;

use crate::datekey::day_of;
use crate::text;

verus! {

/// A UTC date and clock time.
#[derive(Clone, Copy, PartialEq, Eq, Structural, Debug)]
pub struct Civil {
    /// The year.
    pub year: i32,
    /// The month, from 1.
    pub month: u8,
    /// The day of the month, from 1.
    pub day: u8,
    /// The hour.
    pub hour: u8,
    /// The minute.
    pub minute: u8,
    /// The second.
    pub second: u8,
}

/// Calls `time::OffsetDateTime::from_unix_timestamp` and takes the fields of the result. The
/// claim: within the years -9999 to 9999 it gives the date and clock time that are so many
/// seconds from the start of 1970, and beyond them none.
#[verifier::external_body]
fn time_from_unix_timestamp(secs: i64) -> (r: Option<Civil>)
    ensures
        r is Some == in_calendar(secs as int),
        r matches Some(c) ==> is_civil(c) && unix_seconds(c) == secs,
{
    time::OffsetDateTime::from_unix_timestamp(secs).ok().map(
        |t|
            Civil {
                year: t.year(),
                month: u8::from(t.month()),
                day: t.day(),
                hour: t.hour(),
                minute: t.minute(),
                second: t.second(),
            },
    )
}

/// The whole seconds of a Unix-millisecond instant, rounded down.
pub open spec fn floor_secs(ms: int) -> int {
    ms / 1000
}

/// The whole seconds of a Unix-millisecond instant, rounded down.
pub fn seconds_of(ms: i64) -> (r: i64)
    ensures
        r == floor_secs(ms as int),
{
    if ms >= 0 {
        ms / 1000
    } else {
        let back: i64 = (-(ms + 1)) / 1000;
        assert(floor_secs(ms as int) == -back - 1) by (nonlinear_arith)
            requires
                ms < 0,
                back == (-(ms + 1)) / 1000int,
        ;
        -back - 1
    }
}

/// The date and clock time of a Unix-millisecond instant, where the calendar reaches it.
pub fn civil_of_ms(ms: i64) -> (r: Option<Civil>)
    ensures
        r == civil_time(floor_secs(ms as int)),
{
    let r = time_from_unix_timestamp(seconds_of(ms));
    proof {
        if let Some(c) = r {
            law_one_civil_time(c);
        }
    }
    r
}

/// A calendar date.
#[derive(Clone, Copy, PartialEq, Eq, Structural, Debug)]
pub struct Date {
    /// The year.
    pub year: i32,
    /// The month, from 1.
    pub month: u8,
    /// The day of the month, from 1.
    pub day: u8,
}

/// The date of a date and clock time.
pub open spec fn date_part(c: Civil) -> Date {
    Date { year: c.year, month: c.month, day: c.day }
}

/// The first day of 1970.
pub open spec fn epoch_date() -> Date {
    Date { year: 1970, month: 1, day: 1 }
}

/// The UTC date of a Unix-millisecond instant; the first day of 1970 out of the calendar's range.
pub open spec fn utc_date_spec(ms: int) -> Date {
    match civil_time(floor_secs(ms)) {
        Some(c) => date_part(c),
        None => epoch_date(),
    }
}

/// The UTC date of a Unix-millisecond instant; the first day of 1970 out of the calendar's range.
pub fn utc_date(ms: i64) -> (r: Date)
    ensures
        r == utc_date_spec(ms as int),
{
    match civil_of_ms(ms) {
        Some(c) => Date { year: c.year, month: c.month, day: c.day },
        None => Date { year: 1970, month: 1, day: 1 },
    }
}

/// A number written with at least `width` digits, zeros in front; a minus sign counts as one.
pub open spec fn zero_padded(n: int, width: nat) -> Seq<char> {
    if n < 0 {
        seq!['-'] + text::padded_left(
            text::digits((-n) as nat),
            if width > 0 {
                (width - 1) as nat
            } else {
                0
            },
            '0',
        )
    } else {
        text::padded_left(text::digits(n as nat), width, '0')
    }
}

/// A number written with at least `width` digits, zeros in front; a minus sign counts as one.
pub fn zero_pad(n: i64, width: usize) -> (r: String)
    ensures
        r@ == zero_padded(n as int, width as nat),
{
    if n < 0 {
        let magnitude: u64 = (-(n as i128)) as u64;
        let rest: usize = if width > 0 {
            width - 1
        } else {
            0
        };
        let body = text::pad_left(text::u64_text(magnitude).as_str(), rest, '0');
        let mut r = String::new();
        r.push('-');
        r.append(body.as_str());
        assert(r@ =~= zero_padded(n as int, width as nat));
        r
    } else {
        text::pad_left(text::u64_text(n as u64).as_str(), width, '0')
    }
}

impl Date {
    /// The date as `YYYYMMDD`.
    pub open spec fn compact_spec(self) -> Seq<char> {
        zero_padded(self.year as int, 4) + zero_padded(self.month as int, 2) + zero_padded(
            self.day as int,
            2,
        )
    }

    /// The date as `YYYYMMDD`.
    pub fn compact(&self) -> (r: String)
        ensures
            r@ == self.compact_spec(),
    {
        text::join3(
            zero_pad(self.year as i64, 4).as_str(),
            zero_pad(self.month as i64, 2).as_str(),
            zero_pad(self.day as i64, 2).as_str(),
        )
    }

    /// The date as `YYYY-MM-DD`.
    pub open spec fn dashed_spec(self) -> Seq<char> {
        zero_padded(self.year as int, 4) + "-"@ + zero_padded(self.month as int, 2) + "-"@
            + zero_padded(self.day as int, 2)
    }

    /// The date as `YYYY-MM-DD`.
    pub fn dashed(&self) -> (r: String)
        ensures
            r@ == self.dashed_spec(),
    {
        text::join5(
            zero_pad(self.year as i64, 4).as_str(),
            "-",
            zero_pad(self.month as i64, 2).as_str(),
            "-",
            zero_pad(self.day as i64, 2).as_str(),
        )
    }
}

/// Whether a year has a 29th of February.
pub open spec fn is_leap(year: int) -> bool {
    year % 4 == 0 && (year % 100 != 0 || year % 400 == 0)
}

/// The length of a month.
pub open spec fn days_in_month(year: int, month: int) -> int {
    if month == 2 {
        if is_leap(year) {
            29
        } else {
            28
        }
    } else if month == 4 || month == 6 || month == 9 || month == 11 {
        30
    } else {
        31
    }
}

/// What is wrong with a date of a year, a month of 1 to 12 and a day: the calendar covers the
/// years -9999 to 9999.
pub open spec fn date_problem(year: int, month: int, day: int) -> Option<Seq<char>> {
    if !(-9999 <= year <= 9999) {
        Some("year was not in range"@)
    } else if !(1 <= day <= days_in_month(year, month)) {
        Some("day was not in range"@)
    } else {
        None
    }
}

/// Whether a date is one that the calendar has.
pub open spec fn is_date(d: Date) -> bool {
    1 <= d.month <= 12 && date_problem(d.year as int, d.month as int, d.day as int) is None
}

/// The days from the start of 1970 to the start of a year.
pub open spec fn days_before_year(year: int) -> int {
    let past = year - 1;
    365 * past + past / 4 - past / 100 + past / 400 - 719162
}

/// The days of a year before a month.
pub open spec fn days_before_month(year: int, month: int) -> int
    decreases month,
{
    if month <= 1 {
        0
    } else {
        days_before_month(year, month - 1) + days_in_month(year, month - 1)
    }
}

/// The days from the start of 1970 to a date.
pub open spec fn day_number(d: Date) -> int {
    days_before_year(d.year as int) + days_before_month(d.year as int, d.month as int) + d.day - 1
}

/// Whether a date and clock time are ones that the calendar and the clock have.
pub open spec fn is_civil(c: Civil) -> bool {
    is_date(date_part(c)) && c.hour < 24 && c.minute < 60 && c.second < 60
}

/// The seconds from the start of 1970 to a date and clock time.
pub open spec fn unix_seconds(c: Civil) -> int {
    day_number(date_part(c)) * 86400 + c.hour * 3600 + c.minute * 60 + c.second
}

/// Whether an instant, in Unix seconds, is within the years -9999 to 9999.
pub open spec fn in_calendar(secs: int) -> bool {
    days_before_year(-9999) * 86400 <= secs < days_before_year(10000) * 86400
}

/// The date and clock time of an instant in Unix seconds, where the calendar reaches it.
pub open spec fn civil_time(secs: int) -> Option<Civil> {
    if in_calendar(secs) {
        Some(choose|c: Civil| #[trigger] is_civil(c) && unix_seconds(c) == secs)
    } else {
        None
    }
}

/// A year is as long as its February makes it.
proof fn lemma_year_length(year: int)
    ensures
        days_before_year(year + 1) == days_before_year(year) + 365 + (if is_leap(year) {
            1int
        } else {
            0
        }),
{
}

/// A later year starts after an earlier one has ended.
proof fn lemma_years_in_order(a: int, b: int)
    requires
        a < b,
    ensures
        days_before_year(a + 1) <= days_before_year(b),
    decreases b - a,
{
    if a + 1 < b {
        lemma_years_in_order(a, b - 1);
        lemma_year_length(b - 1);
    }
}

/// A later month starts after an earlier one has ended.
proof fn lemma_months_in_order(year: int, a: int, b: int)
    requires
        1 <= a < b,
    ensures
        days_before_month(year, a) + days_in_month(year, a) <= days_before_month(year, b),
    decreases b - a,
{
    if a + 1 < b {
        lemma_months_in_order(year, a, b - 1);
    }
}

/// A date lies within its year.
proof fn lemma_date_in_its_year(d: Date)
    requires
        is_date(d),
    ensures
        days_before_year(d.year as int) <= day_number(d) < days_before_year(d.year + 1),
{
    lemma_year_length(d.year as int);
    reveal_with_fuel(days_before_month, 13);
    if d.month > 1 {
        lemma_months_in_order(d.year as int, 1, d.month as int);
    }
    if d.month < 12 {
        lemma_months_in_order(d.year as int, d.month as int, 12);
    }
}

/// Two dates of one number are one date.
pub proof fn lemma_one_date(a: Date, b: Date)
    requires
        is_date(a),
        is_date(b),
        day_number(a) == day_number(b),
    ensures
        a == b,
{
    lemma_date_in_its_year(a);
    lemma_date_in_its_year(b);
    if a.year < b.year {
        lemma_years_in_order(a.year as int, b.year as int);
    } else if b.year < a.year {
        lemma_years_in_order(b.year as int, a.year as int);
    } else if a.month < b.month {
        lemma_months_in_order(a.year as int, a.month as int, b.month as int);
    } else if b.month < a.month {
        lemma_months_in_order(a.year as int, b.month as int, a.month as int);
    }
}

/// Every day of the calendar has a date.
proof fn lemma_every_day_has_a_date(n: int) -> (d: Date)
    requires
        days_before_year(-9999) <= n < days_before_year(10000),
    ensures
        is_date(d),
        day_number(d) == n,
    decreases n - days_before_year(-9999),
{
    reveal_with_fuel(days_before_month, 2);
    if n == days_before_year(-9999) {
        Date { year: (-9999) as i32, month: 1, day: 1 }
    } else {
        let p = lemma_every_day_has_a_date(n - 1);
        if p.day < days_in_month(p.year as int, p.month as int) {
            Date { day: (p.day + 1) as u8, ..p }
        } else if p.month < 12 {
            Date { month: (p.month + 1) as u8, day: 1, ..p }
        } else {
            lemma_year_length(p.year as int);
            reveal_with_fuel(days_before_month, 13);
            assert(day_number(p) + 1 == days_before_year(p.year + 1));
            if p.year == 9999 {
                assert(n == days_before_year(10000));
            }
            Date { year: (p.year + 1) as i32, month: 1, day: 1 }
        }
    }
}

/// The date and clock time of an instant is the one, and the only one, that is so many seconds
/// from the start of 1970.
pub proof fn law_one_civil_time(c: Civil)
    requires
        is_civil(c),
        in_calendar(unix_seconds(c)),
    ensures
        civil_time(unix_seconds(c)) == Some(c),
{
    let secs = unix_seconds(c);
    let d = choose|d: Civil| #[trigger] is_civil(d) && unix_seconds(d) == secs;
    assert(is_civil(d) && unix_seconds(d) == secs);
    let (a, b) = (day_number(date_part(c)), day_number(date_part(d)));
    let (in_a, in_b) = (secs - a * 86400, secs - b * 86400);
    assert(0 <= in_a < 86400 && 0 <= in_b < 86400);
    assert(a == b);
    lemma_one_date(date_part(c), date_part(d));
    assert(c.hour == d.hour);
    assert(c.minute == d.minute);
    assert(c.second == d.second);
}

/// Every instant that the calendar reaches has a date and clock time, and they are so many
/// seconds from the start of 1970 as it is.
pub proof fn law_civil_time_is_the_instant(secs: int)
    requires
        in_calendar(secs),
    ensures
        civil_time(secs) matches Some(c) && is_civil(c) && unix_seconds(c) == secs,
{
    let n = secs / 86400;
    let rest = secs % 86400;
    let d = lemma_every_day_has_a_date(n);
    let c = Civil {
        year: d.year,
        month: d.month,
        day: d.day,
        hour: (rest / 3600) as u8,
        minute: (rest / 60 % 60) as u8,
        second: (rest % 60) as u8,
    };
    assert(date_part(c) == d);
    assert(is_civil(c));
    assert(unix_seconds(c) == secs);
}

/// The date of an instant that the calendar reaches is the date of its day since the epoch.
pub proof fn law_date_is_of_the_day(ms: int)
    requires
        in_calendar(floor_secs(ms)),
    ensures
        is_date(utc_date_spec(ms)),
        day_number(utc_date_spec(ms)) == day_of(ms),
{
    law_civil_time_is_the_instant(floor_secs(ms));
}

/// Two instants that the calendar reaches have one date exactly where they are on one day.
pub proof fn law_one_date_per_day(a: int, b: int)
    requires
        in_calendar(floor_secs(a)),
        in_calendar(floor_secs(b)),
    ensures
        utc_date_spec(a) == utc_date_spec(b) <==> day_of(a) == day_of(b),
{
    law_date_is_of_the_day(a);
    law_date_is_of_the_day(b);
    if day_of(a) == day_of(b) {
        lemma_one_date(utc_date_spec(a), utc_date_spec(b));
    }
}

/// Calls `time::Date::from_calendar_date`, and `Display` of its error. The claim: it makes a date
/// of every day that the calendar of the years -9999 to 9999 has, and else names the year, or in
/// a year that it covers the day, as not in range.
#[verifier::external_body]
fn time_date_error(year: i32, month: u8, day: u8) -> (r: Option<String>)
    requires
        1 <= month <= 12,
    ensures
        match r {
            Some(e) => date_problem(year as int, month as int, day as int) == Some(e@),
            None => date_problem(year as int, month as int, day as int) is None,
        },
{
    match time::Month::try_from(month) {
        Ok(m) => match time::Date::from_calendar_date(year, m, day) {
            Ok(_) => None,
            Err(e) => Some(e.to_string()),
        },
        Err(_) => None,
    }
}

/// The date of a year, a month of 1 to 12 and a day, or what is wrong with it.
pub fn calendar_date(year: i32, month: u8, day: u8) -> (r: Result<Date, String>)
    requires
        1 <= month <= 12,
    ensures
        match r {
            Ok(d) => {
                &&& date_problem(year as int, month as int, day as int) is None
                &&& d == (Date { year, month, day })
            },
            Err(e) => date_problem(year as int, month as int, day as int) == Some(e@),
        },
{
    match time_date_error(year, month, day) {
        None => Ok(Date { year, month, day }),
        Some(e) => Err(e),
    }
}

impl Civil {
    /// The instant as `YYYY-MM-DDTHH:MM:SSZ`.
    pub open spec fn rfc3339_spec(self) -> Seq<char> {
        date_part(self).dashed_spec() + "T"@ + zero_padded(self.hour as int, 2) + ":"@
            + zero_padded(self.minute as int, 2) + ":"@ + zero_padded(self.second as int, 2)
            + "Z"@
    }

    /// The instant as `YYYY-MM-DDTHH:MM:SSZ`.
    pub fn rfc3339(&self) -> (r: String)
        ensures
            r@ == self.rfc3339_spec(),
    {
        let date = Date { year: self.year, month: self.month, day: self.day };
        let mut r = text::join3(
            date.dashed().as_str(),
            "T",
            zero_pad(self.hour as i64, 2).as_str(),
        );
        r.append(":");
        r.append(zero_pad(self.minute as i64, 2).as_str());
        r.append(":");
        r.append(zero_pad(self.second as i64, 2).as_str());
        r.append("Z");
        r
    }

    /// The instant as `YYYYMMDD-HHMMSS`.
    pub open spec fn stamp_spec(self) -> Seq<char> {
        date_part(self).compact_spec() + "-"@ + zero_padded(self.hour as int, 2) + zero_padded(
            self.minute as int,
            2,
        ) + zero_padded(self.second as int, 2)
    }

    /// The instant as `YYYYMMDD-HHMMSS`.
    pub fn stamp(&self) -> (r: String)
        ensures
            r@ == self.stamp_spec(),
    {
        let date = Date { year: self.year, month: self.month, day: self.day };
        let mut r = text::join3(
            date.compact().as_str(),
            "-",
            zero_pad(self.hour as i64, 2).as_str(),
        );
        r.append(zero_pad(self.minute as i64, 2).as_str());
        r.append(zero_pad(self.second as i64, 2).as_str());
        r
    }
}

/// An instant as `YYYY-MM-DDTHH:MM:SSZ`, or its milliseconds, such as `-5ms`, where it has no
/// such form: before the year 0 or after 9999.
pub open spec fn fmt_ts_spec(ms: int) -> Seq<char> {
    match civil_time(floor_secs(ms)) {
        Some(c) if c.year >= 0 => c.rfc3339_spec(),
        _ => text::signed_digits(ms) + "ms"@,
    }
}

/// An instant as `YYYY-MM-DDTHH:MM:SSZ`, or its milliseconds, such as `-5ms`, where it has no
/// such form: before the year 0 or after 9999.
pub fn fmt_ts(ms: i64) -> (r: String)
    ensures
        r@ == fmt_ts_spec(ms as int),
{
    match civil_of_ms(ms) {
        Some(c) if c.year >= 0 => c.rfc3339(),
        _ => text::join2(text::i64_text(ms).as_str(), "ms"),
    }
}

/// An instant as `YYYYMMDD-HHMMSS`, or its milliseconds where it has no such form:
/// before the year 0 or after 9999.
pub open spec fn file_stamp_spec(ms: int) -> Seq<char> {
    match civil_time(floor_secs(ms)) {
        Some(c) if c.year >= 0 => c.stamp_spec(),
        _ => text::signed_digits(ms),
    }
}

/// An instant as `YYYYMMDD-HHMMSS`, or its milliseconds where it has no such form:
/// before the year 0 or after 9999.
pub fn file_stamp(ms: i64) -> (r: String)
    ensures
        r@ == file_stamp_spec(ms as int),
{
    match civil_of_ms(ms) {
        Some(c) if c.year >= 0 => c.stamp(),
        _ => text::i64_text(ms),
    }
}

/// A span of time as `M:SS` digits: minutes and seconds of two digits, hours in front where there
/// are any, and a minus sign where it is below zero. Parts of a second are dropped.
pub open spec fn countdown_spec(ms: int) -> Seq<char> {
    let secs = if ms < 0 {
        (-ms) / 1000
    } else {
        ms / 1000
    };
    let sign: Seq<char> = if ms < 0 {
        "-"@
    } else {
        ""@
    };
    let tail = zero_padded((secs % 3600) / 60, 2) + ":"@ + zero_padded(secs % 60, 2);
    if secs / 3600 > 0 {
        sign + text::digits((secs / 3600) as nat) + ":"@ + tail
    } else {
        sign + tail
    }
}

/// A span of time as a countdown.
pub fn fmt_countdown(ms: i64) -> (r: String)
    ensures
        r@ == countdown_spec(ms as int),
{
    let negative = ms < 0;
    let magnitude: u64 = if negative {
        (-(ms as i128)) as u64
    } else {
        ms as u64
    };
    let secs: u64 = magnitude / 1000;
    let sign = if negative {
        "-"
    } else {
        ""
    };
    let h: u64 = secs / 3600;
    let m: u64 = (secs % 3600) / 60;
    let s: u64 = secs % 60;
    let mm = zero_pad(m as i64, 2);
    let ss = zero_pad(s as i64, 2);
    let tail = text::join3(mm.as_str(), ":", ss.as_str());
    if h > 0 {
        let head = text::join3(sign, text::u64_text(h).as_str(), ":");
        text::join2(head.as_str(), tail.as_str())
    } else {
        text::join2(sign, tail.as_str())
    }
}

/// Time that is past is shown as time to come is, behind a minus sign.
pub proof fn law_past_time_has_a_minus_sign(ms: int)
    requires
        ms > 0,
    ensures
        countdown_spec(-ms) == "-"@ + countdown_spec(ms),
{
    reveal_strlit("");
    reveal_strlit("-");
    assert(countdown_spec(-ms) == "-"@ + countdown_spec(ms));
}

/// Within the hour time is shown as minutes and seconds that make it up, each of two digits; from
/// an hour on the hours stand before them.
pub proof fn law_countdown_makes_up_the_time(hours: nat, minutes: nat, seconds: nat, rest: nat)
    requires
        minutes < 60,
        seconds < 60,
        rest < 1_000,
    ensures
        ({
            let ms = ((hours * 60 + minutes) * 60 + seconds) * 1_000 + rest;
            let tail = zero_padded(minutes as int, 2) + ":"@ + zero_padded(seconds as int, 2);
            countdown_spec(ms as int) == (if hours == 0 {
                tail
            } else {
                text::digits(hours) + ":"@ + tail
            })
        }),
{
    reveal_strlit("");
    let ms = ((hours * 60 + minutes) * 60 + seconds) * 1_000 + rest;
    let secs = (ms as int) / 1000;
    assert(secs == (hours * 60 + minutes) * 60 + seconds);
    assert(secs / 3600 == hours as int);
    assert((secs % 3600) / 60 == minutes as int);
    assert(secs % 60 == seconds as int);
    let tail = zero_padded(minutes as int, 2) + ":"@ + zero_padded(seconds as int, 2);
    assert(""@ + tail == tail);
    assert(""@ + text::digits(hours) == text::digits(hours));
}

} // verus!
