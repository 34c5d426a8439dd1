//! Instants are whole seconds since 1970-01-01T00:00:00Z (`i64`); calendar
//! dates are day numbers counted from the same epoch (`i64`).

use crate::text::{chars_of, is_ascii_text, is_ws};
use vstd::prelude::*;

verus! {

/// Seconds in one calendar day.
pub const SECONDS_PER_DAY: i64 = 86400;

/// Offset assumed for floating-local ICS timestamps: UTC+3, in seconds.
/// Such a timestamp is converted to UTC by subtracting this amount.
pub const FLOATING_LOCAL_OFFSET: i64 = 10800;

/// Bound on the magnitude of any instant chrono can represent
/// (its years run from -262143 to 262142).
pub const MAX_INSTANT: i64 = 10_000_000_000_000;

/// Bound on the magnitude of an instant chrono produces when it parses a text.
pub const CHRONO_MAX_SECONDS: i64 = 9_000_000_000_000;

/// Bound on the magnitude of a day number derived from an instant in range.
pub const MAX_DAY: i64 = 100_000_000;

pub open spec fn instant_in_range(t: int) -> bool {
    -MAX_INSTANT <= t <= MAX_INSTANT
}

pub open spec fn day_in_range(d: int) -> bool {
    -MAX_DAY <= d <= MAX_DAY
}

/// The calendar day (UTC) on which instant `t` falls.
pub open spec fn day_of(t: int) -> int {
    t / 86400
}

/// Seconds elapsed since midnight (UTC) at instant `t`.
pub open spec fn second_of_day(t: int) -> int {
    t % 86400
}

/// The instant on day `day` with the same wall-clock time of day as `t`.
pub open spec fn at_day(t: int, day: int) -> int {
    day * 86400 + second_of_day(t)
}

/// Monday is 0, Sunday is 6; day 0 (1970-01-01) was a Thursday.
pub open spec fn weekday_index(day: int) -> int {
    (day + 3) % 7
}

#[derive(Clone, Copy, Debug, PartialEq, Eq, Structural)]
pub enum Weekday {
    Mon,
    Tue,
    Wed,
    Thu,
    Fri,
    Sat,
    Sun,
}

pub open spec fn weekday_from_index(i: int) -> Weekday {
    if i == 0 {
        Weekday::Mon
    } else if i == 1 {
        Weekday::Tue
    } else if i == 2 {
        Weekday::Wed
    } else if i == 3 {
        Weekday::Thu
    } else if i == 4 {
        Weekday::Fri
    } else if i == 5 {
        Weekday::Sat
    } else {
        Weekday::Sun
    }
}

pub open spec fn weekday_spec(day: int) -> Weekday {
    weekday_from_index(weekday_index(day))
}

/// The day on which instant `t` falls (floor division, also before 1970).
pub fn date_of(t: i64) -> (d: i64)
    ensures
        d == day_of(t as int),
{
    if t >= 0 {
        t / SECONDS_PER_DAY
    } else {
        let m: i64 = -(t + 1);
        let q: i64 = m / SECONDS_PER_DAY;
        assert(day_of(t as int) == -q - 1) by {
            assert(m == -(t + 1));
            assert(q == m / 86400);
            assert(0 <= m - q * 86400 < 86400);
        }
        -q - 1
    }
}

/// Seconds since midnight at instant `t`.
pub fn time_of_day(t: i64) -> (s: i64)
    ensures
        s == second_of_day(t as int),
        0 <= s < 86400,
{
    if t >= 0 {
        t % 86400
    } else {
        let m: i64 = -(t + 1);
        let r: i64 = m % 86400;
        assert(second_of_day(t as int) == 86399 - r) by (nonlinear_arith)
            requires
                m == -(t + 1),
                r == m % 86400,
                m >= 0,
        {
        }
        86399 - r
    }
}

/// Moves the wall-clock time of `t` onto day `day`.
pub fn adjust_time_to_date(t: i64, day: i64) -> (r: i64)
    requires
        day_in_range(day as int) || day_in_range(day - 1),
    ensures
        r == at_day(t as int, day as int),
{
    day * 86400 + time_of_day(t)
}

/// The weekday of day number `day`.
pub fn weekday_of(day: i64) -> (w: Weekday)
    ensures
        w == weekday_spec(day as int),
{
    let i: i64 = if day >= 0 {
        (day % 7 + 3) % 7
    } else {
        let m: i64 = -(day + 1);
        let r: i64 = m % 7;
        (9 - r) % 7
    };
    assert(i == weekday_index(day as int)) by (nonlinear_arith)
        requires
            day >= 0 ==> i == (day % 7 + 3) % 7,
            day < 0 ==> i == (9 - ((-(day + 1)) % 7)) % 7,
    {
    }
    if i == 0 {
        Weekday::Mon
    } else if i == 1 {
        Weekday::Tue
    } else if i == 2 {
        Weekday::Wed
    } else if i == 3 {
        Weekday::Thu
    } else if i == 4 {
        Weekday::Fri
    } else if i == 5 {
        Weekday::Sat
    } else {
        Weekday::Sun
    }
}

pub open spec fn is_digit(c: char) -> bool {
    '0' <= c <= '9'
}

pub open spec fn all_digits(s: Seq<char>) -> bool {
    forall|i: int| 0 <= i < s.len() ==> is_digit(s[i])
}

/// The number that the decimal digits `s` spell.
pub open spec fn digits_value(s: Seq<char>) -> int
    decreases s.len(),
{
    if s.len() == 0 {
        0
    } else {
        digits_value(s.drop_last()) * 10 + (s.last() as int - '0' as int)
    }
}

pub open spec fn is_leap_year(y: int) -> bool {
    (y % 4 == 0 && y % 100 != 0) || y % 400 == 0
}

pub open spec fn days_in_month(y: int, m: int) -> int {
    if m == 2 {
        if is_leap_year(y) {
            29
        } else {
            28
        }
    } else if m == 4 || m == 6 || m == 9 || m == 11 {
        30
    } else {
        31
    }
}

/// Day number of the proleptic Gregorian date `y`-`m`-`d` (1970-01-01 is day 0).
pub open spec fn days_from_civil(y: int, m: int, d: int) -> int {
    let y1 = if m <= 2 {
        y - 1
    } else {
        y
    };
    let era = y1 / 400;
    let yoe = y1 - era * 400;
    let mp = (m + 9) % 12;
    let doy = (153 * mp + 2) / 5 + d - 1;
    let doe = yoe * 365 + yoe / 4 - yoe / 100 + doy;
    era * 146097 + doe - 719468
}

/// The day that an eight-digit `YYYYMMDD` text names, when it is a valid date.
pub open spec fn compact_date(s: Seq<char>) -> Option<int> {
    let y = digits_value(s.subrange(0, 4));
    let m = digits_value(s.subrange(4, 6));
    let d = digits_value(s.subrange(6, 8));
    if s.len() == 8 && all_digits(s) && 1 <= m <= 12 && 1 <= d <= days_in_month(y, m) {
        Some(days_from_civil(y, m, d))
    } else {
        None
    }
}

/// The instant that a fifteen-character `YYYYMMDDTHHMMSS` text names, read as UTC,
/// when its date and time of day are valid.
pub open spec fn compact_datetime(s: Seq<char>) -> Option<int> {
    let hh = digits_value(s.subrange(9, 11));
    let mm = digits_value(s.subrange(11, 13));
    let ss = digits_value(s.subrange(13, 15));
    if s.len() == 15 && s[8] == 'T' && compact_date(s.subrange(0, 8)) is Some && all_digits(
        s.subrange(9, 15),
    ) && hh < 24 && mm < 60 && ss < 60 {
        Some(compact_date(s.subrange(0, 8))->0 * 86400 + hh * 3600 + mm * 60 + ss)
    } else {
        None
    }
}

/// The instant that a sixteen-character `YYYYMMDDTHHMMSSZ` text names.
pub open spec fn utc_compact_datetime(s: Seq<char>) -> Option<int> {
    if s.len() == 16 && s.last() == 'Z' {
        compact_datetime(s.drop_last())
    } else {
        None
    }
}

/// A text whose first character can begin the four-digit year field `%Y`:
/// a digit, a sign, or whitespace (which chrono skips before a number).
pub open spec fn leads_like_year(s: Seq<char>) -> bool {
    s.len() > 0 && (is_digit(s[0]) || s[0] == '+' || s[0] == '-' || is_ws(s[0]))
}

/// strftime pattern of a UTC-suffixed ICS timestamp.
pub const UTC_FORMAT: &'static str = "%Y%m%dT%H%M%SZ";

/// strftime pattern of a floating-local ICS timestamp.
pub const LOCAL_FORMAT: &'static str = "%Y%m%dT%H%M%S";

/// strftime pattern of an ICS date.
pub const DATE_FORMAT: &'static str = "%Y%m%d";

/// What `chrono::NaiveDateTime::parse_from_str(text, format)` yields, as seconds
/// since the epoch when the naive value is read as UTC.
pub uninterp spec fn naive_datetime_seconds(text: Seq<char>, format: Seq<char>) -> Option<i64>;

/// What `chrono::NaiveDate::parse_from_str(text, format)` yields, as a day number.
pub uninterp spec fn naive_date_days(text: Seq<char>, format: Seq<char>) -> Option<i64>;

/// Relies on `chrono::NaiveDateTime::parse_from_str` (then `and_utc().timestamp()`):
/// its result depends on the text and the pattern alone; it lies within the range chrono supports;
/// for the patterns above, a canonical digit text with a valid date and a time
/// before 24:00:00 is read field by field, and a text of digits alone lacks the
/// literal `T` the local pattern demands; a text that cannot begin a year
/// (both patterns start with `%Y`) fails.
#[verifier::external_body]
fn seconds_from_text(text: &str, format: &str) -> (r: Option<i64>)
    ensures
        r == naive_datetime_seconds(text@, format@),
        r matches Some(t) ==> -CHRONO_MAX_SECONDS <= t <= CHRONO_MAX_SECONDS,
        format@ == LOCAL_FORMAT@ && compact_datetime(text@) is Some ==> r is Some && r->0 == compact_datetime(text@)->0,
        format@ == UTC_FORMAT@ && utc_compact_datetime(text@) is Some ==> r is Some && r->0 == utc_compact_datetime(text@)->0,
        format@ == LOCAL_FORMAT@ && all_digits(text@) ==> r is None,
        (format@ == LOCAL_FORMAT@ || format@ == UTC_FORMAT@) && !leads_like_year(text@) ==> r is None,
{
    match chrono::NaiveDateTime::parse_from_str(text, format) {
        Ok(n) => Some(n.and_utc().timestamp()),
        Err(_) => None,
    }
}

/// Relies on `chrono::NaiveDate::parse_from_str` (then `to_epoch_days()`): its result
/// depends on the text and the pattern alone; it lies within the range chrono supports; for the
/// `YYYYMMDD` pattern a canonical eight-digit valid date is read field by field,
/// and a text that cannot begin a year fails.
#[verifier::external_body]
pub(crate) fn day_from_text(text: &str, format: &str) -> (r: Option<i64>)
    ensures
        r == naive_date_days(text@, format@),
        r matches Some(n) ==> -MAX_DAY <= n <= MAX_DAY,
        format@ == DATE_FORMAT@ && compact_date(text@) is Some ==> r is Some && r->0 == compact_date(text@)->0,
        format@ == DATE_FORMAT@ && !leads_like_year(text@) ==> r is None,
{
    match chrono::NaiveDate::parse_from_str(text, format) {
        Ok(d) => Some(d.to_epoch_days() as i64),
        Err(_) => None,
    }
}

/// Relies on `chrono::Utc::now`: the present instant, which chrono keeps within its range.
#[verifier::external_body]
pub(crate) fn current_timestamp() -> (r: i64)
    ensures
        -CHRONO_MAX_SECONDS <= r <= CHRONO_MAX_SECONDS,
{
    chrono::Utc::now().timestamp()
}

/// Bound on the instants whose calendar date chrono can print.
pub const PRINTABLE_MAX_SECONDS: i64 = 8_000_000_000_000;

/// strftime pattern of an RFC 3339 UTC timestamp.
pub const ISO_UTC_PATTERN: &'static str = "%Y-%m-%dT%H:%M:%SZ";

/// strftime pattern of a calendar date.
pub const ISO_DATE_PATTERN: &'static str = "%Y-%m-%d";

/// What chrono prints for an instant (read as UTC) with a strftime pattern.
pub uninterp spec fn instant_text(t: i64, pattern: Seq<char>) -> Seq<char>;

/// Relies on `chrono::DateTime::from_timestamp` (defined for the instants admitted)
/// and its `format(pattern)`, which prints digits, signs and the literal text of
/// the two patterns admitted, all ASCII.
#[verifier::external_body]
pub(crate) fn format_instant(t: i64, pattern: &str) -> (r: String)
    requires
        -PRINTABLE_MAX_SECONDS <= t <= PRINTABLE_MAX_SECONDS,
        pattern@ == ISO_UTC_PATTERN@ || pattern@ == ISO_DATE_PATTERN@,
    ensures
        r@ == instant_text(t, pattern@),
        is_ascii_text(r@),
{
    chrono::DateTime::from_timestamp(t, 0).unwrap().format(pattern).to_string()
}

/// The instant an ICS timestamp text denotes, trying in order: the UTC form
/// (`...Z`), the floating-local form (UTC+3), the date-only form (midnight UTC).
pub open spec fn ical_instant(s: Seq<char>) -> Option<int> {
    if s.len() > 0 && s.last() == 'Z' {
        match naive_datetime_seconds(s, UTC_FORMAT@) {
            Some(t) => Some(t as int),
            None => None,
        }
    } else {
        match naive_datetime_seconds(s, LOCAL_FORMAT@) {
            Some(t) => Some(t - FLOATING_LOCAL_OFFSET),
            None => match naive_date_days(s, DATE_FORMAT@) {
                Some(d) => Some(d * 86400),
                None => None,
            },
        }
    }
}

/// Parses an ICS timestamp into a UTC instant; `None` for any unrecognised shape.
pub fn parse_ical_datetime(dt_str: &str) -> (r: Option<i64>)
    ensures
        match r {
            Some(t) => ical_instant(dt_str@) == Some(t as int) && instant_in_range(t as int),
            None => ical_instant(dt_str@) is None,
        },
        utc_compact_datetime(dt_str@) is Some ==> r is Some && r->0 == utc_compact_datetime(dt_str@)->0,
        compact_datetime(dt_str@) is Some ==> r is Some && r->0 == compact_datetime(dt_str@)->0 - FLOATING_LOCAL_OFFSET,
        compact_date(dt_str@) is Some ==> r is Some && r->0 == compact_date(dt_str@)->0 * 86400,
        !leads_like_year(dt_str@) ==> r is None,
{
    let cs = chars_of(dt_str);
    if cs.len() > 0 && cs[cs.len() - 1] == 'Z' {
        assert(compact_datetime(dt_str@) is None) by {
            if dt_str@.len() == 15 {
                assert(dt_str@.subrange(9, 15)[5] == 'Z');
            }
        }
        assert(compact_date(dt_str@) is None) by {
            if dt_str@.len() == 8 {
                assert(dt_str@[7] == 'Z');
            }
        }
        return seconds_from_text(dt_str, UTC_FORMAT);
    }
    if let Some(t) = seconds_from_text(dt_str, LOCAL_FORMAT) {
        return Some(t - FLOATING_LOCAL_OFFSET);
    }
    match day_from_text(dt_str, DATE_FORMAT) {
        Some(d) => Some(d * 86400),
        None => None,
    }
}

} // verus!
