//! Instants with an explicit UTC offset, decoded from the feeds' fixed
//! textual form `YYYYMMDDHHMMSS +HHMM` and normalized to seconds since the
//! epoch so that times from different feeds stay comparable.
use vstd::prelude::*;
use vstd::string::StrSliceExecFns;

verus! {

/// An instant in time: seconds since 1970-01-01T00:00:00 UTC, together with
/// the UTC offset (in minutes) the feed supplied for display purposes.
/// Ordering and comparisons go by `utc_secs` alone.
#[derive(Clone, Copy, PartialEq, Eq, Structural, Debug)]
pub struct Timestamp {
    pub utc_secs: i64,
    pub offset_minutes: i32,
}

/// A year with an extra February day under the Gregorian rules.
pub open spec fn is_leap_year(y: int) -> bool {
    (y % 4 == 0 && y % 100 != 0) || y % 400 == 0
}

/// Number of days in year `y`.
pub open spec fn days_in_year(y: int) -> int {
    if is_leap_year(y) {
        366
    } else {
        365
    }
}

/// Number of days in month `m` (1 to 12) of year `y`.
pub open spec fn days_in_month(y: int, m: int) -> int {
    if m == 2 {
        if is_leap_year(y) {
            29
        } else {
            28
        }
    } else if m == 4 || m == 6 || m == 9 || m == 11 {
        30
    } else {
        31
    }
}

/// Days from the first day of year 0 to the first day of year `y`.
pub open spec fn days_before_year(y: nat) -> int
    decreases y,
{
    if y == 0 {
        0
    } else {
        days_before_year((y - 1) as nat) + days_in_year(y - 1)
    }
}

/// Days from the first day of year `y` to the first day of its month `m`.
pub open spec fn days_before_month(y: int, m: int) -> int
    decreases m,
{
    if m <= 1 {
        0
    } else {
        days_before_month(y, m - 1) + days_in_month(y, m - 1)
    }
}

/// Seconds since the epoch of the civil time `y-m-d h:mi:sec` read at UTC
/// offset `off_min` minutes.
pub open spec fn civil_utc_secs(
    y: int,
    m: int,
    d: int,
    h: int,
    mi: int,
    sec: int,
    off_min: int,
) -> int {
    86400 * (days_before_year(y as nat) + days_before_month(y, m) + d - 1 - days_before_year(
        1970nat,
    )) + 3600 * h + 60 * mi + sec - 60 * off_min
}

/// The value of an ASCII decimal digit.
pub open spec fn digit_val(c: char) -> int {
    c as int - 48
}

/// Whether `c` is an ASCII decimal digit.
pub open spec fn is_digit(c: char) -> bool {
    48 <= c as int <= 57
}

/// The two-digit number at positions `i`, `i + 1`.
pub open spec fn num2(s: Seq<char>, i: int) -> int {
    10 * digit_val(s[i]) + digit_val(s[i + 1])
}

/// The four-digit number at positions `i` to `i + 3`.
pub open spec fn num4(s: Seq<char>, i: int) -> int {
    1000 * digit_val(s[i]) + 100 * digit_val(s[i + 1]) + 10 * digit_val(s[i + 2]) + digit_val(
        s[i + 3],
    )
}

pub open spec fn ts_year(s: Seq<char>) -> int {
    num4(s, 0)
}

pub open spec fn ts_month(s: Seq<char>) -> int {
    num2(s, 4)
}

pub open spec fn ts_day(s: Seq<char>) -> int {
    num2(s, 6)
}

pub open spec fn ts_hour(s: Seq<char>) -> int {
    num2(s, 8)
}

pub open spec fn ts_minute(s: Seq<char>) -> int {
    num2(s, 10)
}

pub open spec fn ts_second(s: Seq<char>) -> int {
    num2(s, 12)
}

pub open spec fn ts_off_hours(s: Seq<char>) -> int {
    num2(s, 16)
}

pub open spec fn ts_off_minutes(s: Seq<char>) -> int {
    num2(s, 18)
}

/// The signed UTC offset in minutes named by the text.
pub open spec fn ts_offset_minutes(s: Seq<char>) -> int {
    if s[15] == '-' {
        -(60 * ts_off_hours(s) + ts_off_minutes(s))
    } else {
        60 * ts_off_hours(s) + ts_off_minutes(s)
    }
}

/// The text has the shape `DDDDDDDDDDDDDD sDDDD` with `s` a sign.
pub open spec fn timestamp_text_shape(s: Seq<char>) -> bool {
    &&& s.len() == 20
    &&& forall|i: int| 0 <= i < 14 || 16 <= i < 20 ==> is_digit(#[trigger] s[i])
    &&& s[14] == ' '
    &&& (s[15] == '+' || s[15] == '-')
}

/// The text has the right shape and every calendar field is in range.
pub open spec fn valid_timestamp_text(s: Seq<char>) -> bool {
    &&& timestamp_text_shape(s)
    &&& 1 <= ts_month(s) <= 12
    &&& 1 <= ts_day(s) <= days_in_month(ts_year(s), ts_month(s))
    &&& ts_hour(s) <= 23
    &&& ts_minute(s) <= 59
    &&& ts_second(s) <= 59
    &&& ts_off_hours(s) <= 23
    &&& ts_off_minutes(s) <= 59
}

/// The instant a valid timestamp text names.
pub open spec fn timestamp_of_text(s: Seq<char>) -> Timestamp {
    Timestamp {
        utc_secs: civil_utc_secs(
            ts_year(s),
            ts_month(s),
            ts_day(s),
            ts_hour(s),
            ts_minute(s),
            ts_second(s),
            ts_offset_minutes(s),
        ) as i64,
        offset_minutes: ts_offset_minutes(s) as i32,
    }
}

/// Days from year 0 to year `y`, counted a year at a time.
fn days_before_year_count(y: u32) -> (r: i64)
    requires
        y <= 9999,
    ensures
        r == days_before_year(y as nat),
        0 <= r <= 366 * (y as int),
{
    let mut acc: i64 = 0;
    let mut i: u32 = 0;
    while i < y
        invariant
            i <= y <= 9999,
            acc == days_before_year(i as nat),
            0 <= acc <= 366 * (i as int),
        decreases y - i,
    {
        let leap: bool = (i % 4 == 0 && i % 100 != 0) || i % 400 == 0;
        if leap {
            acc = acc + 366;
        } else {
            acc = acc + 365;
        }
        i = i + 1;
    }
    acc
}

/// Days in month `m` of year `y`.
fn days_in_month_count(y: u32, m: u32) -> (r: i64)
    ensures
        r == days_in_month(y as int, m as int),
        28 <= r <= 31,
{
    if m == 2 {
        let leap: bool = (y % 4 == 0 && y % 100 != 0) || y % 400 == 0;
        if leap {
            29
        } else {
            28
        }
    } else if m == 4 || m == 6 || m == 9 || m == 11 {
        30
    } else {
        31
    }
}

/// Days from the start of year `y` to the start of its month `m`.
fn days_before_month_count(y: u32, m: u32) -> (r: i64)
    requires
        1 <= m <= 12,
    ensures
        r == days_before_month(y as int, m as int),
        0 <= r <= 341,
{
    let mut acc: i64 = 0;
    let mut i: u32 = 1;
    while i < m
        invariant
            1 <= i <= m <= 12,
            acc == days_before_month(y as int, i as int),
            0 <= acc <= 31 * (i as int - 1),
        decreases m - i,
    {
        acc = acc + days_in_month_count(y, i);
        i = i + 1;
    }
    acc
}

/// The value of the digit at position `i`, or `None` when the character
/// there is no digit.
fn read_digit(s: &str, i: usize) -> (r: Option<u32>)
    requires
        i < s@.len(),
    ensures
        r matches Some(v) ==> is_digit(s@[i as int]) && v == digit_val(s@[i as int]) && v <= 9,
        r is None ==> !is_digit(s@[i as int]),
{
    let c = s.get_char(i);
    let v = c as u32;
    if 48 <= v && v <= 57 {
        Some(v - 48)
    } else {
        None
    }
}

/// Decodes a feed timestamp `YYYYMMDDHHMMSS +HHMM`. Returns `None` exactly
/// when the text is not of that shape or a field is out of range.
pub fn parse_timestamp(s: &str) -> (r: Option<Timestamp>)
    ensures
        r is Some <==> valid_timestamp_text(s@),
        r matches Some(t) ==> t == timestamp_of_text(s@),
{
    if s.unicode_len() != 20 {
        return None;
    }
    let d0 = match read_digit(s, 0) { Some(v) => v, None => { return None; } };
    let d1 = match read_digit(s, 1) { Some(v) => v, None => { return None; } };
    let d2 = match read_digit(s, 2) { Some(v) => v, None => { return None; } };
    let d3 = match read_digit(s, 3) { Some(v) => v, None => { return None; } };
    let d4 = match read_digit(s, 4) { Some(v) => v, None => { return None; } };
    let d5 = match read_digit(s, 5) { Some(v) => v, None => { return None; } };
    let d6 = match read_digit(s, 6) { Some(v) => v, None => { return None; } };
    let d7 = match read_digit(s, 7) { Some(v) => v, None => { return None; } };
    let d8 = match read_digit(s, 8) { Some(v) => v, None => { return None; } };
    let d9 = match read_digit(s, 9) { Some(v) => v, None => { return None; } };
    let d10 = match read_digit(s, 10) { Some(v) => v, None => { return None; } };
    let d11 = match read_digit(s, 11) { Some(v) => v, None => { return None; } };
    let d12 = match read_digit(s, 12) { Some(v) => v, None => { return None; } };
    let d13 = match read_digit(s, 13) { Some(v) => v, None => { return None; } };
    if s.get_char(14) != ' ' {
        return None;
    }
    let sign = s.get_char(15);
    if sign != '+' && sign != '-' {
        return None;
    }
    let d16 = match read_digit(s, 16) { Some(v) => v, None => { return None; } };
    let d17 = match read_digit(s, 17) { Some(v) => v, None => { return None; } };
    let d18 = match read_digit(s, 18) { Some(v) => v, None => { return None; } };
    let d19 = match read_digit(s, 19) { Some(v) => v, None => { return None; } };

    let year: u32 = 1000 * d0 + 100 * d1 + 10 * d2 + d3;
    let month: u32 = 10 * d4 + d5;
    let day: u32 = 10 * d6 + d7;
    let hour: u32 = 10 * d8 + d9;
    let minute: u32 = 10 * d10 + d11;
    let second: u32 = 10 * d12 + d13;
    let off_hours: u32 = 10 * d16 + d17;
    let off_minutes: u32 = 10 * d18 + d19;

    if month < 1 || month > 12 {
        return None;
    }
    if day < 1 || (day as i64) > days_in_month_count(year, month) {
        return None;
    }
    if hour > 23 || minute > 59 || second > 59 {
        return None;
    }
    if off_hours > 23 || off_minutes > 59 {
        return None;
    }

    assert(timestamp_text_shape(s@));

    let epoch_days: i64 = days_before_year_count(1970);
    let day_count: i64 = days_before_year_count(year) + days_before_month_count(year, month)
        + (day as i64) - 1 - epoch_days;
    let off_total: i64 = 60 * (off_hours as i64) + (off_minutes as i64);
    let utc_secs: i64 = 86400 * day_count + 3600 * (hour as i64) + 60 * (minute as i64)
        + (second as i64) - 60 * (if sign == '-' {
        -off_total
    } else {
        off_total
    });
    let offset_minutes: i32 = if sign == '-' {
        -(off_total as i32)
    } else {
        off_total as i32
    };
    Some(Timestamp { utc_secs, offset_minutes })
}

} // verus!
