//! Points in time and the proleptic Gregorian calendar.
//!
//! A `Timestamp` is a count of whole seconds since the Unix epoch
//! (1970-01-01 00:00:00 UTC) together with a sub-second nanosecond part.
//! All calendar arithmetic is done here, over plain integers, so that the
//! date-window filter and the timestamp text formats can be specified and
//! proved exactly.

use vstd::prelude::*;

verus! {

pub const NANOS_PER_SEC: u32 = 1_000_000_000;

/// A point in time: whole seconds since the Unix epoch (UTC) plus a
/// sub-second nanosecond part.
#[derive(Clone, Copy, PartialEq, Eq, Debug)]
pub struct Timestamp {
    pub secs: i64,
    pub nanos: u32,
}

impl Timestamp {
    /// The nanosecond part never reaches a full second.
    pub open spec fn well_formed(self) -> bool {
        self.nanos < NANOS_PER_SEC
    }

    /// The instant as a single integer count of nanoseconds since the epoch.
    pub open spec fn as_nanos(self) -> int {
        self.secs * (NANOS_PER_SEC as int) + self.nanos
    }

    /// Builds a timestamp from seconds and nanoseconds; rejects a
    /// nanosecond part of a full second or more.
    pub fn new(secs: i64, nanos: u32) -> (r: Option<Timestamp>)
        ensures
            nanos < NANOS_PER_SEC ==> (r matches Some(t) && t.secs == secs && t.nanos == nanos
                && t.well_formed()),
            nanos >= NANOS_PER_SEC ==> r is None,
    {
        if nanos < NANOS_PER_SEC {
            Some(Timestamp { secs, nanos })
        } else {
            None
        }
    }

    /// Builds a timestamp on a whole second.
    pub fn from_secs(secs: i64) -> (r: Timestamp)
        ensures
            r.secs == secs,
            r.nanos == 0,
            r.well_formed(),
    {
        Timestamp { secs, nanos: 0 }
    }

    /// `self` is at or before `other` on the time line.
    pub fn le(&self, other: &Timestamp) -> (r: bool)
        requires
            self.well_formed(),
            other.well_formed(),
        ensures
            r == (self.as_nanos() <= other.as_nanos()),
    {
        if self.secs < other.secs {
            true
        } else if self.secs == other.secs {
            self.nanos <= other.nanos
        } else {
            false
        }
    }
}

// ---------------------------------------------------------------------------
// Calendar arithmetic (proleptic Gregorian, years 0 through 9999)
// ---------------------------------------------------------------------------

pub open spec fn is_leap_year(y: int) -> bool {
    y % 4 == 0 && (y % 100 != 0 || y % 400 == 0)
}

pub open spec fn days_in_year(y: int) -> int {
    if is_leap_year(y) {
        366
    } else {
        365
    }
}

pub open spec fn days_in_month(y: int, m: int) -> int {
    if m == 2 {
        if is_leap_year(y) {
            29
        } else {
            28
        }
    } else if m == 4 || m == 6 || m == 9 || m == 11 {
        30
    } else {
        31
    }
}

/// Days from 1970-01-01 to the first day of year `y` (negative before 1970).
pub open spec fn days_to_year(y: int) -> int
    decreases (if y >= 1970 { y - 1970 } else { 1970 - y }),
{
    if y == 1970 {
        0
    } else if y > 1970 {
        days_to_year(y - 1) + days_in_year(y - 1)
    } else {
        days_to_year(y + 1) - days_in_year(y)
    }
}

/// Days from the first day of year `y` to the first day of its month `m`.
pub open spec fn days_before_month(y: int, m: int) -> int
    decreases m,
{
    if m <= 1 {
        0
    } else {
        days_before_month(y, m - 1) + days_in_month(y, m - 1)
    }
}

/// Days from 1970-01-01 to the civil date `y`-`m`-`d`.
pub open spec fn days_from_civil(y: int, m: int, d: int) -> int {
    days_to_year(y) + days_before_month(y, m) + (d - 1)
}

pub open spec fn valid_civil_date(y: int, m: int, d: int) -> bool {
    &&& 0 <= y <= 9999
    &&& 1 <= m <= 12
    &&& 1 <= d <= days_in_month(y, m)
}

pub open spec fn valid_time_of_day(h: int, mi: int, s: int) -> bool {
    &&& 0 <= h < 24
    &&& 0 <= mi < 60
    &&& 0 <= s < 60
}

/// Seconds since the epoch of the civil instant `y`-`m`-`d` `h`:`mi`:`s` (UTC).
pub open spec fn civil_secs(y: int, m: int, d: int, h: int, mi: int, s: int) -> int {
    days_from_civil(y, m, d) * 86400 + h * 3600 + mi * 60 + s
}

/// `days_to_year` moves by whole years.
pub proof fn lemma_days_to_year_step(y: int)
    ensures
        days_to_year(y + 1) == days_to_year(y) + days_in_year(y),
{
    if y + 1 > 1970 {
        assert(days_to_year(y + 1) == days_to_year(y) + days_in_year(y));
    } else {
        assert(days_to_year(y) == days_to_year(y + 1) - days_in_year(y));
    }
}

/// `days_to_year` grows with the year, by at least 365 and at most 366 a step.
pub proof fn lemma_days_to_year_bounds(lo: int, hi: int)
    requires
        lo <= hi,
    ensures
        days_to_year(hi) - days_to_year(lo) >= 365 * (hi - lo),
        days_to_year(hi) - days_to_year(lo) <= 366 * (hi - lo),
    decreases hi - lo,
{
    if lo < hi {
        lemma_days_to_year_bounds(lo, hi - 1);
        lemma_days_to_year_step(hi - 1);
    }
}

/// Exact day count from the epoch to the first day of year `y`,
/// for the years the text formats can carry.
pub fn year_days(y: u16) -> (r: i64)
    requires
        y <= 9999,
    ensures
        r == days_to_year(y as int),
        -721020 <= r <= 2938614,
{
    let mut acc: i64 = 0;
    if y >= 1970 {
        let mut i: u16 = 1970;
        while i < y
            invariant
                1970 <= i <= y,
                y <= 9999,
                acc == days_to_year(i as int),
                0 <= acc <= 366 * (i - 1970),
            decreases y - i,
        {
            let d: i64 = days_in_year_exec(i);
            proof {
                lemma_days_to_year_step(i as int);
            }
            acc = acc + d;
            i = i + 1;
        }
        proof {
            lemma_days_to_year_bounds(1970, y as int);
        }
        acc
    } else {
        let mut i: u16 = 1970;
        while i > y
            invariant
                y <= i <= 1970,
                acc == days_to_year(i as int),
                -366 * (1970 - i) <= acc <= 0,
            decreases i,
        {
            let d: i64 = days_in_year_exec(i - 1);
            proof {
                lemma_days_to_year_step(i as int - 1);
            }
            acc = acc - d;
            i = i - 1;
        }
        proof {
            lemma_days_to_year_bounds(y as int, 1970);
        }
        acc
    }
}

/// Length of year `y` in days.
pub fn days_in_year_exec(y: u16) -> (r: i64)
    ensures
        r == days_in_year(y as int),
        r == 365 || r == 366,
{
    if is_leap_year_exec(y) {
        366
    } else {
        365
    }
}

pub fn is_leap_year_exec(y: u16) -> (r: bool)
    ensures
        r == is_leap_year(y as int),
{
    y % 4 == 0 && (y % 100 != 0 || y % 400 == 0)
}

/// Days from the first day of year `y` to the first day of its month `m`.
pub fn month_days(y: u16, m: u8) -> (r: i64)
    requires
        m <= 13,
    ensures
        r == days_before_month(y as int, m as int),
        0 <= r <= 372,
{
    let mut acc: i64 = 0;
    let mut i: u8 = 1;
    while i < m
        invariant
            1 <= i,
            i <= m || i == 1,
            m <= 13,
            acc == days_before_month(y as int, i as int),
            0 <= acc <= 31 * (i - 1),
        decreases m - i,
    {
        let d: u8 = days_in_month_exec(y, i);
        acc = acc + d as i64;
        i = i + 1;
    }
    acc
}

/// Length of month `m` of year `y` in days.
pub fn days_in_month_exec(y: u16, m: u8) -> (r: u8)
    ensures
        r == days_in_month(y as int, m as int),
{
    if m == 2 {
        if is_leap_year_exec(y) {
            29
        } else {
            28
        }
    } else if m == 4 || m == 6 || m == 9 || m == 11 {
        30
    } else {
        31
    }
}

// ---------------------------------------------------------------------------
// Operator-supplied window text: `YYYY-MM-DD HH:MM:SS +HH:MM`
// ---------------------------------------------------------------------------

/// Malformed operator-supplied date text. Recovered locally by re-prompting,
/// never propagated further.
#[derive(Clone, Copy, PartialEq, Eq, Debug)]
pub struct ParseError;

pub open spec fn is_digit(c: char) -> bool {
    48 <= c as int <= 57
}

pub open spec fn digit_val(c: char) -> int {
    c as int - 48
}

pub open spec fn two_digit_val(s: Seq<char>, i: int) -> int {
    digit_val(s[i]) * 10 + digit_val(s[i + 1])
}

pub open spec fn four_digit_val(s: Seq<char>, i: int) -> int {
    digit_val(s[i]) * 1000 + digit_val(s[i + 1]) * 100 + digit_val(s[i + 2]) * 10 + digit_val(
        s[i + 3],
    )
}

/// Character-level shape of the window text.
pub open spec fn window_text_shape(s: Seq<char>) -> bool {
    &&& s.len() == 26
    &&& is_digit(s[0]) && is_digit(s[1]) && is_digit(s[2]) && is_digit(s[3])
    &&& s[4] == '-'
    &&& is_digit(s[5]) && is_digit(s[6])
    &&& s[7] == '-'
    &&& is_digit(s[8]) && is_digit(s[9])
    &&& s[10] == ' '
    &&& is_digit(s[11]) && is_digit(s[12])
    &&& s[13] == ':'
    &&& is_digit(s[14]) && is_digit(s[15])
    &&& s[16] == ':'
    &&& is_digit(s[17]) && is_digit(s[18])
    &&& s[19] == ' '
    &&& (s[20] == '+' || s[20] == '-')
    &&& is_digit(s[21]) && is_digit(s[22])
    &&& s[23] == ':'
    &&& is_digit(s[24]) && is_digit(s[25])
}

/// The timezone offset the text carries, in seconds east of UTC.
pub open spec fn window_text_offset_secs(s: Seq<char>) -> int {
    let mag = two_digit_val(s, 21) * 3600 + two_digit_val(s, 24) * 60;
    if s[20] == '-' {
        -mag
    } else {
        mag
    }
}

/// The fields the text carries denote a real calendar instant and offset.
pub open spec fn window_text_fields_ok(s: Seq<char>) -> bool {
    &&& valid_civil_date(four_digit_val(s, 0), two_digit_val(s, 5), two_digit_val(s, 8))
    &&& valid_time_of_day(two_digit_val(s, 11), two_digit_val(s, 14), two_digit_val(s, 17))
    &&& two_digit_val(s, 21) < 24
    &&& two_digit_val(s, 24) < 60
}

/// A well-formed `YYYY-MM-DD HH:MM:SS +HH:MM` text.
pub open spec fn is_valid_window_text(s: Seq<char>) -> bool {
    window_text_shape(s) && window_text_fields_ok(s)
}

/// The instant a valid window text denotes, in seconds since the epoch (UTC).
pub open spec fn window_text_value(s: Seq<char>) -> int {
    civil_secs(
        four_digit_val(s, 0),
        two_digit_val(s, 5),
        two_digit_val(s, 8),
        two_digit_val(s, 11),
        two_digit_val(s, 14),
        two_digit_val(s, 17),
    ) - window_text_offset_secs(s)
}

/// Reads one decimal digit of `s` at position `i`.
fn digit_at(s: &str, i: usize) -> (r: Option<u8>)
    requires
        i < s@.len(),
    ensures
        (r is Some) == is_digit(s@[i as int]),
        r matches Some(v) ==> v == digit_val(s@[i as int]) && v <= 9,
{
    let c: char = s.get_char(i);
    let u: u32 = c as u32;
    if 48 <= u && u <= 57 {
        Some((u - 48) as u8)
    } else {
        None
    }
}

/// Reads two decimal digits of `s` starting at position `i`.
fn two_digits_at(s: &str, i: usize) -> (r: Option<u8>)
    requires
        i + 2 <= s@.len(),
        i + 2 <= usize::MAX,
    ensures
        (r is Some) == (is_digit(s@[i as int]) && is_digit(s@[i as int + 1])),
        r matches Some(v) ==> v == two_digit_val(s@, i as int) && v <= 99,
{
    let hi: u8 = match digit_at(s, i) {
        Some(v) => v,
        None => {
            return None;
        },
    };
    let lo: u8 = match digit_at(s, i + 1) {
        Some(v) => v,
        None => {
            return None;
        },
    };
    Some(hi * 10 + lo)
}

/// Reads four decimal digits of `s` starting at position `i`.
fn four_digits_at(s: &str, i: usize) -> (r: Option<u16>)
    requires
        i + 4 <= s@.len(),
        i + 4 <= usize::MAX,
    ensures
        (r is Some) == (is_digit(s@[i as int]) && is_digit(s@[i as int + 1]) && is_digit(
            s@[i as int + 2],
        ) && is_digit(s@[i as int + 3])),
        r matches Some(v) ==> v == four_digit_val(s@, i as int) && v <= 9999,
{
    let a: u8 = match digit_at(s, i) {
        Some(v) => v,
        None => {
            return None;
        },
    };
    let b: u8 = match digit_at(s, i + 1) {
        Some(v) => v,
        None => {
            return None;
        },
    };
    let c: u8 = match digit_at(s, i + 2) {
        Some(v) => v,
        None => {
            return None;
        },
    };
    let d: u8 = match digit_at(s, i + 3) {
        Some(v) => v,
        None => {
            return None;
        },
    };
    Some(a as u16 * 1000 + b as u16 * 100 + c as u16 * 10 + d as u16)
}

/// Parses operator-supplied window text into a UTC instant.
///
/// Empty text means "no bound". Non-empty text must read
/// `YYYY-MM-DD HH:MM:SS +HH:MM` (or `-HH:MM`) and denote a real calendar
/// instant; anything else is a `ParseError`.
pub fn parse_utc_date_time(raw: &str) -> (r: Result<Option<Timestamp>, ParseError>)
    ensures
        raw@.len() == 0 ==> (r matches Ok(o) && o is None),
        raw@.len() != 0 && is_valid_window_text(raw@) ==> (r matches Ok(o) && o matches Some(t)
            && t.secs == window_text_value(raw@) && t.nanos == 0),
        raw@.len() != 0 && !is_valid_window_text(raw@) ==> r is Err,
{
    let n: usize = raw.unicode_len();
    if n == 0 {
        return Ok(None);
    }
    if n != 26 {
        return Err(ParseError);
    }
    if raw.get_char(4) != '-' || raw.get_char(7) != '-' || raw.get_char(10) != ' ' || raw.get_char(
        13,
    ) != ':' || raw.get_char(16) != ':' || raw.get_char(19) != ' ' || raw.get_char(23) != ':' {
        return Err(ParseError);
    }
    let sign: char = raw.get_char(20);
    if sign != '+' && sign != '-' {
        return Err(ParseError);
    }
    let year: u16 = match four_digits_at(raw, 0) {
        Some(v) => v,
        None => {
            return Err(ParseError);
        },
    };
    let month: u8 = match two_digits_at(raw, 5) {
        Some(v) => v,
        None => {
            return Err(ParseError);
        },
    };
    let day: u8 = match two_digits_at(raw, 8) {
        Some(v) => v,
        None => {
            return Err(ParseError);
        },
    };
    let hour: u8 = match two_digits_at(raw, 11) {
        Some(v) => v,
        None => {
            return Err(ParseError);
        },
    };
    let minute: u8 = match two_digits_at(raw, 14) {
        Some(v) => v,
        None => {
            return Err(ParseError);
        },
    };
    let second: u8 = match two_digits_at(raw, 17) {
        Some(v) => v,
        None => {
            return Err(ParseError);
        },
    };
    let off_hour: u8 = match two_digits_at(raw, 21) {
        Some(v) => v,
        None => {
            return Err(ParseError);
        },
    };
    let off_minute: u8 = match two_digits_at(raw, 24) {
        Some(v) => v,
        None => {
            return Err(ParseError);
        },
    };
    if month < 1 || month > 12 {
        return Err(ParseError);
    }
    if day < 1 || day > days_in_month_exec(year, month) {
        return Err(ParseError);
    }
    if hour >= 24 || minute >= 60 || second >= 60 || off_hour >= 24 || off_minute >= 60 {
        return Err(ParseError);
    }
    let days: i64 = year_days(year) + month_days(year, month) + (day as i64 - 1);
    let civil: i64 = days * 86400 + (hour as i64) * 3600 + (minute as i64) * 60 + (second as i64);
    let offset: i64 = (off_hour as i64) * 3600 + (off_minute as i64) * 60;
    let secs: i64 = if sign == '-' {
        civil + offset
    } else {
        civil - offset
    };
    Ok(Some(Timestamp { secs, nanos: 0 }))
}

// ---------------------------------------------------------------------------
// Rendering an instant as `YYYY-MM-DDTHH:MM:SSZ`
// ---------------------------------------------------------------------------

/// The sum of the twelve months is the year.
pub proof fn lemma_months_sum(y: int)
    ensures
        days_before_month(y, 13) == days_in_year(y),
{
    assert(days_before_month(y, 1) == 0);
    assert(days_before_month(y, 2) == days_before_month(y, 1) + days_in_month(y, 1));
    assert(days_before_month(y, 3) == days_before_month(y, 2) + days_in_month(y, 2));
    assert(days_before_month(y, 4) == days_before_month(y, 3) + days_in_month(y, 3));
    assert(days_before_month(y, 5) == days_before_month(y, 4) + days_in_month(y, 4));
    assert(days_before_month(y, 6) == days_before_month(y, 5) + days_in_month(y, 5));
    assert(days_before_month(y, 7) == days_before_month(y, 6) + days_in_month(y, 6));
    assert(days_before_month(y, 8) == days_before_month(y, 7) + days_in_month(y, 7));
    assert(days_before_month(y, 9) == days_before_month(y, 8) + days_in_month(y, 8));
    assert(days_before_month(y, 10) == days_before_month(y, 9) + days_in_month(y, 9));
    assert(days_before_month(y, 11) == days_before_month(y, 10) + days_in_month(y, 10));
    assert(days_before_month(y, 12) == days_before_month(y, 11) + days_in_month(y, 11));
    assert(days_before_month(y, 13) == days_before_month(y, 12) + days_in_month(y, 12));
}

/// The civil date a day count falls on: the inverse of `days_from_civil`.
pub fn civil_from_days(days: i64) -> (r: (u16, u8, u8))
    requires
        days_to_year(0) <= days < days_to_year(10000),
    ensures
        valid_civil_date(r.0 as int, r.1 as int, r.2 as int),
        days_from_civil(r.0 as int, r.1 as int, r.2 as int) == days,
{
    proof {
        lemma_days_to_year_bounds(0, 1970);
        lemma_days_to_year_bounds(1970, 10000);
    }
    let mut y: u16 = 1970;
    let mut acc: i64 = 0;
    if days >= 0 {
        loop
            invariant_except_break
                1970 <= y <= 9999,
                acc == days_to_year(y as int),
                acc <= days < days_to_year(10000),
                0 <= acc <= 2938614,
            ensures
                0 <= y <= 9999,
                acc == days_to_year(y as int),
                acc <= days,
                days < days_to_year(y as int + 1),
            decreases days - acc,
        {
            let dy: i64 = days_in_year_exec(y);
            proof {
                lemma_days_to_year_step(y as int);
            }
            if acc + dy <= days {
                if y == 9999 {
                    proof {
                        assert(days_to_year(10000) == acc + dy);
                        assert(false);
                    }
                }
                acc = acc + dy;
                y = y + 1;
                proof {
                    lemma_days_to_year_bounds(1970, y as int);
                }
            } else {
                break ;
            }
        }
    } else {
        while acc > days
            invariant
                0 <= y <= 1970,
                acc == days_to_year(y as int),
                days_to_year(0) <= days,
                days < days_to_year(y as int + 1),
                -721020 <= acc <= 0,
            decreases y,
        {
            if y == 0 {
                proof {
                    assert(false);
                }
            }
            let dy: i64 = days_in_year_exec(y - 1);
            proof {
                lemma_days_to_year_step(y as int - 1);
                lemma_days_to_year_bounds(y as int - 1, 1970);
            }
            acc = acc - dy;
            y = y - 1;
        }
    }
    // `y` is the year: acc == days_to_year(y) <= days < days_to_year(y + 1)
    proof {
        lemma_days_to_year_step(y as int);
    }
    let mut rem: i64 = days - acc;
    let mut m: u8 = 1;
    loop
        invariant_except_break
            1 <= m <= 12,
            rem == (days - days_to_year(y as int)) - days_before_month(y as int, m as int),
            0 <= rem,
            days - days_to_year(y as int) < days_in_year(y as int),
            y <= 9999,
        ensures
            1 <= m <= 12,
            rem == (days - days_to_year(y as int)) - days_before_month(y as int, m as int),
            0 <= rem < days_in_month(y as int, m as int),
        decreases 12 - m,
    {
        let dm: u8 = days_in_month_exec(y, m);
        if rem >= dm as i64 {
            if m == 12 {
                proof {
                    lemma_months_sum(y as int);
                    assert(false);
                }
            }
            rem = rem - dm as i64;
            m = m + 1;
        } else {
            break ;
        }
    }
    let d: u8 = (rem + 1) as u8;
    (y, m, d)
}

/// The character of one decimal digit.
pub open spec fn digit_char(v: int) -> char {
    if v == 0 {
        '0'
    } else if v == 1 {
        '1'
    } else if v == 2 {
        '2'
    } else if v == 3 {
        '3'
    } else if v == 4 {
        '4'
    } else if v == 5 {
        '5'
    } else if v == 6 {
        '6'
    } else if v == 7 {
        '7'
    } else if v == 8 {
        '8'
    } else {
        '9'
    }
}

pub proof fn lemma_digit_char_val(v: int)
    requires
        0 <= v <= 9,
    ensures
        is_digit(digit_char(v)),
        digit_val(digit_char(v)) == v,
{
}

/// Appends one decimal digit character.
fn push_digit(s: &mut String, v: u8)
    requires
        v <= 9,
    ensures
        final(s)@ == old(s)@ + seq![digit_char(v as int)],
{
    if v == 0 {
        s.append("0");
        proof {
            reveal_strlit("0");
            assert(s@ =~= old(s)@ + seq![digit_char(v as int)]);
        }
    } else if v == 1 {
        s.append("1");
        proof {
            reveal_strlit("1");
            assert(s@ =~= old(s)@ + seq![digit_char(v as int)]);
        }
    } else if v == 2 {
        s.append("2");
        proof {
            reveal_strlit("2");
            assert(s@ =~= old(s)@ + seq![digit_char(v as int)]);
        }
    } else if v == 3 {
        s.append("3");
        proof {
            reveal_strlit("3");
            assert(s@ =~= old(s)@ + seq![digit_char(v as int)]);
        }
    } else if v == 4 {
        s.append("4");
        proof {
            reveal_strlit("4");
            assert(s@ =~= old(s)@ + seq![digit_char(v as int)]);
        }
    } else if v == 5 {
        s.append("5");
        proof {
            reveal_strlit("5");
            assert(s@ =~= old(s)@ + seq![digit_char(v as int)]);
        }
    } else if v == 6 {
        s.append("6");
        proof {
            reveal_strlit("6");
            assert(s@ =~= old(s)@ + seq![digit_char(v as int)]);
        }
    } else if v == 7 {
        s.append("7");
        proof {
            reveal_strlit("7");
            assert(s@ =~= old(s)@ + seq![digit_char(v as int)]);
        }
    } else if v == 8 {
        s.append("8");
        proof {
            reveal_strlit("8");
            assert(s@ =~= old(s)@ + seq![digit_char(v as int)]);
        }
    } else {
        s.append("9");
        proof {
            reveal_strlit("9");
            assert(s@ =~= old(s)@ + seq![digit_char(v as int)]);
        }
    }
}

/// Splits a two-digit value into its decimal digits.
fn split2(v: u8) -> (r: (u8, u8))
    requires
        v <= 99,
    ensures
        v == 10 * r.0 + r.1,
        r.0 <= 9,
        r.1 <= 9,
{
    (v / 10, v % 10)
}

/// Character-level shape of the rendered instant.
pub open spec fn rfc3339_shape(s: Seq<char>) -> bool {
    &&& s.len() == 20
    &&& is_digit(s[0]) && is_digit(s[1]) && is_digit(s[2]) && is_digit(s[3])
    &&& s[4] == '-'
    &&& is_digit(s[5]) && is_digit(s[6])
    &&& s[7] == '-'
    &&& is_digit(s[8]) && is_digit(s[9])
    &&& s[10] == 'T'
    &&& is_digit(s[11]) && is_digit(s[12])
    &&& s[13] == ':'
    &&& is_digit(s[14]) && is_digit(s[15])
    &&& s[16] == ':'
    &&& is_digit(s[17]) && is_digit(s[18])
    &&& s[19] == 'Z'
}

/// A well-formed `YYYY-MM-DDTHH:MM:SSZ` text.
pub open spec fn is_rfc3339_utc_text(s: Seq<char>) -> bool {
    &&& rfc3339_shape(s)
    &&& valid_civil_date(four_digit_val(s, 0), two_digit_val(s, 5), two_digit_val(s, 8))
    &&& valid_time_of_day(two_digit_val(s, 11), two_digit_val(s, 14), two_digit_val(s, 17))
}

/// The instant a rendered text denotes, in seconds since the epoch (UTC).
pub open spec fn rfc3339_utc_value(s: Seq<char>) -> int {
    civil_secs(
        four_digit_val(s, 0),
        two_digit_val(s, 5),
        two_digit_val(s, 8),
        two_digit_val(s, 11),
        two_digit_val(s, 14),
        two_digit_val(s, 17),
    )
}

impl Timestamp {
    /// The instant falls in the years 0 through 9999, which the four-digit
    /// year of the text format can carry.
    pub open spec fn in_rfc3339_range(self) -> bool {
        days_to_year(0) * 86400 <= self.secs < days_to_year(10000) * 86400
    }

    /// Renders the instant, truncated to whole seconds, as
    /// `YYYY-MM-DDTHH:MM:SSZ`; `None` when the year would not fit.
    #[verifier::rlimit(100)]
    pub fn to_rfc3339_utc(&self) -> (r: Option<String>)
        ensures
            self.in_rfc3339_range() ==> (r matches Some(s) && is_rfc3339_utc_text(s@)
                && rfc3339_utc_value(s@) == self.secs),
            !self.in_rfc3339_range() ==> r is None,
    {
        let d0: i64 = year_days(0);
        let d9999: i64 = year_days(9999);
        let last: i64 = days_in_year_exec(9999);
        proof {
            lemma_days_to_year_step(9999);
        }
        let d_end: i64 = d9999 + last;
        if self.secs < d0 * 86400 || self.secs >= d_end * 86400 {
            return None;
        }
        let shifted: u64 = (self.secs - d0 * 86400) as u64;
        let day_off: u64 = shifted / 86400;
        let rem: u64 = shifted % 86400;
        let days: i64 = day_off as i64 + d0;
        assert(days * 86400 + rem == self.secs);
        let (y, m, d) = civil_from_days(days);
        let hour: u64 = rem / 3600;
        let r2: u64 = rem % 3600;
        let minute: u64 = r2 / 60;
        let second: u64 = r2 % 60;
        assert(hour < 24 && minute < 60 && second < 60);
        assert(hour * 3600 + minute * 60 + second == rem);
        let (y0, y1) = split2((y / 100) as u8);
        let (y2, y3) = split2((y % 100) as u8);
        let (m0, m1) = split2(m);
        let (d_0, d_1) = split2(d);
        let (h0, h1) = split2(hour as u8);
        let (mi0, mi1) = split2(minute as u8);
        let (s0, s1) = split2(second as u8);
        let mut out: String = String::new();
        push_digit(&mut out, y0);
        push_digit(&mut out, y1);
        push_digit(&mut out, y2);
        push_digit(&mut out, y3);
        out.append("-");
        push_digit(&mut out, m0);
        push_digit(&mut out, m1);
        out.append("-");
        push_digit(&mut out, d_0);
        push_digit(&mut out, d_1);
        out.append("T");
        push_digit(&mut out, h0);
        push_digit(&mut out, h1);
        out.append(":");
        push_digit(&mut out, mi0);
        push_digit(&mut out, mi1);
        out.append(":");
        push_digit(&mut out, s0);
        push_digit(&mut out, s1);
        out.append("Z");
        proof {
            reveal_strlit("-");
            reveal_strlit("T");
            reveal_strlit(":");
            reveal_strlit("Z");
            let t = out@;
            assert(t =~= seq![
                digit_char(y0 as int),
                digit_char(y1 as int),
                digit_char(y2 as int),
                digit_char(y3 as int),
                '-',
                digit_char(m0 as int),
                digit_char(m1 as int),
                '-',
                digit_char(d_0 as int),
                digit_char(d_1 as int),
                'T',
                digit_char(h0 as int),
                digit_char(h1 as int),
                ':',
                digit_char(mi0 as int),
                digit_char(mi1 as int),
                ':',
                digit_char(s0 as int),
                digit_char(s1 as int),
                'Z',
            ]);
            lemma_digit_char_val(y0 as int);
            lemma_digit_char_val(y1 as int);
            lemma_digit_char_val(y2 as int);
            lemma_digit_char_val(y3 as int);
            lemma_digit_char_val(m0 as int);
            lemma_digit_char_val(m1 as int);
            lemma_digit_char_val(d_0 as int);
            lemma_digit_char_val(d_1 as int);
            lemma_digit_char_val(h0 as int);
            lemma_digit_char_val(h1 as int);
            lemma_digit_char_val(mi0 as int);
            lemma_digit_char_val(mi1 as int);
            lemma_digit_char_val(s0 as int);
            lemma_digit_char_val(s1 as int);
            assert(four_digit_val(t, 0) == y as int);
            assert(two_digit_val(t, 5) == m as int);
            assert(two_digit_val(t, 8) == d as int);
            assert(two_digit_val(t, 11) == hour as int);
            assert(two_digit_val(t, 14) == minute as int);
            assert(two_digit_val(t, 17) == second as int);
            assert(rfc3339_utc_value(t) == self.secs);
        }
        Some(out)
    }
}

} // verus!
