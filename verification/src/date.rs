//! Gregorian calendar arithmetic and the two due-date string formats,
//! `YYYY-MM-DD` and `YYYY-MM-DDTHH:MM[:SS]`.
//!
//! Dates are plain year/month/day values.  A [`Moment`] adds a time of day;
//! [`moment_seconds`] maps a moment to a second count from a fixed origin, so
//! that two moments can be compared and subtracted.  Only differences of that
//! count are meaningful.

use vstd::prelude::*;

verus! {

/// A calendar date.
#[derive(Clone, Copy, PartialEq, Eq, Structural, Debug)]
pub struct Date {
    pub year: u32,
    pub month: u32,
    pub day: u32,
}

/// A calendar date with a time of day.
#[derive(Clone, Copy, PartialEq, Eq, Structural, Debug)]
pub struct Moment {
    pub date: Date,
    pub hour: u32,
    pub minute: u32,
    pub second: u32,
}

/// Gregorian leap year rule.
pub open spec fn is_leap_year(y: int) -> bool {
    (y % 4 == 0 && y % 100 != 0) || y % 400 == 0
}

/// Number of days in the given month of the given year.
pub open spec fn days_in_month_of(y: int, m: int) -> int {
    if m == 2 {
        if is_leap_year(y) {
            29
        } else {
            28
        }
    } else if m == 4 || m == 6 || m == 9 || m == 11 {
        30
    } else {
        31
    }
}

pub fn is_leap_year_exec(y: u32) -> (r: bool)
    ensures
        r == is_leap_year(y as int),
{
    (y % 4 == 0 && y % 100 != 0) || y % 400 == 0
}

pub fn days_in_month(y: u32, m: u32) -> (r: u32)
    ensures
        r == days_in_month_of(y as int, m as int),
{
    if m == 2 {
        if is_leap_year_exec(y) {
            29
        } else {
            28
        }
    } else if m == 4 || m == 6 || m == 9 || m == 11 {
        30
    } else {
        31
    }
}

/// The calendar day after the given one.  The year wraps at the integer
/// ceiling rather than overflowing.
pub open spec fn next_day_of(d: Date) -> Date {
    if d.day < days_in_month_of(d.year as int, d.month as int) {
        Date { year: d.year, month: d.month, day: (d.day + 1) as u32 }
    } else if d.month < 12 {
        Date { year: d.year, month: (d.month + 1) as u32, day: 1 }
    } else {
        Date {
            year: if d.year == u32::MAX {
                0
            } else {
                (d.year + 1) as u32
            },
            month: 1,
            day: 1,
        }
    }
}

pub fn next_day(d: Date) -> (r: Date)
    ensures
        r == next_day_of(d),
{
    let dim = days_in_month(d.year, d.month);
    if d.day < dim {
        Date { year: d.year, month: d.month, day: d.day + 1 }
    } else if d.month < 12 {
        Date { year: d.year, month: d.month + 1, day: 1 }
    } else {
        let ny = if d.year == u32::MAX {
            0
        } else {
            d.year + 1
        };
        Date { year: ny, month: 1, day: 1 }
    }
}

/// The date `n` calendar days after `d`.
pub open spec fn add_days_of(d: Date, n: nat) -> Date
    decreases n,
{
    if n == 0 {
        d
    } else {
        add_days_of(next_day_of(d), (n - 1) as nat)
    }
}

pub fn add_days(d: Date, n: u32) -> (r: Date)
    ensures
        r == add_days_of(d, n as nat),
{
    let mut cur = d;
    let mut left = n;
    while left > 0
        invariant
            add_days_of(cur, left as nat) == add_days_of(d, n as nat),
        decreases left,
    {
        cur = next_day(cur);
        left = left - 1;
    }
    cur
}

/// Chronological order on dates (for valid dates this coincides with the
/// lexicographic order of their `YYYY-MM-DD` renderings).
pub open spec fn date_le(a: Date, b: Date) -> bool {
    a.year < b.year || (a.year == b.year && (a.month < b.month || (a.month == b.month
        && a.day <= b.day)))
}

pub fn date_le_exec(a: Date, b: Date) -> (r: bool)
    ensures
        r == date_le(a, b),
{
    a.year < b.year || (a.year == b.year && (a.month < b.month || (a.month == b.month
        && a.day <= b.day)))
}

/// The character is an ASCII decimal digit.
pub open spec fn is_digit(c: char) -> bool {
    '0' as u32 <= c as u32 <= '9' as u32
}

/// The numeric value of an ASCII decimal digit.
pub open spec fn digit_val(c: char) -> int {
    c as u32 - '0' as u32
}

fn is_digit_exec(c: char) -> (r: bool)
    ensures
        r == is_digit(c),
{
    let u = c as u32;
    ('0' as u32) <= u && u <= ('9' as u32)
}

fn digit_val_exec(c: char) -> (r: u32)
    requires
        is_digit(c),
    ensures
        r == digit_val(c),
{
    (c as u32) - ('0' as u32)
}

/// The date denoted by a ten-character `YYYY-MM-DD` string; digits must be
/// zero-padded and the month and day must exist in the calendar.
pub open spec fn spec_parse_date(s: Seq<char>) -> Option<Date> {
    if s.len() == 10 && is_digit(s[0]) && is_digit(s[1]) && is_digit(s[2]) && is_digit(s[3])
        && s[4] == '-' && is_digit(s[5]) && is_digit(s[6]) && s[7] == '-' && is_digit(s[8])
        && is_digit(s[9]) {
        let y: int = digit_val(s[0]) * 1000 + digit_val(s[1]) * 100 + digit_val(s[2]) * 10
            + digit_val(s[3]);
        let m: int = digit_val(s[5]) * 10 + digit_val(s[6]);
        let d: int = digit_val(s[8]) * 10 + digit_val(s[9]);
        if 1 <= m <= 12 && 1 <= d <= days_in_month_of(y, m) {
            Option::Some(Date { year: y as u32, month: m as u32, day: d as u32 })
        } else {
            Option::None
        }
    } else {
        Option::None
    }
}

pub fn parse_date(s: &str) -> (r: Option<Date>)
    ensures
        r == spec_parse_date(s@),
{
    let len = s.unicode_len();
    if len != 10 {
        return Option::None;
    }
    let c0 = s.get_char(0);
    let c1 = s.get_char(1);
    let c2 = s.get_char(2);
    let c3 = s.get_char(3);
    let c4 = s.get_char(4);
    let c5 = s.get_char(5);
    let c6 = s.get_char(6);
    let c7 = s.get_char(7);
    let c8 = s.get_char(8);
    let c9 = s.get_char(9);
    if !(is_digit_exec(c0) && is_digit_exec(c1) && is_digit_exec(c2) && is_digit_exec(c3)
        && c4 == '-' && is_digit_exec(c5) && is_digit_exec(c6) && c7 == '-' && is_digit_exec(c8)
        && is_digit_exec(c9)) {
        return Option::None;
    }
    let y = digit_val_exec(c0) * 1000 + digit_val_exec(c1) * 100 + digit_val_exec(c2) * 10
        + digit_val_exec(c3);
    let m = digit_val_exec(c5) * 10 + digit_val_exec(c6);
    let d = digit_val_exec(c8) * 10 + digit_val_exec(c9);
    if 1 <= m && m <= 12 && 1 <= d && d <= days_in_month(y, m) {
        Option::Some(Date { year: y, month: m, day: d })
    } else {
        Option::None
    }
}

/// The digit character for a value between 0 and 9.
pub open spec fn digit_char(v: int) -> char {
    if v == 0 {
        '0'
    } else if v == 1 {
        '1'
    } else if v == 2 {
        '2'
    } else if v == 3 {
        '3'
    } else if v == 4 {
        '4'
    } else if v == 5 {
        '5'
    } else if v == 6 {
        '6'
    } else if v == 7 {
        '7'
    } else if v == 8 {
        '8'
    } else {
        '9'
    }
}

fn digit_str(v: u32) -> (r: &'static str)
    requires
        v <= 9,
    ensures
        r@ =~= seq![digit_char(v as int)],
{
    proof {
        reveal_strlit("0");
        reveal_strlit("1");
        reveal_strlit("2");
        reveal_strlit("3");
        reveal_strlit("4");
        reveal_strlit("5");
        reveal_strlit("6");
        reveal_strlit("7");
        reveal_strlit("8");
        reveal_strlit("9");
    }
    match v {
        0 => "0",
        1 => "1",
        2 => "2",
        3 => "3",
        4 => "4",
        5 => "5",
        6 => "6",
        7 => "7",
        8 => "8",
        _ => "9",
    }
}

/// The `YYYY-MM-DD` rendering of a date.  Each component is zero-padded to
/// its fixed width; years are rendered modulo 10000.
pub open spec fn spec_format_date(d: Date) -> Seq<char> {
    seq![
        digit_char(d.year as int / 1000 % 10),
        digit_char(d.year as int / 100 % 10),
        digit_char(d.year as int / 10 % 10),
        digit_char(d.year as int % 10),
        '-',
        digit_char(d.month as int / 10 % 10),
        digit_char(d.month as int % 10),
        '-',
        digit_char(d.day as int / 10 % 10),
        digit_char(d.day as int % 10),
    ]
}

pub fn format_date(d: Date) -> (r: String)
    ensures
        r@ == spec_format_date(d),
{
    proof {
        reveal_strlit("-");
    }
    let mut s = String::new();
    s.append(digit_str((d.year / 1000) % 10));
    s.append(digit_str((d.year / 100) % 10));
    s.append(digit_str((d.year / 10) % 10));
    s.append(digit_str(d.year % 10));
    s.append("-");
    s.append(digit_str((d.month / 10) % 10));
    s.append(digit_str(d.month % 10));
    s.append("-");
    s.append(digit_str((d.day / 10) % 10));
    s.append(digit_str(d.day % 10));
    proof {
        assert(s@ =~= spec_format_date(d));
    }
    s
}

/// The first index holding the character, or -1 when it does not occur.
pub open spec fn find_char(s: Seq<char>, c: char) -> int
    decreases s.len(),
{
    if s.len() == 0 {
        -1
    } else if s[0] == c {
        0
    } else {
        let r: int = find_char(s.subrange(1, s.len() as int), c);
        if r < 0 {
            -1
        } else {
            r + 1
        }
    }
}

proof fn lemma_find_char_at(s: Seq<char>, c: char, i: int)
    requires
        0 <= i < s.len(),
        s[i] == c,
        forall|j: int| 0 <= j < i ==> s[j] != c,
    ensures
        find_char(s, c) == i,
    decreases s.len(),
{
    if i > 0 {
        lemma_find_char_at(s.subrange(1, s.len() as int), c, i - 1);
    }
}

proof fn lemma_find_char_absent(s: Seq<char>, c: char)
    requires
        forall|j: int| 0 <= j < s.len() ==> s[j] != c,
    ensures
        find_char(s, c) < 0,
    decreases s.len(),
{
    if s.len() > 0 {
        lemma_find_char_absent(s.subrange(1, s.len() as int), c);
    }
}

/// The time of day denoted by `HH:MM` or `HH:MM:SS`; absent seconds default
/// to zero.
pub open spec fn spec_parse_time(p: Seq<char>) -> Option<(u32, u32, u32)> {
    if p.len() == 5 || p.len() == 8 {
        if is_digit(p[0]) && is_digit(p[1]) && p[2] == ':' && is_digit(p[3]) && is_digit(p[4]) {
            let h: int = digit_val(p[0]) * 10 + digit_val(p[1]);
            let mi: int = digit_val(p[3]) * 10 + digit_val(p[4]);
            if p.len() == 5 {
                if h < 24 && mi < 60 {
                    Option::Some((h as u32, mi as u32, 0u32))
                } else {
                    Option::None
                }
            } else if p[5] == ':' && is_digit(p[6]) && is_digit(p[7]) {
                let sec: int = digit_val(p[6]) * 10 + digit_val(p[7]);
                if h < 24 && mi < 60 && sec < 60 {
                    Option::Some((h as u32, mi as u32, sec as u32))
                } else {
                    Option::None
                }
            } else {
                Option::None
            }
        } else {
            Option::None
        }
    } else {
        Option::None
    }
}

pub fn parse_time(p: &str) -> (r: Option<(u32, u32, u32)>)
    ensures
        r == spec_parse_time(p@),
{
    let len = p.unicode_len();
    if len != 5 && len != 8 {
        return Option::None;
    }
    let c0 = p.get_char(0);
    let c1 = p.get_char(1);
    let c2 = p.get_char(2);
    let c3 = p.get_char(3);
    let c4 = p.get_char(4);
    if !(is_digit_exec(c0) && is_digit_exec(c1) && c2 == ':' && is_digit_exec(c3)
        && is_digit_exec(c4)) {
        return Option::None;
    }
    let h = digit_val_exec(c0) * 10 + digit_val_exec(c1);
    let mi = digit_val_exec(c3) * 10 + digit_val_exec(c4);
    if len == 5 {
        if h < 24 && mi < 60 {
            Option::Some((h, mi, 0))
        } else {
            Option::None
        }
    } else {
        let c5 = p.get_char(5);
        let c6 = p.get_char(6);
        let c7 = p.get_char(7);
        if !(c5 == ':' && is_digit_exec(c6) && is_digit_exec(c7)) {
            return Option::None;
        }
        let sec = digit_val_exec(c6) * 10 + digit_val_exec(c7);
        if h < 24 && mi < 60 && sec < 60 {
            Option::Some((h, mi, sec))
        } else {
            Option::None
        }
    }
}

/// The moment a due-date string denotes.  A bare date means the end of that
/// day, 23:59:59; a date joined to a time by a single `'T'` means that local
/// time, with absent seconds read as `:00`.  Anything else is malformed.
pub open spec fn spec_parse_due(s: Seq<char>) -> Option<Moment> {
    let t: int = find_char(s, 'T');
    if t < 0 {
        match spec_parse_date(s) {
            Option::Some(d) => Option::Some(
                Moment { date: d, hour: 23, minute: 59, second: 59 },
            ),
            Option::None => Option::None,
        }
    } else if exists|j: int| t < j < s.len() && s[j] == 'T' {
        Option::None
    } else {
        match spec_parse_date(s.subrange(0, t)) {
            Option::Some(d) => match spec_parse_time(s.subrange(t + 1, s.len() as int)) {
                Option::Some(tm) => Option::Some(
                    Moment { date: d, hour: tm.0, minute: tm.1, second: tm.2 },
                ),
                Option::None => Option::None,
            },
            Option::None => Option::None,
        }
    }
}

pub fn parse_due(s: &str) -> (r: Option<Moment>)
    ensures
        r == spec_parse_due(s@),
{
    let len = s.unicode_len();
    let mut first: Option<usize> = Option::None;
    let mut extra = false;
    let mut i: usize = 0;
    while i < len
        invariant
            len == s@.len(),
            i <= len,
            match first {
                Option::Some(f) => f < i && s@[f as int] == 'T' && (forall|j: int|
                    0 <= j < f ==> s@[j] != 'T') && (extra == exists|j: int|
                    f < j < i && s@[j] == 'T'),
                Option::None => !extra && forall|j: int| 0 <= j < i ==> s@[j] != 'T',
            },
        decreases len - i,
    {
        if s.get_char(i) == 'T' {
            match first {
                Option::None => {
                    first = Option::Some(i);
                },
                Option::Some(_) => {
                    extra = true;
                },
            }
        }
        i += 1;
    }
    match first {
        Option::None => {
            proof {
                lemma_find_char_absent(s@, 'T');
            }
            match parse_date(s) {
                Option::Some(d) => Option::Some(Moment { date: d, hour: 23, minute: 59, second: 59 }),
                Option::None => Option::None,
            }
        },
        Option::Some(f) => {
            proof {
                lemma_find_char_at(s@, 'T', f as int);
            }
            if extra {
                return Option::None;
            }
            let date_part = s.substring_char(0, f);
            let time_part = s.substring_char(f + 1, len);
            match parse_date(date_part) {
                Option::Some(d) => match parse_time(time_part) {
                    Option::Some(tm) => Option::Some(
                        Moment { date: d, hour: tm.0, minute: tm.1, second: tm.2 },
                    ),
                    Option::None => Option::None,
                },
                Option::None => Option::None,
            }
        },
    }
}

/// The date portion of a due-date string, as the recurrence engine reads it:
/// the first ten characters when a `'T'` occurs anywhere in the string, the
/// whole string otherwise.
pub open spec fn spec_due_date_part(s: Seq<char>) -> Option<Date> {
    if exists|j: int| 0 <= j < s.len() && s[j] == 'T' {
        if s.len() >= 10 {
            spec_parse_date(s.subrange(0, 10))
        } else {
            Option::None
        }
    } else {
        spec_parse_date(s)
    }
}

pub fn due_date_part(s: &str) -> (r: Option<Date>)
    ensures
        r == spec_due_date_part(s@),
{
    let len = s.unicode_len();
    let mut has_t = false;
    let mut i: usize = 0;
    while i < len
        invariant
            len == s@.len(),
            i <= len,
            has_t == exists|j: int| 0 <= j < i && s@[j] == 'T',
        decreases len - i,
    {
        if s.get_char(i) == 'T' {
            has_t = true;
        }
        i += 1;
    }
    if has_t {
        if len >= 10 {
            parse_date(s.substring_char(0, 10))
        } else {
            Option::None
        }
    } else {
        parse_date(s)
    }
}

/// Days from the calendar origin to the start of the given year.
pub open spec fn days_before_year(y: int) -> int
    decreases y,
{
    if y <= 0 {
        0
    } else {
        days_before_year(y - 1) + if is_leap_year(y - 1) {
            366int
        } else {
            365int
        }
    }
}

/// Days from the start of the year to the start of the given month.
pub open spec fn days_before_month(y: int, m: int) -> int
    decreases m,
{
    if m <= 1 {
        0
    } else {
        days_before_month(y, m - 1) + days_in_month_of(y, m - 1)
    }
}

/// The day count of a date from the calendar origin (shifted by one day;
/// only differences of this count are meaningful).
pub open spec fn day_index(d: Date) -> int {
    days_before_year(d.year as int) + days_before_month(d.year as int, d.month as int)
        + d.day as int
}

/// The second count of a moment from the calendar origin; only differences
/// of this count are meaningful.
pub open spec fn moment_seconds(m: Moment) -> int {
    day_index(m.date) * 86400 + m.hour as int * 3600 + m.minute as int * 60 + m.second as int
}

proof fn lemma_days_before_year_bounds(y: int)
    requires
        y >= 0,
    ensures
        0 <= days_before_year(y) <= 366 * y,
    decreases y,
{
    if y > 0 {
        lemma_days_before_year_bounds(y - 1);
    }
}

proof fn lemma_days_before_month_bounds(y: int, m: int)
    requires
        m >= 0,
    ensures
        0 <= days_before_month(y, m) <= 31 * m,
    decreases m,
{
    if m > 1 {
        lemma_days_before_month_bounds(y, m - 1);
    }
}

fn days_before_year_exec(y: u32) -> (r: u64)
    ensures
        r == days_before_year(y as int),
        r <= 366u64 * (y as u64),
{
    let mut i: u32 = 0;
    let mut acc: u64 = 0;
    while i < y
        invariant
            i <= y,
            acc == days_before_year(i as int),
            acc <= 366u64 * (i as u64),
        decreases y - i,
    {
        if is_leap_year_exec(i) {
            acc = acc + 366;
        } else {
            acc = acc + 365;
        }
        i += 1;
    }
    acc
}

fn days_before_month_exec(y: u32, m: u32) -> (r: u64)
    ensures
        r == days_before_month(y as int, m as int),
        r <= 31u64 * (m as u64),
{
    if m <= 1 {
        return 0;
    }
    let mut mm: u32 = 1;
    let mut acc: u64 = 0;
    while mm < m
        invariant
            1 <= mm <= m,
            acc == days_before_month(y as int, mm as int),
            acc <= 31u64 * (mm as u64 - 1),
        decreases m - mm,
    {
        acc = acc + days_in_month(y, mm) as u64;
        mm += 1;
    }
    acc
}

/// The second count of a moment, for comparing and subtracting moments.
pub fn moment_seconds_exec(m: &Moment) -> (r: u64)
    ensures
        r == moment_seconds(*m),
{
    let dby = days_before_year_exec(m.date.year);
    let dbm = days_before_month_exec(m.date.year, m.date.month);
    let days = dby + dbm + m.date.day as u64;
    days * 86400 + (m.hour as u64) * 3600 + (m.minute as u64) * 60 + (m.second as u64)
}

} // verus!
