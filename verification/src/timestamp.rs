//! Timestamps: Windows FILETIME values read as calendar dates and times.
use vstd::prelude::*;
use vstd::arithmetic::div_mod::lemma_div_denominator;

use crate::bytes::le_u64;
use crate::text::{digits, pad_left, push_char, push_padded, push_str};

verus! {

/// A date and a time of day (UTC); all zero where the time is not known.
#[derive(Debug, Default, Clone, Copy, PartialEq, Eq, Structural)]
pub struct Timestamp {
    /// The year (from 1601).
    pub year: u32,
    /// The month, from 1.
    pub month: u32,
    /// The day of the month, from 1.
    pub day: u32,
    /// The hour, from 0.
    pub hour: u32,
    /// The minute, from 0.
    pub minute: u32,
    /// The second, from 0.
    pub second: u32,
}

/// Is `year` a leap year: divisible by 4 but not by 100, or by 400?
pub open spec fn spec_is_leap_year(year: int) -> bool {
    (year % 4 == 0 && year % 100 != 0) || year % 400 == 0
}

/// The number of days of `year`.
pub open spec fn days_in_year(year: int) -> nat {
    if spec_is_leap_year(year) {
        366
    } else {
        365
    }
}

/// The number of days of month `month` (1 to 12) of `year`.
pub open spec fn days_in_month(year: int, month: int) -> nat {
    if month == 2 {
        if spec_is_leap_year(year) {
            29
        } else {
            28
        }
    } else if month == 4 || month == 6 || month == 9 || month == 11 {
        30
    } else {
        31
    }
}

/// The number of days from 1601-01-01 to the first day of `year`.
pub open spec fn days_before_year(year: int) -> nat
    decreases year - 1601,
{
    if year <= 1601 {
        0
    } else {
        days_before_year(year - 1) + days_in_year(year - 1)
    }
}

/// The number of days from the first day of `year` to the first day of
/// month `month`.
pub open spec fn days_before_month(year: int, month: int) -> nat
    decreases month,
{
    if month <= 1 {
        0
    } else {
        days_before_month(year, month - 1) + days_in_month(year, month - 1)
    }
}

/// Is `year`-`month`-`day` the date `days` days after 1601-01-01?
pub open spec fn is_date_of(days: nat, year: int, month: int, day: int) -> bool {
    &&& year >= 1601
    &&& 1 <= month <= 12
    &&& 1 <= day <= days_in_month(year, month)
    &&& days == days_before_year(year) + days_before_month(year, month) + day - 1
}

/// The timestamp of FILETIME `filetime`, the number of 100-nanosecond
/// intervals since 1601-01-01 00:00:00 UTC: zero stands for no time and
/// gives the zero timestamp.
pub open spec fn is_timestamp_of(filetime: nat, t: Timestamp) -> bool {
    if filetime == 0 {
        t == Timestamp { year: 0, month: 0, day: 0, hour: 0, minute: 0, second: 0 }
    } else {
        let s = filetime / 10_000_000;
        &&& t.second == s % 60
        &&& t.minute == (s / 60) % 60
        &&& t.hour == (s / 3600) % 24
        &&& is_date_of(s / 86400, t.year as int, t.month as int, t.day as int)
    }
}

/// The twelve months of a year take all its days.
pub proof fn lemma_months_fill_year(year: int)
    ensures
        days_before_month(year, 13) == days_in_year(year),
{
    reveal_with_fuel(days_before_month, 13);
}

/// Each year takes at least 365 days.
pub proof fn lemma_days_before_year_lower(year: int)
    requires
        year >= 1601,
    ensures
        days_before_year(year) >= 365 * (year - 1601),
    decreases year - 1601,
{
    if year > 1601 {
        lemma_days_before_year_lower(year - 1);
    }
}

/// Days before a later month are more: the months before it and the days of
/// its own month.
pub proof fn lemma_days_before_month_mono(year: int, m1: int, m2: int)
    requires
        1 <= m1 < m2,
    ensures
        days_before_month(year, m2) >= days_before_month(year, m1) + days_in_month(year, m1),
    decreases m2 - m1,
{
    if m2 > m1 + 1 {
        lemma_days_before_month_mono(year, m1, m2 - 1);
    }
}

/// Days before a later year are more: the years before it and all the days
/// of its own year.
pub proof fn lemma_days_before_year_mono(y1: int, y2: int)
    requires
        1601 <= y1 < y2,
    ensures
        days_before_year(y2) >= days_before_year(y1) + days_in_year(y1),
    decreases y2 - y1,
{
    if y2 > y1 + 1 {
        lemma_days_before_year_mono(y1, y2 - 1);
    }
}

/// A date of the year stays within the year.
proof fn lemma_date_within_year(year: int, month: int, day: int)
    requires
        1 <= month <= 12,
        1 <= day <= days_in_month(year, month),
    ensures
        days_before_month(year, month) + day - 1 < days_in_year(year),
{
    lemma_months_fill_year(year);
    if month < 12 {
        lemma_days_before_month_mono(year, month, 13);
    }
}

/// A number of days is the date of one date only.
pub proof fn lemma_date_unique(days: nat, y1: int, m1: int, d1: int, y2: int, m2: int, d2: int)
    requires
        is_date_of(days, y1, m1, d1),
        is_date_of(days, y2, m2, d2),
    ensures
        y1 == y2 && m1 == m2 && d1 == d2,
{
    lemma_date_within_year(y1, m1, d1);
    lemma_date_within_year(y2, m2, d2);
    if y1 < y2 {
        lemma_days_before_year_mono(y1, y2);
    } else if y2 < y1 {
        lemma_days_before_year_mono(y2, y1);
    }
    assert(y1 == y2);
    if m1 < m2 {
        lemma_days_before_month_mono(y1, m1, m2);
    } else if m2 < m1 {
        lemma_days_before_month_mono(y1, m2, m1);
    }
}

/// Is `year` a leap year: divisible by 4 but not by 100, or by 400?
pub fn is_leap_year(year: u32) -> (r: bool)
    ensures
        r == spec_is_leap_year(year as int),
{
    (year % 4 == 0 && year % 100 != 0) || year % 400 == 0
}

/// The number of days of month `month` of `year`.
fn month_length(year: u32, month: u32) -> (r: u64)
    requires
        1 <= month <= 12,
    ensures
        r == days_in_month(year as int, month as int),
{
    if month == 2 {
        if is_leap_year(year) {
            29
        } else {
            28
        }
    } else if month == 4 || month == 6 || month == 9 || month == 11 {
        30
    } else {
        31
    }
}

/// The date (year, month, day) `days` days after 1601-01-01. The year must
/// fit in a `u32`.
pub fn days_to_date(days: u64) -> (r: (u32, u32, u32))
    requires
        days < days_before_year(0x1_0000_0000),
    ensures
        is_date_of(days as nat, r.0 as int, r.1 as int, r.2 as int),
{
    let ghost total = days as nat;
    let mut days = days;
    let mut year: u32 = 1601;
    loop
        invariant
            1601 <= year,
            days_before_year(year as int) + days == total,
            total < days_before_year(0x1_0000_0000),
        ensures
            1601 <= year,
            days_before_year(year as int) + days == total,
            days < days_in_year(year as int),
        decreases days,
    {
        let year_length: u64 = if is_leap_year(year) {
            366
        } else {
            365
        };
        if days < year_length {
            break ;
        }
        assert(year < u32::MAX) by {
            if year == u32::MAX {
                assert(days_before_year(0x1_0000_0000) == days_before_year(year as int)
                    + days_in_year(year as int));
            }
        }
        days = days - year_length;
        year = year + 1;
    }
    let ghost rest = days as nat;
    let mut month: u32 = 1;
    loop
        invariant
            1 <= month <= 12,
            days_before_month(year as int, month as int) + days == rest,
            rest < days_in_year(year as int),
        ensures
            1 <= month <= 12,
            days_before_month(year as int, month as int) + days == rest,
            days < days_in_month(year as int, month as int),
        decreases 13 - month,
    {
        let length = month_length(year, month);
        if days < length {
            break ;
        }
        proof {
            if month == 12 {
                lemma_months_fill_year(year as int);
            }
        }
        days = days - length;
        month = month + 1;
    }
    let day = days as u32 + 1;
    (year, month, day)
}

/// Reads the little-endian FILETIME `bytes`.
fn filetime_of(bytes: &[u8; 8]) -> (r: u64)
    ensures
        r == le_u64(bytes@, 0),
{
    let b = bytes;
    let lo: u64 = b[0] as u64 + b[1] as u64 * 0x100 + b[2] as u64 * 0x10000 + b[3] as u64
        * 0x1000000;
    let hi: u64 = b[4] as u64 + b[5] as u64 * 0x100 + b[6] as u64 * 0x10000 + b[7] as u64
        * 0x1000000;
    lo + hi * 0x1_0000_0000
}

impl Timestamp {
    /// The timestamp of a Windows FILETIME, stored little-endian in `bytes`
    /// (see `is_timestamp_of`).
    pub fn from_filetime(bytes: &[u8; 8]) -> (t: Timestamp)
        ensures
            is_timestamp_of(le_u64(bytes@, 0) as nat, t),
    {
        let filetime = filetime_of(bytes);
        if filetime == 0 {
            return Timestamp { year: 0, month: 0, day: 0, hour: 0, minute: 0, second: 0 };
        }
        let total_seconds = filetime / 10_000_000;
        let second = (total_seconds % 60) as u32;
        let total_minutes = total_seconds / 60;
        let minute = (total_minutes % 60) as u32;
        let total_hours = total_minutes / 60;
        let hour = (total_hours % 24) as u32;
        let total_days = total_hours / 24;
        proof {
            lemma_div_denominator(total_seconds as int, 60, 60);
            lemma_div_denominator(total_seconds as int, 3600, 24);
        }
        assert(total_days < 0x1_0000_0000) by (nonlinear_arith)
            requires
                total_days == total_seconds as int / 86400,
                total_seconds == filetime as int / 10_000_000,
                filetime <= u64::MAX,
        ;
        proof {
            lemma_days_before_year_lower(0x1_0000_0000);
        }
        let (year, month, day) = days_to_date(total_days);
        Timestamp { year, month, day, hour, minute, second }
    }
}

/// Are all the fields of `t` zero (no time)?
pub open spec fn is_zero(t: Timestamp) -> bool {
    t.year == 0 && t.month == 0 && t.day == 0 && t.hour == 0 && t.minute == 0 && t.second == 0
}

/// `n` in decimal, with zeros on the left to two digits.
pub open spec fn two_digits(n: u32) -> Seq<char> {
    pad_left(digits(n as nat, 10), 2, '0')
}

/// The debugging text of a timestamp: `(zero)` for no time, else the ISO
/// 8601 form `YYYY-MM-DDThh:mm:ssZ`.
pub open spec fn debug_text(t: Timestamp) -> Seq<char> {
    if is_zero(t) {
        seq!['(', 'z', 'e', 'r', 'o', ')']
    } else {
        digits(t.year as nat, 10) + seq!['-'] + two_digits(t.month) + seq!['-'] + two_digits(t.day)
            + seq!['T'] + two_digits(t.hour) + seq![':'] + two_digits(t.minute) + seq![':']
            + two_digits(t.second) + seq!['Z']
    }
}

/// The abbreviated English name of month `month`, `???` where it is not
/// from 1 to 12.
pub open spec fn month_name(month: u32) -> Seq<char> {
    if month == 1 {
        seq!['J', 'a', 'n']
    } else if month == 2 {
        seq!['F', 'e', 'b']
    } else if month == 3 {
        seq!['M', 'a', 'r']
    } else if month == 4 {
        seq!['A', 'p', 'r']
    } else if month == 5 {
        seq!['M', 'a', 'y']
    } else if month == 6 {
        seq!['J', 'u', 'n']
    } else if month == 7 {
        seq!['J', 'u', 'l']
    } else if month == 8 {
        seq!['A', 'u', 'g']
    } else if month == 9 {
        seq!['S', 'e', 'p']
    } else if month == 10 {
        seq!['O', 'c', 't']
    } else if month == 11 {
        seq!['N', 'o', 'v']
    } else if month == 12 {
        seq!['D', 'e', 'c']
    } else {
        seq!['?', '?', '?']
    }
}

/// Each month from 1 to 12 has its own three-letter English name, in
/// calendar order from `Jan` to `Dec`; no two months share a name, and no
/// month shows as `???`, which stands for any number outside 1 to 12.
pub proof fn lemma_month_names(m1: u32, m2: u32)
    ensures
        1 <= m1 <= 12 && 1 <= m2 <= 12 && m1 != m2 ==> month_name(m1) != month_name(m2),
        1 <= m1 <= 12 ==> month_name(m1).len() == 3 && month_name(m1) != seq!['?', '?', '?'],
        !(1 <= m1 <= 12) ==> month_name(m1) == seq!['?', '?', '?'],
        Seq::new(12, |i: int| month_name((i + 1) as u32)) == seq![
            seq!['J', 'a', 'n'],
            seq!['F', 'e', 'b'],
            seq!['M', 'a', 'r'],
            seq!['A', 'p', 'r'],
            seq!['M', 'a', 'y'],
            seq!['J', 'u', 'n'],
            seq!['J', 'u', 'l'],
            seq!['A', 'u', 'g'],
            seq!['S', 'e', 'p'],
            seq!['O', 'c', 't'],
            seq!['N', 'o', 'v'],
            seq!['D', 'e', 'c'],
        ],
{
    let names = Seq::new(12, |i: int| month_name((i + 1) as u32));
    assert(names =~= seq![
        seq!['J', 'a', 'n'],
        seq!['F', 'e', 'b'],
        seq!['M', 'a', 'r'],
        seq!['A', 'p', 'r'],
        seq!['M', 'a', 'y'],
        seq!['J', 'u', 'n'],
        seq!['J', 'u', 'l'],
        seq!['A', 'u', 'g'],
        seq!['S', 'e', 'p'],
        seq!['O', 'c', 't'],
        seq!['N', 'o', 'v'],
        seq!['D', 'e', 'c'],
    ]);
    if 1 <= m1 <= 12 && 1 <= m2 <= 12 && m1 != m2 {
        let a = month_name(m1);
        let b = month_name(m2);
        assert(a[0] != b[0] || a[1] != b[1] || a[2] != b[2]);
    }
}

/// The listing text of a timestamp: `0000-??? ?? 00:00` for no time, else
/// the year (right-aligned on four places), the month's name, the day
/// (right-aligned on two places) and the time `hh:mm`.
pub open spec fn display_text(t: Timestamp) -> Seq<char> {
    if is_zero(t) {
        seq!['0', '0', '0', '0', '-', '?', '?', '?', ' ', '?', '?', ' ', '0', '0', ':', '0', '0']
    } else {
        pad_left(digits(t.year as nat, 10), 4, ' ') + seq!['-'] + month_name(t.month) + seq![' ']
            + pad_left(digits(t.day as nat, 10), 2, ' ') + seq![' '] + two_digits(t.hour) + seq![
            ':',
        ] + two_digits(t.minute)
    }
}

/// The name of month `month` (see `month_name`).
fn month_name_str(month: u32) -> (r: &'static str)
    ensures
        r@ == month_name(month),
{
    if month == 1 {
        proof {
            reveal_strlit("Jan");
        }
        "Jan"
    } else if month == 2 {
        proof {
            reveal_strlit("Feb");
        }
        "Feb"
    } else if month == 3 {
        proof {
            reveal_strlit("Mar");
        }
        "Mar"
    } else if month == 4 {
        proof {
            reveal_strlit("Apr");
        }
        "Apr"
    } else if month == 5 {
        proof {
            reveal_strlit("May");
        }
        "May"
    } else if month == 6 {
        proof {
            reveal_strlit("Jun");
        }
        "Jun"
    } else if month == 7 {
        proof {
            reveal_strlit("Jul");
        }
        "Jul"
    } else if month == 8 {
        proof {
            reveal_strlit("Aug");
        }
        "Aug"
    } else if month == 9 {
        proof {
            reveal_strlit("Sep");
        }
        "Sep"
    } else if month == 10 {
        proof {
            reveal_strlit("Oct");
        }
        "Oct"
    } else if month == 11 {
        proof {
            reveal_strlit("Nov");
        }
        "Nov"
    } else if month == 12 {
        proof {
            reveal_strlit("Dec");
        }
        "Dec"
    } else {
        proof {
            reveal_strlit("???");
        }
        "???"
    }
}

impl Timestamp {
    /// Is every field zero (no time)?
    pub fn is_zero(&self) -> (r: bool)
        ensures
            r == is_zero(*self),
    {
        self.year == 0 && self.month == 0 && self.day == 0 && self.hour == 0 && self.minute == 0
            && self.second == 0
    }

    /// The debugging text of the timestamp (see `debug_text`).
    pub fn to_debug_string(&self) -> (r: String)
        ensures
            r@ == debug_text(*self),
    {
        let mut s = String::new();
        if self.is_zero() {
            push_str(&mut s, "(zero)");
            proof {
                reveal_strlit("(zero)");
            }
            assert(s@ =~= debug_text(*self));
            return s;
        }
        push_padded(&mut s, self.year as u64, 10, 0, '0');
        push_char(&mut s, '-');
        push_padded(&mut s, self.month as u64, 10, 2, '0');
        push_char(&mut s, '-');
        push_padded(&mut s, self.day as u64, 10, 2, '0');
        push_char(&mut s, 'T');
        push_padded(&mut s, self.hour as u64, 10, 2, '0');
        push_char(&mut s, ':');
        push_padded(&mut s, self.minute as u64, 10, 2, '0');
        push_char(&mut s, ':');
        push_padded(&mut s, self.second as u64, 10, 2, '0');
        push_char(&mut s, 'Z');
        assert(pad_left(digits(self.year as nat, 10), 0, '0') == digits(self.year as nat, 10));
        assert(s@ =~= debug_text(*self));
        s
    }

    /// The listing text of the timestamp (see `display_text`).
    pub fn to_display_string(&self) -> (r: String)
        ensures
            r@ == display_text(*self),
    {
        let mut s = String::new();
        if self.is_zero() {
            push_str(&mut s, "0000-??? ?? 00:00");
            proof {
                reveal_strlit("0000-??? ?? 00:00");
            }
            assert(s@ =~= display_text(*self));
            return s;
        }
        push_padded(&mut s, self.year as u64, 10, 4, ' ');
        push_char(&mut s, '-');
        push_str(&mut s, month_name_str(self.month));
        push_char(&mut s, ' ');
        push_padded(&mut s, self.day as u64, 10, 2, ' ');
        push_char(&mut s, ' ');
        push_padded(&mut s, self.hour as u64, 10, 2, '0');
        push_char(&mut s, ':');
        push_padded(&mut s, self.minute as u64, 10, 2, '0');
        assert(s@ =~= display_text(*self));
        s
    }
}

} // verus!
