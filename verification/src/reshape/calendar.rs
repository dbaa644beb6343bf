//! Calendar checks for `YYYYMM` year-months.
use vstd::prelude::*;
use crate::text::{chars_of, slice_chars, parse_i32, parse_u32, parse_signed, parse_unsigned};

verus! {

/// Gregorian leap year.
pub open spec fn is_leap(y: int) -> bool {
    (y % 4 == 0 && y % 100 != 0) || y % 400 == 0
}

/// Number of days of month `m` (1..=12) in year `y`.
pub open spec fn days_in_month(y: int, m: int) -> int {
    if m == 2 {
        if is_leap(y) { 29 } else { 28 }
    } else if m == 4 || m == 6 || m == 9 || m == 11 {
        30
    } else {
        31
    }
}

/// Smallest and largest year a `chrono::NaiveDate` holds.
pub open spec fn min_date_year() -> int {
    -262143
}

pub open spec fn max_date_year() -> int {
    262142
}

/// `(y, m, d)` is a calendar date that `chrono::NaiveDate` can represent.
pub open spec fn date_exists(y: int, m: int, d: int) -> bool {
    &&& min_date_year() <= y <= max_date_year()
    &&& 1 <= m <= 12
    &&& 1 <= d <= days_in_month(y, m)
}

/// Calls `chrono::NaiveDate::from_ymd_opt` and reports whether it gave a date.
/// Its documentation says it gives none exactly when the calendar day does not
/// exist, the month or day is invalid, or the year is out of range; the range
/// is `MIN_YEAR..=MAX_YEAR` of its source, -262143..=262142.
#[verifier::external_body]
fn naive_date_exists(y: i32, m: u32, d: u32) -> (res: bool)
    ensures
        res == date_exists(y as int, m as int, d as int),
{
    chrono::NaiveDate::from_ymd_opt(y, m, d).is_some()
}

pub open spec fn is_ascii_char(c: char) -> bool {
    c < '\u{80}'
}

pub open spec fn all_ascii(s: Seq<char>) -> bool {
    forall|i: int| 0 <= i < s.len() ==> is_ascii_char(#[trigger] s[i])
}

/// `"YYYYMM"` split into an `i32` year and a month in 1..=12: six bytes, the
/// first four parsed as `i32`, the last two as `u32` (as `str::parse` does).
pub open spec fn parse_ym_spec(s: Seq<char>) -> Option<(i32, u32)> {
    if s.len() == 6 && all_ascii(s) {
        match (parse_signed(s.subrange(0, 4), i32::MIN as int, i32::MAX as int), parse_unsigned(
            s.subrange(4, 6),
            u32::MAX as nat,
        )) {
            (Some(y), Some(m)) => if 1 <= m <= 12 {
                Some((y as i32, m as u32))
            } else {
                None
            },
            _ => None,
        }
    } else {
        None
    }
}

/// Whether `day` is a real calendar day of the year-month `ym`.
pub open spec fn is_valid_spec(ym: Seq<char>, day: u32) -> bool {
    match parse_ym_spec(ym) {
        Some((y, m)) => date_exists(y as int, m as int, day as int),
        None => false,
    }
}

/// Parses `"YYYYMM"` into `(year, month)`; `None` when it is not six bytes,
/// either part does not parse, or the month is not 1..=12.
pub fn parse_ym(ym: &str) -> (res: Option<(i32, u32)>)
    ensures
        res == parse_ym_spec(ym@),
{
    let s = chars_of(ym);
    if s.len() != 6 {
        return None;
    }
    let mut i: usize = 0;
    while i < 6
        invariant
            i <= 6,
            s.len() == 6,
            s@ == ym@,
            forall|k: int| 0 <= k < i ==> is_ascii_char(#[trigger] s@[k]),
        decreases 6 - i,
    {
        if s[i] >= '\u{80}' {
            proof {
                assert(!is_ascii_char(s@[i as int]));
                assert(s@ == ym@);
                assert(!all_ascii(s@));
            }
            return None;
        }
        i = i + 1;
    }
    let ys = slice_chars(&s, 0, 4);
    let ms = slice_chars(&s, 4, 6);
    let y = match parse_i32(&ys) {
        Some(y) => y,
        None => return None,
    };
    let m = match parse_u32(&ms) {
        Some(m) => m,
        None => return None,
    };
    if m < 1 || m > 12 {
        return None;
    }
    Some((y, m))
}

/// Whether `(year, month, day)` is a real calendar date, `ym` being `"YYYYMM"`
/// (false for 2024-04-31 or 2025-02-29, and for a malformed `ym`).
pub fn is_valid(ym: &str, day: u32) -> (res: bool)
    ensures
        res == is_valid_spec(ym@, day),
{
    match parse_ym(ym) {
        Some((y, m)) => naive_date_exists(y, m, day),
        None => false,
    }
}

/// February 29 exists exactly in leap years.
pub proof fn law_feb_29(ym: Seq<char>, y: i32)
    requires
        parse_ym_spec(ym) == Some((y, 2u32)),
        min_date_year() <= y <= max_date_year(),
    ensures
        is_valid_spec(ym, 29) == is_leap(y as int),
{
}

/// The 31st exists only in months of 31 days; the 30th in every month but February.
pub proof fn law_month_lengths(ym: Seq<char>, y: i32, m: u32)
    requires
        parse_ym_spec(ym) == Some((y, m)),
        min_date_year() <= y <= max_date_year(),
    ensures
        is_valid_spec(ym, 31) == (m == 1 || m == 3 || m == 5 || m == 7 || m == 8 || m == 10 || m == 12),
        is_valid_spec(ym, 30) == (m != 2),
        forall|d: u32| 1 <= d <= 28 ==> is_valid_spec(ym, d),
        !is_valid_spec(ym, 0),
        forall|d: u32| d > 31 ==> !is_valid_spec(ym, d),
{
}

} // verus!
