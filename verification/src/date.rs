use vstd::prelude::*;

use vstd::string::StringExecFns;

use crate::types::AppError;

verus! {

/// A calendar date held as plain year, month and day fields.  Dates are
/// ordered by `date_key`, which agrees with calendar order for every date
/// that `date_valid` admits.
#[derive(Clone, Copy, PartialEq, Eq, Structural, Debug)]
pub struct Date {
    pub year: u16,
    pub month: u8,
    pub day: u8,
}

/// Whether `y` is a leap year in the Gregorian calendar.
pub open spec fn spec_is_leap_year(y: int) -> bool {
    (y % 4 == 0 && y % 100 != 0) || y % 400 == 0
}

/// Number of days in month `m` of year `y` (for `m` in 1..=12).
pub open spec fn spec_days_in_month(y: int, m: int) -> int {
    if m == 2 {
        if spec_is_leap_year(y) {
            29
        } else {
            28
        }
    } else if m == 4 || m == 6 || m == 9 || m == 11 {
        30
    } else {
        31
    }
}

/// A date the catalog accepts: a four-digit year and a day that exists in
/// its month.
pub open spec fn date_valid(d: Date) -> bool {
    &&& d.year <= 9999
    &&& 1 <= d.month <= 12
    &&& 1 <= d.day <= spec_days_in_month(d.year as int, d.month as int)
}

/// The ordering key of a date; later dates have larger keys.
pub open spec fn date_key(d: Date) -> int {
    d.year * 10000 + d.month * 100 + d.day
}

pub fn is_leap_year(y: u16) -> (r: bool)
    ensures
        r == spec_is_leap_year(y as int),
{
    (y % 4 == 0 && y % 100 != 0) || y % 400 == 0
}

pub fn days_in_month(y: u16, m: u8) -> (r: u8)
    ensures
        r as int == spec_days_in_month(y as int, m as int),
{
    if m == 2 {
        if is_leap_year(y) {
            29
        } else {
            28
        }
    } else if m == 4 || m == 6 || m == 9 || m == 11 {
        30
    } else {
        31
    }
}

/// Compares two dates by their ordering key.
pub fn date_le(a: &Date, b: &Date) -> (r: bool)
    ensures
        r == (date_key(*a) <= date_key(*b)),
{
    let ka: u32 = (a.year as u32) * 10000 + (a.month as u32) * 100 + (a.day as u32);
    let kb: u32 = (b.year as u32) * 10000 + (b.month as u32) * 100 + (b.day as u32);
    ka <= kb
}

/// Whether `c` is an ASCII decimal digit.
pub open spec fn is_digit(c: char) -> bool {
    48 <= c as u32 <= 57
}

/// The numeric value of an ASCII decimal digit.
pub open spec fn digit_val(c: char) -> int {
    c as u32 - 48
}

/// The year spelled by the first four characters of a date token.
pub open spec fn text_year(s: Seq<char>) -> int {
    digit_val(s[0]) * 1000 + digit_val(s[1]) * 100 + digit_val(s[2]) * 10 + digit_val(s[3])
}

/// The month spelled by characters five and six of a date token.
pub open spec fn text_month(s: Seq<char>) -> int {
    digit_val(s[5]) * 10 + digit_val(s[6])
}

/// The day spelled by the last two characters of a date token.
pub open spec fn text_day(s: Seq<char>) -> int {
    digit_val(s[8]) * 10 + digit_val(s[9])
}

/// What it means for a token to be a well-formed calendar date: exactly
/// the shape `YYYY-MM-DD`, and the spelled date exists in the calendar.
pub open spec fn date_text_valid(s: Seq<char>) -> bool {
    &&& s.len() == 10
    &&& is_digit(s[0])
    &&& is_digit(s[1])
    &&& is_digit(s[2])
    &&& is_digit(s[3])
    &&& s[4] == '-'
    &&& is_digit(s[5])
    &&& is_digit(s[6])
    &&& s[7] == '-'
    &&& is_digit(s[8])
    &&& is_digit(s[9])
    &&& 1 <= text_month(s) <= 12
    &&& 1 <= text_day(s) <= spec_days_in_month(text_year(s), text_month(s))
}

/// Reads the digit at position `i` of `s`, or reports a malformed token.
fn read_digit(s: &str, i: usize) -> (r: Result<u8, AppError>)
    requires
        i < s@.len(),
    ensures
        r matches Ok(v) ==> is_digit(s@[i as int]) && v as int == digit_val(s@[i as int]),
        r is Err ==> !is_digit(s@[i as int]),
        r matches Err(e) ==> e == AppError::Malformed,
{
    let c = s.get_char(i);
    let u = c as u32;
    if 48 <= u && u <= 57 {
        Ok((u - 48) as u8)
    } else {
        Err(AppError::Malformed)
    }
}

/// Decides `date_valid`, so callers outside the proofs can test it.
pub fn is_valid_date(d: &Date) -> (r: bool)
    ensures
        r == date_valid(*d),
{
    d.year <= 9999 && 1 <= d.month && d.month <= 12 && 1 <= d.day && d.day <= days_in_month(
        d.year,
        d.month,
    )
}

/// The one-character text of a decimal digit.
fn digit_str(v: u8) -> (r: &'static str)
    requires
        v < 10,
    ensures
        r@.len() == 1,
        is_digit(r@[0]),
        digit_val(r@[0]) == v as int,
{
    proof {
        reveal_strlit("0");
        reveal_strlit("1");
        reveal_strlit("2");
        reveal_strlit("3");
        reveal_strlit("4");
        reveal_strlit("5");
        reveal_strlit("6");
        reveal_strlit("7");
        reveal_strlit("8");
        reveal_strlit("9");
    }
    match v {
        0 => "0",
        1 => "1",
        2 => "2",
        3 => "3",
        4 => "4",
        5 => "5",
        6 => "6",
        7 => "7",
        8 => "8",
        _ => "9",
    }
}

/// Formats a calendar date as its ISO `YYYY-MM-DD` token: the unique
/// well-formed token that spells the date's fields (`lemma_date_token_unique`),
/// so parsing the result gives the date back.
pub fn format_date(d: &Date) -> (r: String)
    requires
        date_valid(*d),
    ensures
        date_text_valid(r@),
        text_year(r@) == d.year as int,
        text_month(r@) == d.month as int,
        text_day(r@) == d.day as int,
{
    proof {
        reveal_strlit("-");
    }
    let mut out = String::new();
    let y = d.year;
    out.append(digit_str((y / 1000 % 10) as u8));
    out.append(digit_str((y / 100 % 10) as u8));
    out.append(digit_str((y / 10 % 10) as u8));
    out.append(digit_str((y % 10) as u8));
    out.append("-");
    out.append(digit_str(d.month / 10));
    out.append(digit_str(d.month % 10));
    out.append("-");
    out.append(digit_str(d.day / 10));
    out.append(digit_str(d.day % 10));
    proof {
        assert(out@.len() == 10);
        assert(text_year(out@) == (y / 1000 % 10) * 1000 + (y / 100 % 10) * 100 + (y / 10 % 10)
            * 10 + y % 10);
        assert((y / 1000 % 10) * 1000 + (y / 100 % 10) * 100 + (y / 10 % 10) * 10 + y % 10
            == y as int);
        assert(text_month(out@) == (d.month / 10) * 10 + d.month % 10);
        assert(text_day(out@) == (d.day / 10) * 10 + d.day % 10);
    }
    out
}

/// Characters with the same scalar value are the same character.
proof fn lemma_char_eq(c1: char, c2: char)
    requires
        c1 as u32 == c2 as u32,
    ensures
        c1 == c2,
{
}

/// A calendar date has exactly one well-formed token: two tokens that
/// spell the same year, month and day are the same text.  Together with
/// the contracts of `format_date` and `parse_date` this is the round
/// trip: parsing a formatted date yields the date, and formatting the
/// parse of a well-formed token yields that token.
pub proof fn lemma_date_token_unique(s1: Seq<char>, s2: Seq<char>)
    requires
        date_text_valid(s1),
        date_text_valid(s2),
        text_year(s1) == text_year(s2),
        text_month(s1) == text_month(s2),
        text_day(s1) == text_day(s2),
    ensures
        s1 == s2,
{
    assert forall|i: int| 0 <= i < 10 implies s1[i] == s2[i] by {
        if i == 4 || i == 7 {
        } else if i < 4 {
            assert(digit_val(s1[0]) == digit_val(s2[0]) && digit_val(s1[1]) == digit_val(s2[1])
                && digit_val(s1[2]) == digit_val(s2[2]) && digit_val(s1[3]) == digit_val(s2[3]))
                by {
                assert(0 <= digit_val(s1[0]) <= 9 && 0 <= digit_val(s1[1]) <= 9 && 0 <= digit_val(
                    s1[2],
                ) <= 9 && 0 <= digit_val(s1[3]) <= 9);
                assert(0 <= digit_val(s2[0]) <= 9 && 0 <= digit_val(s2[1]) <= 9 && 0 <= digit_val(
                    s2[2],
                ) <= 9 && 0 <= digit_val(s2[3]) <= 9);
            }
            assert(s1[i] as u32 == s2[i] as u32);
            lemma_char_eq(s1[i], s2[i]);
        } else if i == 5 || i == 6 {
            assert(digit_val(s1[5]) == digit_val(s2[5]) && digit_val(s1[6]) == digit_val(s2[6]))
                by {
                assert(0 <= digit_val(s1[5]) <= 9 && 0 <= digit_val(s1[6]) <= 9);
                assert(0 <= digit_val(s2[5]) <= 9 && 0 <= digit_val(s2[6]) <= 9);
            }
            assert(s1[i] as u32 == s2[i] as u32);
            lemma_char_eq(s1[i], s2[i]);
        } else {
            assert(digit_val(s1[8]) == digit_val(s2[8]) && digit_val(s1[9]) == digit_val(s2[9]))
                by {
                assert(0 <= digit_val(s1[8]) <= 9 && 0 <= digit_val(s1[9]) <= 9);
                assert(0 <= digit_val(s2[8]) <= 9 && 0 <= digit_val(s2[9]) <= 9);
            }
            assert(s1[i] as u32 == s2[i] as u32);
            lemma_char_eq(s1[i], s2[i]);
        }
    }
    assert(s1 =~= s2);
}

/// Parses an ISO `YYYY-MM-DD` token into a date.  Succeeds exactly on the
/// tokens that `date_text_valid` admits; every other token is the client's
/// error.
pub fn parse_date(s: &str) -> (r: Result<Date, AppError>)
    ensures
        r is Ok <==> date_text_valid(s@),
        r matches Ok(d) ==> {
            &&& d.year as int == text_year(s@)
            &&& d.month as int == text_month(s@)
            &&& d.day as int == text_day(s@)
            &&& date_valid(d)
        },
        r matches Err(e) ==> e == AppError::Malformed,
{
    let n = s.unicode_len();
    if n != 10 {
        return Err(AppError::Malformed);
    }
    let y0 = read_digit(s, 0)?;
    let y1 = read_digit(s, 1)?;
    let y2 = read_digit(s, 2)?;
    let y3 = read_digit(s, 3)?;
    if s.get_char(4) != '-' {
        return Err(AppError::Malformed);
    }
    let m0 = read_digit(s, 5)?;
    let m1 = read_digit(s, 6)?;
    if s.get_char(7) != '-' {
        return Err(AppError::Malformed);
    }
    let d0 = read_digit(s, 8)?;
    let d1 = read_digit(s, 9)?;
    let year: u16 = (y0 as u16) * 1000 + (y1 as u16) * 100 + (y2 as u16) * 10 + (y3 as u16);
    let month: u8 = m0 * 10 + m1;
    let day: u8 = d0 * 10 + d1;
    if month < 1 || month > 12 {
        return Err(AppError::Malformed);
    }
    if day < 1 || day > days_in_month(year, month) {
        return Err(AppError::Malformed);
    }
    Ok(Date { year, month, day })
}

} // verus!
