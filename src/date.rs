//! Dates as a vCard writes them, possibly without year, month or day.

use vstd::prelude::*;

use crate::error::Error;
use crate::text::{digit_char, digit_value, is_digit, push_char};

verus! {

/// Whether `y` is a leap year of the Gregorian calendar.
pub open spec fn is_leap_year(y: int) -> bool {
    (y % 4 == 0 && y % 100 != 0) || y % 400 == 0
}

/// The number of days of month `m` (in `1..=12`) of year `y`.
pub open spec fn days_in_month(y: int, m: int) -> int {
    if m == 2 {
        if is_leap_year(y) {
            29
        } else {
            28
        }
    } else if m == 4 || m == 6 || m == 9 || m == 11 {
        30
    } else {
        31
    }
}

/// Relies on `time::Month::try_from` and `time::Date::from_calendar_date`:
/// a date is accepted when the year lies in `-9999..=9999`, the month in
/// `1..=12` and the day in the month.
#[verifier::external_body]
fn calendar_date(year: i32, month: u8, day: u8) -> (r: Result<(), time::error::ComponentRange>)
    ensures
        r is Ok <==> (-9999 <= year <= 9999 && 1 <= month <= 12 && 1 <= day <= days_in_month(
            year as int,
            month as int,
        )),
{
    let m = time::Month::try_from(month)?;
    time::Date::from_calendar_date(year, m, day).map(|_| ())
}

/// A date, any part of which may be left out.
#[derive(Debug, PartialEq, Eq, Clone, Copy, Structural)]
pub struct Date {
    /// The year.
    pub year: Option<u16>,
    /// The month, in `1..=12`.
    pub month: Option<u8>,
    /// The day of the month.
    pub day: Option<u8>,
}

/// The number that the digits `s[a..b]` write.
pub open spec fn digits_value(s: Seq<char>, a: int, b: int) -> int
    decreases b - a,
{
    if b <= a {
        0
    } else {
        10 * digits_value(s, a, b - 1) + digit_value(s[b - 1])
    }
}

/// Whether `s[a..b]` are all decimal digits.
pub open spec fn all_digits(s: Seq<char>, a: int, b: int) -> bool {
    forall|j: int| a <= j < b ==> is_digit(#[trigger] s[j])
}

/// The year, month and day that a date text writes, by its shape:
/// `YYYYMMDD`, `YYYY-MM`, `--MMDD`, `---DD` or `YYYY`; `None` for any
/// other shape.
pub open spec fn date_text_parts(s: Seq<char>) -> Option<(Option<int>, Option<int>, Option<int>)> {
    if s.len() == 8 && all_digits(s, 0, 8) {
        Some((Some(digits_value(s, 0, 4)), Some(digits_value(s, 4, 6)), Some(digits_value(s, 6, 8))))
    } else if s.len() == 7 && all_digits(s, 0, 4) && s[4] == '-' && all_digits(s, 5, 7) {
        Some((Some(digits_value(s, 0, 4)), Some(digits_value(s, 5, 7)), None))
    } else if s.len() == 6 && s[0] == '-' && s[1] == '-' && all_digits(s, 2, 6) {
        Some((None, Some(digits_value(s, 2, 4)), Some(digits_value(s, 4, 6))))
    } else if s.len() == 5 && s[0] == '-' && s[1] == '-' && s[2] == '-' && all_digits(s, 3, 5) {
        Some((None, None, Some(digits_value(s, 3, 5))))
    } else if s.len() == 4 && all_digits(s, 0, 4) {
        Some((Some(digits_value(s, 0, 4)), None, None))
    } else {
        None
    }
}

/// Whether the parts name a date that can exist: a month in `1..=12`, and a
/// day within the month (of the year when given; February may have 29 days
/// when no year is given).
pub open spec fn date_parts_valid(y: Option<int>, m: Option<int>, d: Option<int>) -> bool {
    &&& m matches Some(mm) ==> 1 <= mm <= 12
    &&& d matches Some(dd) ==> 1 <= dd && match (y, m) {
        (Some(yy), Some(mm)) => dd <= days_in_month(yy, mm),
        (None, Some(mm)) => dd <= days_in_month(2000, mm),
        _ => dd <= 31,
    }
}

/// The parts of a date, as numbers.
pub open spec fn date_parts(d: Date) -> (Option<int>, Option<int>, Option<int>) {
    (
        match d.year {
            Some(y) => Some(y as int),
            None => None,
        },
        match d.month {
            Some(m) => Some(m as int),
            None => None,
        },
        match d.day {
            Some(x) => Some(x as int),
            None => None,
        },
    )
}

/// Ten to the power `n`.
spec fn pow10(n: int) -> int
    decreases n,
{
    if n <= 0 {
        1
    } else {
        10 * pow10(n - 1)
    }
}

proof fn lemma_pow10_small()
    ensures
        pow10(0) == 1,
        pow10(1) == 10,
        pow10(2) == 100,
        pow10(3) == 1000,
        pow10(4) == 10000,
{
    assert(pow10(0) == 1);
    assert(pow10(1) == 10);
    assert(pow10(2) == 100);
    assert(pow10(3) == 1000);
    assert(pow10(4) == 10000);
}

fn read_digits(s: &str, a: usize, b: usize) -> (r: Option<u16>)
    requires
        a <= b <= s@.len(),
        b - a <= 4,
    ensures
        r is Some <==> all_digits(s@, a as int, b as int),
        r matches Some(v) ==> v == digits_value(s@, a as int, b as int) && 0 <= v < pow10(
            b - a,
        ),
{
    proof {
        lemma_pow10_small();
    }
    let mut v: u32 = 0;
    let mut i = a;
    while i < b
        invariant
            a <= i <= b <= s@.len(),
            b - a <= 4,
            all_digits(s@, a as int, i as int),
            v == digits_value(s@, a as int, i as int),
            v < pow10(i - a),
            pow10(0) == 1 && pow10(1) == 10 && pow10(2) == 100 && pow10(3) == 1000 && pow10(4)
                == 10000,
        decreases b - i,
    {
        let c = s.get_char(i);
        if !('0' <= c && c <= '9') {
            return None;
        }
        assert(pow10(i - a + 1) == 10 * pow10(i - a));
        v = v * 10 + ((c as u32) - 48);
        i = i + 1;
    }
    Some(v as u16)
}

impl Date {
    /// Parses a date: `YYYYMMDD`, `YYYY-MM`, `--MMDD`, `---DD` or `YYYY`.
    /// A date that cannot exist fails with `InvalidDate`.
    pub fn parse(s: &str) -> (r: Result<Date, Error>)
        ensures
            r is Ok <==> (date_text_parts(s@) matches Some(p) && date_parts_valid(p.0, p.1, p.2)),
            r matches Ok(d) ==> date_text_parts(s@) == Some(date_parts(d)),
            r matches Err(e) ==> e matches Error::InvalidDate(t) && t@ == s@,
    {
        let n = s.unicode_len();
        let mut year: Option<u16> = None;
        let mut month: Option<u16> = None;
        let mut day: Option<u16> = None;
        if n == 8 {
            year = read_digits(s, 0, 4);
            month = read_digits(s, 4, 6);
            day = read_digits(s, 6, 8);
            if year.is_none() || month.is_none() || day.is_none() {
                return Err(Error::InvalidDate(s.to_owned()));
            }
        } else if n == 7 && s.get_char(4) == '-' {
            year = read_digits(s, 0, 4);
            month = read_digits(s, 5, 7);
            if year.is_none() || month.is_none() {
                return Err(Error::InvalidDate(s.to_owned()));
            }
        } else if n == 6 && s.get_char(0) == '-' && s.get_char(1) == '-' {
            month = read_digits(s, 2, 4);
            day = read_digits(s, 4, 6);
            if month.is_none() || day.is_none() {
                return Err(Error::InvalidDate(s.to_owned()));
            }
        } else if n == 5 && s.get_char(0) == '-' && s.get_char(1) == '-' && s.get_char(2) == '-' {
            day = read_digits(s, 3, 5);
            if day.is_none() {
                return Err(Error::InvalidDate(s.to_owned()));
            }
        } else if n == 4 {
            year = read_digits(s, 0, 4);
            if year.is_none() {
                return Err(Error::InvalidDate(s.to_owned()));
            }
        } else {
            return Err(Error::InvalidDate(s.to_owned()));
        }
        proof {
            lemma_pow10_small();
        }
        assert(n == 8 ==> all_digits(s@, 0, 8));
        let ok = match (year, month, day) {
            (Some(y), Some(m), Some(d)) => calendar_date(y as i32, m as u8, d as u8).is_ok(),
            (_, Some(m), Some(d)) => 1 <= m && m <= 12 && 1 <= d && (d as u8) <= if m == 2 {
                29
            } else if m == 4 || m == 6 || m == 9 || m == 11 {
                30
            } else {
                31
            },
            (_, Some(m), None) => 1 <= m && m <= 12,
            (_, None, Some(d)) => 1 <= d && d <= 31,
            _ => true,
        };
        if !ok {
            return Err(Error::InvalidDate(s.to_owned()));
        }
        Ok(
            Date {
                year,
                month: match month {
                    Some(m) => Some(m as u8),
                    None => None,
                },
                day: match day {
                    Some(d) => Some(d as u8),
                    None => None,
                },
            },
        )
    }
}

} // verus!

verus! {

proof fn lemma_digits_extend(s: Seq<char>, t: Seq<char>, a: int, b: int)
    requires
        0 <= a <= b <= s.len(),
    ensures
        digits_value(s + t, a, b) == digits_value(s, a, b),
        all_digits(s, a, b) ==> all_digits(s + t, a, b),
    decreases b - a,
{
    if a < b {
        lemma_digits_extend(s, t, a, b - 1);
        assert((s + t)[b - 1] == s[b - 1]);
    }
}

/// Appends `v` as two decimal digits.
pub(crate) fn push_two_digits(r: &mut String, v: u8)
    requires
        v < 100,
    ensures
        final(r)@.len() == old(r)@.len() + 2,
        final(r)@.subrange(0, old(r)@.len() as int) == old(r)@,
        all_digits(final(r)@, old(r)@.len() as int, old(r)@.len() as int + 2),
        digits_value(final(r)@, old(r)@.len() as int, old(r)@.len() as int + 2) == v,
{
    let ghost n = r@.len() as int;
    push_char(r, digit_char(v / 10));
    push_char(r, digit_char(v % 10));
    assert(digits_value(r@, n, n) == 0);
    assert(digits_value(r@, n, n + 1) == digit_value(r@[n]));
    assert(r@.subrange(0, n) =~= old(r)@);
}

/// Appends `v` as four decimal digits.
pub(crate) fn push_four_digits(r: &mut String, v: u16)
    requires
        v < 10000,
    ensures
        final(r)@.len() == old(r)@.len() + 4,
        final(r)@.subrange(0, old(r)@.len() as int) == old(r)@,
        all_digits(final(r)@, old(r)@.len() as int, old(r)@.len() as int + 4),
        digits_value(final(r)@, old(r)@.len() as int, old(r)@.len() as int + 4) == v,
{
    let ghost n = r@.len() as int;
    push_char(r, digit_char((v / 1000) as u8));
    push_char(r, digit_char(((v / 100) % 10) as u8));
    push_char(r, digit_char(((v / 10) % 10) as u8));
    push_char(r, digit_char((v % 10) as u8));
    assert(digits_value(r@, n, n) == 0);
    assert(digits_value(r@, n, n + 1) == digit_value(r@[n]));
    assert(digits_value(r@, n, n + 2) == 10 * digit_value(r@[n]) + digit_value(r@[n + 1]));
    assert(digits_value(r@, n, n + 3) == 10 * digits_value(r@, n, n + 2) + digit_value(r@[n + 2]));
    assert(r@.subrange(0, n) =~= old(r)@);
}

} // verus!

verus! {

/// Digits written earlier keep their value when more text follows.
pub(crate) proof fn lemma_digits_kept(old_s: Seq<char>, new_s: Seq<char>, a: int, b: int)
    requires
        0 <= a <= b <= old_s.len() <= new_s.len(),
        new_s.subrange(0, old_s.len() as int) == old_s,
    ensures
        digits_value(new_s, a, b) == digits_value(old_s, a, b),
        all_digits(old_s, a, b) ==> all_digits(new_s, a, b),
{
    let t = new_s.subrange(old_s.len() as int, new_s.len() as int);
    assert(new_s =~= old_s + t);
    lemma_digits_extend(old_s, t, a, b);
}

/// A prefix of a prefix is a prefix.
pub(crate) proof fn lemma_prefix_chain(a: Seq<char>, b: Seq<char>, c: Seq<char>)
    requires
        a.len() <= b.len() <= c.len(),
        b.subrange(0, a.len() as int) == a,
        c.subrange(0, b.len() as int) == b,
    ensures
        c.subrange(0, a.len() as int) == a,
{
    assert forall|j: int| 0 <= j < a.len() implies c.subrange(0, a.len() as int)[j] == a[j] by {
        assert(c.subrange(0, b.len() as int)[j] == c[j]);
        assert(b.subrange(0, a.len() as int)[j] == b[j]);
    }
    assert(c.subrange(0, a.len() as int) =~= a);
}

/// Whether a date has one of the written shapes (year, month and day;
/// year and month; month and day; day; year) with parts that fit their
/// digits.
pub open spec fn date_writable(d: Date) -> bool {
    &&& match (d.year, d.month, d.day) {
        (Some(_), Some(_), Some(_)) => true,
        (Some(_), Some(_), None) => true,
        (None, Some(_), Some(_)) => true,
        (None, None, Some(_)) => true,
        (Some(_), None, None) => true,
        _ => false,
    }
    &&& d.year matches Some(y) ==> y <= 9999
    &&& d.month matches Some(m) ==> m <= 99
    &&& d.day matches Some(x) ==> x <= 99
}

impl Date {
    /// Writes the date in the shape that its parts call for: `YYYYMMDD`,
    /// `YYYY-MM`, `--MMDD`, `---DD` or `YYYY`; a date of no such shape is
    /// written as empty text.
    pub fn to_string(&self) -> (r: String)
        ensures
            date_writable(*self) ==> date_text_parts(r@) == Some(date_parts(*self)),
            !date_writable(*self) ==> r@.len() == 0,
    {
        let mut r = String::new();
        match (self.year, self.month, self.day) {
            (Some(y), Some(m), Some(d)) => {
                if y <= 9999 && m <= 99 && d <= 99 {
                    push_four_digits(&mut r, y);
                    let ghost s4 = r@;
                    push_two_digits(&mut r, m);
                    let ghost s6 = r@;
                    push_two_digits(&mut r, d);
                    proof {
                        lemma_prefix_chain(s4, s6, r@);
                        lemma_digits_kept(s4, r@, 0, 4);
                        lemma_digits_kept(s6, r@, 4, 6);
                        assert(all_digits(r@, 0, 8));
                    }
                }
            },
            (Some(y), Some(m), None) => {
                if y <= 9999 && m <= 99 {
                    push_four_digits(&mut r, y);
                    let ghost s4 = r@;
                    push_char(&mut r, '-');
                    let ghost s5 = r@;
                    push_two_digits(&mut r, m);
                    proof {
                        assert(s5.subrange(0, 4) =~= s4);
                        lemma_prefix_chain(s4, s5, r@);
                        lemma_digits_kept(s4, r@, 0, 4);
                        assert(r@.subrange(0, 5)[4] == r@[4]);
                        assert(r@[4] == s5[4]);
                    }
                }
            },
            (None, Some(m), Some(d)) => {
                if m <= 99 && d <= 99 {
                    push_char(&mut r, '-');
                    push_char(&mut r, '-');
                    let ghost s2 = r@;
                    push_two_digits(&mut r, m);
                    let ghost s4 = r@;
                    push_two_digits(&mut r, d);
                    proof {
                        lemma_prefix_chain(s2, s4, r@);
                        lemma_digits_kept(s4, r@, 2, 4);
                        assert(r@.subrange(0, 2)[0] == r@[0] && r@.subrange(0, 2)[1] == r@[1]);
                        assert(all_digits(r@, 2, 6));
                    }
                }
            },
            (None, None, Some(d)) => {
                if d <= 99 {
                    push_char(&mut r, '-');
                    push_char(&mut r, '-');
                    push_char(&mut r, '-');
                    let ghost s3 = r@;
                    push_two_digits(&mut r, d);
                    proof {
                        assert(r@.subrange(0, 3)[0] == r@[0] && r@.subrange(0, 3)[1] == r@[1]
                            && r@.subrange(0, 3)[2] == r@[2]);
                    }
                }
            },
            (Some(y), None, None) => {
                if y <= 9999 {
                    push_four_digits(&mut r, y);
                }
            },
            _ => {},
        }
        r
    }
}

} // verus!
