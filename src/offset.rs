//! UTC offsets, as written `[+-]hhmm`.

use vstd::prelude::*;

use crate::error::Error;
use crate::parameter::Parameters;
use crate::text::{digit_char, digit_value, is_digit, push_char};

verus! {

/// Whether hours and minutes make an offset that the calendar accepts:
/// hours within 25, minutes within 59, and no two opposite signs.
pub open spec fn offset_in_range(h: int, m: int) -> bool {
    -25 <= h <= 25 && -59 <= m <= 59 && (h > 0 ==> m >= 0) && (h < 0 ==> m <= 0)
}

/// Relies on `time::UtcOffset::from_hms` with zero seconds, read back with
/// `UtcOffset::as_hms`: hours in `-25..=25` and minutes in `-59..=59` are
/// accepted, and minutes whose sign differs from a nonzero hour are negated.
#[verifier::external_body]
fn calendar_offset(hours: i8, minutes: i8) -> (r: Result<(i8, i8), time::error::ComponentRange>)
    ensures
        r is Ok <==> (-25 <= hours <= 25 && -59 <= minutes <= 59),
        r matches Ok(hm) ==> hm.0 == hours && hm.1 == (if (hours > 0 && minutes < 0) || (
        hours < 0 && minutes > 0) {
            -minutes
        } else {
            minutes as int
        }),
{
    time::UtcOffset::from_hms(hours, minutes, 0).map(|o| {
        let (h, m, _) = o.as_hms();
        (h, m)
    })
}

/// An offset from UTC in hours and minutes, both of one sign.
#[derive(Debug, PartialEq, Eq, Clone, Copy)]
pub struct UtcOffset {
    hours: i8,
    minutes: i8,
}

impl View for UtcOffset {
    type V = (int, int);

    closed spec fn view(&self) -> (int, int) {
        (self.hours as int, self.minutes as int)
    }
}

impl UtcOffset {
    #[verifier::type_invariant]
    spec fn in_range(self) -> bool {
        offset_in_range(self.hours as int, self.minutes as int)
    }

    /// Makes the offset of the given hours and minutes; minutes whose sign
    /// differs from a nonzero hour are negated.
    pub fn from_hm(hours: i8, minutes: i8) -> (r: Result<UtcOffset, Error>)
        ensures
            r is Ok <==> (-25 <= hours <= 25 && -59 <= minutes <= 59),
            r matches Ok(o) ==> o@.0 == hours && o@.1 == (if (hours > 0 && minutes < 0) || (
            hours < 0 && minutes > 0) {
                -minutes
            } else {
                minutes as int
            }),
            r matches Err(e) ==> e is ComponentRange,
    {
        match calendar_offset(hours, minutes) {
            Ok(hm) => Ok(UtcOffset { hours: hm.0, minutes: hm.1 }),
            Err(e) => Err(Error::ComponentRange(e)),
        }
    }

    /// The hours of the offset; every offset lies in the range that the
    /// calendar accepts.
    pub fn hours(&self) -> (r: i8)
        ensures
            r == self@.0,
            offset_in_range(self@.0, self@.1),
    {
        proof {
            use_type_invariant(self);
        }
        self.hours
    }

    /// The minutes of the offset; every offset lies in the range that the
    /// calendar accepts.
    pub fn minutes(&self) -> (r: i8)
        ensures
            r == self@.1,
            offset_in_range(self@.0, self@.1),
    {
        proof {
            use_type_invariant(self);
        }
        self.minutes
    }
}

/// Whether `s` has the shape `[+-]` followed by four decimal digits.
pub open spec fn is_offset_text(s: Seq<char>) -> bool {
    &&& s.len() == 5
    &&& s[0] == '+' || s[0] == '-'
    &&& is_digit(s[1]) && is_digit(s[2]) && is_digit(s[3]) && is_digit(s[4])
}

/// The two-digit hour count written in an offset text, without its sign.
pub open spec fn text_hour_count(s: Seq<char>) -> int {
    10 * digit_value(s[1]) + digit_value(s[2])
}

/// The two-digit minute count written in an offset text, without its sign.
pub open spec fn text_minute_count(s: Seq<char>) -> int {
    10 * digit_value(s[3]) + digit_value(s[4])
}

/// The signed hours written in an offset text.
pub open spec fn text_hours(s: Seq<char>) -> int {
    if s[0] == '-' {
        -text_hour_count(s)
    } else {
        text_hour_count(s)
    }
}

/// The signed minutes written in an offset text.
pub open spec fn text_minutes(s: Seq<char>) -> int {
    if s[0] == '-' {
        -text_minute_count(s)
    } else {
        text_minute_count(s)
    }
}

/// Whether `s` is the text of the offset `(h, m)`: a `-` when either part is
/// negative and `+` otherwise, then the two parts zero-padded to two digits.
pub open spec fn is_text_of_offset(s: Seq<char>, h: int, m: int) -> bool {
    &&& is_offset_text(s)
    &&& s[0] == (if h < 0 || m < 0 {
        '-'
    } else {
        '+'
    })
    &&& text_hour_count(s) == (if h < 0 {
        -h
    } else {
        h
    })
    &&& text_minute_count(s) == (if m < 0 {
        -m
    } else {
        m
    })
}

/// Value for a UTC offset property.
#[derive(Debug, PartialEq, Clone)]
pub struct UtcOffsetProperty {
    /// Group for this property.
    pub group: Option<String>,
    /// The value for the UTC offset.
    pub value: UtcOffset,
    /// The parameters for the property.
    pub parameters: Option<Parameters>,
}

impl UtcOffsetProperty {
    /// Parses a UTC offset `[+-]hhmm`; the hours must be at most 25 and the
    /// minutes at most 59.
    pub fn parse(s: &str) -> (r: Result<UtcOffsetProperty, Error>)
        ensures
            r is Ok <==> (is_offset_text(s@) && text_hour_count(s@) <= 25 && text_minute_count(s@)
                <= 59),
            match r {
                Ok(p) => p.value@ == (text_hours(s@), text_minutes(s@)) && p.group is None
                    && p.parameters is None,
                Err(Error::InvalidUtcOffset(t)) => t@ == s@ && !is_offset_text(s@),
                Err(Error::ComponentRange(_)) => is_offset_text(s@),
                Err(_) => false,
            },
    {
        if s.unicode_len() != 5 {
            return Err(Error::InvalidUtcOffset(s.to_owned()));
        }
        let c0 = s.get_char(0);
        let c1 = s.get_char(1);
        let c2 = s.get_char(2);
        let c3 = s.get_char(3);
        let c4 = s.get_char(4);
        if !(c0 == '+' || c0 == '-') || !('0' <= c1 && c1 <= '9') || !('0' <= c2 && c2 <= '9')
            || !('0' <= c3 && c3 <= '9') || !('0' <= c4 && c4 <= '9') {
            return Err(Error::InvalidUtcOffset(s.to_owned()));
        }
        let hh: i8 = (10 * ((c1 as u32) - 48) + ((c2 as u32) - 48)) as i8;
        let mm: i8 = (10 * ((c3 as u32) - 48) + ((c4 as u32) - 48)) as i8;
        let (h, m) = if c0 == '-' {
            (-hh, -mm)
        } else {
            (hh, mm)
        };
        match UtcOffset::from_hm(h, m) {
            Ok(value) => Ok(UtcOffsetProperty { group: None, value, parameters: None }),
            Err(e) => Err(e),
        }
    }

    /// The text of the offset: sign, then hours and minutes as two digits each.
    pub fn to_string(&self) -> (r: String)
        ensures
            is_text_of_offset(r@, self.value@.0, self.value@.1),
    {
        let h = self.value.hours();
        let m = self.value.minutes();
        let ah: u8 = if h < 0 {
            (-h) as u8
        } else {
            h as u8
        };
        let am: u8 = if m < 0 {
            (-m) as u8
        } else {
            m as u8
        };
        let mut r = String::new();
        push_char(&mut r, if h < 0 || m < 0 { '-' } else { '+' });
        push_char(&mut r, digit_char(ah / 10));
        push_char(&mut r, digit_char(ah % 10));
        push_char(&mut r, digit_char(am / 10));
        push_char(&mut r, digit_char(am % 10));
        r
    }
}

impl std::str::FromStr for UtcOffsetProperty {
    type Err = Error;

    fn from_str(s: &str) -> (r: Result<UtcOffsetProperty, Error>)
        ensures
            r is Ok <==> (is_offset_text(s@) && text_hour_count(s@) <= 25 && text_minute_count(s@)
                <= 59),
            match r {
                Ok(p) => p.value@ == (text_hours(s@), text_minutes(s@)) && p.group is None
                    && p.parameters is None,
                Err(Error::InvalidUtcOffset(t)) => t@ == s@ && !is_offset_text(s@),
                Err(Error::ComponentRange(_)) => is_offset_text(s@),
                Err(_) => false,
            },
    {
        UtcOffsetProperty::parse(s)
    }
}

/// Reading back the text of an offset gives the same hours and minutes, and
/// the text is accepted.
pub proof fn lemma_offset_round_trip(o: UtcOffset, s: Seq<char>)
    requires
        offset_in_range(o@.0, o@.1),
        is_text_of_offset(s, o@.0, o@.1),
    ensures
        is_offset_text(s),
        text_hour_count(s) <= 25,
        text_minute_count(s) <= 59,
        text_hours(s) == o@.0,
        text_minutes(s) == o@.1,
{
}

} // verus!
