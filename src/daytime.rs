//! Times of day, possibly partial, with an optional zone; and values that
//! are a date, a time, or both.

use vstd::prelude::*;

use crate::date::{
    all_digits, digits_value, lemma_digits_kept, lemma_prefix_chain, push_two_digits,
};
use crate::error::Error;
use crate::offset::{
    is_offset_text, is_text_of_offset, lemma_offset_round_trip, text_hour_count, text_hours, text_minute_count,
    text_minutes, UtcOffset, UtcOffsetProperty,
};
use crate::text::{is_digit, push_char, push_str};

verus! {

/// Relies on `time::Time::from_hms`: a time is accepted when the hour is
/// below 24, the minute below 60 and the second below 60.
#[verifier::external_body]
fn clock_time(hour: u8, minute: u8, second: u8) -> (r: Result<(), time::error::ComponentRange>)
    ensures
        r is Ok <==> (hour < 24 && minute < 60 && second < 60),
{
    time::Time::from_hms(hour, minute, second).map(|_| ())
}

/// The zone of a time.
#[derive(Debug, PartialEq, Eq, Clone, Copy)]
pub enum Zone {
    /// UTC, written `Z`.
    Utc,
    /// An offset from UTC, written `[+-]hhmm`.
    Offset(UtcOffset),
}

/// A time of day, any part of which may be left out, with an optional zone.
#[derive(Debug, PartialEq, Eq, Clone, Copy)]
pub struct Time {
    /// The hour.
    pub hour: Option<u8>,
    /// The minute.
    pub minute: Option<u8>,
    /// The second.
    pub second: Option<u8>,
    /// The zone, if written.
    pub zone: Option<Zone>,
}

/// A time text split into its clock part and its zone part: a zone, `Z` or
/// `[+-]hhmm`, may follow six digits.
pub open spec fn split_zone(s: Seq<char>) -> (Seq<char>, Option<Seq<char>>) {
    if s.len() == 7 && all_digits(s, 0, 6) && s[6] == 'Z' {
        (s.subrange(0, 6), Some(s.subrange(6, 7)))
    } else if s.len() == 11 && all_digits(s, 0, 6) && (s[6] == '+' || s[6] == '-') {
        (s.subrange(0, 6), Some(s.subrange(6, 11)))
    } else {
        (s, None)
    }
}

/// The hour, minute and second that a clock text writes, by its shape:
/// `hhmmss`, `hhmm`, `hh`, `-mmss` or `--ss`; `None` for any other shape.
pub open spec fn time_text_parts(s: Seq<char>) -> Option<(Option<int>, Option<int>, Option<int>)> {
    if s.len() == 6 && all_digits(s, 0, 6) {
        Some((Some(digits_value(s, 0, 2)), Some(digits_value(s, 2, 4)), Some(digits_value(s, 4, 6))))
    } else if s.len() == 4 && all_digits(s, 0, 4) {
        Some((Some(digits_value(s, 0, 2)), Some(digits_value(s, 2, 4)), None))
    } else if s.len() == 2 && all_digits(s, 0, 2) {
        Some((Some(digits_value(s, 0, 2)), None, None))
    } else if s.len() == 5 && s[0] == '-' && all_digits(s, 1, 5) {
        Some((None, Some(digits_value(s, 1, 3)), Some(digits_value(s, 3, 5))))
    } else if s.len() == 4 && s[0] == '-' && s[1] == '-' && all_digits(s, 2, 4) {
        Some((None, None, Some(digits_value(s, 2, 4))))
    } else {
        None
    }
}

/// Whether the parts name a time of day: hour below 24, minute and second
/// below 60.
pub open spec fn time_parts_valid(h: Option<int>, m: Option<int>, s: Option<int>) -> bool {
    &&& h matches Some(x) ==> x < 24
    &&& m matches Some(x) ==> x < 60
    &&& s matches Some(x) ==> x < 60
}

/// Whether a zone text is `Z`, or an offset that the calendar accepts.
pub open spec fn zone_text_valid(z: Seq<char>) -> bool {
    z == seq!['Z'] || (is_offset_text(z) && text_hour_count(z) <= 25 && text_minute_count(z) <= 59)
}

/// Whether `zone` is what the zone text `z` writes.
pub open spec fn zone_matches(zone: Option<Zone>, z: Option<Seq<char>>) -> bool {
    match z {
        None => zone is None,
        Some(t) => if t == seq!['Z'] {
            zone == Some(Zone::Utc)
        } else {
            zone matches Some(Zone::Offset(o)) && o@ == (text_hours(t), text_minutes(t))
        },
    }
}

/// Whether `z` is exactly the zone text that writes `zone`: none, `Z`, or
/// the offset's text with `+` for a zero offset.
pub open spec fn zone_written(zone: Option<Zone>, z: Option<Seq<char>>) -> bool {
    match zone {
        None => z is None,
        Some(Zone::Utc) => z == Some(seq!['Z']),
        Some(Zone::Offset(o)) => z matches Some(t) && is_text_of_offset(t, o@.0, o@.1),
    }
}

/// The parts of a time, as numbers.
pub open spec fn time_parts(t: Time) -> (Option<int>, Option<int>, Option<int>) {
    (
        match t.hour {
            Some(x) => Some(x as int),
            None => None,
        },
        match t.minute {
            Some(x) => Some(x as int),
            None => None,
        },
        match t.second {
            Some(x) => Some(x as int),
            None => None,
        },
    )
}

/// An optional small number, as an optional integer.
pub open spec fn opt_int(o: Option<u8>) -> Option<int> {
    match o {
        Some(x) => Some(x as int),
        None => None,
    }
}

/// Whether `s` is a time text that names a time of day.
pub open spec fn is_valid_time_text(s: Seq<char>) -> bool {
    let (base, z) = split_zone(s);
    &&& time_text_parts(base) matches Some(p) && time_parts_valid(p.0, p.1, p.2)
    &&& z matches Some(zt) ==> zone_text_valid(zt)
}

proof fn lemma_digits_prefix(s: Seq<char>, k: int, a: int, b: int)
    requires
        0 <= a <= b <= k <= s.len(),
    ensures
        digits_value(s.subrange(0, k), a, b) == digits_value(s, a, b),
        all_digits(s, a, b) ==> all_digits(s.subrange(0, k), a, b),
    decreases b - a,
{
    if a < b {
        lemma_digits_prefix(s, k, a, b - 1);
    }
}

fn two_digits(s: &str, a: usize) -> (r: Option<u8>)
    requires
        a <= 9,
        a + 2 <= s@.len(),
    ensures
        r is Some <==> all_digits(s@, a as int, a + 2),
        r matches Some(v) ==> v == digits_value(s@, a as int, a + 2),
{
    let c = s.get_char(a);
    let d = s.get_char(a + 1);
    if '0' <= c && c <= '9' && '0' <= d && d <= '9' {
        assert(digits_value(s@, a as int, a + 1) == digits_value(s@, a as int, a as int) * 10
            + (c as int - '0' as int));
        Some((10 * ((c as u32) - 48) + ((d as u32) - 48)) as u8)
    } else {
        assert(!is_digit(s@[a as int]) || !is_digit(s@[a + 1]));
        None
    }
}

impl Time {
    /// Parses a time: `hhmmss`, optionally followed by `Z` or `[+-]hhmm`;
    /// `hhmm`; `hh`; `-mmss`; or `--ss`. Any other text fails with
    /// `InvalidTime`, a time out of range with `InvalidTime` too.
    pub fn parse(s: &str) -> (r: Result<Time, Error>)
        ensures
            r is Ok <==> is_valid_time_text(s@),
            r matches Ok(t) ==> time_text_parts(split_zone(s@).0) == Some(time_parts(t))
                && zone_matches(t.zone, split_zone(s@).1),
            r matches Err(e) ==> e matches Error::InvalidTime(t) && t@ == s@,
    {
        let n = s.unicode_len();
        let mut hour: Option<u8> = None;
        let mut minute: Option<u8> = None;
        let mut second: Option<u8> = None;
        let mut zone: Option<Zone> = None;
        let ghost base = split_zone(s@).0;
        if n == 6 || n == 7 || n == 11 {
            hour = two_digits(s, 0);
            minute = two_digits(s, 2);
            second = two_digits(s, 4);
            if hour.is_none() || minute.is_none() || second.is_none() {
                return Err(Error::InvalidTime(s.to_owned()));
            }
            assert(all_digits(s@, 0, 6));
            proof {
                lemma_digits_prefix(s@, 6, 0, 2);
                lemma_digits_prefix(s@, 6, 2, 4);
                lemma_digits_prefix(s@, 6, 4, 6);
                lemma_digits_prefix(s@, 6, 0, 6);
            }
            if n == 6 {
                assert(base =~= s@.subrange(0, 6));
            } else if n == 7 {
                if s.get_char(6) != 'Z' {
                    return Err(Error::InvalidTime(s.to_owned()));
                }
                assert(s@.subrange(6, 7) =~= seq!['Z']);
                assert(base =~= s@.subrange(0, 6));
                zone = Some(Zone::Utc);
            } else if n == 11 {
                let c6 = s.get_char(6);
                if c6 != '+' && c6 != '-' {
                    return Err(Error::InvalidTime(s.to_owned()));
                }
                let ghost z = s@.subrange(6, 11);
                match crate::offset::UtcOffsetProperty::parse(s.substring_char(6, 11)) {
                    Ok(p) => {
                        zone = Some(Zone::Offset(p.value));
                    },
                    Err(_) => {
                        return Err(Error::InvalidTime(s.to_owned()));
                    },
                }
                assert(z != seq!['Z']) by {
                    assert(z.len() == 5);
                }
                assert(base =~= s@.subrange(0, 6));
            }
        } else if n == 4 && s.get_char(0) == '-' && s.get_char(1) == '-' {
            second = two_digits(s, 2);
            if second.is_none() {
                return Err(Error::InvalidTime(s.to_owned()));
            }
            assert(!is_digit(s@[0]));
            assert(base == s@);
        } else if n == 4 {
            hour = two_digits(s, 0);
            minute = two_digits(s, 2);
            if hour.is_none() || minute.is_none() {
                return Err(Error::InvalidTime(s.to_owned()));
            }
            assert(all_digits(s@, 0, 4));
        } else if n == 2 {
            hour = two_digits(s, 0);
            if hour.is_none() {
                return Err(Error::InvalidTime(s.to_owned()));
            }
        } else if n == 5 && s.get_char(0) == '-' {
            minute = two_digits(s, 1);
            second = two_digits(s, 3);
            if minute.is_none() || second.is_none() {
                return Err(Error::InvalidTime(s.to_owned()));
            }
            assert(all_digits(s@, 1, 5));
        } else {
            return Err(Error::InvalidTime(s.to_owned()));
        }
        let h = match hour {
            Some(x) => x,
            None => 0,
        };
        let m = match minute {
            Some(x) => x,
            None => 0,
        };
        let sec = match second {
            Some(x) => x,
            None => 0,
        };
        assert(time_text_parts(base) == Some((opt_int(hour), opt_int(minute), opt_int(second))));
        if clock_time(h, m, sec).is_err() {
            return Err(Error::InvalidTime(s.to_owned()));
        }
        Ok(Time { hour, minute, second, zone })
    }
}

} // verus!

verus! {

/// Whether a time has one of the written shapes (hour, minute and second;
/// hour and minute; hour; minute and second; second) with parts that fit
/// two digits, and a zone only with all three parts.
pub open spec fn time_writable(t: Time) -> bool {
    &&& match (t.hour, t.minute, t.second) {
        (Some(_), Some(_), Some(_)) => true,
        (Some(_), Some(_), None) => t.zone is None,
        (Some(_), None, None) => t.zone is None,
        (None, Some(_), Some(_)) => t.zone is None,
        (None, None, Some(_)) => t.zone is None,
        _ => false,
    }
    &&& t.hour matches Some(x) ==> x <= 99
    &&& t.minute matches Some(x) ==> x <= 99
    &&& t.second matches Some(x) ==> x <= 99
}

impl Time {
    /// Writes the time in the shape that its parts call for: `hhmmss` with
    /// its zone, `hhmm`, `hh`, `-mmss` or `--ss`; a time of no such shape
    /// is written as empty text.
    pub fn to_string(&self) -> (r: String)
        ensures
            time_writable(*self) ==> time_text_parts(split_zone(r@).0) == Some(time_parts(*self))
                && zone_matches(self.zone, split_zone(r@).1),
            time_writable(*self) ==> zone_written(self.zone, split_zone(r@).1),
            !time_writable(*self) ==> r@.len() == 0,
    {
        let mut r = String::new();
        if !(match self.hour {
            Some(x) => x <= 99,
            None => true,
        } && match self.minute {
            Some(x) => x <= 99,
            None => true,
        } && match self.second {
            Some(x) => x <= 99,
            None => true,
        }) {
            return r;
        }
        match (self.hour, self.minute, self.second) {
            (Some(h), Some(m), Some(s)) => {
                push_two_digits(&mut r, h);
                let ghost s2 = r@;
                push_two_digits(&mut r, m);
                let ghost s4 = r@;
                push_two_digits(&mut r, s);
                let ghost s6 = r@;
                proof {
                    lemma_prefix_chain(s2, s4, s6);
                    lemma_digits_kept(s2, s6, 0, 2);
                    lemma_digits_kept(s4, s6, 2, 4);
                    assert(all_digits(s6, 0, 6));
                }
                match self.zone {
                    None => {
                        assert(split_zone(r@).0 == r@);
                    },
                    Some(Zone::Utc) => {
                        push_char(&mut r, 'Z');
                        proof {
                            assert(r@.subrange(0, 6) =~= s6);
                            lemma_digits_kept(s6, r@, 0, 6);
                            lemma_digits_prefix(r@, 6, 0, 2);
                            lemma_digits_prefix(r@, 6, 2, 4);
                            lemma_digits_prefix(r@, 6, 4, 6);
                            lemma_digits_prefix(r@, 6, 0, 6);
                            assert(r@.subrange(6, 7) =~= seq!['Z']);
                        }
                    },
                    Some(Zone::Offset(o)) => {
                        // The offset getter brings the offset's range into the proof.
                        let _ = o.hours();
                        let z = UtcOffsetProperty { group: None, value: o, parameters: None }.to_string();
                        push_str(&mut r, z.as_str());
                        proof {
                            assert(r@.subrange(0, 6) =~= s6);
                            lemma_digits_kept(s6, r@, 0, 6);
                            lemma_digits_prefix(r@, 6, 0, 2);
                            lemma_digits_prefix(r@, 6, 2, 4);
                            lemma_digits_prefix(r@, 6, 4, 6);
                            lemma_digits_prefix(r@, 6, 0, 6);
                            assert(r@.subrange(6, 11) =~= z@);
                            lemma_offset_round_trip(o, z@);
                            assert(z@ != seq!['Z']) by {
                                assert(z@.len() == 5);
                            }
                        }
                    },
                }
            },
            (Some(h), Some(m), None) => {
                if self.zone.is_none() {
                    push_two_digits(&mut r, h);
                    let ghost s2 = r@;
                    push_two_digits(&mut r, m);
                    proof {
                        lemma_digits_kept(s2, r@, 0, 2);
                        assert(all_digits(r@, 0, 4));
                    }
                }
            },
            (Some(h), None, None) => {
                if self.zone.is_none() {
                    push_two_digits(&mut r, h);
                }
            },
            (None, Some(m), Some(s)) => {
                if self.zone.is_none() {
                    push_char(&mut r, '-');
                    let ghost s1 = r@;
                    push_two_digits(&mut r, m);
                    let ghost s3 = r@;
                    push_two_digits(&mut r, s);
                    proof {
                        lemma_prefix_chain(s1, s3, r@);
                        lemma_digits_kept(s3, r@, 1, 3);
                        assert(r@.subrange(0, 1)[0] == r@[0]);
                        assert(all_digits(r@, 1, 5));
                    }
                }
            },
            (None, None, Some(s)) => {
                if self.zone.is_none() {
                    push_char(&mut r, '-');
                    push_char(&mut r, '-');
                    let ghost s2 = r@;
                    push_two_digits(&mut r, s);
                    proof {
                        assert(r@.subrange(0, 2)[0] == r@[0] && r@.subrange(0, 2)[1] == r@[1]);
                    }
                }
            },
            _ => {},
        }
        r
    }
}

} // verus!
