//! The content-line lexer: splits one logical line into group, name,
//! parameters and raw value.

use vstd::prelude::*;

use crate::card::ContentLine;
use crate::error::Error;
use crate::parameter::pair_views;
use crate::property::opt_view;
use crate::text::{push_char, str_equals};

verus! {

/// Whether `c` is a control character that a line may not hold outside
/// quotes: below 0x20, horizontal tab aside.
pub open spec fn is_control(c: char) -> bool {
    (c as u32) < 0x20 && c != '\t'
}

/// How many double quotes stand before index `i` of `s`.
pub open spec fn quotes_before(s: Seq<char>, i: int) -> nat
    decreases i,
{
    if i <= 0 {
        0
    } else {
        quotes_before(s, i - 1) + if s[i - 1] == '"' {
            1nat
        } else {
            0nat
        }
    }
}

/// Whether index `i` of `s` lies outside double quotes.
pub open spec fn unquoted(s: Seq<char>, i: int) -> bool {
    quotes_before(s, i) % 2 == 0
}

/// Whether `s` holds a control character outside double quotes.
pub open spec fn has_bare_control(s: Seq<char>) -> bool {
    exists|i: int| 0 <= i < s.len() && is_control(s[i]) && unquoted(s, i)
}

/// Whether index `c` of `s` is the first colon outside double quotes.
pub open spec fn is_first_bare_colon(s: Seq<char>, c: int) -> bool {
    &&& 0 <= c < s.len()
    &&& s[c] == ':' && unquoted(s, c)
    &&& forall|j: int| 0 <= j < c ==> !(s[j] == ':' && unquoted(s, j))
}

/// Whether `s` holds a colon outside double quotes.
pub open spec fn has_bare_colon(s: Seq<char>) -> bool {
    exists|c: int| 0 <= c < s.len() && s[c] == ':' && unquoted(s, c)
}

/// The upper-case form of an ASCII letter; other characters unchanged.
pub open spec fn upper_char(c: char) -> char {
    if 'a' <= c && c <= 'z' {
        ((c as u32 - 32) as u8) as char
    } else {
        c
    }
}

/// Whether `c` may stand in a name or a group: a letter, a digit or `-`.
pub open spec fn is_name_char(c: char) -> bool {
    ('a' <= c && c <= 'z') || ('A' <= c && c <= 'Z') || ('0' <= c && c <= '9') || c == '-'
}

/// Whether `s` is a name in upper case: non-empty, of name characters.
pub open spec fn is_upper_name(s: Seq<char>) -> bool {
    s.len() > 0 && forall|j: int|
        0 <= j < s.len() ==> is_name_char(#[trigger] s[j]) && !('a' <= s[j] && s[j] <= 'z')
}

fn to_upper(c: char) -> (r: char)
    ensures
        r == upper_char(c),
{
    if 'a' <= c && c <= 'z' {
        ((c as u8) - 32) as char
    } else {
        c
    }
}

/// Finds the first colon outside quotes, failing on a control character
/// outside quotes.
fn scan_line(s: &str) -> (r: Result<usize, Error>)
    ensures
        r matches Err(Error::ControlCharacter(_)) <==> has_bare_control(s@),
        r matches Ok(c) ==> is_first_bare_colon(s@, c as int) && !has_bare_control(s@),
        r matches Err(e) ==> (e is ControlCharacter || (e is DelimiterExpected && !has_bare_colon(
            s@,
        ))),
{
    let n = s.unicode_len();
    let mut i: usize = 0;
    let mut in_quotes = false;
    let mut colon: Option<usize> = None;
    while i < n
        invariant
            n == s@.len(),
            i <= n,
            in_quotes == !unquoted(s@, i as int),
            forall|j: int| 0 <= j < i ==> !(is_control(s@[j]) && unquoted(s@, j)),
            match colon {
                Some(c) => is_first_bare_colon(s@, c as int) && c < i,
                None => forall|j: int| 0 <= j < i ==> !(s@[j] == ':' && unquoted(s@, j)),
            },
        decreases n - i,
    {
        let c = s.get_char(i);
        if !in_quotes && (c as u32) < 0x20 && c != '\t' {
            let mut t = String::new();
            push_char(&mut t, c);
            return Err(Error::ControlCharacter(t));
        }
        if !in_quotes && c == ':' && colon.is_none() {
            colon = Some(i);
        }
        if c == '"' {
            in_quotes = !in_quotes;
        }
        i = i + 1;
    }
    match colon {
        Some(c) => Ok(c),
        None => Err(Error::DelimiterExpected),
    }
}

/// Whether `name` is one of the parameter names that the library knows.
pub open spec fn is_known_parameter_name(name: Seq<char>) -> bool {
    name == "LANGUAGE"@ || name == "VALUE"@ || name == "PREF"@ || name == "ALTID"@ || name == "PID"@
        || name == "TYPE"@ || name == "MEDIATYPE"@ || name == "CALSCALE"@ || name == "SORT-AS"@
        || name == "GEO"@ || name == "TZ"@ || name == "LABEL"@ || name == "CC"@ || name == "INDEX"@
        || name == "LEVEL"@ || name == "CHARSET"@
}

/// Whether `name` begins with `X-`, the mark of an extension name.
pub open spec fn is_extension_text(name: Seq<char>) -> bool {
    name.len() >= 2 && name[0] == 'X' && name[1] == '-'
}

fn is_known_parameter(name: &str) -> (r: bool)
    ensures
        r == is_known_parameter_name(name@),
{
    str_equals(name, "LANGUAGE") || str_equals(name, "VALUE") || str_equals(name, "PREF")
        || str_equals(name, "ALTID") || str_equals(name, "PID") || str_equals(name, "TYPE")
        || str_equals(name, "MEDIATYPE") || str_equals(name, "CALSCALE") || str_equals(
        name,
        "SORT-AS",
    ) || str_equals(name, "GEO") || str_equals(name, "TZ") || str_equals(name, "LABEL")
        || str_equals(name, "CC") || str_equals(name, "INDEX") || str_equals(name, "LEVEL")
        || str_equals(name, "CHARSET")
}

/// How many name characters stand in `s` from `i`, before `end`.
pub open spec fn name_len(s: Seq<char>, i: int, end: int) -> nat
    decreases end - i,
{
    if 0 <= i < end && i < s.len() && is_name_char(s[i]) {
        1 + name_len(s, i + 1, end)
    } else {
        0
    }
}

/// How many characters other than `ch` stand in `s` from `i`, before `end`.
pub open spec fn scan_len(s: Seq<char>, i: int, end: int, ch: char) -> nat
    decreases end - i,
{
    if 0 <= i < end && i < s.len() && s[i] != ch {
        1 + scan_len(s, i + 1, end, ch)
    } else {
        0
    }
}

/// A lexed line as plain values: group, name, parameters, value.
pub type LineView = (Option<Seq<char>>, Seq<char>, Seq<(Seq<char>, Seq<char>)>, Seq<char>);

/// The parameters of a header that starts at `p` and ends at the colon `c`:
/// each `;`, a known or `X-` name, `=`, and a value that is either quoted
/// (the quotes taken off) or runs to the next `;`. `None` when the header
/// breaks that shape.
pub open spec fn lex_params(s: Seq<char>, p: int, c: int) -> Option<
    Seq<(Seq<char>, Seq<char>)>,
>
    decreases c - p,
{
    if p < 0 || p >= c {
        Some(Seq::empty())
    } else if s[p] != ';' {
        None
    } else {
        let q = p + 1 + name_len(s, p + 1, c);
        let pn = upper_line(s.subrange(p + 1, q));
        if q == p + 1 || q >= c || s[q] != '=' || !(is_known_parameter_name(pn)
            || is_extension_text(pn)) {
            None
        } else if q + 1 < c && s[q + 1] == '"' {
            let e = q + 2 + scan_len(s, q + 2, c, '"');
            if e >= c {
                None
            } else {
                match lex_params(s, e + 1, c) {
                    Some(rest) => Some(seq![(pn, s.subrange(q + 2, e))] + rest),
                    None => None,
                }
            }
        } else {
            let e = q + 1 + scan_len(s, q + 1, c, ';');
            if e > c {
                None
            } else {
                match lex_params(s, e, c) {
                    Some(rest) => Some(seq![(pn, s.subrange(q + 1, e))] + rest),
                    None => None,
                }
            }
        }
    }
}

/// The line that `s` lexes to, or `None` when it is no content line: it
/// has no control character outside quotes and a colon outside quotes;
/// before that colon stand an optional group and `.`, a non-empty name, and
/// parameters; the value is the rest after the colon. Names are read in
/// upper case.
pub open spec fn lex_line(s: Seq<char>) -> Option<LineView> {
    if has_bare_control(s) || !has_bare_colon(s) {
        None
    } else {
        let c = choose|c: int| is_first_bare_colon(s, c);
        let k = name_len(s, 0, c) as int;
        let dotted = k < c && s[k] == '.';
        let st = if dotted {
            k + 1
        } else {
            0
        };
        let group = if dotted {
            Some(upper_line(s.subrange(0, k)))
        } else {
            None
        };
        let nl = name_len(s, st, c) as int;
        if nl == 0 || (dotted && k == 0) {
            None
        } else {
            match lex_params(s, st + nl, c) {
                None => None,
                Some(ps) => Some(
                    (group, upper_line(s.subrange(st, st + nl)), ps, s.subrange(c + 1, s.len() as int)),
                ),
            }
        }
    }
}

/// A content line as plain values.
pub open spec fn line_view(l: ContentLine) -> LineView {
    (opt_view(l.group), l.name@, pair_views(l.parameters@), l.value@)
}

fn name_char(c: char) -> (r: bool)
    ensures
        r == is_name_char(c),
{
    ('a' <= c && c <= 'z') || ('A' <= c && c <= 'Z') || ('0' <= c && c <= '9') || c == '-'
}

/// Reads a name token of `s` from `start` up to the first character that
/// cannot stand in a name, in upper case.
fn read_name(s: &str, start: usize, end: usize) -> (r: (String, usize))
    requires
        start <= end <= s@.len(),
    ensures
        start <= r.1 <= end,
        r.0@.len() == r.1 - start,
        forall|j: int| 0 <= j < r.0@.len() ==> #[trigger] r.0@[j] == upper_char(s@[start + j])
            && is_name_char(s@[start + j]),
        r.1 < end ==> !is_name_char(s@[r.1 as int]),
        r.1 == start + name_len(s@, start as int, end as int),
{
    let mut t = String::new();
    let mut i = start;
    while i < end && name_char(s.get_char(i))
        invariant
            start <= i <= end <= s@.len(),
            name_len(s@, start as int, end as int) == (i - start) + name_len(
                s@,
                i as int,
                end as int,
            ),
            t@.len() == i - start,
            forall|j: int| 0 <= j < t@.len() ==> #[trigger] t@[j] == upper_char(s@[start + j])
                && is_name_char(s@[start + j]),
        decreases end - i,
    {
        let c = s.get_char(i);
        let ghost before = t@;
        push_char(&mut t, to_upper(c));
        assert forall|j: int| 0 <= j < t@.len() implies #[trigger] t@[j] == upper_char(
            s@[start + j],
        ) && is_name_char(s@[start + j]) by {
            if j < before.len() {
                assert(t@[j] == before[j]);
            }
        }
        i = i + 1;
    }
    assert(name_len(s@, i as int, end as int) == 0);
    (t, i)
}

/// Whether `t` begins with `X-`.
pub(crate) fn is_extension_name(t: &str) -> (r: bool)
    ensures
        r == is_extension_text(t@),
{
    t.unicode_len() >= 2 && t.get_char(0) == 'X' && t.get_char(1) == '-'
}

/// What a lexed line states of the text it came from: the group, if any,
/// and the name are the leading name tokens in upper case; parameter names
/// are names in upper case, each known or an extension; and the value is
/// the text after the first colon outside quotes.
pub open spec fn lexed_from(l: ContentLine, s: Seq<char>) -> bool {
    &&& is_upper_name(l.name@)
    &&& l.group matches Some(g) ==> is_upper_name(g@)
    &&& match l.group {
        None => l.name@ == upper_line(s.subrange(0, l.name@.len() as int)),
        Some(g) => {
            &&& g@ == upper_line(s.subrange(0, g@.len() as int))
            &&& s[g@.len() as int] == '.'
            &&& l.name@ == upper_line(s.subrange(g@.len() as int + 1, g@.len() + 1 + l.name@.len() as int))
        },
    }
    &&& forall|k: int|
        0 <= k < l.parameters@.len() ==> is_upper_name(#[trigger] l.parameters@[k].0@) && (
        is_known_parameter_name(l.parameters@[k].0@) || is_extension_text(l.parameters@[k].0@))
    &&& exists|c: int| is_first_bare_colon(s, c) && l.value@ == s.subrange(c + 1, s.len() as int)
}

impl ContentLine {
    /// Lexes one logical line `[group "."] name *(";" param "=" value) ":"
    /// value`. Names are read in upper case; a parameter value may be
    /// enclosed in double quotes, which are taken off.
    pub fn parse(s: &str) -> (r: Result<ContentLine, Error>)
        ensures
            r matches Err(Error::ControlCharacter(_)) <==> has_bare_control(s@),
            !has_bare_control(s@) && !has_bare_colon(s@) ==> r matches Err(
                Error::DelimiterExpected,
            ),
            r matches Ok(l) ==> lexed_from(l, s@),
            r is Ok <==> lex_line(s@) is Some,
            r matches Ok(l) ==> lex_line(s@) == Some(line_view(l)),
    {
        let c = match scan_line(s) {
            Ok(c) => c,
            Err(e) => {
                return Err(e);
            },
        };
        proof {
            let c2 = choose|c2: int| is_first_bare_colon(s@, c2);
            if c2 < c {
                assert(!(s@[c2] == ':' && unquoted(s@, c2)));
            } else if c2 > c {
                assert(!(s@[c as int] == ':' && unquoted(s@, c as int)));
            }
        }
        let n = s.unicode_len();
        let (first, k) = read_name(s, 0, c);
        assert(first@ =~= upper_line(s@.subrange(0, first@.len() as int)));
        let (group, name, mut p) = if k < c && s.get_char(k) == '.' {
            let (second, k2) = read_name(s, k + 1, c);
            assert(second@ =~= upper_line(s@.subrange(k + 1, k + 1 + second@.len())));
            (Some(first), second, k2)
        } else {
            (None, first, k)
        };
        let ghost chosen = choose|c2: int| is_first_bare_colon(s@, c2);
        assert(chosen == c as int);
        assert(k as int == name_len(s@, 0, c as int));
        if name.as_str().unicode_len() == 0 {
            assert(lex_line(s@) is None);
            return Err(Error::IncorrectToken(s.substring_char(0, c).to_owned()));
        }
        match &group {
            Some(g) => {
                if g.as_str().unicode_len() == 0 {
                    assert(lex_line(s@) is None);
                    return Err(Error::IncorrectToken(s.substring_char(0, c).to_owned()));
                }
            },
            None => {},
        }
        let mut parameters: Vec<(String, String)> = Vec::new();
        let ghost p0 = p as int;
        assert(lex_line(s@) == match lex_params(s@, p0, c as int) {
            None => None,
            Some(ps) => Some((opt_view(group), name@, ps, s@.subrange(c + 1, s@.len() as int))),
        });
        assert(pair_views(parameters@) + Seq::<(Seq<char>, Seq<char>)>::empty() =~= Seq::<(Seq<char>, Seq<char>)>::empty());
        while p < c
            invariant
                n == s@.len(),
                p <= c < n,
                p0 <= p,
                lex_line(s@) == match lex_params(s@, p0, c as int) {
                    None => None,
                    Some(ps) => Some(
                        (opt_view(group), name@, ps, s@.subrange(c + 1, s@.len() as int)),
                    ),
                },
                lex_params(s@, p0, c as int) == match lex_params(s@, p as int, c as int) {
                    Some(rest) => Some(pair_views(parameters@) + rest),
                    None => None,
                },
                is_first_bare_colon(s@, c as int),
                !has_bare_control(s@),
                match group {
                    None => name@ == upper_line(s@.subrange(0, name@.len() as int)),
                    Some(g) => {
                        &&& g@ == upper_line(s@.subrange(0, g@.len() as int))
                        &&& s@[g@.len() as int] == '.'
                        &&& name@ == upper_line(
                            s@.subrange(g@.len() as int + 1, g@.len() + 1 + name@.len() as int),
                        )
                    },
                },
                forall|k: int|
                    0 <= k < parameters@.len() ==> is_upper_name(#[trigger] parameters@[k].0@) && (
                    is_known_parameter_name(parameters@[k].0@) || is_extension_text(
                        parameters@[k].0@,
                    )),
            decreases c - p,
        {
            let ghost old_p = p as int;
            let ghost old_params = pair_views(parameters@);
            if s.get_char(p) != ';' {
                return Err(Error::IncorrectToken(s.substring_char(0, c).to_owned()));
            }
            let ghost st = p + 1;
            let (pname, q) = read_name(s, p + 1, c);
            assert(pname@ =~= upper_line(s@.subrange(st as int, q as int)));
            if pname.as_str().unicode_len() == 0 {
                return Err(Error::IncorrectToken(s.substring_char(0, c).to_owned()));
            }
            if q >= c || s.get_char(q) != '=' {
                return Err(Error::DelimiterExpected);
            }
            if !is_known_parameter(pname.as_str()) && !is_extension_name(pname.as_str()) {
                return Err(Error::UnknownParameter(pname));
            }
            let value;
            if q + 1 < c && s.get_char(q + 1) == '"' {
                let mut e = q + 2;
                while e < c && s.get_char(e) != '"'
                    invariant
                        q + 2 <= e <= c,
                        c < n,
                        n == s@.len(),
                        scan_len(s@, q + 2, c as int, '"') == (e - (q + 2)) + scan_len(
                            s@,
                            e as int,
                            c as int,
                            '"',
                        ),
                    decreases c - e,
                {
                    e = e + 1;
                }
                assert(scan_len(s@, e as int, c as int, '"') == 0);
                if e >= c {
                    return Err(Error::DelimiterExpected);
                }
                value = s.substring_char(q + 2, e).to_owned();
                p = e + 1;
            } else {
                let mut e = q + 1;
                while e < c && s.get_char(e) != ';'
                    invariant
                        q + 1 <= e <= c,
                        c < n,
                        n == s@.len(),
                        scan_len(s@, q + 1, c as int, ';') == (e - (q + 1)) + scan_len(
                            s@,
                            e as int,
                            c as int,
                            ';',
                        ),
                    decreases c - e,
                {
                    e = e + 1;
                }
                assert(scan_len(s@, e as int, c as int, ';') == 0);
                value = s.substring_char(q + 1, e).to_owned();
                p = e;
            }
            assert forall|j: int| 0 <= j < pname@.len() implies is_name_char(#[trigger] pname@[j])
                && !('a' <= pname@[j] && pname@[j] <= 'z') by {
                assert(pname@[j] == upper_char(s@[st + j]));
            }
            let ghost pv = (pname@, value@);
            parameters.push((pname, value));
            assert(pair_views(parameters@) =~= old_params.push(pv));
            assert(lex_params(s@, old_p, c as int) == match lex_params(s@, p as int, c as int) {
                Some(rest) => Some(seq![pv] + rest),
                None => None,
            });
            assert forall|rest: Seq<(Seq<char>, Seq<char>)>| old_params + (seq![pv] + rest)
                =~= pair_views(parameters@) + rest by {}
        }
        assert(lex_params(s@, p as int, c as int) == Some(Seq::<(Seq<char>, Seq<char>)>::empty()));
        assert(pair_views(parameters@) + Seq::<(Seq<char>, Seq<char>)>::empty() =~= pair_views(
            parameters@,
        ));
        let value = s.substring_char(c + 1, n).to_owned();
        Ok(ContentLine { group, name, parameters, value })
    }
}

/// A line in upper case.
pub open spec fn upper_line(l: Seq<char>) -> Seq<char> {
    l.map_values(|c: char| upper_char(c))
}

/// Whether `s` in upper case reads `t`.
pub(crate) fn upper_equals(s: &str, t: &str) -> (r: bool)
    ensures
        r == (upper_line(s@) == t@),
{
    let n = s.unicode_len();
    if n != t.unicode_len() {
        return false;
    }
    let mut i: usize = 0;
    while i < n
        invariant
            n == s@.len(),
            n == t@.len(),
            i <= n,
            forall|j: int| 0 <= j < i ==> upper_char(s@[j]) == t@[j],
        decreases n - i,
    {
        let c = s.get_char(i);
        let u = if 'a' <= c && c <= 'z' {
            ((c as u8) - 32) as char
        } else {
            c
        };
        if u != t.get_char(i) {
            assert(upper_line(s@)[i as int] != t@[i as int]);
            return false;
        }
        i = i + 1;
    }
    assert(upper_line(s@) =~= t@);
    true
}

} // verus!
