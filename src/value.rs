//! URI and language-tag values, which the `uriparse` and `language-tags`
//! crates check.

use vstd::prelude::*;

use crate::error::Error;
use crate::lexer::{upper_equals, upper_line};
use crate::offset::{is_text_of_offset, UtcOffsetProperty};
use crate::parameter::{is_decimal, Parameters};
use crate::property::{Property, TextProperty};
use crate::text::{escape_text, is_digit, split_raw, split_unescaped, views_of};

verus! {

/// How `uriparse` reads a text: `None` when it is no URI reference,
/// `Some(true)` for a URI with a scheme, `Some(false)` for a relative
/// reference.
pub uninterp spec fn uri_reference_kind(s: Seq<char>) -> Option<bool>;

/// The normalized form of a well-formed language tag, as `language-tags`
/// writes it; `None` for a malformed tag.
pub uninterp spec fn language_tag_of(s: Seq<char>) -> Option<Seq<char>>;

/// Relies on `uriparse::URIReference::try_from`, read back with
/// `URIReference::is_uri`: whether the text is a URI reference, and whether
/// it has a scheme, depend on the text alone.
#[verifier::external_body]
fn read_uri_reference(s: &str) -> (r: Result<bool, uriparse::URIReferenceError>)
    ensures
        r is Ok <==> uri_reference_kind(s@) is Some,
        r matches Ok(b) ==> uri_reference_kind(s@) == Some(b),
{
    uriparse::URIReference::try_from(s).map(|u| u.is_uri())
}

/// Relies on `language_tags::LanguageTag::parse`, read back with
/// `LanguageTag::into_string`: well-formedness and the normalized text
/// depend on the input alone.
#[verifier::external_body]
fn read_language_tag(s: &str) -> (r: Result<String, language_tags::ParseError>)
    ensures
        r is Ok <==> language_tag_of(s@) is Some,
        r matches Ok(t) ==> language_tag_of(s@) == Some(t@),
{
    language_tags::LanguageTag::parse(s).map(|t| t.into_string())
}

/// Uri property value.
#[derive(Debug, PartialEq, Clone)]
pub struct UriProperty {
    /// Group for this property.
    pub group: Option<String>,
    /// Value for this property: the text of a URI with a scheme.
    pub value: String,
    /// Parameters for this property.
    pub parameters: Option<Parameters>,
}

impl UriProperty {
    /// Parses a URI value: a URI reference that has a scheme.
    pub fn parse(s: &str) -> (r: Result<UriProperty, Error>)
        ensures
            r is Ok <==> uri_reference_kind(s@) == Some(true),
            r matches Ok(p) ==> p.value@ == s@ && p.group is None && p.parameters is None,
            r matches Err(e) ==> match uri_reference_kind(s@) {
                None => e is UriParse,
                Some(_) => e matches Error::NotUri(t) && t@ == s@,
            },
    {
        match read_uri_reference(s) {
            Ok(true) => Ok(UriProperty { group: None, value: s.to_owned(), parameters: None }),
            Ok(false) => Err(Error::NotUri(s.to_owned())),
            Err(e) => Err(Error::UriParse(e)),
        }
    }
}

/// Language property.
#[derive(Debug, PartialEq, Clone)]
pub struct LanguageProperty {
    /// Group for this property.
    pub group: Option<String>,
    /// The value for the property: a language tag in normalized form.
    pub value: String,
    /// The property parameters.
    pub parameters: Option<Parameters>,
}

impl LanguageProperty {
    /// Parses a language tag value, keeping its normalized form.
    pub fn parse(s: &str) -> (r: Result<LanguageProperty, Error>)
        ensures
            r is Ok <==> language_tag_of(s@) is Some,
            r matches Ok(p) ==> Some(p.value@) == language_tag_of(s@) && p.group is None
                && p.parameters is None,
            r matches Err(e) ==> e is LanguageParse,
    {
        match read_language_tag(s) {
            Ok(t) => Ok(LanguageProperty { group: None, value: t, parameters: None }),
            Err(e) => Err(Error::LanguageParse(e)),
        }
    }
}

/// Either text or a Uri.
#[derive(Debug, PartialEq, Clone)]
pub enum TextOrUriProperty {
    /// Text value.
    Text(TextProperty),
    /// Uri value.
    Uri(UriProperty),
}

/// Value for a timezone property.
#[derive(Debug, PartialEq, Clone)]
pub enum TimeZoneProperty {
    /// Text value.
    Text(TextProperty),
    /// Uri value.
    Uri(UriProperty),
    /// UTC offset value.
    UtcOffset(UtcOffsetProperty),
}

impl Property for UriProperty {
    open spec fn group_of(&self) -> Option<String> {
        self.group
    }

    open spec fn parameters_of(&self) -> Option<Parameters> {
        self.parameters
    }

    fn group(&self) -> Option<&String> {
        self.group.as_ref()
    }

    fn parameters(&self) -> Option<&Parameters> {
        self.parameters.as_ref()
    }
}

impl Property for LanguageProperty {
    open spec fn group_of(&self) -> Option<String> {
        self.group
    }

    open spec fn parameters_of(&self) -> Option<Parameters> {
        self.parameters
    }

    fn group(&self) -> Option<&String> {
        self.group.as_ref()
    }

    fn parameters(&self) -> Option<&Parameters> {
        self.parameters.as_ref()
    }
}

impl Property for UtcOffsetProperty {
    open spec fn group_of(&self) -> Option<String> {
        self.group
    }

    open spec fn parameters_of(&self) -> Option<Parameters> {
        self.parameters
    }

    fn group(&self) -> Option<&String> {
        self.group.as_ref()
    }

    fn parameters(&self) -> Option<&Parameters> {
        self.parameters.as_ref()
    }
}

impl Property for TextOrUriProperty {
    open spec fn group_of(&self) -> Option<String> {
        match self {
            TextOrUriProperty::Text(val) => val.group,
            TextOrUriProperty::Uri(val) => val.group,
        }
    }

    open spec fn parameters_of(&self) -> Option<Parameters> {
        match self {
            TextOrUriProperty::Text(val) => val.parameters,
            TextOrUriProperty::Uri(val) => val.parameters,
        }
    }

    fn group(&self) -> Option<&String> {
        match self {
            TextOrUriProperty::Text(val) => val.group(),
            TextOrUriProperty::Uri(val) => val.group(),
        }
    }

    fn parameters(&self) -> Option<&Parameters> {
        match self {
            TextOrUriProperty::Text(val) => val.parameters(),
            TextOrUriProperty::Uri(val) => val.parameters(),
        }
    }
}

impl Property for TimeZoneProperty {
    open spec fn group_of(&self) -> Option<String> {
        match self {
            TimeZoneProperty::Text(val) => val.group,
            TimeZoneProperty::Uri(val) => val.group,
            TimeZoneProperty::UtcOffset(val) => val.group,
        }
    }

    open spec fn parameters_of(&self) -> Option<Parameters> {
        match self {
            TimeZoneProperty::Text(val) => val.parameters,
            TimeZoneProperty::Uri(val) => val.parameters,
            TimeZoneProperty::UtcOffset(val) => val.parameters,
        }
    }

    fn group(&self) -> Option<&String> {
        match self {
            TimeZoneProperty::Text(val) => val.group(),
            TimeZoneProperty::Uri(val) => val.group(),
            TimeZoneProperty::UtcOffset(val) => val.group(),
        }
    }

    fn parameters(&self) -> Option<&Parameters> {
        match self {
            TimeZoneProperty::Text(val) => val.parameters(),
            TimeZoneProperty::Uri(val) => val.parameters(),
            TimeZoneProperty::UtcOffset(val) => val.parameters(),
        }
    }
}

} // verus!

verus! {

/// Parses a boolean value: `TRUE` or `FALSE`, in any case.
pub fn parse_boolean(s: &str) -> (r: Result<bool, Error>)
    ensures
        r is Ok <==> (upper_line(s@) == "TRUE"@ || upper_line(s@) == "FALSE"@),
        r matches Ok(b) ==> b == (upper_line(s@) == "TRUE"@),
        r matches Err(e) ==> e matches Error::InvalidBoolean(t) && t@ == s@,
{
    if upper_equals(s, "TRUE") {
        Ok(true)
    } else if upper_equals(s, "FALSE") {
        proof {
            reveal_strlit("TRUE");
            reveal_strlit("FALSE");
            assert("TRUE"@.len() != "FALSE"@.len());
        }
        Ok(false)
    } else {
        Err(Error::InvalidBoolean(s.to_owned()))
    }
}

/// Whether `t` is a PID value: digits, optionally followed by `.` and
/// more digits.
pub open spec fn is_pid_text(t: Seq<char>) -> bool {
    is_decimal(t) || exists|i: int|
        0 < i < t.len() && t[i] == '.' && is_decimal(t.subrange(0, i)) && is_decimal(
            t.subrange(i + 1, t.len() as int),
        )
}

fn pid_text(t: &str) -> (r: bool)
    ensures
        r == is_pid_text(t@),
{
    let n = t.unicode_len();
    let mut i: usize = 0;
    while i < n && '0' <= t.get_char(i) && t.get_char(i) <= '9'
        invariant
            n == t@.len(),
            i <= n,
            forall|j: int| 0 <= j < i ==> is_digit(#[trigger] t@[j]),
        decreases n - i,
    {
        i = i + 1;
    }
    if i == n {
        assert(t@.subrange(0, n as int) =~= t@);
        if n == 0 {
            assert(!is_pid_text(t@));
        }
        return n > 0;
    }
    if i == 0 || t.get_char(i) != '.' {
        assert(!is_decimal(t@));
        assert forall|k: int|
            0 < k < t@.len() && t@[k] == '.' implies !is_decimal(t@.subrange(0, k)) by {
            if k > i {
                assert(t@.subrange(0, k)[i as int] == t@[i as int]);
            } else if i == 0 {
                assert(t@.subrange(0, k)[0] == t@[0]);
            } else {
                assert(k == i || t@.subrange(0, k).len() > 0);
            }
        }
        return false;
    }
    let mut j: usize = i + 1;
    while j < n && '0' <= t.get_char(j) && t.get_char(j) <= '9'
        invariant
            n == t@.len(),
            i < j <= n,
            forall|k: int| i < k < j ==> is_digit(#[trigger] t@[k]),
        decreases n - j,
    {
        j = j + 1;
    }
    let ok = j == n && j > i + 1;
    assert(is_decimal(t@.subrange(0, i as int)));
    assert(!is_decimal(t@)) by {
        assert(!is_digit(t@[i as int]));
    }
    if ok {
        assert(is_decimal(t@.subrange(i + 1, n as int)));
    } else {
        assert forall|k: int|
            0 < k < t@.len() && t@[k] == '.' && is_decimal(t@.subrange(0, k)) implies !is_decimal(
            t@.subrange(k + 1, t@.len() as int),
        ) by {
            if k < i {
                assert(t@.subrange(0, k).len() > 0);
            } else if k > i {
                assert(t@.subrange(0, k)[i as int] == '.');
            } else if j == i + 1 {
                assert(t@.subrange(k + 1, t@.len() as int).len() == 0 || !is_digit(
                    t@.subrange(k + 1, t@.len() as int)[0],
                ));
            } else {
                assert(t@.subrange(k + 1, t@.len() as int)[j - i - 1] == t@[j as int]);
            }
        }
    }
    ok
}

/// Parses a PID parameter value: a comma-separated list of items, each
/// digits optionally followed by `.` and more digits.
pub fn parse_pid(s: &str) -> (r: Result<Vec<String>, Error>)
    ensures
        r is Ok <==> forall|k: int|
            0 <= k < split_unescaped(s@, ',').len() ==> is_pid_text(
                #[trigger] split_unescaped(s@, ',')[k],
            ),
        r matches Ok(v) ==> views_of(v@) == split_unescaped(s@, ','),
        r matches Err(e) ==> e matches Error::InvalidPid(t) && t@ == s@,
{
    let parts = split_raw(s, ',');
    let mut k: usize = 0;
    while k < parts.len()
        invariant
            k <= parts@.len(),
            views_of(parts@) == split_unescaped(s@, ','),
            forall|j: int| 0 <= j < k ==> is_pid_text(#[trigger] split_unescaped(s@, ',')[j]),
        decreases parts.len() - k,
    {
        assert(views_of(parts@)[k as int] == parts@[k as int]@);
        if !pid_text(parts[k].as_str()) {
            return Err(Error::InvalidPid(s.to_owned()));
        }
        k = k + 1;
    }
    Ok(parts)
}

} // verus!

verus! {

impl UriProperty {
    /// The text of the URI.
    pub fn to_string(&self) -> (r: String)
        ensures
            r@ == self.value@,
    {
        self.value.as_str().to_owned()
    }
}

impl TextOrUriProperty {
    /// The written value: escaped text, or the URI.
    pub fn to_string(&self) -> (r: String)
        ensures
            r@ == match self {
                TextOrUriProperty::Text(t) => escape_text(t.value@),
                TextOrUriProperty::Uri(u) => u.value@,
            },
    {
        match self {
            TextOrUriProperty::Text(t) => t.to_string(),
            TextOrUriProperty::Uri(u) => u.to_string(),
        }
    }
}

impl TimeZoneProperty {
    /// The written value: escaped text, the URI, or the UTC offset.
    pub fn to_string(&self) -> (r: String)
        ensures
            match self {
                TimeZoneProperty::Text(t) => r@ == escape_text(t.value@),
                TimeZoneProperty::Uri(u) => r@ == u.value@,
                TimeZoneProperty::UtcOffset(o) => is_text_of_offset(r@, o.value@.0, o.value@.1),
            },
    {
        match self {
            TimeZoneProperty::Text(t) => t.to_string(),
            TimeZoneProperty::Uri(u) => u.to_string(),
            TimeZoneProperty::UtcOffset(o) => o.to_string(),
        }
    }
}

} // verus!
