//! The card assembler: reads logical lines into cards.

use vstd::prelude::*;

use crate::card::{lemma_validation_err, lines_view, validation_result, Card, ContentLine};
use crate::error::Error;
use crate::lexer::{lex_line, line_view, upper_equals, upper_line, LineView};
use crate::parameter::{decimal_value, is_decimal, pair_views, parse_pref};
use crate::address::DeliveryAddress;
use crate::daytime::is_valid_time_text;
use crate::offset::{is_offset_text, text_hour_count, text_minute_count, UtcOffsetProperty};
use crate::property::{
    is_timestamp_text, is_valid_date_text, kind_text, sex_text, split_first, ClientPidMap,
    DateAndOrTime, DateTimeProperty, Gender, Kind, Sex,
};
use crate::text::{split_raw, split_unescaped, str_equals, views_of};
use crate::value::{language_tag_of, uri_reference_kind, LanguageProperty, UriProperty};
use crate::unfold::{is_fold_space, lines_of, unfold, unfold_text};

verus! {

/// The relation types that a RELATED property may carry, in upper case.
pub open spec fn is_related_type(t: Seq<char>) -> bool {
    t == "CONTACT"@ || t == "ACQUAINTANCE"@ || t == "FRIEND"@ || t == "MET"@ || t == "CO-WORKER"@
        || t == "COLLEAGUE"@ || t == "CO-RESIDENT"@ || t == "NEIGHBOR"@ || t == "CHILD"@ || t
        == "PARENT"@ || t == "SIBLING"@ || t == "SPOUSE"@ || t == "KIN"@ || t == "MUSE"@ || t
        == "CRUSH"@ || t == "DATE"@ || t == "SWEETHEART"@ || t == "ME"@ || t == "AGENT"@ || t
        == "EMERGENCY"@
}

/// The types that a TEL property may carry, in upper case.
pub open spec fn is_telephone_type(t: Seq<char>) -> bool {
    t == "WORK"@ || t == "HOME"@ || t == "TEXT"@ || t == "VOICE"@ || t == "FAX"@ || t == "CELL"@
        || t == "VIDEO"@ || t == "PAGER"@ || t == "TEXTPHONE"@
}

/// Whether every comma-separated type of a TYPE value is one that the
/// property named `name` accepts: RELATED and TEL restrict them.
pub open spec fn types_allowed(name: Seq<char>, pv: Seq<char>) -> bool {
    forall|k: int|
        0 <= k < split_unescaped(pv, ',').len() ==> {
            let t = upper_line(#[trigger] split_unescaped(pv, ',')[k]);
            &&& name == "RELATED"@ ==> is_related_type(t)
            &&& name == "TEL"@ ==> is_telephone_type(t)
        }
}

/// Whether the parameter `pn=pv` is allowed on the property named `name`:
/// PREF lies in `1..=100`, LABEL stands only on ADR, CHARSET is UTF-8,
/// PID does not stand on CLIENTPIDMAP, and the types of RELATED and TEL
/// are known ones.
pub open spec fn parameter_allowed(name: Seq<char>, pn: Seq<char>, pv: Seq<char>) -> bool {
    &&& pn == "TYPE"@ ==> types_allowed(name, pv)
    &&& pn == "PREF"@ ==> is_decimal(pv) && 1 <= decimal_value(pv) <= 100
    &&& pn == "LABEL"@ ==> name == "ADR"@
    &&& pn == "CHARSET"@ ==> pv == "UTF-8"@
    &&& pn == "PID"@ ==> name != "CLIENTPIDMAP"@
}

/// Whether the property has a VALUE parameter that reads `t` in upper case.
pub open spec fn value_type_is(l: ContentLine, t: Seq<char>) -> bool {
    exists|k: int|
        0 <= k < l.parameters@.len() && (#[trigger] l.parameters@[k]).0@ == "VALUE"@ && upper_line(
            l.parameters@[k].1@,
        ) == t
}

/// The properties whose value is a URI and nothing else.
pub open spec fn is_uri_name(n: Seq<char>) -> bool {
    n == "SOURCE"@ || n == "PHOTO"@ || n == "EMAIL"@ || n == "IMPP"@ || n == "URL"@ || n == "LOGO"@
        || n == "SOUND"@ || n == "KEY"@ || n == "FBURL"@ || n == "CALADRURI"@ || n == "CALURI"@
        || n == "GEO"@ || n == "MEMBER"@
}

/// Whether the property named `n` accepts the value type `vt` (in upper
/// case) in its VALUE parameter.
pub open spec fn value_type_allowed(n: Seq<char>, vt: Seq<char>) -> bool {
    if is_uri_name(n) {
        vt == "URI"@
    } else if n == "TEL"@ {
        vt == "URI"@ || vt == "TEXT"@
    } else if n == "BDAY"@ || n == "ANNIVERSARY"@ {
        vt == "DATE-AND-OR-TIME"@ || vt == "TEXT"@
    } else if n == "TZ"@ {
        vt == "TEXT"@ || vt == "URI"@ || vt == "UTC-OFFSET"@
    } else {
        true
    }
}

/// Whether `s` reads as a date, a time after `T`, or both.
pub open spec fn is_date_and_or_time_text(s: Seq<char>) -> bool {
    let (d, t) = split_first(s, 'T');
    match t {
        None => is_valid_date_text(d),
        Some(tt) => (d.len() == 0 || is_valid_date_text(d)) && is_valid_time_text(tt),
    }
}

/// Whether `s` is a client PID map: a 64-bit source number, `;`, a URI.
pub open spec fn is_client_pid_map_text(s: Seq<char>) -> bool {
    let (src, uri) = split_first(s, ';');
    &&& is_decimal(src) && decimal_value(src) <= u64::MAX
    &&& uri matches Some(u) && uri_reference_kind(u) == Some(true)
}

/// Whether the value of a property fits the value type that its name
/// dispatches to, and its VALUE parameters are types that the property
/// accepts.
pub open spec fn value_allowed(l: ContentLine) -> bool {
    let n = l.name@;
    let v = l.value@;
    &&& forall|k: int|
        0 <= k < l.parameters@.len() && (#[trigger] l.parameters@[k]).0@ == "VALUE"@
            ==> value_type_allowed(n, upper_line(l.parameters@[k].1@))
    &&& n == "KIND"@ ==> exists|x: Kind| kind_text(x) == v
    &&& n == "GENDER"@ ==> exists|x: Sex| sex_text(x) == split_first(v, ';').0
    &&& n == "ADR"@ ==> split_unescaped(v, ';').len() == 7
    &&& (n == "BDAY"@ || n == "ANNIVERSARY"@) && !value_type_is(l, "TEXT"@)
        ==> is_date_and_or_time_text(v)
    &&& n == "REV"@ ==> is_timestamp_text(v)
    &&& n == "LANG"@ ==> language_tag_of(v) is Some
    &&& is_uri_name(n) ==> uri_reference_kind(v) == Some(true)
    &&& n == "TEL"@ && !value_type_is(l, "TEXT"@) ==> uri_reference_kind(v) == Some(true)
    &&& n == "TZ"@ && value_type_is(l, "URI"@) ==> uri_reference_kind(v) == Some(true)
    &&& n == "TZ"@ && value_type_is(l, "UTC-OFFSET"@) ==> is_offset_text(v) && text_hour_count(v)
        <= 25 && text_minute_count(v) <= 59
    &&& n == "CLIENTPIDMAP"@ ==> is_client_pid_map_text(v)
}

/// Whether a content line obeys the rules on its parameters and its value.
pub open spec fn property_allowed(l: ContentLine) -> bool {
    &&& forall|k: int|
        0 <= k < l.parameters@.len() ==> parameter_allowed(
            l.name@,
            #[trigger] l.parameters@[k].0@,
            l.parameters@[k].1@,
        )
    &&& value_allowed(l)
}

/// Whether the parameters hold VALUE with a value that reads `t` in upper
/// case.
pub open spec fn params_value_type_is(ps: Seq<(Seq<char>, Seq<char>)>, t: Seq<char>) -> bool {
    exists|k: int| 0 <= k < ps.len() && (#[trigger] ps[k]).0 == "VALUE"@ && upper_line(ps[k].1) == t
}

/// The rules on a single property, over the property as plain values: the
/// same as `property_allowed`.
pub open spec fn view_allowed(v: LineView) -> bool {
    let n = v.1;
    let ps = v.2;
    let val = v.3;
    &&& forall|k: int| 0 <= k < ps.len() ==> parameter_allowed(n, (#[trigger] ps[k]).0, ps[k].1)
    &&& forall|k: int|
        0 <= k < ps.len() && (#[trigger] ps[k]).0 == "VALUE"@ ==> value_type_allowed(
            n,
            upper_line(ps[k].1),
        )
    &&& n == "KIND"@ ==> exists|x: Kind| kind_text(x) == val
    &&& n == "GENDER"@ ==> exists|x: Sex| sex_text(x) == split_first(val, ';').0
    &&& n == "ADR"@ ==> split_unescaped(val, ';').len() == 7
    &&& (n == "BDAY"@ || n == "ANNIVERSARY"@) && !params_value_type_is(ps, "TEXT"@)
        ==> is_date_and_or_time_text(val)
    &&& n == "REV"@ ==> is_timestamp_text(val)
    &&& n == "LANG"@ ==> language_tag_of(val) is Some
    &&& is_uri_name(n) ==> uri_reference_kind(val) == Some(true)
    &&& n == "TEL"@ && !params_value_type_is(ps, "TEXT"@) ==> uri_reference_kind(val) == Some(true)
    &&& n == "TZ"@ && params_value_type_is(ps, "URI"@) ==> uri_reference_kind(val) == Some(true)
    &&& n == "TZ"@ && params_value_type_is(ps, "UTC-OFFSET"@) ==> is_offset_text(val)
        && text_hour_count(val) <= 25 && text_minute_count(val) <= 59
    &&& n == "CLIENTPIDMAP"@ ==> is_client_pid_map_text(val)
}

/// The rules on a property read the same over its plain values.
pub proof fn lemma_view_allowed(l: ContentLine)
    ensures
        property_allowed(l) == view_allowed(line_view(l)),
{
    let ps = pair_views(l.parameters@);
    assert forall|k: int| 0 <= k < l.parameters@.len() implies #[trigger] ps[k] == (
    l.parameters@[k].0@, l.parameters@[k].1@) by {}
    assert(ps.len() == l.parameters@.len());
    assert forall|t: Seq<char>| value_type_is(l, t) == params_value_type_is(ps, t) by {
        if value_type_is(l, t) {
            let k = choose|k: int|
                0 <= k < l.parameters@.len() && (#[trigger] l.parameters@[k]).0@ == "VALUE"@
                    && upper_line(l.parameters@[k].1@) == t;
            assert(ps[k] == (l.parameters@[k].0@, l.parameters@[k].1@));
        }
        if params_value_type_is(ps, t) {
            let k = choose|k: int|
                0 <= k < ps.len() && (#[trigger] ps[k]).0 == "VALUE"@ && upper_line(ps[k].1) == t;
            assert(ps[k] == (l.parameters@[k].0@, l.parameters@[k].1@));
        }
    }
    if property_allowed(l) {
        assert forall|k: int| 0 <= k < ps.len() implies parameter_allowed(
            l.name@,
            (#[trigger] ps[k]).0,
            ps[k].1,
        ) by {
            assert(ps[k] == (l.parameters@[k].0@, l.parameters@[k].1@));
        }
        assert forall|k: int| 0 <= k < ps.len() && (#[trigger] ps[k]).0 == "VALUE"@ implies value_type_allowed(
            l.name@,
            upper_line(ps[k].1),
        ) by {
            assert(ps[k] == (l.parameters@[k].0@, l.parameters@[k].1@));
        }
    }
    if view_allowed(line_view(l)) {
        assert forall|k: int| 0 <= k < l.parameters@.len() implies parameter_allowed(
            l.name@,
            #[trigger] l.parameters@[k].0@,
            l.parameters@[k].1@,
        ) by {
            assert(ps[k] == (l.parameters@[k].0@, l.parameters@[k].1@));
        }
        assert forall|k: int|
            0 <= k < l.parameters@.len() && (#[trigger] l.parameters@[k]).0@ == "VALUE"@ implies value_type_allowed(
            l.name@,
            upper_line(l.parameters@[k].1@),
        ) by {
            assert(ps[k] == (l.parameters@[k].0@, l.parameters@[k].1@));
        }
    }
}

fn related_type(t: &str) -> (r: bool)
    ensures
        r == is_related_type(upper_line(t@)),
{
    upper_equals(t, "CONTACT") || upper_equals(t, "ACQUAINTANCE") || upper_equals(t, "FRIEND")
        || upper_equals(t, "MET") || upper_equals(t, "CO-WORKER") || upper_equals(t, "COLLEAGUE")
        || upper_equals(t, "CO-RESIDENT") || upper_equals(t, "NEIGHBOR") || upper_equals(t, "CHILD")
        || upper_equals(t, "PARENT") || upper_equals(t, "SIBLING") || upper_equals(t, "SPOUSE")
        || upper_equals(t, "KIN") || upper_equals(t, "MUSE") || upper_equals(t, "CRUSH")
        || upper_equals(t, "DATE") || upper_equals(t, "SWEETHEART") || upper_equals(t, "ME")
        || upper_equals(t, "AGENT") || upper_equals(t, "EMERGENCY")
}

fn telephone_type(t: &str) -> (r: bool)
    ensures
        r == is_telephone_type(upper_line(t@)),
{
    upper_equals(t, "WORK") || upper_equals(t, "HOME") || upper_equals(t, "TEXT") || upper_equals(
        t,
        "VOICE",
    ) || upper_equals(t, "FAX") || upper_equals(t, "CELL") || upper_equals(t, "VIDEO")
        || upper_equals(t, "PAGER") || upper_equals(t, "TEXTPHONE")
}

fn check_types(name: &str, pv: &str) -> (r: Result<(), Error>)
    ensures
        r is Ok <==> types_allowed(name@, pv@),
        r matches Err(e) ==> (e is UnknownRelatedType && name@ == "RELATED"@) || (
        e is UnknownTelephoneType && name@ == "TEL"@),
{
    let related = str_equals(name, "RELATED");
    let tel = str_equals(name, "TEL");
    let parts = split_raw(pv, ',');
    let mut k: usize = 0;
    while k < parts.len()
        invariant
            k <= parts@.len(),
            related == (name@ == "RELATED"@),
            tel == (name@ == "TEL"@),
            views_of(parts@) == split_unescaped(pv@, ','),
            forall|j: int|
                0 <= j < k ==> {
                    let t = upper_line(#[trigger] split_unescaped(pv@, ',')[j]);
                    &&& name@ == "RELATED"@ ==> is_related_type(t)
                    &&& name@ == "TEL"@ ==> is_telephone_type(t)
                },
        decreases parts.len() - k,
    {
        let t = parts[k].as_str();
        assert(views_of(parts@)[k as int] == t@);
        if related && !related_type(t) {
            return Err(Error::UnknownRelatedType(t.to_owned()));
        }
        if tel && !telephone_type(t) {
            return Err(Error::UnknownTelephoneType(t.to_owned()));
        }
        k = k + 1;
    }
    Ok(())
}

/// Whether `e` is the error for the parameter `pn=pv` on the property
/// named `name`: the rule that the parameter breaks names it.
pub open spec fn parameter_error(name: Seq<char>, pn: Seq<char>, pv: Seq<char>, e: Error) -> bool {
    match e {
        Error::InvalidLabel(t) => pn == "LABEL"@ && name != "ADR"@ && t@ == name,
        Error::CharsetParameter(t) => pn == "CHARSET"@ && pv != "UTF-8"@ && t@ == pv,
        Error::ClientPidMapPidNotAllowed => pn == "PID"@ && name == "CLIENTPIDMAP"@,
        Error::PrefOutOfRange(_) => pn == "PREF"@ && !(is_decimal(pv) && 1 <= decimal_value(pv)
            <= 100),
        Error::InvalidPropertyValue => pn == "PREF"@ && !is_decimal(pv),
        Error::UnknownRelatedType(_) => pn == "TYPE"@ && name == "RELATED"@ && !types_allowed(
            name,
            pv,
        ),
        Error::UnknownTelephoneType(_) => pn == "TYPE"@ && name == "TEL"@ && !types_allowed(
            name,
            pv,
        ),
        _ => false,
    }
}

/// Whether `e` is an error that the value check of the property `l` gives:
/// a VALUE type that the property refuses, or the error of the value's
/// own grammar.
pub open spec fn value_error(l: ContentLine, e: Error) -> bool {
    match e {
        Error::UnsupportedValueType(v, n) => n@ == l.name@ && exists|k: int|
            0 <= k < l.parameters@.len() && (#[trigger] l.parameters@[k]).0@ == "VALUE"@
                && l.parameters@[k].1@ == v@ && !value_type_allowed(l.name@, upper_line(v@)),
        Error::UnknownKind(_) | Error::UnknownSex(_) | Error::InvalidAddress(_)
        | Error::InvalidDate(_) | Error::InvalidTime(_) | Error::InvalidDateTime(_)
        | Error::LanguageParse(_) | Error::UriParse(_) | Error::NotUri(_)
        | Error::InvalidUtcOffset(_) | Error::ComponentRange(_) | Error::InvalidClientPidMap(
            _,
        ) => true,
        _ => false,
    }
}

fn check_parameter(name: &str, pn: &str, pv: &str) -> (r: Result<(), Error>)
    ensures
        r is Ok <==> parameter_allowed(name@, pn@, pv@),
        r matches Err(e) ==> parameter_error(name@, pn@, pv@, e),
{
    if str_equals(pn, "TYPE") {
        if let Err(e) = check_types(name, pv) {
            return Err(e);
        }
    }
    if str_equals(pn, "PREF") {
        if let Err(e) = parse_pref(pv) {
            return Err(e);
        }
    }
    if str_equals(pn, "LABEL") && !str_equals(name, "ADR") {
        return Err(Error::InvalidLabel(name.to_owned()));
    }
    if str_equals(pn, "CHARSET") && !str_equals(pv, "UTF-8") {
        return Err(Error::CharsetParameter(pv.to_owned()));
    }
    if str_equals(pn, "PID") && str_equals(name, "CLIENTPIDMAP") {
        return Err(Error::ClientPidMapPidNotAllowed);
    }
    Ok(())
}

fn has_value_type(l: &ContentLine, t: &str) -> (r: bool)
    ensures
        r == value_type_is(*l, t@),
{
    let mut k: usize = 0;
    while k < l.parameters.len()
        invariant
            k <= l.parameters@.len(),
            forall|j: int|
                0 <= j < k ==> !((#[trigger] l.parameters@[j]).0@ == "VALUE"@ && upper_line(
                    l.parameters@[j].1@,
                ) == t@),
        decreases l.parameters.len() - k,
    {
        if str_equals(l.parameters[k].0.as_str(), "VALUE") && upper_equals(
            l.parameters[k].1.as_str(),
            t,
        ) {
            return true;
        }
        k = k + 1;
    }
    false
}

fn uri_name(n: &str) -> (r: bool)
    ensures
        r == is_uri_name(n@),
{
    str_equals(n, "SOURCE") || str_equals(n, "PHOTO") || str_equals(n, "EMAIL") || str_equals(
        n,
        "IMPP",
    ) || str_equals(n, "URL") || str_equals(n, "LOGO") || str_equals(n, "SOUND") || str_equals(
        n,
        "KEY",
    ) || str_equals(n, "FBURL") || str_equals(n, "CALADRURI") || str_equals(n, "CALURI")
        || str_equals(n, "GEO") || str_equals(n, "MEMBER")
}

fn check_value_type(name: &str, vt: &str) -> (r: Result<(), Error>)
    ensures
        r is Ok <==> value_type_allowed(name@, upper_line(vt@)),
        r matches Err(e) ==> e matches Error::UnsupportedValueType(v, n) && v@ == vt@ && n@
            == name@,
{
    let ok = if uri_name(name) {
        upper_equals(vt, "URI")
    } else if str_equals(name, "TEL") {
        upper_equals(vt, "URI") || upper_equals(vt, "TEXT")
    } else if str_equals(name, "BDAY") || str_equals(name, "ANNIVERSARY") {
        upper_equals(vt, "DATE-AND-OR-TIME") || upper_equals(vt, "TEXT")
    } else if str_equals(name, "TZ") {
        upper_equals(vt, "TEXT") || upper_equals(vt, "URI") || upper_equals(vt, "UTC-OFFSET")
    } else {
        true
    };
    if ok {
        Ok(())
    } else {
        Err(Error::UnsupportedValueType(vt.to_owned(), name.to_owned()))
    }
}

fn uri_ok(v: &str) -> (r: bool)
    ensures
        r == (uri_reference_kind(v@) == Some(true)),
{
    UriProperty::parse(v).is_ok()
}

/// Checks the value of a property against the value type that its name
/// dispatches to.
pub fn check_value(l: &ContentLine) -> (r: Result<(), Error>)
    ensures
        r is Ok <==> value_allowed(*l),
        r matches Err(e) ==> value_error(*l, e),
{
    let name = l.name.as_str();
    let v = l.value.as_str();
    let mut k: usize = 0;
    while k < l.parameters.len()
        invariant
            k <= l.parameters@.len(),
            name@ == l.name@,
            forall|j: int|
                0 <= j < k && (#[trigger] l.parameters@[j]).0@ == "VALUE"@ ==> value_type_allowed(
                    l.name@,
                    upper_line(l.parameters@[j].1@),
                ),
        decreases l.parameters.len() - k,
    {
        if str_equals(l.parameters[k].0.as_str(), "VALUE") {
            if let Err(e) = check_value_type(name, l.parameters[k].1.as_str()) {
                assert(l.parameters@[k as int].0@ == "VALUE"@);
                return Err(e);
            }
        }
        k = k + 1;
    }
    if str_equals(name, "KIND") {
        if let Err(e) = Kind::parse(v) {
            return Err(e);
        }
    }
    if str_equals(name, "GENDER") {
        if let Err(e) = Gender::parse(v) {
            return Err(e);
        }
    }
    if str_equals(name, "ADR") {
        if let Err(e) = DeliveryAddress::parse(v) {
            return Err(e);
        }
    }
    if (str_equals(name, "BDAY") || str_equals(name, "ANNIVERSARY")) && !has_value_type(l, "TEXT") {
        let d = DateAndOrTime::parse(v);
        if let Err(e) = d {
            return Err(e);
        }
    }
    if str_equals(name, "REV") {
        if let Err(e) = DateTimeProperty::parse(v) {
            return Err(e);
        }
    }
    if str_equals(name, "LANG") {
        if let Err(e) = LanguageProperty::parse(v) {
            return Err(e);
        }
    }
    if uri_name(name) || (str_equals(name, "TEL") && !has_value_type(l, "TEXT")) || (str_equals(
        name,
        "TZ",
    ) && has_value_type(l, "URI")) {
        if let Err(e) = UriProperty::parse(v) {
            return Err(e);
        }
    }
    if str_equals(name, "TZ") && has_value_type(l, "UTC-OFFSET") {
        if let Err(e) = UtcOffsetProperty::parse(v) {
            return Err(e);
        }
    }
    if str_equals(name, "CLIENTPIDMAP") {
        if let Err(e) = ClientPidMap::parse(v) {
            return Err(e);
        }
    }
    Ok(())
}

/// Checks the rules that a single property obeys: those on its parameters
/// and those on its value.
pub fn check_property(l: &ContentLine) -> (r: Result<(), Error>)
    ensures
        r is Ok <==> property_allowed(*l),
        r matches Err(e) ==> (exists|k: int|
            0 <= k < l.parameters@.len() && parameter_error(
                l.name@,
                (#[trigger] l.parameters@[k]).0@,
                l.parameters@[k].1@,
                e,
            )) || value_error(*l, e),
{
    let mut k: usize = 0;
    while k < l.parameters.len()
        invariant
            k <= l.parameters@.len(),
            forall|j: int|
                0 <= j < k ==> parameter_allowed(
                    l.name@,
                    #[trigger] l.parameters@[j].0@,
                    l.parameters@[j].1@,
                ),
        decreases l.parameters.len() - k,
    {
        if let Err(e) = check_parameter(
            l.name.as_str(),
            l.parameters[k].0.as_str(),
            l.parameters[k].1.as_str(),
        ) {
            assert(parameter_error(l.name@, l.parameters@[k as int].0@, l.parameters@[k as int].1@, e));
            return Err(e);
        }
        k = k + 1;
    }
    check_value(l)
}

/// Whether `l` reads `BEGIN:VCARD`, in any case.
pub open spec fn is_begin_line(l: Seq<char>) -> bool {
    upper_line(l) == "BEGIN:VCARD"@
}

/// Whether `l` reads `END:VCARD`, in any case.
pub open spec fn is_end_line(l: Seq<char>) -> bool {
    upper_line(l) == "END:VCARD"@
}

/// Whether `l` reads `VERSION:4.0`, in any case.
pub open spec fn is_version_line(l: Seq<char>) -> bool {
    upper_line(l) == "VERSION:4.0"@
}

/// Whether the first non-blank line opens a card and the line after it is
/// not `VERSION:4.0`.
pub open spec fn version_misplaced_at(lines: Seq<Seq<char>>, k: int) -> bool {
    &&& 0 <= k && k + 1 < lines.len()
    &&& forall|j: int| 0 <= j < k ==> (#[trigger] lines[j]).len() == 0
    &&& is_begin_line(lines[k])
    &&& !is_version_line(lines[k + 1])
}

/// Where the assembler stands between two lines.
#[derive(PartialEq, Eq, Clone, Copy, Structural)]
enum ReadState {
    Outside,
    ExpectVersion,
    InCard,
}

/// Whether every card obeys the card-level rules and every property the
/// rules on single properties.
pub open spec fn cards_valid(cards: Seq<Card>) -> bool {
    forall|k: int|
        0 <= k < cards.len() ==> {
            &&& validation_result(lines_view((#[trigger] cards[k]).properties@), Ok(()))
            &&& forall|j: int|
                0 <= j < cards[k].properties@.len() ==> property_allowed(
                    #[trigger] cards[k].properties@[j],
                )
        }
}

/// Why reading lines into cards stops short.
#[derive(PartialEq, Eq, Clone, Copy, Structural)]
pub enum ReadFailure {
    /// The input ends inside a card.
    TokenExpected,
    /// A non-blank line outside a card is not `BEGIN:VCARD`, or a card
    /// holds a second `BEGIN:VCARD`.
    IncorrectToken,
    /// The line after `BEGIN:VCARD` is not `VERSION:4.0`, or a card holds
    /// another VERSION.
    VersionMisplaced,
    /// A line in a card does not lex, or breaks a rule on single properties.
    BadLine,
    /// A card breaks a card-level rule.
    BadCard,
}

/// The cards that the lines from index `i` on make, reading in `state`
/// (0 outside a card, 1 right after `BEGIN:VCARD`, 2 inside a card), with
/// the cards `done` read so far and the properties `cur` of the open card.
pub open spec fn read_cards(
    ls: Seq<Seq<char>>,
    i: int,
    state: int,
    done: Seq<Seq<LineView>>,
    cur: Seq<LineView>,
) -> Result<Seq<Seq<LineView>>, ReadFailure>
    decreases ls.len() - i,
{
    if i < 0 || i >= ls.len() {
        if state == 0 {
            Ok(done)
        } else {
            Err(ReadFailure::TokenExpected)
        }
    } else {
        let l = ls[i];
        if state == 0 {
            if l.len() == 0 {
                read_cards(ls, i + 1, 0, done, cur)
            } else if is_begin_line(l) {
                read_cards(ls, i + 1, 1, done, cur)
            } else {
                Err(ReadFailure::IncorrectToken)
            }
        } else if state == 1 {
            if is_version_line(l) {
                read_cards(ls, i + 1, 2, done, cur)
            } else {
                Err(ReadFailure::VersionMisplaced)
            }
        } else if is_end_line(l) {
            if validation_result(cur, Ok(())) {
                read_cards(ls, i + 1, 0, done.push(cur), Seq::empty())
            } else {
                Err(ReadFailure::BadCard)
            }
        } else if is_begin_line(l) {
            Err(ReadFailure::IncorrectToken)
        } else {
            match lex_line(l) {
                None => Err(ReadFailure::BadLine),
                Some(v) => if v.1 == "VERSION"@ {
                    Err(ReadFailure::VersionMisplaced)
                } else if !view_allowed(v) {
                    Err(ReadFailure::BadLine)
                } else {
                    read_cards(ls, i + 1, 2, done, cur.push(v))
                },
            }
        }
    }
}

/// The cards, each as the plain values of its properties.
pub open spec fn cards_view(cards: Seq<Card>) -> Seq<Seq<LineView>> {
    cards.map_values(|c: Card| lines_view(c.properties@))
}

/// What parsing `s` gives, by the logical lines of `s`.
pub open spec fn parse_result(s: Seq<char>, r: Result<Vec<Card>, Error>) -> bool {
    if s.len() > 0 && is_fold_space(s[0]) {
        r matches Err(Error::IncorrectToken(_))
    } else {
        match read_cards(lines_of(unfold_text(s)), 0, 0, Seq::empty(), Seq::empty()) {
            Ok(cs) => r matches Ok(cards) && cards_view(cards@) == cs,
            Err(ReadFailure::TokenExpected) => r matches Err(Error::TokenExpected),
            Err(ReadFailure::IncorrectToken) => r matches Err(Error::IncorrectToken(_)),
            Err(ReadFailure::VersionMisplaced) => r matches Err(Error::VersionMisplaced),
            Err(_) => r is Err,
        }
    }
}

spec fn state_code(st: ReadState) -> int {
    match st {
        ReadState::Outside => 0,
        ReadState::ExpectVersion => 1,
        ReadState::InCard => 2,
    }
}

/// Parses text into cards. Each card is framed by `BEGIN:VCARD` and
/// `END:VCARD` with `VERSION:4.0` right after `BEGIN`; blank lines between
/// cards are skipped. The first error ends the parse.
pub fn parse(s: &str) -> (r: Result<Vec<Card>, Error>)
    ensures
        parse_result(s@, r),
        r matches Ok(cards) ==> cards_valid(cards@),
        (s@.len() == 0 || !is_fold_space(s@[0])) && (exists|k: int| version_misplaced_at(
            lines_of(unfold_text(s@)),
            k,
        )) ==> r matches Err(Error::VersionMisplaced),
{
    let lines = match unfold(s) {
        Ok(v) => v,
        Err(e) => {
            return Err(e);
        },
    };
    let ghost ls = views_of(lines@);
    assert(ls == lines_of(unfold_text(s@)));
    let ghost has = exists|k: int| version_misplaced_at(ls, k);
    let ghost k0 = if has {
        choose|k: int| version_misplaced_at(ls, k)
    } else {
        0
    };
    let mut cards: Vec<Card> = Vec::new();
    let mut props: Vec<ContentLine> = Vec::new();
    let mut state = ReadState::Outside;
    let mut i: usize = 0;
    assert(cards_view(cards@) =~= Seq::<Seq<LineView>>::empty());
    assert(lines_view(props@) =~= Seq::<LineView>::empty());
    while i < lines.len()
        invariant
            ls == views_of(lines@),
            ls == lines_of(unfold_text(s@)),
            has == exists|k: int| version_misplaced_at(ls, k),
            i <= lines@.len(),
            cards_valid(cards@),
            forall|j: int| 0 <= j < props@.len() ==> property_allowed(#[trigger] props@[j]),
            has ==> version_misplaced_at(ls, k0),
            has ==> ((i <= k0 && state == ReadState::Outside) || (i == k0 + 1 && state
                == ReadState::ExpectVersion)),
            read_cards(ls, 0, 0, Seq::empty(), Seq::empty()) == read_cards(
                ls,
                i as int,
                state_code(state),
                cards_view(cards@),
                lines_view(props@),
            ),
            state != ReadState::InCard ==> props@.len() == 0,
            s@.len() == 0 || !is_fold_space(s@[0]),
        decreases lines.len() - i,
    {
        let line = lines[i].as_str();
        assert(ls[i as int] == line@);
        let ghost old_cards = cards_view(cards@);
        let ghost old_props = lines_view(props@);
        match state {
            ReadState::Outside => {
                if line.unicode_len() == 0 {
                    proof {
                        if has && i == k0 {
                            reveal_strlit("BEGIN:VCARD");
                            assert(upper_line(line@).len() == 0);
                        }
                    }
                } else if upper_equals(line, "BEGIN:VCARD") {
                    state = ReadState::ExpectVersion;
                } else {
                    proof {
                        if has && i < k0 {
                            assert(ls[i as int].len() == 0);
                        }
                        if has && i == k0 {
                            assert(is_begin_line(line@));
                        }
                    }
                    return Err(Error::IncorrectToken(line.to_owned()));
                }
            },
            ReadState::ExpectVersion => {
                if upper_equals(line, "VERSION:4.0") {
                    state = ReadState::InCard;
                } else {
                    return Err(Error::VersionMisplaced);
                }
            },
            ReadState::InCard => {
                assert(!has);
                if upper_equals(line, "END:VCARD") {
                    let card = Card { properties: props };
                    if let Err(e) = card.validate() {
                        proof {
                            lemma_validation_err(old_props, Err(e));
                        }
                        return Err(e);
                    }
                    cards.push(card);
                    props = Vec::new();
                    state = ReadState::Outside;
                    assert(cards_view(cards@) =~= old_cards.push(old_props));
                    assert(lines_view(props@) =~= Seq::<LineView>::empty());
                } else if upper_equals(line, "BEGIN:VCARD") {
                    return Err(Error::IncorrectToken(line.to_owned()));
                } else {
                    let l = match ContentLine::parse(line) {
                        Ok(l) => l,
                        Err(e) => {
                            return Err(e);
                        },
                    };
                    if str_equals(l.name.as_str(), "VERSION") {
                        return Err(Error::VersionMisplaced);
                    }
                    proof {
                        lemma_view_allowed(l);
                    }
                    if let Err(e) = check_property(&l) {
                        return Err(e);
                    }
                    let ghost lv = line_view(l);
                    props.push(l);
                    assert(lines_view(props@) =~= old_props.push(lv));
                }
            },
        }
        i = i + 1;
    }
    if state != ReadState::Outside {
        return Err(Error::TokenExpected);
    }
    Ok(cards)
}

} // verus!
