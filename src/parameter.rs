//! Property parameters.

use vstd::prelude::*;

use crate::error::Error;
use crate::lexer::{is_extension_name, is_extension_text};
use crate::property::opt_view;
use crate::text::{digit_value, is_digit, split_raw, split_unescaped, str_equals, views_of};
use crate::value::{is_pid_text, parse_pid};

verus! {

/// Parameters attached to a property: the well-known ones as optional
/// fields, extension parameters as name and value pairs.
#[derive(Debug, PartialEq, Clone, Default)]
pub struct Parameters {
    /// The LANGUAGE parameter.
    pub language: Option<String>,
    /// The VALUE parameter, naming the value type.
    pub value: Option<String>,
    /// The PREF parameter, in `1..=100`.
    pub pref: Option<u8>,
    /// The ALTID parameter.
    pub alt_id: Option<String>,
    /// The PID parameter.
    pub pid: Option<Vec<String>>,
    /// The TYPE parameter.
    pub types: Option<Vec<String>>,
    /// The MEDIATYPE parameter.
    pub media_type: Option<String>,
    /// The CALSCALE parameter.
    pub calscale: Option<String>,
    /// The SORT-AS parameter.
    pub sort_as: Option<Vec<String>>,
    /// The LABEL parameter, only valid on ADR.
    pub label: Option<String>,
    /// Extension parameters (`X-` names) with their values.
    pub extensions: Option<Vec<(String, String)>>,
}

} // verus!

verus! {

/// Whether `s` is a non-empty run of decimal digits.
pub open spec fn is_decimal(s: Seq<char>) -> bool {
    s.len() > 0 && forall|j: int| 0 <= j < s.len() ==> is_digit(#[trigger] s[j])
}

/// The number that a run of decimal digits writes.
pub open spec fn decimal_value(s: Seq<char>) -> nat
    decreases s.len(),
{
    if s.len() == 0 {
        0
    } else {
        10 * decimal_value(s.drop_last()) + digit_value(s.last()) as nat
    }
}

/// The smaller of `n` and 255.
pub open spec fn saturate_u8(n: nat) -> u8 {
    if n > 255 {
        255
    } else {
        n as u8
    }
}

/// Parses the value of a PREF parameter: a decimal number in `1..=100`.
/// A number out of that range is reported with its value, saturated at 255.
pub fn parse_pref(s: &str) -> (r: Result<u8, Error>)
    ensures
        r is Ok <==> is_decimal(s@) && 1 <= decimal_value(s@) <= 100,
        r matches Ok(p) ==> p == decimal_value(s@),
        r matches Err(e) ==> if is_decimal(s@) {
            e == Error::PrefOutOfRange(saturate_u8(decimal_value(s@)))
        } else {
            e is InvalidPropertyValue
        },
{
    let n = s.unicode_len();
    if n == 0 {
        return Err(Error::InvalidPropertyValue);
    }
    let mut acc: u16 = 0;
    let mut i: usize = 0;
    assert(s@.subrange(0, 0) =~= Seq::<char>::empty());
    while i < n
        invariant
            n == s@.len(),
            i <= n,
            forall|j: int| 0 <= j < i ==> is_digit(#[trigger] s@[j]),
            acc as nat == if decimal_value(s@.subrange(0, i as int)) > 256 {
                256
            } else {
                decimal_value(s@.subrange(0, i as int))
            },
        decreases n - i,
    {
        let c = s.get_char(i);
        if !('0' <= c && c <= '9') {
            assert(!is_decimal(s@));
            return Err(Error::InvalidPropertyValue);
        }
        let d: u16 = ((c as u32) - 48) as u16;
        assert(s@.subrange(0, i + 1).drop_last() =~= s@.subrange(0, i as int));
        if acc < 256 {
            acc = acc * 10 + d;
            if acc > 256 {
                acc = 256;
            }
        }
        i = i + 1;
    }
    assert(s@.subrange(0, n as int) =~= s@);
    if acc >= 1 && acc <= 100 {
        Ok(acc as u8)
    } else if acc > 255 {
        Err(Error::PrefOutOfRange(255))
    } else {
        Err(Error::PrefOutOfRange(acc as u8))
    }
}

} // verus!

verus! {

proof fn lemma_decimal_prefix(s: Seq<char>, i: int)
    requires
        0 <= i <= s.len(),
    ensures
        decimal_value(s.subrange(0, i)) <= decimal_value(s),
    decreases s.len(),
{
    if i < s.len() {
        lemma_decimal_prefix(s.drop_last(), i);
        assert(s.drop_last().subrange(0, i) =~= s.subrange(0, i));
    } else {
        assert(s.subrange(0, i) =~= s);
    }
}

/// Reads a decimal number that fits in 64 bits.
pub fn read_u64(t: &str) -> (r: Option<u64>)
    ensures
        r is Some <==> is_decimal(t@) && decimal_value(t@) <= u64::MAX,
        r matches Some(v) ==> v == decimal_value(t@),
{
    let n = t.unicode_len();
    if n == 0 {
        return None;
    }
    let mut acc: u64 = 0;
    let mut i: usize = 0;
    assert(t@.subrange(0, 0) =~= Seq::<char>::empty());
    while i < n
        invariant
            n == t@.len(),
            i <= n,
            forall|j: int| 0 <= j < i ==> is_digit(#[trigger] t@[j]),
            acc == decimal_value(t@.subrange(0, i as int)),
        decreases n - i,
    {
        let c = t.get_char(i);
        if !('0' <= c && c <= '9') {
            return None;
        }
        let d = ((c as u32) - 48) as u64;
        assert(t@.subrange(0, i + 1).drop_last() =~= t@.subrange(0, i as int));
        let next = match acc.checked_mul(10) {
            Some(m) => m.checked_add(d),
            None => None,
        };
        match next {
            Some(v) => {
                acc = v;
            },
            None => {
                proof {
                    lemma_decimal_prefix(t@, i + 1);
                }
                return None;
            },
        }
        i = i + 1;
    }
    assert(t@.subrange(0, n as int) =~= t@);
    Some(acc)
}

} // verus!

verus! {

/// The value of the last parameter named `name`, if any.
pub open spec fn param_value(ps: Seq<(String, String)>, name: Seq<char>) -> Option<Seq<char>>
    decreases ps.len(),
{
    if ps.len() == 0 {
        None
    } else if ps.last().0@ == name {
        Some(ps.last().1@)
    } else {
        param_value(ps.drop_last(), name)
    }
}

/// The extension parameters (names that begin with `X-`), in order.
pub open spec fn extension_params(ps: Seq<(String, String)>) -> Seq<(Seq<char>, Seq<char>)>
    decreases ps.len(),
{
    if ps.len() == 0 {
        Seq::empty()
    } else {
        let rest = extension_params(ps.drop_last());
        let n = ps.last().0@;
        if is_extension_text(n) {
            rest.push((n, ps.last().1@))
        } else {
            rest
        }
    }
}

/// The pairs' texts.
pub open spec fn pair_views(v: Seq<(String, String)>) -> Seq<(Seq<char>, Seq<char>)> {
    v.map_values(|p: (String, String)| (p.0@, p.1@))
}

/// Whether every PREF parameter lies in `1..=100` and every PID parameter
/// is a PID list.
pub open spec fn params_well_typed(ps: Seq<(String, String)>) -> bool {
    forall|k: int|
        0 <= k < ps.len() ==> {
            &&& (#[trigger] ps[k]).0@ == "PREF"@ ==> is_decimal(ps[k].1@) && 1 <= decimal_value(
                ps[k].1@,
            ) <= 100
            &&& ps[k].0@ == "PID"@ ==> forall|j: int|
                0 <= j < split_unescaped(ps[k].1@, ',').len() ==> is_pid_text(
                    #[trigger] split_unescaped(ps[k].1@, ',')[j],
                )
        }
}

/// The last value of the parameter `name`.
fn last_value(ps: &Vec<(String, String)>, name: &str) -> (r: Option<String>)
    ensures
        opt_view(r) == param_value(ps@, name@),
{
    let mut r: Option<String> = None;
    let mut k: usize = 0;
    assert(ps@.subrange(0, 0) =~= Seq::<(String, String)>::empty());
    while k < ps.len()
        invariant
            k <= ps@.len(),
            opt_view(r) == param_value(ps@.subrange(0, k as int), name@),
        decreases ps.len() - k,
    {
        assert(ps@.subrange(0, k + 1).drop_last() =~= ps@.subrange(0, k as int));
        if str_equals(ps[k].0.as_str(), name) {
            r = Some(ps[k].1.clone());
        }
        k = k + 1;
    }
    assert(ps@.subrange(0, ps@.len() as int) =~= ps@);
    r
}

/// The pieces of an optional list value.
pub open spec fn opt_list(o: Option<Vec<String>>) -> Option<Seq<Seq<char>>> {
    match o {
        Some(v) => Some(views_of(v@)),
        None => None,
    }
}

/// The pieces between commas of an optional value.
pub open spec fn opt_split(o: Option<Seq<char>>) -> Option<Seq<Seq<char>>> {
    match o {
        Some(v) => Some(split_unescaped(v, ',')),
        None => None,
    }
}

fn split_value(o: Option<String>) -> (r: Option<Vec<String>>)
    ensures
        opt_list(r) == opt_split(opt_view(o)),
{
    match o {
        Some(v) => Some(split_raw(v.as_str(), ',')),
        None => None,
    }
}

impl Parameters {
    /// Builds the parameter record of a property from its name and value
    /// pairs: for each well-known name the last value given, PREF as a
    /// number, PID, TYPE and SORT-AS as lists, and the `X-` parameters in
    /// order. Fails when a PREF or PID value is malformed.
    pub fn parse(ps: &Vec<(String, String)>) -> (r: Result<Parameters, Error>)
        ensures
            r is Ok <==> params_well_typed(ps@),
            r matches Ok(p) ==> {
                &&& opt_view(p.language) == param_value(ps@, "LANGUAGE"@)
                &&& opt_view(p.value) == param_value(ps@, "VALUE"@)
                &&& opt_view(p.alt_id) == param_value(ps@, "ALTID"@)
                &&& opt_view(p.media_type) == param_value(ps@, "MEDIATYPE"@)
                &&& opt_view(p.calscale) == param_value(ps@, "CALSCALE"@)
                &&& opt_view(p.label) == param_value(ps@, "LABEL"@)
                &&& match param_value(ps@, "PREF"@) {
                    None => p.pref is None,
                    Some(v) => p.pref == Some(decimal_value(v) as u8),
                }
                &&& opt_list(p.pid) == opt_split(param_value(ps@, "PID"@))
                &&& opt_list(p.types) == opt_split(param_value(ps@, "TYPE"@))
                &&& opt_list(p.sort_as) == opt_split(param_value(ps@, "SORT-AS"@))
                &&& match p.extensions {
                    None => extension_params(ps@).len() == 0,
                    Some(v) => pair_views(v@) == extension_params(ps@),
                }
            },
            r matches Err(e) ==> e is PrefOutOfRange || e is InvalidPropertyValue || e is InvalidPid,
    {
        let mut k: usize = 0;
        let mut extensions: Vec<(String, String)> = Vec::new();
        assert(ps@.subrange(0, 0) =~= Seq::<(String, String)>::empty());
        assert(pair_views(extensions@) =~= Seq::<(Seq<char>, Seq<char>)>::empty());
        while k < ps.len()
            invariant
                k <= ps@.len(),
                params_well_typed(ps@.subrange(0, k as int)),
                pair_views(extensions@) == extension_params(ps@.subrange(0, k as int)),
            decreases ps.len() - k,
        {
            let ghost before = pair_views(extensions@);
            assert(ps@.subrange(0, k + 1).drop_last() =~= ps@.subrange(0, k as int));
            let name = ps[k].0.as_str();
            let value = ps[k].1.as_str();
            if str_equals(name, "PREF") {
                if let Err(e) = parse_pref(value) {
                    assert(!params_well_typed(ps@)) by {
                        assert(ps@[k as int].0@ == "PREF"@);
                    }
                    return Err(e);
                }
            }
            if str_equals(name, "PID") {
                if let Err(e) = parse_pid(value) {
                    assert(!params_well_typed(ps@)) by {
                        assert(ps@[k as int].0@ == "PID"@);
                    }
                    return Err(e);
                }
            }
            if is_extension_name(name) {
                extensions.push((ps[k].0.clone(), ps[k].1.clone()));
                assert(pair_views(extensions@) =~= before.push((ps@[k as int].0@, ps@[k as int].1@)));
            }
            assert(params_well_typed(ps@.subrange(0, k + 1))) by {
                assert forall|j: int| 0 <= j < k + 1 implies ps@.subrange(0, k + 1)[j] == ps@[j] by {}
                assert forall|j: int| 0 <= j < k implies ps@.subrange(0, k as int)[j] == ps@[j] by {}
            }
            k = k + 1;
        }
        assert(ps@.subrange(0, ps@.len() as int) =~= ps@);
        let pref = match last_value(ps, "PREF") {
            Some(v) => match parse_pref(v.as_str()) {
                Ok(n) => Some(n),
                Err(e) => {
                    proof {
                        lemma_last_value_in(ps@, "PREF"@);
                    }
                    return Err(e);
                },
            },
            None => None,
        };
        let pid = last_value(ps, "PID");
        proof {
            lemma_last_value_in(ps@, "PID"@);
        }
        let pid = split_value(pid);
        let types = split_value(last_value(ps, "TYPE"));
        let sort_as = split_value(last_value(ps, "SORT-AS"));
        Ok(
            Parameters {
                language: last_value(ps, "LANGUAGE"),
                value: last_value(ps, "VALUE"),
                pref,
                alt_id: last_value(ps, "ALTID"),
                pid,
                types,
                media_type: last_value(ps, "MEDIATYPE"),
                calscale: last_value(ps, "CALSCALE"),
                sort_as,
                label: last_value(ps, "LABEL"),
                extensions: if extensions.len() == 0 {
                    None
                } else {
                    Some(extensions)
                },
            },
        )
    }
}

/// The last value of a parameter is the value of one of the pairs.
proof fn lemma_last_value_in(ps: Seq<(String, String)>, name: Seq<char>)
    ensures
        param_value(ps, name) matches Some(v) ==> exists|k: int|
            0 <= k < ps.len() && ps[k].0@ == name && ps[k].1@ == v,
    decreases ps.len(),
{
    if ps.len() > 0 {
        lemma_last_value_in(ps.drop_last(), name);
        if !(ps.last().0@ == name) {
            if let Some(v) = param_value(ps, name) {
                let k = choose|k: int|
                    0 <= k < ps.drop_last().len() && ps.drop_last()[k].0@ == name
                        && ps.drop_last()[k].1@ == v;
                assert(ps[k] == ps.drop_last()[k]);
            }
        }
    }
}

} // verus!
