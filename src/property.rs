//! Types for properties.

use vstd::prelude::*;

use crate::address::DeliveryAddress;
use crate::date::{date_parts, date_parts_valid, date_text_parts, date_writable, Date};
use crate::daytime::{
    is_valid_time_text, split_zone, time_parts, time_text_parts, time_writable, zone_matches,
    zone_written, Time,
};
use crate::error::Error;
use crate::parameter::{decimal_value, is_decimal, read_u64, Parameters};
use crate::text::{
    escape, escape_text, push_char, push_str, split_raw, split_unescaped, str_equals, unescape,
    unescape_text, views_of,
};
use crate::value::{uri_reference_kind, UriProperty};

verus! {

/// The text of an optional string, if any.
pub open spec fn opt_view(o: Option<String>) -> Option<Seq<char>> {
    match o {
        Some(s) => Some(s@),
        None => None,
    }
}

/// Splits `s` at the first occurrence of `c`: the text before it, and the
/// text after it if `c` occurs.
pub open spec fn split_first(s: Seq<char>, c: char) -> (Seq<char>, Option<Seq<char>>)
    decreases s.len(),
{
    if s.len() == 0 {
        (s, None)
    } else if s[0] == c {
        (Seq::empty(), Some(s.drop_first()))
    } else {
        let rest = split_first(s.drop_first(), c);
        (seq![s[0]] + rest.0, rest.1)
    }
}

proof fn lemma_split_first_at(s: Seq<char>, c: char, i: int)
    requires
        0 <= i < s.len(),
        s[i] == c,
        forall|j: int| 0 <= j < i ==> s[j] != c,
    ensures
        split_first(s, c) == (s.subrange(0, i), Some(s.subrange(i + 1, s.len() as int))),
    decreases i,
{
    if i > 0 {
        lemma_split_first_at(s.drop_first(), c, i - 1);
        assert(seq![s[0]] + s.drop_first().subrange(0, i - 1) =~= s.subrange(0, i));
        assert(s.drop_first().subrange(i, s.len() - 1) =~= s.subrange(i + 1, s.len() as int));
    } else {
        assert(s.subrange(0, 0) =~= Seq::<char>::empty());
        assert(s.drop_first() =~= s.subrange(1, s.len() as int));
    }
}

proof fn lemma_split_first_none(s: Seq<char>, c: char)
    requires
        forall|j: int| 0 <= j < s.len() ==> s[j] != c,
    ensures
        split_first(s, c) == (s, None::<Seq<char>>),
    decreases s.len(),
{
    if s.len() > 0 {
        lemma_split_first_none(s.drop_first(), c);
        assert(seq![s[0]] + s.drop_first() =~= s);
    }
}

/// Kind of vCard.
#[derive(Debug, PartialEq, Eq, Clone, Copy, Structural)]
pub enum Kind {
    /// An individual.
    Individual,
    /// A group.
    Group,
    /// An organization.
    Org,
    /// A location.
    Location,
}

/// The text that names a kind.
pub open spec fn kind_text(k: Kind) -> Seq<char> {
    match k {
        Kind::Individual => "individual"@,
        Kind::Group => "group"@,
        Kind::Org => "org"@,
        Kind::Location => "location"@,
    }
}

impl Kind {
    /// Parses the value of a KIND property.
    pub fn parse(s: &str) -> (r: Result<Kind, Error>)
        ensures
            match r {
                Ok(k) => kind_text(k) == s@,
                Err(Error::UnknownKind(t)) => t@ == s@ && forall|k: Kind| kind_text(k) != s@,
                Err(_) => false,
            },
    {
        if str_equals(s, "individual") {
            Ok(Kind::Individual)
        } else if str_equals(s, "group") {
            Ok(Kind::Group)
        } else if str_equals(s, "org") {
            Ok(Kind::Org)
        } else if str_equals(s, "location") {
            Ok(Kind::Location)
        } else {
            Err(Error::UnknownKind(s.to_owned()))
        }
    }

    /// The text of this kind.
    pub fn to_string(&self) -> (r: String)
        ensures
            r@ == kind_text(*self),
    {
        match self {
            Kind::Individual => "individual".to_owned(),
            Kind::Group => "group".to_owned(),
            Kind::Org => "org".to_owned(),
            Kind::Location => "location".to_owned(),
        }
    }
}

/// Enumeration for sex.
#[derive(Debug, PartialEq, Eq, Clone, Copy, Structural)]
pub enum Sex {
    /// No sex specified.
    Unspecified,
    /// Male sex.
    Male,
    /// Female sex.
    Female,
    /// Other sex.
    Other,
    /// Not applicable.
    NotApplicable,
    /// Unknown sex.
    Unknown,
}

/// The text that names a sex: empty, or one upper-case letter.
pub open spec fn sex_text(x: Sex) -> Seq<char> {
    match x {
        Sex::Unspecified => Seq::empty(),
        Sex::Male => seq!['M'],
        Sex::Female => seq!['F'],
        Sex::Other => seq!['O'],
        Sex::NotApplicable => seq!['N'],
        Sex::Unknown => seq!['U'],
    }
}

impl Sex {
    /// Parses the sex component of a GENDER value.
    pub fn parse(s: &str) -> (r: Result<Sex, Error>)
        ensures
            match r {
                Ok(x) => sex_text(x) == s@,
                Err(Error::UnknownSex(t)) => t@ == s@ && forall|x: Sex| sex_text(x) != s@,
                Err(_) => false,
            },
    {
        let n = s.unicode_len();
        if n == 0 {
            assert(s@ =~= Seq::<char>::empty());
            return Ok(Sex::Unspecified);
        }
        if n == 1 {
            let c = s.get_char(0);
            assert(s@ =~= seq![c]);
            if c == 'M' {
                return Ok(Sex::Male);
            } else if c == 'F' {
                return Ok(Sex::Female);
            } else if c == 'O' {
                return Ok(Sex::Other);
            } else if c == 'N' {
                return Ok(Sex::NotApplicable);
            } else if c == 'U' {
                return Ok(Sex::Unknown);
            }
        }
        assert forall|x: Sex| sex_text(x) != s@ by {
            if sex_text(x) == s@ {
                assert(sex_text(x).len() == n);
                assert(s@[0] == sex_text(x)[0]);
            }
        }
        Err(Error::UnknownSex(s.to_owned()))
    }

    /// The text of this sex.
    pub fn to_string(&self) -> (r: String)
        ensures
            r@ == sex_text(*self),
    {
        let mut r = String::new();
        match self {
            Sex::Unspecified => {},
            Sex::Male => push_char(&mut r, 'M'),
            Sex::Female => push_char(&mut r, 'F'),
            Sex::Other => push_char(&mut r, 'O'),
            Sex::NotApplicable => push_char(&mut r, 'N'),
            Sex::Unknown => push_char(&mut r, 'U'),
        }
        assert(r@ =~= sex_text(*self));
        r
    }
}

} // verus!

verus! {

/// Represents a gender associated with a vCard.
#[derive(Debug, PartialEq, Clone)]
pub struct Gender {
    /// The sex for the gender.
    pub sex: Sex,
    /// The identity text.
    pub identity: Option<String>,
}

/// The text of a gender: the sex, then `;` and the identity when there is one.
pub open spec fn gender_text(sex: Sex, identity: Option<Seq<char>>) -> Seq<char> {
    match identity {
        Some(id) => sex_text(sex) + seq![';'] + id,
        None => sex_text(sex),
    }
}

impl Gender {
    /// Parses a GENDER value `sex [";" identity]`; an empty value has no sex.
    pub fn parse(s: &str) -> (r: Result<Gender, Error>)
        ensures
            match r {
                Ok(g) => sex_text(g.sex) == split_first(s@, ';').0 && opt_view(g.identity)
                    == split_first(s@, ';').1,
                Err(Error::UnknownSex(t)) => t@ == split_first(s@, ';').0 && forall|x: Sex|
                    sex_text(x) != t@,
                Err(_) => false,
            },
    {
        let n = s.unicode_len();
        let mut i: usize = 0;
        while i < n && s.get_char(i) != ';'
            invariant
                n == s@.len(),
                i <= n,
                forall|j: int| 0 <= j < i ==> s@[j] != ';',
            decreases n - i,
        {
            i = i + 1;
        }
        proof {
            if i < n {
                lemma_split_first_at(s@, ';', i as int);
            } else {
                lemma_split_first_none(s@, ';');
                assert(s@.subrange(0, n as int) =~= s@);
            }
        }
        let sex = match Sex::parse(s.substring_char(0, i)) {
            Ok(x) => x,
            Err(e) => {
                return Err(e);
            },
        };
        let identity = if i < n {
            Some(s.substring_char(i + 1, n).to_owned())
        } else {
            None
        };
        Ok(Gender { sex, identity })
    }

    /// The text of this gender.
    pub fn to_string(&self) -> (r: String)
        ensures
            r@ == gender_text(self.sex, opt_view(self.identity)),
    {
        let mut r = self.sex.to_string();
        match &self.identity {
            Some(id) => {
                push_char(&mut r, ';');
                push_str(&mut r, id.as_str());
            },
            None => {},
        }
        r
    }
}

/// The text of a sex never holds a `;`.
proof fn lemma_sex_text_plain(x: Sex)
    ensures
        forall|j: int| 0 <= j < sex_text(x).len() ==> sex_text(x)[j] != ';',
{
}

/// Distinct sexes have distinct texts.
pub proof fn lemma_sex_text_injective(x: Sex, y: Sex)
    ensures
        sex_text(x) == sex_text(y) ==> x == y,
{
    if sex_text(x) == sex_text(y) && sex_text(x).len() == 1 {
        assert(sex_text(x)[0] == sex_text(y)[0]);
    }
}

/// Distinct kinds have distinct texts.
pub proof fn lemma_kind_text_injective(x: Kind, y: Kind)
    ensures
        kind_text(x) == kind_text(y) ==> x == y,
{
    reveal_strlit("individual");
    reveal_strlit("group");
    reveal_strlit("org");
    reveal_strlit("location");
    assert("individual"@.len() == 10);
    assert("group"@.len() == 5);
    assert("org"@.len() == 3);
    assert("location"@.len() == 8);
    if kind_text(x) == kind_text(y) {
        assert(kind_text(x).len() == kind_text(y).len());
    }
}

/// Parsing the text of a gender gives back its sex and identity.
pub proof fn lemma_gender_round_trip(sex: Sex, identity: Option<Seq<char>>)
    ensures
        split_first(gender_text(sex, identity), ';') == (sex_text(sex), identity),
{
    lemma_sex_text_plain(sex);
    let t = gender_text(sex, identity);
    let k = sex_text(sex).len() as int;
    match identity {
        Some(id) => {
            lemma_split_first_at(t, ';', k);
            assert(t.subrange(0, k) =~= sex_text(sex));
            assert(t.subrange(k + 1, t.len() as int) =~= id);
        },
        None => {
            lemma_split_first_none(t, ';');
        },
    }
}

} // verus!

verus! {

/// Trait for vCard properties.
pub trait Property {
    /// The group of the property.
    spec fn group_of(&self) -> Option<String>;

    /// The parameters of the property.
    spec fn parameters_of(&self) -> Option<Parameters>;

    /// Get the property group.
    fn group(&self) -> (r: Option<&String>)
        ensures
            match r {
                Some(g) => self.group_of() == Some(*g),
                None => self.group_of() is None,
            },
    ;

    /// Get the property parameters.
    fn parameters(&self) -> (r: Option<&Parameters>)
        ensures
            match r {
                Some(p) => self.parameters_of() == Some(*p),
                None => self.parameters_of() is None,
            },
    ;
}

/// The ADR property.
#[derive(Debug, PartialEq, Clone)]
pub struct AddressProperty {
    /// Group for this property.
    pub group: Option<String>,
    /// The value for the property.
    pub value: DeliveryAddress,
    /// The property parameters.
    pub parameters: Option<Parameters>,
}

/// The value of a CLIENTPIDMAP property: a source identifier and the URI
/// that it stands for.
#[derive(Debug, PartialEq, Clone)]
pub struct ClientPidMap {
    /// The PID source identifier.
    pub source: u64,
    /// The URI of the source.
    pub uri: String,
}

/// Client PID map property.
#[derive(Debug, PartialEq, Clone)]
pub struct ClientPidMapProperty {
    /// Group for this property.
    pub group: Option<String>,
    /// The value for the property.
    pub value: ClientPidMap,
    /// The property parameters.
    pub parameters: Option<Parameters>,
}

/// A date, a time, or both.
#[derive(Debug, PartialEq, Clone)]
pub enum DateAndOrTime {
    /// A date, possibly partial.
    Date(Date),
    /// A time, possibly partial.
    Time(Time),
    /// A date and a time.
    DateTime(Date, Time),
}

/// Whether the date text `d` names a date that can exist.
pub open spec fn is_valid_date_text(d: Seq<char>) -> bool {
    date_text_parts(d) matches Some(p) && date_parts_valid(p.0, p.1, p.2)
}

/// Whether `x` is the date that the text `d` writes.
pub open spec fn date_written(x: Date, d: Seq<char>) -> bool {
    date_text_parts(d) == Some(date_parts(x))
}

/// Whether `y` is the time that the text `t` writes.
pub open spec fn time_written(y: Time, t: Seq<char>) -> bool {
    time_text_parts(split_zone(t).0) == Some(time_parts(y)) && zone_matches(y.zone, split_zone(t).1)
}

/// What reading `s` as a date-and-or-time gives: split at the first `T`,
/// a date alone, a time alone after `T`, or a date, `T` and a time.
pub open spec fn date_and_or_time_result(s: Seq<char>, r: Result<DateAndOrTime, Error>) -> bool {
    let (d, t) = split_first(s, 'T');
    match t {
        None => {
            &&& r is Ok <==> is_valid_date_text(d)
            &&& r matches Ok(v) ==> (v matches DateAndOrTime::Date(x) && date_written(x, d))
            &&& r matches Err(e) ==> e is InvalidDate
        },
        Some(tt) => if d.len() == 0 {
            &&& r is Ok <==> is_valid_time_text(tt)
            &&& r matches Ok(v) ==> (v matches DateAndOrTime::Time(y) && time_written(y, tt))
            &&& r matches Err(e) ==> e is InvalidDateTime
        } else {
            &&& r is Ok <==> is_valid_date_text(d) && is_valid_time_text(tt)
            &&& r matches Ok(v) ==> (v matches DateAndOrTime::DateTime(x, y) && date_written(x, d)
                && time_written(y, tt))
            &&& r matches Err(e) ==> e is InvalidDateTime
        },
    }
}

impl DateAndOrTime {
    /// Parses a date-and-or-time: a date; `T` and a time; or a date, `T`
    /// and a time. A text with `T` that is not both fails with
    /// `InvalidDateTime`, one without `T` that is no date with `InvalidDate`.
    pub fn parse(s: &str) -> (r: Result<DateAndOrTime, Error>)
        ensures
            date_and_or_time_result(s@, r),
    {
        let n = s.unicode_len();
        let mut i: usize = 0;
        while i < n && s.get_char(i) != 'T'
            invariant
                n == s@.len(),
                i <= n,
                forall|j: int| 0 <= j < i ==> s@[j] != 'T',
            decreases n - i,
        {
            i = i + 1;
        }
        if i == n {
            proof {
                lemma_split_first_none(s@, 'T');
            }
            return match Date::parse(s) {
                Ok(x) => Ok(DateAndOrTime::Date(x)),
                Err(e) => Err(e),
            };
        }
        proof {
            lemma_split_first_at(s@, 'T', i as int);
        }
        let time = match Time::parse(s.substring_char(i + 1, n)) {
            Ok(y) => y,
            Err(_) => {
                return Err(Error::InvalidDateTime(s.to_owned()));
            },
        };
        if i == 0 {
            return Ok(DateAndOrTime::Time(time));
        }
        match Date::parse(s.substring_char(0, i)) {
            Ok(x) => Ok(DateAndOrTime::DateTime(x, time)),
            Err(_) => Err(Error::InvalidDateTime(s.to_owned())),
        }
    }
}

/// Date and or time property.
#[derive(Debug, PartialEq, Clone)]
pub struct DateAndOrTimeProperty {
    /// Group for this property.
    pub group: Option<String>,
    /// The value for the property.
    pub value: DateAndOrTime,
    /// The property parameters.
    pub parameters: Option<Parameters>,
}

/// Text property value.
#[derive(Debug, PartialEq, Clone)]
pub struct TextProperty {
    /// Group for this property.
    pub group: Option<String>,
    /// Value for this property.
    pub value: String,
    /// Parameters for this property.
    pub parameters: Option<Parameters>,
}

/// Text list property value.
#[derive(Debug, PartialEq, Clone)]
pub struct TextListProperty {
    /// Group for this property.
    pub group: Option<String>,
    /// Value for this property.
    pub value: Vec<String>,
    /// Parameters for this property.
    pub parameters: Option<Parameters>,
}

/// Either text or a date and or time.
#[derive(Debug, PartialEq, Clone)]
pub enum DateTimeOrTextProperty {
    /// Date time value.
    DateTime(DateAndOrTimeProperty),
    /// Text value.
    Text(TextProperty),
}

/// Property for a vCard kind.
#[derive(Debug, PartialEq, Clone)]
pub struct KindProperty {
    /// Group for this property.
    pub group: Option<String>,
    /// The value for the property.
    pub value: Kind,
    /// The property parameters.
    pub parameters: Option<Parameters>,
}

/// Property for a vCard gender.
#[derive(Debug, PartialEq, Clone)]
pub struct GenderProperty {
    /// Group for this property.
    pub group: Option<String>,
    /// The value for the property.
    pub value: Gender,
    /// The property parameters.
    pub parameters: Option<Parameters>,
}

impl Property for AddressProperty {
    open spec fn group_of(&self) -> Option<String> {
        self.group
    }

    open spec fn parameters_of(&self) -> Option<Parameters> {
        self.parameters
    }

    fn group(&self) -> Option<&String> {
        self.group.as_ref()
    }

    fn parameters(&self) -> Option<&Parameters> {
        self.parameters.as_ref()
    }
}

impl Property for ClientPidMapProperty {
    open spec fn group_of(&self) -> Option<String> {
        self.group
    }

    open spec fn parameters_of(&self) -> Option<Parameters> {
        self.parameters
    }

    fn group(&self) -> Option<&String> {
        self.group.as_ref()
    }

    fn parameters(&self) -> Option<&Parameters> {
        self.parameters.as_ref()
    }
}

impl Property for DateAndOrTimeProperty {
    open spec fn group_of(&self) -> Option<String> {
        self.group
    }

    open spec fn parameters_of(&self) -> Option<Parameters> {
        self.parameters
    }

    fn group(&self) -> Option<&String> {
        self.group.as_ref()
    }

    fn parameters(&self) -> Option<&Parameters> {
        self.parameters.as_ref()
    }
}

impl Property for TextProperty {
    open spec fn group_of(&self) -> Option<String> {
        self.group
    }

    open spec fn parameters_of(&self) -> Option<Parameters> {
        self.parameters
    }

    fn group(&self) -> Option<&String> {
        self.group.as_ref()
    }

    fn parameters(&self) -> Option<&Parameters> {
        self.parameters.as_ref()
    }
}

impl Property for TextListProperty {
    open spec fn group_of(&self) -> Option<String> {
        self.group
    }

    open spec fn parameters_of(&self) -> Option<Parameters> {
        self.parameters
    }

    fn group(&self) -> Option<&String> {
        self.group.as_ref()
    }

    fn parameters(&self) -> Option<&Parameters> {
        self.parameters.as_ref()
    }
}

impl Property for KindProperty {
    open spec fn group_of(&self) -> Option<String> {
        self.group
    }

    open spec fn parameters_of(&self) -> Option<Parameters> {
        self.parameters
    }

    fn group(&self) -> Option<&String> {
        self.group.as_ref()
    }

    fn parameters(&self) -> Option<&Parameters> {
        self.parameters.as_ref()
    }
}

impl Property for GenderProperty {
    open spec fn group_of(&self) -> Option<String> {
        self.group
    }

    open spec fn parameters_of(&self) -> Option<Parameters> {
        self.parameters
    }

    fn group(&self) -> Option<&String> {
        self.group.as_ref()
    }

    fn parameters(&self) -> Option<&Parameters> {
        self.parameters.as_ref()
    }
}

impl Property for DateTimeOrTextProperty {
    open spec fn group_of(&self) -> Option<String> {
        match self {
            DateTimeOrTextProperty::Text(val) => val.group,
            DateTimeOrTextProperty::DateTime(val) => val.group,
        }
    }

    open spec fn parameters_of(&self) -> Option<Parameters> {
        match self {
            DateTimeOrTextProperty::Text(val) => val.parameters,
            DateTimeOrTextProperty::DateTime(val) => val.parameters,
        }
    }

    fn group(&self) -> Option<&String> {
        match self {
            DateTimeOrTextProperty::Text(val) => val.group(),
            DateTimeOrTextProperty::DateTime(val) => val.group(),
        }
    }

    fn parameters(&self) -> Option<&Parameters> {
        match self {
            DateTimeOrTextProperty::Text(val) => val.parameters(),
            DateTimeOrTextProperty::DateTime(val) => val.parameters(),
        }
    }
}

} // verus!

verus! {

/// Escaped texts joined by `,`.
pub open spec fn join_escaped(items: Seq<Seq<char>>) -> Seq<char>
    decreases items.len(),
{
    if items.len() == 0 {
        Seq::empty()
    } else if items.len() == 1 {
        escape_text(items[0])
    } else {
        join_escaped(items.drop_last()) + seq![','] + escape_text(items.last())
    }
}

impl TextProperty {
    /// Makes a text property of a raw value, unescaping it.
    pub fn parse(s: &str) -> (r: TextProperty)
        ensures
            r.value@ == unescape_text(s@),
            r.group is None,
            r.parameters is None,
    {
        TextProperty { group: None, value: unescape(s), parameters: None }
    }

    /// The value escaped as text.
    pub fn to_string(&self) -> (r: String)
        ensures
            r@ == escape_text(self.value@),
    {
        escape(self.value.as_str())
    }
}

impl TextListProperty {
    /// Makes a text-list property of a raw value: the pieces between
    /// unescaped commas, each unescaped.
    pub fn parse(s: &str) -> (r: TextListProperty)
        ensures
            views_of(r.value@) == split_unescaped(s@, ',').map_values(
                |p: Seq<char>| unescape_text(p),
            ),
            r.group is None,
            r.parameters is None,
    {
        let parts = split_raw(s, ',');
        let mut value: Vec<String> = Vec::new();
        let mut i: usize = 0;
        while i < parts.len()
            invariant
                i <= parts@.len(),
                views_of(parts@) == split_unescaped(s@, ','),
                views_of(value@) == views_of(parts@).subrange(0, i as int).map_values(
                    |p: Seq<char>| unescape_text(p),
                ),
            decreases parts.len() - i,
        {
            let ghost before = views_of(value@);
            value.push(unescape(parts[i].as_str()));
            assert(views_of(parts@)[i as int] == parts@[i as int]@);
            assert(views_of(value@) =~= before.push(unescape_text(parts@[i as int]@)));
            assert(views_of(value@) =~= views_of(parts@).subrange(0, i + 1).map_values(
                |p: Seq<char>| unescape_text(p),
            ));
            i = i + 1;
        }
        assert(views_of(parts@).subrange(0, parts@.len() as int) =~= views_of(parts@));
        TextListProperty { group: None, value, parameters: None }
    }

    /// The items escaped as text and joined by `,`.
    pub fn to_string(&self) -> (r: String)
        ensures
            r@ == join_escaped(views_of(self.value@)),
    {
        let mut r = String::new();
        let mut i: usize = 0;
        while i < self.value.len()
            invariant
                i <= self.value@.len(),
                r@ == join_escaped(views_of(self.value@).subrange(0, i as int)),
            decreases self.value.len() - i,
        {
            let ghost before = r@;
            let ghost items = views_of(self.value@).subrange(0, i + 1);
            assert(items.drop_last() =~= views_of(self.value@).subrange(0, i as int));
            assert(items.last() == self.value@[i as int]@);
            if i > 0 {
                push_char(&mut r, ',');
            }
            push_str(&mut r, escape(self.value[i].as_str()).as_str());
            assert(r@ =~= join_escaped(items));
            i = i + 1;
        }
        assert(views_of(self.value@).subrange(0, self.value@.len() as int) =~= views_of(
            self.value@,
        ));
        r
    }
}

impl DateAndOrTimeProperty {
    /// Parses a date-and-or-time value into a property.
    pub fn parse(s: &str) -> (r: Result<DateAndOrTimeProperty, Error>)
        ensures
            match r {
                Ok(p) => date_and_or_time_result(s@, Ok(p.value)) && p.group is None
                    && p.parameters is None,
                Err(e) => date_and_or_time_result(s@, Err(e)),
            },
    {
        match DateAndOrTime::parse(s) {
            Ok(v) => Ok(DateAndOrTimeProperty { group: None, value: v, parameters: None }),
            Err(e) => Err(e),
        }
    }
}

} // verus!

verus! {

impl ClientPidMap {
    /// Parses a CLIENTPIDMAP value: a source number, `;`, and a URI.
    pub fn parse(s: &str) -> (r: Result<ClientPidMap, Error>)
        ensures
            r is Ok <==> ({
                let (src, uri) = split_first(s@, ';');
                &&& is_decimal(src) && decimal_value(src) <= u64::MAX
                &&& uri matches Some(u) && uri_reference_kind(u) == Some(true)
            }),
            r matches Ok(m) ==> m.source == decimal_value(split_first(s@, ';').0) && split_first(
                s@,
                ';',
            ).1 == Some(m.uri@),
            r matches Err(e) ==> e matches Error::InvalidClientPidMap(t) && t@ == s@,
    {
        let n = s.unicode_len();
        let mut i: usize = 0;
        while i < n && s.get_char(i) != ';'
            invariant
                n == s@.len(),
                i <= n,
                forall|j: int| 0 <= j < i ==> s@[j] != ';',
            decreases n - i,
        {
            i = i + 1;
        }
        if i == n {
            proof {
                lemma_split_first_none(s@, ';');
            }
            return Err(Error::InvalidClientPidMap(s.to_owned()));
        }
        proof {
            lemma_split_first_at(s@, ';', i as int);
        }
        let source = match read_u64(s.substring_char(0, i)) {
            Some(v) => v,
            None => {
                return Err(Error::InvalidClientPidMap(s.to_owned()));
            },
        };
        let rest = s.substring_char(i + 1, n);
        match UriProperty::parse(rest) {
            Ok(u) => Ok(ClientPidMap { source, uri: u.value }),
            Err(_) => Err(Error::InvalidClientPidMap(s.to_owned())),
        }
    }
}

} // verus!

verus! {

/// Whether `s` is a timestamp: `YYYYMMDD`, `T`, then `hhmmss` with an
/// optional zone, naming a date and time that exist.
pub open spec fn is_timestamp_text(s: Seq<char>) -> bool {
    let (d, t) = split_first(s, 'T');
    &&& d.len() == 8 && is_valid_date_text(d)
    &&& t matches Some(tt) && split_zone(tt).0.len() == 6 && is_valid_time_text(tt)
}

/// Date time property: a timestamp.
#[derive(Debug, PartialEq, Clone)]
pub struct DateTimeProperty {
    /// Group for this property.
    pub group: Option<String>,
    /// The date of the timestamp.
    pub date: Date,
    /// The time of the timestamp.
    pub time: Time,
    /// The property parameters.
    pub parameters: Option<Parameters>,
}

impl DateTimeProperty {
    /// Parses a timestamp `YYYYMMDDThhmmss[Z|[+-]hhmm]`; any other text
    /// fails with `InvalidDateTime`.
    pub fn parse(s: &str) -> (r: Result<DateTimeProperty, Error>)
        ensures
            r is Ok <==> is_timestamp_text(s@),
            r matches Ok(p) ==> (date_written(p.date, split_first(s@, 'T').0) && (split_first(
                s@,
                'T',
            ).1 matches Some(tt) && time_written(p.time, tt))),
            r matches Ok(p) ==> p.group is None && p.parameters is None,
            r matches Err(e) ==> e matches Error::InvalidDateTime(t) && t@ == s@,
    {
        match DateAndOrTime::parse(s) {
            Ok(DateAndOrTime::DateTime(date, time)) => {
                if date.year.is_some() && date.month.is_some() && date.day.is_some()
                    && time.hour.is_some() && time.minute.is_some() && time.second.is_some() {
                    Ok(DateTimeProperty { group: None, date, time, parameters: None })
                } else {
                    Err(Error::InvalidDateTime(s.to_owned()))
                }
            },
            _ => Err(Error::InvalidDateTime(s.to_owned())),
        }
    }
}

} // verus!

verus! {

/// Whether `r` is the written form of a date: its text in the date's
/// shape, or empty for a date of no written shape.
pub open spec fn date_text_is(d: Date, r: Seq<char>) -> bool {
    &&& date_writable(d) ==> date_written(d, r)
    &&& !date_writable(d) ==> r.len() == 0
}

/// Whether `r` is the written form of a time: its text in the time's
/// shape, or empty for a time of no written shape.
pub open spec fn time_text_is(t: Time, r: Seq<char>) -> bool {
    &&& time_writable(t) ==> time_written(t, r) && zone_written(t.zone, split_zone(r).1)
    &&& !time_writable(t) ==> r.len() == 0
}

/// Whether `r` is the written form of a date-and-or-time: the date; `T`
/// and the time; or the date, `T` and the time.
pub open spec fn date_and_or_time_written(v: DateAndOrTime, r: Seq<char>) -> bool {
    match v {
        DateAndOrTime::Date(d) => date_text_is(d, r),
        DateAndOrTime::Time(t) => r.len() > 0 && r[0] == 'T' && time_text_is(t, r.drop_first()),
        DateAndOrTime::DateTime(d, t) => exists|k: int|
            0 <= k < r.len() && r[k] == 'T' && date_text_is(d, r.subrange(0, k)) && time_text_is(
                t,
                r.subrange(k + 1, r.len() as int),
            ),
    }
}

impl DateAndOrTime {
    /// Writes the value: the date; `T` and the time; or the date, `T` and
    /// the time.
    pub fn to_string(&self) -> (r: String)
        ensures
            date_and_or_time_written(*self, r@),
    {
        match self {
            DateAndOrTime::Date(d) => d.to_string(),
            DateAndOrTime::Time(t) => {
                let mut r = String::new();
                push_char(&mut r, 'T');
                let ts = t.to_string();
                push_str(&mut r, ts.as_str());
                assert(r@.drop_first() =~= ts@);
                r
            },
            DateAndOrTime::DateTime(d, t) => {
                let mut r = d.to_string();
                let ghost ds = r@;
                push_char(&mut r, 'T');
                let ts = t.to_string();
                push_str(&mut r, ts.as_str());
                assert(r@.subrange(0, ds.len() as int) =~= ds);
                assert(r@.subrange(ds.len() as int + 1, r@.len() as int) =~= ts@);
                assert(r@[ds.len() as int] == 'T');
                r
            },
        }
    }
}

impl DateAndOrTimeProperty {
    /// The written value.
    pub fn to_string(&self) -> (r: String)
        ensures
            date_and_or_time_written(self.value, r@),
    {
        self.value.to_string()
    }
}

impl DateTimeOrTextProperty {
    /// The written value: escaped text, or the date and or time.
    pub fn to_string(&self) -> (r: String)
        ensures
            match self {
                DateTimeOrTextProperty::Text(t) => r@ == escape_text(t.value@),
                DateTimeOrTextProperty::DateTime(p) => date_and_or_time_written(p.value, r@),
            },
    {
        match self {
            DateTimeOrTextProperty::Text(t) => t.to_string(),
            DateTimeOrTextProperty::DateTime(p) => p.to_string(),
        }
    }
}

} // verus!

verus! {

/// The text before the first `c` holds no `c`.
pub proof fn lemma_split_first_head(s: Seq<char>, c: char)
    ensures
        forall|j: int| 0 <= j < split_first(s, c).0.len() ==> split_first(s, c).0[j] != c,
    decreases s.len(),
{
    if s.len() > 0 && s[0] != c {
        lemma_split_first_head(s.drop_first(), c);
        let rest = split_first(s.drop_first(), c).0;
        assert forall|j: int| 0 <= j < split_first(s, c).0.len() implies split_first(s, c).0[j]
            != c by {
            if j > 0 {
                assert(split_first(s, c).0[j] == rest[j - 1]);
            }
        }
    }
}

/// A KIND value names one kind: a text that holds `,` or `;` is no kind,
/// so parsing it fails with `UnknownKind`.
pub proof fn lemma_kind_single(s: Seq<char>, i: int)
    requires
        0 <= i < s.len(),
        s[i] == ',' || s[i] == ';',
    ensures
        forall|k: Kind| kind_text(k) != s,
{
    reveal_strlit("individual");
    reveal_strlit("group");
    reveal_strlit("org");
    reveal_strlit("location");
    assert forall|k: Kind| kind_text(k) != s by {
        if kind_text(k) == s {
            assert(kind_text(k)[i] == s[i]);
        }
    }
}

/// A GENDER whose sex part (the text before the first `;`, which holds no
/// `;`) is no sex fails with `UnknownSex` naming that part.
pub proof fn lemma_gender_unknown_sex(s: Seq<char>, r: Result<Gender, Error>)
    requires
        forall|x: Sex| sex_text(x) != split_first(s, ';').0,
        match r {
            Ok(g) => sex_text(g.sex) == split_first(s, ';').0 && opt_view(g.identity)
                == split_first(s, ';').1,
            Err(Error::UnknownSex(t)) => t@ == split_first(s, ';').0 && forall|x: Sex|
                sex_text(x) != t@,
            Err(_) => false,
        },
    ensures
        r matches Err(Error::UnknownSex(t)) && t@ == split_first(s, ';').0,
        forall|j: int| 0 <= j < split_first(s, ';').0.len() ==> split_first(s, ';').0[j] != ';',
{
    lemma_split_first_head(s, ';');
}

} // verus!

verus! {

impl std::str::FromStr for Kind {
    type Err = Error;

    fn from_str(s: &str) -> (r: Result<Kind, Error>)
        ensures
            match r {
                Ok(k) => kind_text(k) == s@,
                Err(Error::UnknownKind(t)) => t@ == s@ && forall|k: Kind| kind_text(k) != s@,
                Err(_) => false,
            },
    {
        Kind::parse(s)
    }
}

impl std::str::FromStr for Sex {
    type Err = Error;

    fn from_str(s: &str) -> (r: Result<Sex, Error>)
        ensures
            match r {
                Ok(x) => sex_text(x) == s@,
                Err(Error::UnknownSex(t)) => t@ == s@ && forall|x: Sex| sex_text(x) != s@,
                Err(_) => false,
            },
    {
        Sex::parse(s)
    }
}

impl std::str::FromStr for Gender {
    type Err = Error;

    fn from_str(s: &str) -> (r: Result<Gender, Error>)
        ensures
            match r {
                Ok(g) => sex_text(g.sex) == split_first(s@, ';').0 && opt_view(g.identity)
                    == split_first(s@, ';').1,
                Err(Error::UnknownSex(t)) => t@ == split_first(s@, ';').0 && forall|x: Sex|
                    sex_text(x) != t@,
                Err(_) => false,
            },
    {
        Gender::parse(s)
    }
}

} // verus!

verus! {

/// In a GENDER value `a;rest` whose part `a` holds no `;`, the sex part is
/// `a` and the identity is `rest`; so parsing gives `UnknownSex(a)` when `a`
/// is no sex, and no gender at all.
pub proof fn lemma_gender_parts(a: Seq<char>, rest: Seq<char>)
    requires
        forall|j: int| 0 <= j < a.len() ==> a[j] != ';',
    ensures
        split_first(a + seq![';'] + rest, ';') == (a, Some(rest)),
{
    let s = a + seq![';'] + rest;
    lemma_split_first_at(s, ';', a.len() as int);
    assert(s.subrange(0, a.len() as int) =~= a);
    assert(s.subrange(a.len() as int + 1, s.len() as int) =~= rest);
}

} // verus!
