//! Content lines and the cards that they make up.

use vstd::prelude::*;

use crate::error::Error;
use crate::lexer::{line_view, LineView};
use crate::text::str_equals;

verus! {

/// One property as written on a logical line: `[group "."] name *(";"
/// param) ":" value`, with the name in upper case and the value raw.
#[derive(Debug, PartialEq, Clone)]
pub struct ContentLine {
    /// The group, if any.
    pub group: Option<String>,
    /// The property name, in upper case.
    pub name: String,
    /// The parameters as name and raw value pairs, names in upper case.
    pub parameters: Vec<(String, String)>,
    /// The raw value after the colon.
    pub value: String,
}

/// A vCard: its properties in the order in which they were read, the
/// leading `VERSION:4.0` left out.
#[derive(Debug, PartialEq, Clone)]
pub struct Card {
    /// The properties of the card.
    pub properties: Vec<ContentLine>,
}

/// How many of the properties carry the name `name`.
pub open spec fn count_named(props: Seq<LineView>, name: Seq<char>) -> nat
    decreases props.len(),
{
    if props.len() == 0 {
        0
    } else {
        count_named(props.drop_last(), name) + if props.last().1 == name {
            1nat
        } else {
            0nat
        }
    }
}

/// The names of the properties that a card may hold at most once, in the
/// order in which they are checked.
pub open spec fn at_most_once_names() -> Seq<Seq<char>> {
    seq![
        "KIND"@,
        "FN"@,
        "N"@,
        "BDAY"@,
        "ANNIVERSARY"@,
        "GENDER"@,
        "PRODID"@,
        "REV"@,
        "UID"@,
    ]
}

/// Whether the properties hold `KIND:group`.
pub open spec fn has_group_kind(props: Seq<LineView>) -> bool {
    exists|i: int| 0 <= i < props.len() && props[i].1 == "KIND"@ && props[i].3 == "group"@
}

/// The content lines as plain values.
pub open spec fn lines_view(props: Seq<ContentLine>) -> Seq<LineView> {
    props.map_values(|l: ContentLine| line_view(l))
}

/// Whether no at-most-once name before index `k` of the list occurs twice.
pub open spec fn once_before(props: Seq<LineView>, k: int) -> bool {
    forall|j: int| 0 <= j < k ==> count_named(props, #[trigger] at_most_once_names()[j]) <= 1
}

/// Counts the properties named `name`.
pub fn count_properties(props: &Vec<ContentLine>, name: &str) -> (c: usize)
    ensures
        c == count_named(lines_view(props@), name@),
{
    let mut c: usize = 0;
    let mut i: usize = 0;
    assert(lines_view(props@.subrange(0, 0)) =~= Seq::<LineView>::empty());
    while i < props.len()
        invariant
            i <= props@.len(),
            c == count_named(lines_view(props@.subrange(0, i as int)), name@),
            c <= i,
        decreases props.len() - i,
    {
        assert(lines_view(props@.subrange(0, i + 1)).drop_last() =~= lines_view(
            props@.subrange(0, i as int),
        ));
        assert(lines_view(props@.subrange(0, i + 1)).last() == line_view(props@[i as int]));
        if str_equals(props[i].name.as_str(), name) {
            c = c + 1;
        }
        i = i + 1;
    }
    assert(props@.subrange(0, props@.len() as int) =~= props@);
    c
}

fn holds_group_kind(props: &Vec<ContentLine>) -> (r: bool)
    ensures
        r == has_group_kind(lines_view(props@)),
{
    let mut i: usize = 0;
    while i < props.len()
        invariant
            i <= props@.len(),
            forall|j: int|
                0 <= j < i ==> !(props@[j].name@ == "KIND"@ && props@[j].value@ == "group"@),
        decreases props.len() - i,
    {
        if str_equals(props[i].name.as_str(), "KIND") && str_equals(
            props[i].value.as_str(),
            "group",
        ) {
            assert(lines_view(props@)[i as int] == line_view(props@[i as int]));
            return true;
        }
        i = i + 1;
    }
    assert forall|j: int| 0 <= j < props@.len() implies !(lines_view(props@)[j].1 == "KIND"@
        && lines_view(props@)[j].3 == "group"@) by {
        assert(lines_view(props@)[j] == line_view(props@[j]));
    }
    false
}

fn check_once(props: &Vec<ContentLine>, name: &str) -> (r: Result<(), Error>)
    ensures
        r is Ok <==> count_named(lines_view(props@), name@) <= 1,
        r matches Err(e) ==> e matches Error::OnlyOnce(t) && t@ == name@,
{
    if count_properties(props, name) > 1 {
        Err(Error::OnlyOnce(name.to_owned()))
    } else {
        Ok(())
    }
}

/// What checking the card-level rules gives for the properties `props`:
/// the first at-most-once name, in list order, that occurs twice; then a
/// missing `FN`; then `MEMBER` without `KIND:group`.
pub open spec fn validation_result(props: Seq<LineView>, r: Result<(), Error>) -> bool {
    match r {
        Ok(()) => once_before(props, 9) && count_named(props, "FN"@) >= 1 && (count_named(
            props,
            "MEMBER"@,
        ) > 0 ==> has_group_kind(props)),
        Err(Error::OnlyOnce(t)) => exists|k: int|
            0 <= k < 9 && t@ == at_most_once_names()[k] && count_named(props, t@) > 1
                && once_before(props, k),
        Err(Error::NoFormattedName) => once_before(props, 9) && count_named(props, "FN"@) == 0,
        Err(Error::MemberRequiresGroup) => once_before(props, 9) && count_named(props, "FN"@) >= 1
            && count_named(props, "MEMBER"@) > 0 && !has_group_kind(props),
        Err(_) => false,
    }
}

impl Card {
    /// Checks the rules that a whole card obeys: each at-most-once property
    /// occurs at most once, `FN` occurs, and `MEMBER` only with `KIND:group`.
    pub fn validate(&self) -> (r: Result<(), Error>)
        ensures
            validation_result(lines_view(self.properties@), r),
    {
        let props = &self.properties;
        let ghost names = at_most_once_names();
        let ghost p = lines_view(props@);
        if let Err(e) = check_once(props, "KIND") {
            assert(once_before(p, 0));
            return Err(e);
        }
        if let Err(e) = check_once(props, "FN") {
            assert(once_before(p, 1));
            return Err(e);
        }
        if let Err(e) = check_once(props, "N") {
            assert(once_before(p, 2));
            return Err(e);
        }
        if let Err(e) = check_once(props, "BDAY") {
            assert(once_before(p, 3));
            return Err(e);
        }
        if let Err(e) = check_once(props, "ANNIVERSARY") {
            assert(once_before(p, 4));
            return Err(e);
        }
        if let Err(e) = check_once(props, "GENDER") {
            assert(once_before(p, 5));
            return Err(e);
        }
        if let Err(e) = check_once(props, "PRODID") {
            assert(once_before(p, 6));
            return Err(e);
        }
        if let Err(e) = check_once(props, "REV") {
            assert(once_before(p, 7));
            return Err(e);
        }
        if let Err(e) = check_once(props, "UID") {
            assert(once_before(p, 8));
            return Err(e);
        }
        assert(once_before(p, 9));
        if count_properties(props, "FN") == 0 {
            return Err(Error::NoFormattedName);
        }
        if count_properties(props, "MEMBER") > 0 && !holds_group_kind(props) {
            return Err(Error::MemberRequiresGroup);
        }
        Ok(())
    }
}

/// A card that holds an at-most-once property twice fails with `OnlyOnce`
/// naming it, when no name before it in the list also occurs twice.
pub proof fn lemma_twice_fails_only_once(props: Seq<LineView>, k: int, r: Result<(), Error>)
    requires
        0 <= k < 9,
        count_named(props, at_most_once_names()[k]) > 1,
        once_before(props, k),
        validation_result(props, r),
    ensures
        r matches Err(Error::OnlyOnce(t)) && t@ == at_most_once_names()[k],
{
    match r {
        Err(Error::OnlyOnce(t)) => {
            let k2 = choose|k2: int|
                0 <= k2 < 9 && t@ == at_most_once_names()[k2] && count_named(props, t@) > 1
                    && once_before(props, k2);
            if k2 < k {
                assert(count_named(props, at_most_once_names()[k2]) <= 1);
            } else if k2 > k {
                assert(count_named(props, at_most_once_names()[k]) <= 1);
            }
        },
        _ => {
            assert(count_named(props, at_most_once_names()[k]) <= 1);
        },
    }
}

/// A card with `FN`, no repeated at-most-once property and some `MEMBER`
/// fails with `MemberRequiresGroup` exactly when it lacks `KIND:group`.
pub proof fn lemma_member_requires_group(props: Seq<LineView>, r: Result<(), Error>)
    requires
        once_before(props, 9),
        count_named(props, "FN"@) >= 1,
        count_named(props, "MEMBER"@) > 0,
        validation_result(props, r),
    ensures
        (r matches Err(Error::MemberRequiresGroup)) == !has_group_kind(props),
        r is Ok == has_group_kind(props),
{
    match r {
        Err(Error::OnlyOnce(t)) => {
            let k2 = choose|k2: int|
                0 <= k2 < 9 && t@ == at_most_once_names()[k2] && count_named(props, t@) > 1
                    && once_before(props, k2);
            assert(count_named(props, at_most_once_names()[k2]) <= 1);
        },
        _ => {},
    }
}

/// A card that fails the card-level rules does not pass them.
pub proof fn lemma_validation_err(props: Seq<LineView>, r: Result<(), Error>)
    requires
        validation_result(props, r),
        r is Err,
    ensures
        !validation_result(props, Ok(())),
{
    match r {
        Err(Error::OnlyOnce(t)) => {
            let k2 = choose|k2: int|
                0 <= k2 < 9 && t@ == at_most_once_names()[k2] && count_named(props, t@) > 1
                    && once_before(props, k2);
            if validation_result(props, Ok(())) {
                assert(count_named(props, at_most_once_names()[k2]) <= 1);
            }
        },
        _ => {},
    }
}

} // verus!
