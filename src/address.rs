//! Delivery addresses, the value of the ADR property.

use vstd::prelude::*;

use crate::error::Error;
use crate::property::opt_view;
use crate::text::{
    escape, escape_text, lemma_escape_empty, lemma_escape_round_trip, lemma_split_after_escaped,
    lemma_split_nonempty, prepend_piece, push_char, push_str, split_raw, split_unescaped,
    unescape, unescape_text, views_of,
};

verus! {

/// Delivery address for the ADR property.
#[derive(Debug, PartialEq, Clone)]
pub struct DeliveryAddress {
    /// The post office box.
    pub po_box: Option<String>,
    /// The extended address (e.g: apartment or suite number).
    pub extended_address: Option<String>,
    /// The street address.
    pub street_address: Option<String>,
    /// The locality (e.g: city).
    pub locality: Option<String>,
    /// The region (e.g: state or province).
    pub region: Option<String>,
    /// The postal code.
    pub postal_code: Option<String>,
    /// The country name.
    pub country_name: Option<String>,
}

/// The seven fields of an address, in the order in which they are written.
pub open spec fn address_fields(a: DeliveryAddress) -> Seq<Option<Seq<char>>> {
    seq![
        opt_view(a.po_box),
        opt_view(a.extended_address),
        opt_view(a.street_address),
        opt_view(a.locality),
        opt_view(a.region),
        opt_view(a.postal_code),
        opt_view(a.country_name),
    ]
}

/// The written form of one field: escaped text, or nothing when absent.
pub open spec fn field_text(f: Option<Seq<char>>) -> Seq<char> {
    match f {
        Some(t) => escape_text(t),
        None => Seq::empty(),
    }
}

/// The field that a raw piece stands for: absent when empty, else unescaped.
pub open spec fn field_of_raw(raw: Seq<char>) -> Option<Seq<char>> {
    if raw.len() == 0 {
        None
    } else {
        Some(unescape_text(raw))
    }
}

/// Seven texts joined by `;`.
pub open spec fn join7(e: Seq<Seq<char>>) -> Seq<char> {
    e[0] + seq![';'] + (e[1] + seq![';'] + (e[2] + seq![';'] + (e[3] + seq![';'] + (e[4] + seq![
        ';',
    ] + (e[5] + seq![';'] + e[6])))))
}

/// The written form of an address: its seven written fields joined by `;`.
pub open spec fn address_text(a: DeliveryAddress) -> Seq<char> {
    join7(address_fields(a).map_values(|f: Option<Seq<char>>| field_text(f)))
}

fn field_from_raw(raw: &String) -> (r: Option<String>)
    ensures
        opt_view(r) == field_of_raw(raw@),
{
    if raw.as_str().unicode_len() == 0 {
        None
    } else {
        Some(unescape(raw.as_str()))
    }
}

fn push_field(r: &mut String, f: &Option<String>)
    ensures
        final(r)@ == old(r)@ + field_text(opt_view(*f)),
{
    match f {
        Some(t) => push_str(r, escape(t.as_str()).as_str()),
        None => {
            assert(old(r)@ + Seq::<char>::empty() =~= old(r)@);
        },
    }
}

impl DeliveryAddress {
    /// Parses an ADR value: exactly seven fields separated by unescaped `;`,
    /// each unescaped as text, an empty field being absent.
    pub fn parse(s: &str) -> (r: Result<DeliveryAddress, Error>)
        ensures
            r is Ok <==> split_unescaped(s@, ';').len() == 7,
            r matches Ok(a) ==> address_fields(a) == split_unescaped(s@, ';').map_values(
                |raw: Seq<char>| field_of_raw(raw),
            ),
            r matches Err(e) ==> e matches Error::InvalidAddress(t) && t@ == s@,
    {
        let parts = split_raw(s, ';');
        if parts.len() != 7 {
            return Err(Error::InvalidAddress(s.to_owned()));
        }
        let ghost p = split_unescaped(s@, ';');
        assert(views_of(parts@)[0] == parts@[0]@);
        let a = DeliveryAddress {
            po_box: field_from_raw(&parts[0]),
            extended_address: field_from_raw(&parts[1]),
            street_address: field_from_raw(&parts[2]),
            locality: field_from_raw(&parts[3]),
            region: field_from_raw(&parts[4]),
            postal_code: field_from_raw(&parts[5]),
            country_name: field_from_raw(&parts[6]),
        };
        assert forall|k: int| 0 <= k < 7 implies parts@[k]@ == p[k] by {
            assert(views_of(parts@)[k] == parts@[k]@);
        }
        assert(address_fields(a) =~= p.map_values(|raw: Seq<char>| field_of_raw(raw)));
        Ok(a)
    }

    /// The written form of this address: seven escaped fields joined by `;`,
    /// absent fields as empty text.
    pub fn to_string(&self) -> (r: String)
        ensures
            r@ == address_text(*self),
    {
        let mut r = String::new();
        push_field(&mut r, &self.po_box);
        push_char(&mut r, ';');
        push_field(&mut r, &self.extended_address);
        push_char(&mut r, ';');
        push_field(&mut r, &self.street_address);
        push_char(&mut r, ';');
        push_field(&mut r, &self.locality);
        push_char(&mut r, ';');
        push_field(&mut r, &self.region);
        push_char(&mut r, ';');
        push_field(&mut r, &self.postal_code);
        push_char(&mut r, ';');
        push_field(&mut r, &self.country_name);
        assert(r@ =~= address_text(*self));
        r
    }
}

proof fn lemma_split_field(t: Seq<char>, x: Seq<char>)
    ensures
        split_unescaped(escape_text(t) + seq![';'] + x, ';') == seq![escape_text(t)]
            + split_unescaped(x, ';'),
{
    let y = seq![';'] + x;
    assert(escape_text(t) + seq![';'] + x =~= escape_text(t) + y);
    lemma_split_after_escaped(t, y, ';');
    assert(y.drop_first() =~= x);
    lemma_split_nonempty(x, ';');
    assert(prepend_piece(escape_text(t), seq![Seq::<char>::empty()] + split_unescaped(x, ';'))
        =~= seq![escape_text(t)] + split_unescaped(x, ';'));
}

proof fn lemma_split_join7(ts: Seq<Seq<char>>)
    requires
        ts.len() == 7,
    ensures
        split_unescaped(join7(ts.map_values(|t: Seq<char>| escape_text(t))), ';') == ts.map_values(
            |t: Seq<char>| escape_text(t),
        ),
{
    let e = ts.map_values(|t: Seq<char>| escape_text(t));
    let x5 = e[5] + seq![';'] + e[6];
    let x4 = e[4] + seq![';'] + x5;
    let x3 = e[3] + seq![';'] + x4;
    let x2 = e[2] + seq![';'] + x3;
    let x1 = e[1] + seq![';'] + x2;
    assert(split_unescaped(e[6], ';') == seq![e[6]]) by {
        lemma_split_after_escaped(ts[6], Seq::empty(), ';');
        assert(escape_text(ts[6]) + Seq::<char>::empty() =~= e[6]);
        assert(split_unescaped(Seq::<char>::empty(), ';') =~= seq![Seq::<char>::empty()]);
        assert(prepend_piece(e[6], seq![Seq::<char>::empty()]) =~= seq![e[6]]);
    }
    lemma_split_field(ts[5], e[6]);
    assert(seq![e[5]] + seq![e[6]] =~= e.subrange(5, 7));
    lemma_split_field(ts[4], x5);
    assert(seq![e[4]] + e.subrange(5, 7) =~= e.subrange(4, 7));
    lemma_split_field(ts[3], x4);
    assert(seq![e[3]] + e.subrange(4, 7) =~= e.subrange(3, 7));
    lemma_split_field(ts[2], x3);
    assert(seq![e[2]] + e.subrange(3, 7) =~= e.subrange(2, 7));
    lemma_split_field(ts[1], x2);
    assert(seq![e[1]] + e.subrange(2, 7) =~= e.subrange(1, 7));
    lemma_split_field(ts[0], x1);
    assert(seq![e[0]] + e.subrange(1, 7) =~= e);
}

/// The text of a field, empty when absent.
spec fn field_content(f: Option<Seq<char>>) -> Seq<char> {
    match f {
        Some(t) => t,
        None => Seq::empty(),
    }
}

proof fn lemma_field_round_trip(f: Option<Seq<char>>)
    requires
        f matches Some(t) ==> t.len() > 0,
    ensures
        field_of_raw(escape_text(field_content(f))) == f,
{
    match f {
        Some(t) => {
            lemma_escape_empty(t);
            lemma_escape_round_trip(t);
        },
        None => {},
    }
}

/// Parsing the written form of an address whose present fields are all
/// non-empty gives back its fields.
pub proof fn lemma_address_round_trip(a: DeliveryAddress)
    requires
        forall|k: int| 0 <= k < 7 ==> (#[trigger] address_fields(a)[k] matches Some(t) ==> t.len()
            > 0),
    ensures
        split_unescaped(address_text(a), ';').len() == 7,
        split_unescaped(address_text(a), ';').map_values(|raw: Seq<char>| field_of_raw(raw))
            == address_fields(a),
{
    let f = address_fields(a);
    let ts = f.map_values(|o: Option<Seq<char>>| field_content(o));
    let e = ts.map_values(|t: Seq<char>| escape_text(t));
    assert(f.map_values(|o: Option<Seq<char>>| field_text(o)) =~= e);
    lemma_split_join7(ts);
    assert forall|k: int| 0 <= k < 7 implies field_of_raw(e[k]) == f[k] by {
        lemma_field_round_trip(f[k]);
    }
    assert(e.map_values(|raw: Seq<char>| field_of_raw(raw)) =~= f);
}

} // verus!
