use vcard4::parameter::parse_pref;
use vcard4::text::{escape, unescape};
use vcard4::unfold::unfold;
use vcard4::{parse, ContentLine, Error, TextListProperty};

#[test]
fn single_card() {
    let cards = parse("BEGIN:VCARD\r\nVERSION:4.0\r\nFN:John Doe\r\nEND:VCARD\r\n").unwrap();
    assert_eq!(cards.len(), 1);
    assert_eq!(cards[0].properties.len(), 1);
    assert_eq!(cards[0].properties[0].name, "FN");
    assert_eq!(cards[0].properties[0].value, "John Doe");
}

#[test]
fn continuation_line() {
    let cards = parse("BEGIN:VCARD\r\nVERSION:4.0\r\nFN:John\r\n  Doe\r\nEND:VCARD\r\n").unwrap();
    assert_eq!(cards[0].properties[0].value, "John Doe");
    let cards = parse("BEGIN:VCARD\r\nVERSION:4.0\r\nFN:John\r\n Doe\r\nEND:VCARD\r\n").unwrap();
    assert_eq!(cards[0].properties[0].value, "JohnDoe");
}

#[test]
fn fold_anywhere() {
    let plain = parse("BEGIN:VCARD\r\nVERSION:4.0\r\nFN:John Doe\r\nEND:VCARD\r\n").unwrap();
    let folded = parse("BEGIN:VCARD\r\nVERSION:4.0\r\nF\r\n N:Jo\r\n hn Doe\r\nEND:VCARD\r\n").unwrap();
    assert_eq!(plain, folded);
    assert!(matches!(unfold(" x"), Err(Error::IncorrectToken(_))));
    assert_eq!(unfold("a\nb\r\n c\r\n").unwrap(), vec!["a".to_string(), "bc".to_string()]);
    assert_eq!(unfold("a\r\nlast").unwrap(), vec!["a".to_string(), "last".to_string()]);
}

#[test]
fn address_in_card() {
    let text = "BEGIN:VCARD\r\nVERSION:4.0\r\nFN:x\r\nADR:;;123 Main St;Springfield;IL;62701;USA\r\nEND:VCARD\r\n";
    let cards = parse(text).unwrap();
    let adr = &cards[0].properties[1];
    assert_eq!(adr.name, "ADR");
    let a = vcard4::DeliveryAddress::parse(&adr.value).unwrap();
    assert_eq!(a.po_box, None);
    assert_eq!(a.extended_address, None);
    assert_eq!(a.street_address.as_deref(), Some("123 Main St"));
    assert_eq!(a.locality.as_deref(), Some("Springfield"));
    assert_eq!(a.region.as_deref(), Some("IL"));
    assert_eq!(a.postal_code.as_deref(), Some("62701"));
    assert_eq!(a.country_name.as_deref(), Some("USA"));
}

#[test]
fn birthday_in_card() {
    let text = "BEGIN:VCARD\r\nVERSION:4.0\r\nFN:x\r\nBDAY:19850415\r\nEND:VCARD\r\n";
    let cards = parse(text).unwrap();
    let bday = &cards[0].properties[1];
    let p = vcard4::DateAndOrTimeProperty::parse(&bday.value).unwrap();
    let vcard4::DateAndOrTime::Date(d) = p.value else { panic!("not a date") };
    assert_eq!((d.year, d.month, d.day), (Some(1985), Some(4), Some(15)));
    let text = "BEGIN:VCARD\r\nVERSION:4.0\r\nFN:x\r\nBDAY:--0415\r\nEND:VCARD\r\n";
    let cards = parse(text).unwrap();
    let p = vcard4::DateAndOrTimeProperty::parse(&cards[0].properties[1].value).unwrap();
    let vcard4::DateAndOrTime::Date(d) = p.value else { panic!("not a date") };
    assert_eq!((d.year, d.month, d.day), (None, Some(4), Some(15)));
}

#[test]
fn member_requires_group() {
    let text = "BEGIN:VCARD\r\nVERSION:4.0\r\nFN:x\r\nMEMBER:urn:uuid:abc\r\nEND:VCARD\r\n";
    assert!(matches!(parse(text), Err(Error::MemberRequiresGroup)));
    let text = "BEGIN:VCARD\r\nVERSION:4.0\r\nFN:x\r\nKIND:group\r\nMEMBER:urn:uuid:abc\r\nEND:VCARD\r\n";
    let cards = parse(text).unwrap();
    assert_eq!(cards[0].properties.len(), 3);
}

#[test]
fn version_placement() {
    let text = "BEGIN:VCARD\r\nFN:x\r\nVERSION:4.0\r\nEND:VCARD\r\n";
    assert!(matches!(parse(text), Err(Error::VersionMisplaced)));
    let text = "\r\nBEGIN:VCARD\r\nVERSION:3.0\r\nFN:x\r\nEND:VCARD\r\n";
    assert!(matches!(parse(text), Err(Error::VersionMisplaced)));
    let text = "BEGIN:VCARD\r\nVERSION:4.0\r\nFN:x\r\nVERSION:4.0\r\nEND:VCARD\r\n";
    assert!(matches!(parse(text), Err(Error::VersionMisplaced)));
    let text = "begin:vcard\r\nversion:4.0\r\nfn:x\r\nend:vcard\r\n";
    assert_eq!(parse(text).unwrap().len(), 1);
}

#[test]
fn at_most_once() {
    for name in ["KIND:individual", "FN:y", "N:a;b;;;", "BDAY:1985", "ANNIVERSARY:1985", "GENDER:M", "PRODID:p", "REV:19951031T222710Z", "UID:u"] {
        let text = format!("BEGIN:VCARD\r\nVERSION:4.0\r\nFN:x\r\n{}\r\n{}\r\nEND:VCARD\r\n", name, name);
        let expected = name.split(':').next().unwrap().to_string();
        match parse(&text) {
            Err(Error::OnlyOnce(t)) => assert_eq!(t, expected),
            other => panic!("unexpected {:?}", other),
        }
    }
}

#[test]
fn structural_errors() {
    assert!(matches!(parse("BEGIN:VCARD\r\nVERSION:4.0\r\nEND:VCARD\r\n"), Err(Error::NoFormattedName)));
    assert!(matches!(parse("BEGIN:VCARD\r\nVERSION:4.0\r\nFN:x\r\n"), Err(Error::TokenExpected)));
    assert!(matches!(parse("FN:x\r\n"), Err(Error::IncorrectToken(_))));
    assert!(matches!(parse("BEGIN:VCARD\r\nVERSION:4.0\r\nBEGIN:VCARD\r\n"), Err(Error::IncorrectToken(_))));
    assert!(matches!(parse("BEGIN:VCARD\r\nVERSION:4.0\r\nFN x\r\nEND:VCARD\r\n"), Err(Error::DelimiterExpected)));
    assert!(matches!(parse("BEGIN:VCARD\r\nVERSION:4.0\r\nFN;FOO=1:x\r\nEND:VCARD\r\n"), Err(Error::UnknownParameter(_))));
    assert!(matches!(parse("BEGIN:VCARD\r\nVERSION:4.0\r\nFN:x\r\nKIND:thing\r\nEND:VCARD\r\n"), Err(Error::UnknownKind(_))));
    assert!(matches!(parse("BEGIN:VCARD\r\nVERSION:4.0\r\nFN;LABEL=a:x\r\nEND:VCARD\r\n"), Err(Error::InvalidLabel(_))));
    assert!(matches!(parse("BEGIN:VCARD\r\nVERSION:4.0\r\nFN;CHARSET=latin1:x\r\nEND:VCARD\r\n"), Err(Error::CharsetParameter(_))));
    assert!(matches!(parse("BEGIN:VCARD\r\nVERSION:4.0\r\nFN:x\r\nCLIENTPIDMAP;PID=1:1;urn:x\r\nEND:VCARD\r\n"), Err(Error::ClientPidMapPidNotAllowed)));
    assert!(parse("").unwrap().is_empty());
    assert_eq!(parse("BEGIN:VCARD\r\nVERSION:4.0\r\nFN:a\r\nEND:VCARD\r\n\r\nBEGIN:VCARD\r\nVERSION:4.0\r\nFN:b\r\nEND:VCARD\r\n").unwrap().len(), 2);
}

#[test]
fn control_characters() {
    for b in 0u8..0x20 {
        if b == b'\t' || b == b'\n' || b == b'\r' {
            continue;
        }
        let line = format!("FN:a{}b", b as char);
        assert!(matches!(ContentLine::parse(&line), Err(Error::ControlCharacter(_))));
        let quoted = format!("FN;ALTID=\"a{}b\":x", b as char);
        assert!(ContentLine::parse(&quoted).is_ok());
    }
    assert!(ContentLine::parse("FN:a\tb").is_ok());
}

#[test]
fn content_line_shape() {
    let l = ContentLine::parse("item1.tel;type=\"work,voice\";PREF=1:tel:+1-555").unwrap();
    assert_eq!(l.group.as_deref(), Some("ITEM1"));
    assert_eq!(l.name, "TEL");
    assert_eq!(l.parameters, vec![("TYPE".to_string(), "work,voice".to_string()), ("PREF".to_string(), "1".to_string())]);
    assert_eq!(l.value, "tel:+1-555");
    assert!(ContentLine::parse("X-FOO;X-BAR=1:v").is_ok());
}

#[test]
fn pref_range() {
    assert_eq!(parse_pref("1").unwrap(), 1);
    assert_eq!(parse_pref("100").unwrap(), 100);
    assert!(matches!(parse_pref("0"), Err(Error::PrefOutOfRange(0))));
    assert!(matches!(parse_pref("101"), Err(Error::PrefOutOfRange(101))));
    assert!(matches!(parse_pref("1000"), Err(Error::PrefOutOfRange(255))));
    assert!(matches!(parse_pref("-1"), Err(Error::InvalidPropertyValue)));
    assert!(matches!(parse_pref(""), Err(Error::InvalidPropertyValue)));
    assert!(parse("BEGIN:VCARD\r\nVERSION:4.0\r\nFN;PREF=50:x\r\nEND:VCARD\r\n").is_ok());
    assert!(matches!(parse("BEGIN:VCARD\r\nVERSION:4.0\r\nFN;PREF=101:x\r\nEND:VCARD\r\n"), Err(Error::PrefOutOfRange(101))));
}

#[test]
fn text_escaping() {
    assert_eq!(escape("a,b;c\\d\ne"), r"a\,b\;c\\d\ne");
    assert_eq!(unescape(r"a\,b\;c\\d\ne\Nf"), "a,b;c\\d\ne\nf");
    let s = "x;y,z\\\n";
    assert_eq!(unescape(&escape(s)), s);
    let list = TextListProperty::parse("a\\,b,c,");
    assert_eq!(list.value, vec!["a,b".to_string(), "c".to_string(), "".to_string()]);
    assert_eq!(list.to_string(), "a\\,b,c,");
}

#[test]
fn value_dispatch() {
    let card = |line: &str| format!("BEGIN:VCARD\r\nVERSION:4.0\r\nFN:x\r\n{}\r\nEND:VCARD\r\n", line);
    assert!(matches!(parse(&card("EMAIL:jdoe@example.com")), Err(Error::NotUri(_))));
    assert!(parse(&card("EMAIL:mailto:jdoe@example.com")).is_ok());
    assert!(parse(&card("BDAY;VALUE=text:circa 1800")).is_ok());
    assert!(matches!(parse(&card("BDAY:circa 1800")), Err(Error::InvalidDate(_))));
    assert!(matches!(parse(&card("ANNIVERSARY:19961022T")), Err(Error::InvalidDateTime(_))));
    assert!(matches!(parse(&card("URL;VALUE=text:x")), Err(Error::UnsupportedValueType(v, p)) if v == "text" && p == "URL"));
    assert!(parse(&card("TEL;VALUE=text:555 1234")).is_ok());
    assert!(parse(&card("TZ;VALUE=utc-offset:-0500")).is_ok());
    assert!(matches!(parse(&card("TZ;VALUE=utc-offset:0500")), Err(Error::InvalidUtcOffset(_))));
    assert!(parse(&card("TZ:Raleigh/North America")).is_ok());
    assert!(matches!(parse(&card("REV:19951031")), Err(Error::InvalidDateTime(_))));
    assert!(parse(&card("REV:19951031T222710Z")).is_ok());
    assert!(matches!(parse(&card("ADR:a;b")), Err(Error::InvalidAddress(_))));
    assert!(matches!(parse(&card("GENDER:Q")), Err(Error::UnknownSex(_))));
    assert!(parse(&card("GENDER:M;man")).is_ok());
    assert!(matches!(parse(&card("LANG:not a tag")), Err(Error::LanguageParse(_))));
    assert!(parse(&card("LANG:fr-CA")).is_ok());
    assert!(matches!(parse(&card("CLIENTPIDMAP:x;urn:x")), Err(Error::InvalidClientPidMap(_))));
    assert!(parse(&card("CLIENTPIDMAP:1;urn:uuid:3df403f4")).is_ok());
    assert!(parse(&card("X-CUSTOM;X-FLAG=1:anything")).is_ok());
}

#[test]
fn type_values() {
    let card = |line: &str| format!("BEGIN:VCARD\r\nVERSION:4.0\r\nFN:x\r\n{}\r\nEND:VCARD\r\n", line);
    assert!(parse(&card("RELATED;TYPE=friend,Colleague:urn:uuid:1")).is_ok());
    assert!(matches!(parse(&card("RELATED;TYPE=rival:urn:uuid:1")), Err(Error::UnknownRelatedType(t)) if t == "rival"));
    assert!(parse(&card("TEL;TYPE=\"cell,home\":tel:+1")).is_ok());
    assert!(matches!(parse(&card("TEL;TYPE=satellite:tel:+1")), Err(Error::UnknownTelephoneType(t)) if t == "satellite"));
    assert!(parse(&card("NOTE;TYPE=anything:x")).is_ok());
}
