use vcard4::{DateAndOrTimeProperty, DateAndOrTime, DeliveryAddress, Gender, Kind, Sex, UtcOffsetProperty};

#[test]
fn parse_utc_offset() {
    let east = "+1200".parse::<UtcOffsetProperty>().unwrap();
    let west = "-0500".parse::<UtcOffsetProperty>().unwrap();

    assert_eq!("+1200", east.to_string());
    assert_eq!("-0500", west.to_string());

    assert!("0500".parse::<UtcOffsetProperty>().is_err());
    assert!("foo".parse::<UtcOffsetProperty>().is_err());
    assert!("+4400".parse::<UtcOffsetProperty>().is_err());
}

#[test]
fn utc_offset_values() {
    let east = UtcOffsetProperty::parse("+1200").unwrap();
    assert_eq!(east.value.hours(), 12);
    assert_eq!(east.value.minutes(), 0);
    let west = UtcOffsetProperty::parse("-0530").unwrap();
    assert_eq!(west.value.hours(), -5);
    assert_eq!(west.value.minutes(), -30);
    assert_eq!(west.to_string(), "-0530");
    let small = UtcOffsetProperty::parse("-0030").unwrap();
    assert_eq!(small.value.hours(), 0);
    assert_eq!(small.value.minutes(), -30);
    assert_eq!(small.to_string(), "-0030");
}

#[test]
fn utc_offset_boundary() {
    assert!(UtcOffsetProperty::parse("+2500").is_ok());
    assert!(UtcOffsetProperty::parse("-2559").is_ok());
    assert!(matches!(UtcOffsetProperty::parse("+2600"), Err(vcard4::Error::ComponentRange(_))));
    assert!(matches!(UtcOffsetProperty::parse("+0060"), Err(vcard4::Error::ComponentRange(_))));
    assert!(matches!(UtcOffsetProperty::parse("++100"), Err(vcard4::Error::InvalidUtcOffset(_))));
    assert!(matches!(UtcOffsetProperty::parse("+120"), Err(vcard4::Error::InvalidUtcOffset(_))));
    assert!(matches!(UtcOffsetProperty::parse("+12000"), Err(vcard4::Error::InvalidUtcOffset(_))));
    assert!(matches!(UtcOffsetProperty::parse("12:00"), Err(vcard4::Error::InvalidUtcOffset(_))));
}

#[test]
fn utc_offset_round_trip() {
    for text in ["+0000", "+0100", "-1145", "+2500", "-0001"] {
        let p = UtcOffsetProperty::parse(text).unwrap();
        let again = UtcOffsetProperty::parse(&p.to_string()).unwrap();
        assert_eq!(p.value, again.value);
    }
}

#[test]
fn kind_round_trip() {
    for k in [Kind::Individual, Kind::Group, Kind::Org, Kind::Location] {
        assert_eq!(Kind::parse(&k.to_string()).unwrap(), k);
    }
    assert_eq!(Kind::Group.to_string(), "group");
    assert!(matches!(Kind::parse("Group"), Err(vcard4::Error::UnknownKind(t)) if t == "Group"));
}

#[test]
fn sex_and_gender() {
    assert_eq!(Sex::parse("M").unwrap(), Sex::Male);
    assert_eq!(Sex::parse("").unwrap(), Sex::Unspecified);
    assert!(matches!(Sex::parse("X"), Err(vcard4::Error::UnknownSex(_))));
    let g = Gender::parse("F;grrrl").unwrap();
    assert_eq!(g.sex, Sex::Female);
    assert_eq!(g.identity.as_deref(), Some("grrrl"));
    assert_eq!(g.to_string(), "F;grrrl");
    let empty = Gender::parse("").unwrap();
    assert_eq!(empty.sex, Sex::Unspecified);
    assert_eq!(empty.identity, None);
    let only_identity = Gender::parse(";it's complicated").unwrap();
    assert_eq!(only_identity.sex, Sex::Unspecified);
    assert_eq!(Gender::parse(&only_identity.to_string()).unwrap(), only_identity);
    assert!(matches!(Gender::parse("Q;x"), Err(vcard4::Error::UnknownSex(t)) if t == "Q"));
}

#[test]
fn delivery_address_fields() {
    let a = DeliveryAddress::parse(";;123 Main St;Springfield;IL;62701;USA").unwrap();
    assert_eq!(a.po_box, None);
    assert_eq!(a.extended_address, None);
    assert_eq!(a.street_address.as_deref(), Some("123 Main St"));
    assert_eq!(a.locality.as_deref(), Some("Springfield"));
    assert_eq!(a.region.as_deref(), Some("IL"));
    assert_eq!(a.postal_code.as_deref(), Some("62701"));
    assert_eq!(a.country_name.as_deref(), Some("USA"));
    assert_eq!(a.to_string(), ";;123 Main St;Springfield;IL;62701;USA");
}

#[test]
fn delivery_address_escapes() {
    let a = DeliveryAddress::parse(r"PO\; 5;;a\,b;;;;").unwrap();
    assert_eq!(a.po_box.as_deref(), Some("PO; 5"));
    assert_eq!(a.street_address.as_deref(), Some("a,b"));
    assert_eq!(DeliveryAddress::parse(&a.to_string()).unwrap(), a);
    assert!(matches!(DeliveryAddress::parse("a;b;c"), Err(vcard4::Error::InvalidAddress(_))));
    assert!(matches!(DeliveryAddress::parse("1;2;3;4;5;6;7;8"), Err(vcard4::Error::InvalidAddress(_))));
}

#[test]
fn dates() {
    let p = DateAndOrTimeProperty::parse("19850415").unwrap();
    let DateAndOrTime::Date(d) = p.value else { panic!("not a date") };
    assert_eq!((d.year, d.month, d.day), (Some(1985), Some(4), Some(15)));
    let p = DateAndOrTimeProperty::parse("--0415").unwrap();
    let DateAndOrTime::Date(d) = p.value else { panic!("not a date") };
    assert_eq!((d.year, d.month, d.day), (None, Some(4), Some(15)));
    let d = vcard4::Date::parse("1985-04").unwrap();
    assert_eq!((d.year, d.month, d.day), (Some(1985), Some(4), None));
    let d = vcard4::Date::parse("---15").unwrap();
    assert_eq!((d.year, d.month, d.day), (None, None, Some(15)));
    let d = vcard4::Date::parse("1985").unwrap();
    assert_eq!((d.year, d.month, d.day), (Some(1985), None, None));
    assert!(vcard4::Date::parse("20000229").is_ok());
    assert!(vcard4::Date::parse("--0229").is_ok());
    assert!(matches!(vcard4::Date::parse("20230229"), Err(vcard4::Error::InvalidDate(_))));
    assert!(matches!(vcard4::Date::parse("19851315"), Err(vcard4::Error::InvalidDate(_))));
    assert!(matches!(vcard4::Date::parse("1985041"), Err(vcard4::Error::InvalidDate(_))));
}

#[test]
fn kind_single_and_gender_failure() {
    assert!(matches!(Kind::parse("group,org"), Err(vcard4::Error::UnknownKind(t)) if t == "group,org"));
    assert!(matches!(Kind::parse("individual;group"), Err(vcard4::Error::UnknownKind(_))));
    assert!(matches!(Gender::parse("X;Fellow"), Err(vcard4::Error::UnknownSex(t)) if t == "X"));
    let g = Gender::parse("M;x;y").unwrap();
    assert_eq!(g.identity.as_deref(), Some("x;y"));
}

#[test]
fn from_str_impls() {
    assert_eq!("group".parse::<Kind>().unwrap(), Kind::Group);
    assert!(matches!("Group".parse::<Kind>(), Err(vcard4::Error::UnknownKind(_))));
    assert_eq!("U".parse::<Sex>().unwrap(), Sex::Unknown);
    assert!(matches!("Z".parse::<Sex>(), Err(vcard4::Error::UnknownSex(_))));
    let g = "M;man".parse::<Gender>().unwrap();
    assert_eq!((g.sex, g.identity.as_deref()), (Sex::Male, Some("man")));
    assert!(matches!("X;Fellow".parse::<Gender>(), Err(vcard4::Error::UnknownSex(t)) if t == "X"));
    assert!(matches!("++100".parse::<UtcOffsetProperty>(), Err(vcard4::Error::InvalidUtcOffset(_))));
    assert!(matches!("é123".parse::<UtcOffsetProperty>(), Err(vcard4::Error::InvalidUtcOffset(_))));
    assert!("+1259".parse::<UtcOffsetProperty>().is_ok());
    assert!("+1260".parse::<UtcOffsetProperty>().is_err());
}

#[test]
fn zero_offset_zone_written_with_plus() {
    let t = vcard4::Time::parse("102200-0000").unwrap();
    assert_eq!(t.to_string(), "102200+0000");
}
