use vcard4::value::{parse_boolean, parse_pid};
use vcard4::write::fold_line;
use vcard4::Property;
use vcard4::{
    parse, ClientPidMap, DateAndOrTime, Error, LanguageProperty, Time, UriProperty, Zone,
};

#[test]
fn times() {
    let t = Time::parse("102200").unwrap();
    assert_eq!((t.hour, t.minute, t.second, t.zone), (Some(10), Some(22), Some(0), None));
    let t = Time::parse("102200Z").unwrap();
    assert_eq!(t.zone, Some(Zone::Utc));
    let t = Time::parse("102200-0800").unwrap();
    let Some(Zone::Offset(o)) = t.zone else { panic!("no offset") };
    assert_eq!((o.hours(), o.minutes()), (-8, 0));
    let t = Time::parse("1022").unwrap();
    assert_eq!((t.hour, t.minute, t.second), (Some(10), Some(22), None));
    let t = Time::parse("10").unwrap();
    assert_eq!((t.hour, t.minute, t.second), (Some(10), None, None));
    let t = Time::parse("-2200").unwrap();
    assert_eq!((t.hour, t.minute, t.second), (None, Some(22), Some(0)));
    let t = Time::parse("--00").unwrap();
    assert_eq!((t.hour, t.minute, t.second), (None, None, Some(0)));
    assert!(matches!(Time::parse("2400"), Err(Error::InvalidTime(_))));
    assert!(matches!(Time::parse("106000"), Err(Error::InvalidTime(_))));
    assert!(matches!(Time::parse("102200X"), Err(Error::InvalidTime(_))));
    assert!(matches!(Time::parse("102200+9900"), Err(Error::InvalidTime(_))));
    assert!(matches!(Time::parse("1"), Err(Error::InvalidTime(_))));
}

#[test]
fn date_and_or_time() {
    let v = DateAndOrTime::parse("19961022T140000").unwrap();
    let DateAndOrTime::DateTime(d, t) = v else { panic!("not a date-time") };
    assert_eq!((d.year, d.month, d.day), (Some(1996), Some(10), Some(22)));
    assert_eq!((t.hour, t.minute, t.second), (Some(14), Some(0), Some(0)));
    let v = DateAndOrTime::parse("T1022").unwrap();
    assert!(matches!(v, DateAndOrTime::Time(_)));
    let v = DateAndOrTime::parse("--1022").unwrap();
    assert!(matches!(v, DateAndOrTime::Date(_)));
    assert!(matches!(DateAndOrTime::parse("19961022T"), Err(Error::InvalidDateTime(_))));
    assert!(matches!(DateAndOrTime::parse("19961322T1000"), Err(Error::InvalidDateTime(_))));
    assert!(matches!(DateAndOrTime::parse("1996102"), Err(Error::InvalidDate(_))));
}

#[test]
fn booleans() {
    assert_eq!(parse_boolean("TRUE").unwrap(), true);
    assert_eq!(parse_boolean("false").unwrap(), false);
    assert_eq!(parse_boolean("True").unwrap(), true);
    assert!(matches!(parse_boolean("yes"), Err(Error::InvalidBoolean(t)) if t == "yes"));
}

#[test]
fn pids() {
    assert_eq!(parse_pid("1.1,2").unwrap(), vec!["1.1".to_string(), "2".to_string()]);
    assert_eq!(parse_pid("42").unwrap(), vec!["42".to_string()]);
    assert!(matches!(parse_pid("1."), Err(Error::InvalidPid(_))));
    assert!(matches!(parse_pid(".1"), Err(Error::InvalidPid(_))));
    assert!(matches!(parse_pid("1.2.3"), Err(Error::InvalidPid(_))));
    assert!(matches!(parse_pid("a"), Err(Error::InvalidPid(_))));
    assert!(matches!(parse_pid(""), Err(Error::InvalidPid(_))));
}

#[test]
fn client_pid_maps() {
    let m = ClientPidMap::parse("1;urn:uuid:3df403f4-5924-4bb7-b077-3c711d9eb34b").unwrap();
    assert_eq!(m.source, 1);
    assert_eq!(m.uri, "urn:uuid:3df403f4-5924-4bb7-b077-3c711d9eb34b");
    assert_eq!(ClientPidMap::parse("18446744073709551615;urn:x").unwrap().source, u64::MAX);
    assert!(matches!(ClientPidMap::parse("18446744073709551616;urn:x"), Err(Error::InvalidClientPidMap(_))));
    assert!(matches!(ClientPidMap::parse("x;urn:x"), Err(Error::InvalidClientPidMap(_))));
    assert!(matches!(ClientPidMap::parse("1"), Err(Error::InvalidClientPidMap(_))));
    assert!(matches!(ClientPidMap::parse("1;relative/path"), Err(Error::InvalidClientPidMap(_))));
}

#[test]
fn uris() {
    let u = UriProperty::parse("http://example.com/a?b#c").unwrap();
    assert_eq!(u.value, "http://example.com/a?b#c");
    assert!(matches!(UriProperty::parse("relative/path"), Err(Error::NotUri(_))));
    assert!(matches!(UriProperty::parse("http://exa mple.com"), Err(Error::UriParse(_))));
}

#[test]
fn languages() {
    let l = LanguageProperty::parse("en-us").unwrap();
    assert_eq!(l.value, "en-US");
    assert!(matches!(LanguageProperty::parse("not a tag"), Err(Error::LanguageParse(_))));
}

#[test]
fn folding() {
    let short = "FN:John Doe";
    assert_eq!(fold_line(short), short);
    let long: String = std::iter::repeat('x').take(100).collect();
    let folded = fold_line(&long);
    let lines: Vec<&str> = folded.split("\r\n").collect();
    assert_eq!(lines.len(), 2);
    assert_eq!(lines[0].len(), 75);
    assert_eq!(lines[1].len(), 26);
    assert!(lines[1].starts_with(' '));
    let wide: String = std::iter::repeat('é').take(50).collect();
    for line in fold_line(&wide).split("\r\n") {
        assert!(line.len() <= 75);
    }
}

#[test]
fn write_and_read_back() {
    let long_note: String = std::iter::repeat("word ").take(40).collect();
    let text = format!(
        "BEGIN:VCARD\r\nVERSION:4.0\r\nFN:John Doe\r\nitem1.TEL;TYPE=\"work,voice\";PREF=1:tel:+1-555\r\nNOTE:{}\r\nEND:VCARD\r\n",
        long_note
    );
    let cards = parse(&text).unwrap();
    let written = cards[0].to_string();
    assert!(written.starts_with("BEGIN:VCARD\r\nVERSION:4.0\r\nFN:John Doe\r\n"));
    assert!(written.contains("ITEM1.TEL;TYPE=\"work,voice\";PREF=1:tel:+1-555\r\n"));
    for line in written.split("\r\n") {
        assert!(line.len() <= 75);
    }
    let again = parse(&written).unwrap();
    assert_eq!(again, cards);
    assert_eq!(again[0].to_string(), written);
}

#[test]
fn parameter_record() {
    let l = vcard4::ContentLine::parse(
        "TEL;TYPE=\"work,voice\";PREF=3;PREF=2;PID=1.1,2;LANGUAGE=en;X-A=1;X-B=2:tel:+1",
    )
    .unwrap();
    let p = vcard4::Parameters::parse(&l.parameters).unwrap();
    assert_eq!(p.types, Some(vec!["work".to_string(), "voice".to_string()]));
    assert_eq!(p.pref, Some(2));
    assert_eq!(p.pid, Some(vec!["1.1".to_string(), "2".to_string()]));
    assert_eq!(p.language.as_deref(), Some("en"));
    assert_eq!(p.label, None);
    assert_eq!(
        p.extensions,
        Some(vec![("X-A".to_string(), "1".to_string()), ("X-B".to_string(), "2".to_string())])
    );
    let bad = vec![("PREF".to_string(), "0".to_string())];
    assert!(matches!(vcard4::Parameters::parse(&bad), Err(Error::PrefOutOfRange(0))));
    let bad = vec![("PID".to_string(), "x".to_string())];
    assert!(matches!(vcard4::Parameters::parse(&bad), Err(Error::InvalidPid(_))));
    let none = vcard4::Parameters::parse(&Vec::new()).unwrap();
    assert_eq!(none, vcard4::Parameters::default());
}

#[test]
fn date_and_time_writing() {
    for text in ["19850415", "1985-04", "--0415", "---15", "1985"] {
        assert_eq!(vcard4::Date::parse(text).unwrap().to_string(), text);
    }
    for text in ["102200", "102200Z", "102200-0800", "1022", "10", "-2200", "--00"] {
        assert_eq!(Time::parse(text).unwrap().to_string(), text);
    }
    for text in ["19961022T140000", "T1022", "--1022", "20000229T000000+0530"] {
        assert_eq!(DateAndOrTime::parse(text).unwrap().to_string(), text);
    }
    let odd = vcard4::Date { year: Some(1985), month: None, day: Some(3) };
    assert_eq!(odd.to_string(), "");
    let p = vcard4::DateAndOrTimeProperty::parse("0412").unwrap();
    assert_eq!(p.to_string(), "0412");
    let bday = vcard4::DateTimeOrTextProperty::DateTime(p);
    assert_eq!(bday.to_string(), "0412");
    let text = vcard4::DateTimeOrTextProperty::Text(vcard4::TextProperty::parse(r"circa 1800\, maybe"));
    assert_eq!(text.to_string(), r"circa 1800\, maybe");
}

#[test]
fn union_values_writing() {
    let tz = vcard4::TimeZoneProperty::UtcOffset(vcard4::UtcOffsetProperty::parse("-0500").unwrap());
    assert_eq!(tz.to_string(), "-0500");
    let tz = vcard4::TimeZoneProperty::Uri(UriProperty::parse("https://example.com/tz").unwrap());
    assert_eq!(tz.to_string(), "https://example.com/tz");
    let uid = vcard4::TextOrUriProperty::Text(vcard4::TextProperty::parse(r"a\;b"));
    assert_eq!(uid.to_string(), r"a\;b");
    let mut named = vcard4::TextProperty::parse("x");
    named.group = Some("ITEM1".to_string());
    let wrapped = vcard4::TextOrUriProperty::Text(named);
    assert_eq!(wrapped.group().map(|g| g.as_str()), Some("ITEM1"));
    assert!(wrapped.parameters().is_none());
}

#[test]
fn timestamps() {
    let p = vcard4::property::DateTimeProperty::parse("19951031T222710Z").unwrap();
    assert_eq!((p.date.year, p.date.month, p.date.day), (Some(1995), Some(10), Some(31)));
    assert_eq!((p.time.hour, p.time.minute, p.time.second), (Some(22), Some(27), Some(10)));
    assert!(matches!(vcard4::property::DateTimeProperty::parse("19951031T2227"), Err(Error::InvalidDateTime(_))));
    assert!(matches!(vcard4::property::DateTimeProperty::parse("1995-10T222710"), Err(Error::InvalidDateTime(_))));
}
