use std::str::FromStr;
use version_range::{ParseError, Version};

fn text(s: &str) -> Option<String> {
    Some(s.to_string())
}

#[test]
fn written_form_has_three_numbers() {
    assert_eq!(Version::new(1, 2, 3, None, None, None).to_string(), "1.2.3");
    assert_eq!(Version::new(0, 0, 0, None, None, None).to_string(), "0.0.0");
    assert_eq!(Version::new(10, 200, 3000, None, None, None).to_string(), "10.200.3000");
    assert_eq!(
        Version::new(u32::MAX, 0, 4294967294, None, None, None).to_string(),
        "4294967295.0.4294967294"
    );
}

#[test]
fn written_form_has_each_component_behind_its_mark() {
    assert_eq!(Version::new(1, 2, 3, text("4"), None, None).to_string(), "1.2.3.4");
    assert_eq!(Version::new(1, 2, 3, None, text("rc.1"), None).to_string(), "1.2.3-rc.1");
    assert_eq!(Version::new(1, 2, 3, None, None, text("b5")).to_string(), "1.2.3+b5");
    assert_eq!(
        Version::new(1, 2, 3, text("x"), text("y"), text("z")).to_string(),
        "1.2.3.x-y+z"
    );
}

#[test]
fn parsed_text_is_written_in_full() {
    assert_eq!(Version::parse("v7").unwrap().to_string(), "7.0.0");
    assert_eq!(Version::parse(" 1.2 ").unwrap().to_string(), "1.2.0");
    assert_eq!(Version::parse("1.0.0+b-a").unwrap().to_string(), "1.0.0-a+b");
    assert_eq!(Version::parse("01.02.03").unwrap().to_string(), "1.2.3");
}

#[test]
fn round_trip_gives_the_version_back() {
    let versions = [
        Version::new(1, 2, 3, None, None, None),
        Version::new(0, 0, 0, None, None, None),
        Version::new(u32::MAX, u32::MAX, u32::MAX, None, None, None),
        Version::new(1, 2, 3, text("4.5"), None, None),
        Version::new(1, 2, 3, text("x_1."), text("rc.1"), None),
        Version::new(1, 2, 3, None, text("0"), text("20240101")),
        Version::new(1, 2, 3, None, None, text("a.b.c")),
        Version::new(1, 2, 3, text("9"), text("8"), text("7")),
    ];
    for v in versions {
        let again = Version::parse(&v.to_string()).unwrap();
        assert_eq!(again, v);
        assert!(again.range_eq(&v));
        assert!(again.is(&v));
    }
}

#[test]
fn parsing_what_was_written_changes_nothing_more() {
    let texts = [
        "1", "v1.2", " V 1.2.3 ", "1.x", "1.2.x.y", "1.2.3.4", "3.2.1-a+b", "3.2.1+b-a", "0.0.0",
        "007", "1.2.3.4.5.6-7.8+9.10",
    ];
    for t in texts {
        let first = Version::parse(t).unwrap();
        let second = Version::parse(&first.to_string()).unwrap();
        assert!(second.range_eq(&first));
        assert_eq!(second, first);
        assert_eq!(second.to_string(), first.to_string());
    }
}

#[test]
fn from_str_reads_as_parse_does() {
    assert_eq!(Version::from_str("1.2.3-rc"), Version::parse("1.2.3-rc"));
    assert_eq!("v2".parse::<Version>(), Ok(Version::new(2, 0, 0, None, None, None)));
    assert_eq!("two".parse::<Version>(), Err(ParseError::Version));
}

#[test]
fn default_is_the_first_release() {
    assert_eq!(Version::default(), Version::new(1, 0, 0, None, None, None));
    assert_eq!(Version::default().to_string(), "1.0.0");
}

#[test]
fn getters_hand_out_the_components() {
    let v = Version::parse("4.5.6.seven-eight+nine").unwrap();
    assert_eq!(v.major(), 4);
    assert_eq!(v.minor(), 5);
    assert_eq!(v.patch(), 6);
    assert_eq!(v.extra_version(), &text("seven"));
    assert_eq!(v.pre_release(), &text("eight"));
    assert_eq!(v.build(), &text("nine"));
    let bare = Version::parse("4").unwrap();
    assert_eq!(bare.extra_version(), &None);
    assert_eq!(bare.pre_release(), &None);
    assert_eq!(bare.build(), &None);
}

#[test]
fn with_methods_replace_one_component() {
    let v = Version::new(1, 2, 3, text("x"), text("y"), text("z"));
    assert_eq!(v.with_major(9), Version::new(9, 2, 3, text("x"), text("y"), text("z")));
    assert_eq!(v.with_minor(9), Version::new(1, 9, 3, text("x"), text("y"), text("z")));
    assert_eq!(v.with_patch(9), Version::new(1, 2, 9, text("x"), text("y"), text("z")));
    assert_eq!(
        v.with_extra_version(None),
        Version::new(1, 2, 3, None, text("y"), text("z"))
    );
    assert_eq!(
        v.with_pre_release(text("rc")),
        Version::new(1, 2, 3, text("x"), text("rc"), text("z"))
    );
    assert_eq!(v.with_build(None), Version::new(1, 2, 3, text("x"), text("y"), None));
    assert_eq!(v, Version::new(1, 2, 3, text("x"), text("y"), text("z")));
}

#[test]
fn clone_is_the_same_version() {
    let v = Version::new(1, 2, 3, text("x"), text("y"), text("z"));
    let w = v.clone();
    assert!(w.is(&v));
    assert_eq!(w, v);
}

#[test]
fn error_messages_name_the_syntax() {
    assert_eq!(ParseError::Version.message(), "error in parsing version");
    assert_eq!(ParseError::Range.message(), "error in parsing range");
}

#[test]
fn parsed_versions_are_well_formed() {
    for t in ["1", "v1.2.3.4-rc.1+b_2", "1.x", "0.0.0+0"] {
        assert!(Version::parse(t).unwrap().is_well_formed());
    }
    assert!(Version::new(1, 2, 3, text("a.b."), text("_"), text("9")).is_well_formed());
}

#[test]
fn tokens_that_the_syntax_cannot_hold_are_told() {
    assert!(!Version::new(1, 2, 3, text(""), None, None).is_well_formed());
    assert!(!Version::new(1, 2, 3, text(".a"), None, None).is_well_formed());
    assert!(!Version::new(1, 2, 3, None, text("a-b"), None).is_well_formed());
    assert!(!Version::new(1, 2, 3, None, text("a b"), None).is_well_formed());
    assert!(!Version::new(1, 2, 3, None, None, text("a+b")).is_well_formed());
    assert!(!Version::new(1, 2, 3, None, None, text("\u{e9}")).is_well_formed());
    let odd = Version::new(1, 2, 3, None, text("a-b"), None);
    assert_eq!(odd.to_string(), "1.2.3-a-b");
    assert_eq!(Version::parse(&odd.to_string()), Err(ParseError::Version));
}
