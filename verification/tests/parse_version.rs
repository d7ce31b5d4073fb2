use version_range::{ParseError, Version};

fn text(s: &str) -> Option<String> {
    Some(s.to_string())
}

#[test]
fn parses_three_numbers() {
    let v = Version::parse("1.2.3").unwrap();
    assert_eq!(v, Version::new(1, 2, 3, None, None, None));
}

#[test]
fn missing_numbers_are_zero() {
    assert_eq!(Version::parse("7").unwrap(), Version::new(7, 0, 0, None, None, None));
    assert_eq!(Version::parse("7.4").unwrap(), Version::new(7, 4, 0, None, None, None));
}

#[test]
fn prefix_and_padding_are_ignored() {
    let expected = Version::new(1, 2, 3, None, None, None);
    assert_eq!(Version::parse("v1.2.3").unwrap(), expected);
    assert_eq!(Version::parse("V1.2.3").unwrap(), expected);
    assert_eq!(Version::parse("v 1.2.3").unwrap(), expected);
    assert_eq!(Version::parse("   v 1.2.3   ").unwrap(), expected);
    assert_eq!(Version::parse("  1.2.3 ").unwrap(), expected);
}

#[test]
fn two_blanks_behind_the_prefix_are_refused() {
    assert_eq!(Version::parse("v  1.2.3"), Err(ParseError::Version));
}

#[test]
fn fourth_component_is_read() {
    assert_eq!(
        Version::parse("1.1.0.5").unwrap(),
        Version::new(1, 1, 0, text("5"), None, None)
    );
    assert_eq!(
        Version::parse("1.1.0.1.5").unwrap(),
        Version::new(1, 1, 0, text("1.5"), None, None)
    );
    assert_eq!(
        Version::parse("1.2.beta_1").unwrap(),
        Version::new(1, 2, 0, text("beta_1"), None, None)
    );
}

#[test]
fn suffix_in_either_order() {
    let expected = Version::new(1, 0, 0, None, text("rc.1"), text("build.5"));
    assert_eq!(Version::parse("1.0.0-rc.1+build.5").unwrap(), expected);
    assert_eq!(Version::parse("1.0.0+build.5-rc.1").unwrap(), expected);
    assert_eq!(
        Version::parse("1.0.0-rc.1").unwrap(),
        Version::new(1, 0, 0, None, text("rc.1"), None)
    );
    assert_eq!(
        Version::parse("1.0.0+a").unwrap(),
        Version::new(1, 0, 0, None, None, text("a"))
    );
}

#[test]
fn a_component_stands_at_most_once() {
    assert_eq!(Version::parse("1.0.0-a-b"), Err(ParseError::Version));
    assert_eq!(Version::parse("1.0.0+a+b"), Err(ParseError::Version));
    assert_eq!(Version::parse("1.0.0-a+b-c"), Err(ParseError::Version));
    assert_eq!(Version::parse("1.0.0+a-b+c"), Err(ParseError::Version));
}

#[test]
fn malformed_versions_are_refused() {
    assert_eq!(Version::parse("abc"), Err(ParseError::Version));
    assert_eq!(Version::parse("1..2"), Err(ParseError::Version));
    assert_eq!(Version::parse("=>1.0"), Err(ParseError::Version));
    assert_eq!(Version::parse(""), Err(ParseError::Version));
    assert_eq!(Version::parse("   "), Err(ParseError::Version));
    assert_eq!(Version::parse("1.2.3 4"), Err(ParseError::Version));
    assert_eq!(Version::parse("1.2.3-"), Err(ParseError::Version));
    assert_eq!(Version::parse("1.2.3+"), Err(ParseError::Version));
    assert_eq!(Version::parse("1.2."), Err(ParseError::Version));
    assert_eq!(Version::parse("1.2.3\t"), Err(ParseError::Version));
    assert_eq!(Version::parse("1.2.3-\u{e9}"), Err(ParseError::Version));
}

#[test]
fn numbers_beyond_32_bits_are_refused() {
    assert_eq!(
        Version::parse("4294967295.4294967295.4294967295").unwrap(),
        Version::new(u32::MAX, u32::MAX, u32::MAX, None, None, None)
    );
    assert_eq!(Version::parse("4294967296"), Err(ParseError::Version));
    assert_eq!(Version::parse("1.4294967296"), Err(ParseError::Version));
    assert_eq!(Version::parse("1.2.99999999999"), Err(ParseError::Version));
    assert_eq!(
        Version::parse("1.2.3.99999999999").unwrap(),
        Version::new(1, 2, 3, text("99999999999"), None, None)
    );
}

#[test]
fn leading_zeros_change_nothing() {
    assert_eq!(
        Version::parse("001.000.0000000000000").unwrap(),
        Version::new(1, 0, 0, None, None, None)
    );
}

#[test]
fn every_way_of_writing_is_read_alike() {
    let expected = Version::new(7, 0, 0, text("x"), text("rc"), text("b"));
    for t in [
        "7.x-rc+b",
        "7.x+b-rc",
        "  V 07.x+b-rc ",
        "v7.0.x-rc+b",
        "v 007.00.000.x-rc+b   ",
        "7.0.0.x+b-rc",
    ] {
        assert_eq!(Version::parse(t).unwrap(), expected);
    }
    assert_eq!(
        Version::parse("7.0.0.5").unwrap(),
        Version::new(7, 0, 0, text("5"), None, None)
    );
    assert_eq!(Version::parse("7.5").unwrap(), Version::new(7, 5, 0, None, None, None));
    assert_eq!(Version::parse("7.0.5").unwrap(), Version::new(7, 0, 5, None, None, None));
}
