use version_range::grammar::parse_range;
use version_range::{Op, ParseError, Range, Version};

fn v(text: &str) -> Version {
    Version::parse(text).unwrap()
}

#[test]
fn one_constraint_for_each_operator() {
    assert_eq!(parse_range("==1.2.3"), Ok(vec![(Op::Eq, v("1.2.3"))]));
    assert_eq!(parse_range("=1.2.3"), Ok(vec![(Op::Eq, v("1.2.3"))]));
    assert_eq!(parse_range("1.2.3"), Ok(vec![(Op::Eq, v("1.2.3"))]));
    assert_eq!(parse_range("!=1.2.3"), Ok(vec![(Op::Ne, v("1.2.3"))]));
    assert_eq!(parse_range("<=1.2.3"), Ok(vec![(Op::Le, v("1.2.3"))]));
    assert_eq!(parse_range(">=1.2.3"), Ok(vec![(Op::Ge, v("1.2.3"))]));
    assert_eq!(parse_range("<1.2.3"), Ok(vec![(Op::Lt, v("1.2.3"))]));
    assert_eq!(parse_range(">1.2.3"), Ok(vec![(Op::Gt, v("1.2.3"))]));
    assert_eq!(parse_range("~1.2.3"), Ok(vec![(Op::Tilde, v("1.2.3"))]));
    assert_eq!(parse_range("^1.2.3"), Ok(vec![(Op::Caret, v("1.2.3"))]));
}

#[test]
fn constraints_come_out_in_the_order_of_the_text() {
    assert_eq!(
        parse_range(">=1.0.0, <2.0.0, !=1.5.0"),
        Ok(vec![(Op::Ge, v("1.0.0")), (Op::Lt, v("2.0.0")), (Op::Ne, v("1.5.0"))])
    );
    assert_eq!(
        parse_range("<2 >=1"),
        Ok(vec![(Op::Lt, v("2.0.0")), (Op::Ge, v("1.0.0"))])
    );
}

#[test]
fn any_run_of_separators_may_stand_between_constraints() {
    let expected = Ok(vec![(Op::Ge, v("1.0.0")), (Op::Lt, v("2.0.0"))]);
    assert_eq!(parse_range(">=1.0.0,<2.0.0"), expected);
    assert_eq!(parse_range(">=1.0.0;<2.0.0"), expected);
    assert_eq!(parse_range(">=1.0.0 <2.0.0"), expected);
    assert_eq!(parse_range(">=1.0.0<2.0.0"), expected);
    assert_eq!(parse_range(">=1.0.0 ,; ,, <2.0.0"), expected);
    assert_eq!(parse_range("  >=1.0.0 , <2.0.0  "), expected);
    assert_eq!(parse_range(">= 1.0.0 , <   v 2.0.0"), expected);
}

#[test]
fn constraints_without_operator_admit_by_name() {
    assert_eq!(
        parse_range("1.0.0 2.0.0;v3"),
        Ok(vec![(Op::Eq, v("1.0.0")), (Op::Eq, v("2.0.0")), (Op::Eq, v("3.0.0"))])
    );
    assert_eq!(
        parse_range("1.0.0v2"),
        Ok(vec![(Op::Eq, v("1.0.0")), (Op::Eq, v("2.0.0"))])
    );
}

#[test]
fn versions_in_a_range_may_carry_every_component() {
    assert_eq!(
        parse_range(">=1.2.3.4-rc.1+b, <2.0.0+b-rc"),
        Ok(vec![(Op::Ge, v("1.2.3.4-rc.1+b")), (Op::Lt, v("2.0.0-rc+b"))])
    );
}

#[test]
fn malformed_ranges_are_refused() {
    for t in [
        "", "   ", "abc", "1..2", "=>1.0", "=<1.0", ">=1.0.0,", ">=1.0.0 ,", ",>=1.0.0", ">=",
        ">=1.0.0 && <2.0.0", "1.0.0 - 2.0.0", "!1.0.0", "~>1.0.0", ">=1.0.0, <", "*", ">=1.0.0\n",
        ">=1.0.0, <2.0.0.", ">=99999999999", "===1.0", "!==1.0", ">==1.0", "<<1.0", "^~1.0",
        ">=1.0.0 | <2.0.0", ">=1.0.0\t<2.0.0", "v", "v ", ">= v", "1.0.0-", "1.0.0 +b",
    ] {
        assert_eq!(parse_range(t), Err(ParseError::Range));
        assert_eq!(Range::parse(t).err(), Some(ParseError::Range));
    }
}

#[test]
fn a_bound_beyond_32_bits_is_refused() {
    assert_eq!(Range::parse("~1.4294967295").err(), Some(ParseError::Range));
    assert_eq!(Range::parse("^4294967295").err(), Some(ParseError::Range));
    assert_eq!(Range::parse("<=1.2.4294967295").err(), Some(ParseError::Range));
    assert_eq!(Range::parse(">1.2.4294967295").err(), Some(ParseError::Range));
    assert_eq!(Range::parse(">=1.0.0, ~1.4294967295").err(), Some(ParseError::Range));
    assert!(parse_range("~1.4294967295").is_ok());
    assert!(Range::parse("~1.4294967294").is_ok());
    assert!(Range::parse("^4294967294").is_ok());
    assert!(Range::parse("<=1.2.4294967294").is_ok());
    assert!(Range::parse(">=4294967295.4294967295.4294967295").is_ok());
    assert!(Range::parse("<4294967295.4294967295.4294967295").is_ok());
    assert!(Range::parse("~4294967295.1").is_ok());
}

#[test]
fn is_expandable_says_what_from_ver_vec_asks() {
    assert!(Range::is_expandable(&vec![]));
    assert!(Range::is_expandable(&vec![(Op::Tilde, v("1.2.3")), (Op::Le, v("4294967295"))]));
    assert!(Range::is_expandable(&vec![(Op::Ge, v("1.4294967295.4294967295"))]));
    assert!(!Range::is_expandable(&vec![(Op::Ge, v("1")), (Op::Tilde, v("1.4294967295"))]));
    assert!(!Range::is_expandable(&vec![(Op::Caret, v("4294967295.0.0"))]));
    assert!(!Range::is_expandable(&vec![(Op::Le, v("0.0.4294967295"))]));
    assert!(!Range::is_expandable(&vec![(Op::Gt, v("0.0.4294967295"))]));
}
