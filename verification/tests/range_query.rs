use version_range::{Range, Version};

fn v(text: &str) -> Version {
    Version::parse(text).unwrap()
}

fn r(text: &str) -> Range {
    Range::parse(text).unwrap()
}

#[test]
fn tilde_boundary() {
    let range = r("~1.2.3");
    assert!(range.contains(v("1.2.3")));
    assert!(range.contains(v("1.2.9")));
    assert!(!range.contains(v("1.3.0")));
    assert!(!range.contains(v("1.2.2")));
    assert!(range.contains(v("1.2.4294967295")));
}

#[test]
fn caret_boundary() {
    let range = r("^1.2.3");
    assert!(range.contains(v("1.2.3")));
    assert!(range.contains(v("1.9.9")));
    assert!(!range.contains(v("2.0.0")));
    assert!(!range.contains(v("1.2.2")));
    assert!(range.contains(v("1.4294967295.4294967295")));
}

#[test]
fn multi_constraint_intersection() {
    let range = r(">=1.0.0, <2.0.0, !=1.5.0");
    assert!(range.contains(v("1.4.0")));
    assert!(!range.contains(v("1.5.0")));
    assert!(!range.contains(v("2.0.0")));
    assert!(range.contains(v("1.0.0")));
    assert!(!range.contains(v("0.9.9")));
    assert!(range.contains(v("1.9.9")));
}

#[test]
fn the_order_of_constraints_does_not_matter() {
    let texts = [
        ">=1.0.0, <2.0.0, !=1.5.0, =3.0.0",
        "=3.0.0, !=1.5.0, <2.0.0, >=1.0.0",
        "<2.0.0, =3.0.0, >=1.0.0, !=1.5.0",
    ];
    let probes =
        ["0.9.9", "1.0.0", "1.4.0", "1.5.0", "1.5.0-rc", "1.9.9", "2.0.0", "3.0.0", "3.0.1"];
    let expected = [false, true, true, false, false, true, false, true, false];
    for t in texts {
        let range = r(t);
        for (p, e) in probes.iter().zip(expected) {
            assert_eq!(range.contains(v(p)), e);
        }
    }
}

#[test]
fn the_lower_bound_is_inside_and_the_upper_bound_is_outside() {
    let range = r(">=1.0.0 <2.0.0");
    assert!(range.contains(v("1.0.0")));
    assert!(!range.contains(v("2.0.0")));
    assert!(!range.contains(v("2.0.0-alpha")));
    assert!(range.contains(v("1.0.0-alpha")));
    assert!(range.contains(v("1.0.0.1")));
    assert!(range.contains(v("1.4294967295.4294967295.zzz")));
}

#[test]
fn a_bound_that_is_absent_asks_nothing() {
    assert!(r(">=1.0.0").contains(v("4294967295.0.0")));
    assert!(!r(">=1.0.0").contains(v("0.4294967295.0")));
    assert!(r("<1.0.0").contains(v("0.0.0")));
    assert!(!r("<1.0.0").contains(v("1.0.0")));
    assert!(r("!=1.0.0").contains(v("0.0.0")));
    assert!(r("!=1.0.0").contains(v("7.0.0")));
    assert!(!r("!=1.0.0").contains(v("1.0.0")));
}

#[test]
fn a_named_version_is_in_whatever_the_bounds() {
    let range = r(">=1.0.0, <2.0.0, =3.0.0, !=1.5.0, =1.5.0");
    assert!(range.contains(v("3.0.0")));
    assert!(range.contains(v("3.0.0-rc+b")));
    assert!(range.contains(v("1.5.0")));
    assert!(!range.contains(v("3.0.1")));
    assert!(!range.contains(v("2.5.0")));
}

#[test]
fn build_never_counts_for_membership() {
    let range = r("=1.0.0");
    assert!(range.contains(v("1.0.0+a")));
    assert!(range.contains(v("1.0.0+b")));
    let bounded = r(">=1.0.0+x, <1.0.1+y, !=1.0.0.5+z");
    assert!(bounded.contains(v("1.0.0+a")));
    assert!(bounded.contains(v("1.0.0")));
    assert!(!bounded.contains(v("1.0.1+a")));
    assert!(!bounded.contains(v("1.0.0.5+a")));
    assert!(!bounded.contains(v("1.0.0.5")));
}

#[test]
fn membership_of_excluded_versions_is_by_range_order() {
    let range = r(">=1.0.0, !=1.5.0-rc.1+b");
    assert!(!range.contains(v("1.5.0")));
    assert!(!range.contains(v("1.5.0+other")));
    assert!(range.contains(v("1.5.0.1")));
}

#[test]
fn is_any_is_without_bounds() {
    assert!(!r(">=0.0.0").is_any());
    assert!(!r("<1").is_any());
    assert!(!r("~1").is_any());
    assert!(r("=1.0.0").is_any());
    assert!(r("!=1.0.0").is_any());
}

#[test]
fn contradicting_bounds_are_built_and_not_valid() {
    let range = r(">=2.0.0, <1.0.0");
    assert!(!range.is_valid());
    assert_eq!(range.min(), &Some(v("2.0.0")));
    assert_eq!(range.max(), &Some(v("1.0.0")));
    assert!(!range.contains(v("1.5.0")));
}

#[test]
fn is_valid_compares_the_bounds() {
    assert!(r(">=1.0.0, <2.0.0").is_valid());
    assert!(r(">=1.0.0, <1.0.0").is_valid());
    assert!(r(">=1.0.0-a, <1.0.0+b").is_valid());
    assert!(!r(">=1.0.1, <1.0.0").is_valid());
    assert!(!r(">=1.0.0.1, <1.0.0").is_valid());
    assert!(r(">=9.0.0").is_valid());
    assert!(r("<1.0.0").is_valid());
    assert!(r("=1.0.0").is_valid());
    assert!(r("!=1.0.0, =2").is_valid());
}

#[test]
fn exact_match_by_equal_bounds() {
    assert!(r(">=1.2.3, <1.2.3").is_exact_match());
    assert!(r(">=1.2.3-rc, <1.2.3+b").is_exact_match());
    assert!(!r(">=1.2.3, <1.2.3, !=1.2.3").is_exact_match());
    assert!(r(">=1.2.3, <1.2.3, !=1.2.4").is_exact_match());
    assert!(!r(">=1.2.3, <1.2.4").is_exact_match());
    assert!(!r(">=1.2.3").is_exact_match());
    assert!(!r("<1.2.3").is_exact_match());
}

#[test]
fn exact_match_by_one_named_version() {
    assert!(r("=1.2.3").is_exact_match());
    assert!(r("1.2.3").is_exact_match());
    assert!(!r("=1.2.3, =1.2.4").is_exact_match());
    assert!(!r("=1.2.3, =1.2.3").is_exact_match());
    assert!(r("=1.2.3, >=1.0.0").is_exact_match());
    assert!(!r("=1.2.3, >=2.0.0").is_exact_match());
    assert!(!r("=1.2.3, <1.2.3").is_exact_match());
    assert!(r("=1.2.3, <1.2.4").is_exact_match());
    assert!(!r("=1.2.3, !=1.2.3").is_exact_match());
    assert!(r("=1.2.3, !=1.2.4").is_exact_match());
}

#[test]
fn written_form_of_a_range() {
    assert_eq!(r(">=1.0.0, <2.0.0, !=1.5.0").to_string(), ">=1.0.0,<2.0.0,!=1.5.0");
    assert_eq!(
        r("=3, !=1.5, <2, >=1, !=1.2, =0.1").to_string(),
        ">=1.0.0,<2.0.0,!=1.2.0,!=1.5.0,=0.1.0,=3.0.0"
    );
    assert_eq!(r("~1.2.3").to_string(), ">=1.2.3,<1.3.0");
    assert_eq!(r("^1.2.3").to_string(), ">=1.2.3,<2.0.0");
    assert_eq!(r("<=1.2.3").to_string(), "<1.2.4");
    assert_eq!(r(">1.2.3").to_string(), ">=1.2.4");
    assert_eq!(r(">=1.2.3.4-rc+b").to_string(), ">=1.2.3.4-rc+b");
    assert_eq!(r("<1, =2").to_string(), "<1.0.0,=2.0.0");
    assert_eq!(r(">=1, !=2").to_string(), ">=1.0.0,!=2.0.0");
}

#[test]
fn unbounded_range_is_written_as_a_star() {
    assert_eq!(r("=1.0.0").to_string(), "*");
    assert_eq!(r("!=1.0.0").to_string(), "*");
    assert_eq!(r("=1.0.0, !=2.0.0").to_string(), "*");
}

#[test]
fn written_form_reads_back_as_the_same_range() {
    for t in [">=1.0.0, <2.0.0, !=1.5.0", "~1.2.3", "^0.1", "<=1.2.3, =9", ">1.2.3-rc+b !=2"] {
        let first = r(t);
        let second = r(&first.to_string());
        assert_eq!(second, first);
        assert_eq!(second.to_string(), first.to_string());
    }
}
