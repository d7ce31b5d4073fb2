use std::cmp::Ordering;
use version_range::Version;

fn v(text: &str) -> Version {
    Version::parse(text).unwrap()
}

#[test]
fn numbers_are_compared_in_turn() {
    assert_eq!(v("1.2.3").cmp(&v("2.0.0")), Ordering::Less);
    assert_eq!(v("2.0.0").cmp(&v("1.9.9")), Ordering::Greater);
    assert_eq!(v("1.2.3").cmp(&v("1.3.0")), Ordering::Less);
    assert_eq!(v("1.2.3").cmp(&v("1.2.4")), Ordering::Less);
    assert_eq!(v("1.2.3").cmp(&v("1.2.3")), Ordering::Equal);
    assert_eq!(v("1.10.0").cmp(&v("1.9.0")), Ordering::Greater);
}

#[test]
fn partial_cmp_always_answers() {
    assert_eq!(v("1.2.3").partial_cmp(&v("1.2.4")), Some(Ordering::Less));
    assert_eq!(v("1.2.3").partial_cmp(&v("1.2.3+x")), Some(Ordering::Equal));
    assert_eq!(v("3").partial_cmp(&v("1.2.4")), Some(Ordering::Greater));
}

#[test]
fn fourth_component_counts_in_the_range_order() {
    assert_eq!(v("1.1.0.5").cmp(&v("1.1.0")), Ordering::Greater);
    assert_eq!(v("1.1.0").cmp(&v("1.1.0.0.0")), Ordering::Less);
    assert_eq!(v("1.1.0.1.5").cmp(&v("1.1.0.1.6")), Ordering::Less);
    assert_eq!(v("1.1.0.5").cmp(&v("1.1.1")), Ordering::Less);
    assert_eq!(v("1.1.0.a").cmp(&v("1.1.0.a")), Ordering::Equal);
}

#[test]
fn fourth_component_is_compared_as_text() {
    assert_eq!(v("1.0.0.10").cmp(&v("1.0.0.9")), Ordering::Less);
    assert_eq!(v("1.0.0.a").cmp(&v("1.0.0.ab")), Ordering::Less);
    assert_eq!(v("1.0.0.B").cmp(&v("1.0.0.a")), Ordering::Less);
}

#[test]
fn text_order_is_by_code_point() {
    let z = Version::new(1, 0, 0, Some("z".to_string()), None, None);
    let e = Version::new(1, 0, 0, Some("\u{e9}".to_string()), None, None);
    let far = Version::new(1, 0, 0, Some("\u{1f600}".to_string()), None, None);
    assert!(z.range_lt(&e));
    assert!(e.range_lt(&far));
    assert!(!far.range_lt(&z));
    assert_eq!("z" < "\u{e9}", z.range_lt(&e));
    assert_eq!("\u{e9}" < "\u{1f600}", e.range_lt(&far));
}

#[test]
fn pre_release_equals_its_release_in_the_range_order() {
    assert_eq!(v("2.0.0-alpha").cmp(&v("2.0.0")), Ordering::Equal);
    assert!(v("2.0.0-alpha").range_eq(&v("2.0.0")));
    assert!(v("2.0.0-alpha").range_le(&v("2.0.0")));
    assert!(!v("2.0.0-alpha").range_lt(&v("2.0.0")));
    assert_eq!(v("2.0.0-alpha").cmp(&v("2.0.0-beta")), Ordering::Equal);
}

#[test]
fn exactly_one_of_three_holds() {
    let all = ["1.0.0", "1.0.0-rc", "1.0.0+b", "1.0.0.1", "1.0.1", "1.1.0", "2.0.0", "0.9.9.z"];
    for a in all {
        for b in all {
            let (a, b) = (v(a), v(b));
            let held = [a.range_lt(&b), a.range_eq(&b), b.range_lt(&a)];
            assert_eq!(held.iter().filter(|h| **h).count(), 1);
            assert_eq!(a.range_le(&b), held[0] || held[1]);
            match a.cmp(&b) {
                Ordering::Less => assert!(held[0]),
                Ordering::Equal => assert!(held[1]),
                Ordering::Greater => assert!(held[2]),
            }
        }
    }
}

#[test]
fn range_order_is_transitive_on_a_chain() {
    let chain = ["0.0.1", "0.1.0", "0.1.0.a", "0.1.0.b", "1.0.0", "1.0.0.0", "10.0.0"];
    for i in 0..chain.len() {
        for j in (i + 1)..chain.len() {
            assert!(v(chain[i]).range_lt(&v(chain[j])));
            assert!(!v(chain[j]).range_lt(&v(chain[i])));
        }
    }
}

#[test]
fn build_never_counts_in_an_order() {
    let a = v("1.0.0+a");
    let b = v("1.0.0+b");
    let bare = v("1.0.0");
    assert_eq!(a.cmp(&b), Ordering::Equal);
    assert!(a.range_eq(&b));
    assert!(a.range_eq(&bare));
    assert!(!a.is_older_than(&b));
    assert!(!b.is_older_than(&a));
    assert!(!a.is_older_than(&bare));
    assert_eq!(a.cmp(&v("1.0.1")), b.cmp(&v("1.0.1")));
}

#[test]
fn identity_looks_at_everything() {
    assert!(v("1.2.3-rc+b").is(&v("1.2.3+b-rc")));
    assert!(v("1.2").is(&v("1.2.0")));
    assert!(!v("1.0.0+a").is(&v("1.0.0+b")));
    assert!(!v("1.0.0+a").is(&v("1.0.0")));
    assert!(!v("1.0.0-a").is(&v("1.0.0")));
    assert!(!v("1.0.0.1").is(&v("1.0.0")));
    assert!(!v("1.0.0").is(&v("1.0.1")));
    assert!(!v("1.0.0").is(&v("1.1.0")));
    assert!(!v("1.0.0").is(&v("2.0.0")));
}

#[test]
fn older_than_goes_by_priority() {
    assert!(!v("1.2.0").is_older_than(&v("1.1.5")));
    assert!(v("1.1.5").is_older_than(&v("1.2.0")));
    assert!(!v("2.0.0").is_older_than(&v("1.9.9")));
    assert!(v("1.9.9").is_older_than(&v("2.0.0")));
    assert!(v("1.0.0").is_older_than(&v("1.0.0.1")));
    assert!(!v("1.0.0.1").is_older_than(&v("1.0.0")));
    assert!(!v("1.0.0").is_older_than(&v("1.0.0")));
}

#[test]
fn pre_release_is_older_than_its_release() {
    assert!(v("2.0.0-alpha").is_older_than(&v("2.0.0")));
    assert!(!v("2.0.0").is_older_than(&v("2.0.0-alpha")));
    assert!(v("2.0.0-alpha").is_older_than(&v("2.0.0-beta")));
    assert!(!v("2.0.0-beta").is_older_than(&v("2.0.0-alpha")));
    assert!(v("1.1.0-rc.1").is_older_than(&v("1.1.0-rc.2")));
    assert!(!v("2.0.0-alpha").is_older_than(&v("2.0.0-alpha")));
    assert!(!v("2.0.1-alpha").is_older_than(&v("2.0.0")));
    assert!(v("2.0.0").is_older_than(&v("2.0.1-alpha")));
}
