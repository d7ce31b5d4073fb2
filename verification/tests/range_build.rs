use version_range::{Op, Range, Version};

fn v(text: &str) -> Version {
    Version::parse(text).unwrap()
}

fn some(text: &str) -> Option<Version> {
    Some(v(text))
}

#[test]
fn tilde_floats_the_patch() {
    assert_eq!(
        Range::tilde_range_to_vec(v("1.2.3")),
        vec![(Op::Ge, v("1.2.3")), (Op::Lt, v("1.3.0"))]
    );
    assert_eq!(
        Range::tilde_range_to_vec(v("1.2")),
        vec![(Op::Ge, v("1.2.0")), (Op::Lt, v("1.3.0"))]
    );
    assert_eq!(
        Range::tilde_range_to_vec(v("1")),
        vec![(Op::Ge, v("1.0.0")), (Op::Lt, v("1.1.0"))]
    );
}

#[test]
fn caret_floats_minor_and_patch() {
    assert_eq!(
        Range::caret_range_to_vec(v("1.2.3")),
        vec![(Op::Ge, v("1.2.3")), (Op::Lt, v("2.0.0"))]
    );
    assert_eq!(
        Range::caret_range_to_vec(v("0.2")),
        vec![(Op::Ge, v("0.2.0")), (Op::Lt, v("1.0.0"))]
    );
}

#[test]
fn le_becomes_lt_of_the_next_patch() {
    assert_eq!(Range::le_range_to_lt(v("1.2.3")), vec![(Op::Lt, v("1.2.4"))]);
    assert_eq!(Range::le_range_to_vec(v("1.2")), vec![(Op::Lt, v("1.2.1"))]);
    assert_eq!(Range::le_range_to_vec(v("1")), vec![(Op::Lt, v("1.0.1"))]);
}

#[test]
fn gt_becomes_ge_of_the_next_patch() {
    assert_eq!(Range::gt_range_to_ge(v("1.2.3")), vec![(Op::Ge, v("1.2.4"))]);
    assert_eq!(Range::gt_range_to_vec(v("1.2")), vec![(Op::Ge, v("1.2.1"))]);
    assert_eq!(Range::gt_range_to_vec(v("1")), vec![(Op::Ge, v("1.0.1"))]);
}

#[test]
fn the_lower_bound_keeps_its_components_and_the_made_bound_is_plain() {
    assert_eq!(
        Range::tilde_range_to_vec(v("1.2.3.4-rc+b")),
        vec![(Op::Ge, v("1.2.3.4-rc+b")), (Op::Lt, v("1.3.0"))]
    );
    assert_eq!(
        Range::caret_range_to_vec(v("1.2.3.4-rc+b")),
        vec![(Op::Ge, v("1.2.3.4-rc+b")), (Op::Lt, v("2.0.0"))]
    );
    assert_eq!(Range::le_range_to_vec(v("1.2.3.4-rc+b")), vec![(Op::Lt, v("1.2.4"))]);
    assert_eq!(Range::gt_range_to_vec(v("1.2.3.4-rc+b")), vec![(Op::Ge, v("1.2.4"))]);
}

#[test]
fn bounds_at_the_largest_numbers_that_still_expand() {
    assert_eq!(
        Range::tilde_range_to_vec(v("4294967295.4294967294.4294967295")),
        vec![
            (Op::Ge, v("4294967295.4294967294.4294967295")),
            (Op::Lt, v("4294967295.4294967295.0"))
        ]
    );
    assert_eq!(
        Range::caret_range_to_vec(v("4294967294.4294967295.4294967295")),
        vec![
            (Op::Ge, v("4294967294.4294967295.4294967295")),
            (Op::Lt, v("4294967295.0.0"))
        ]
    );
    assert_eq!(
        Range::le_range_to_lt(v("1.2.4294967294")),
        vec![(Op::Lt, v("1.2.4294967295"))]
    );
}

#[test]
fn mixed_list_is_expanded_in_order() {
    let mixed = vec![
        (Op::Tilde, v("1.2.3")),
        (Op::Ne, v("1.2.5")),
        (Op::Le, v("3.0.0")),
        (Op::Eq, v("9.9.9")),
        (Op::Gt, v("0.1.0")),
        (Op::Caret, v("1.0.0")),
        (Op::Ge, v("0.0.1")),
        (Op::Lt, v("8.0.0")),
    ];
    assert_eq!(
        Range::mixed_vec_to_stand_vec(mixed),
        vec![
            (Op::Ge, v("1.2.3")),
            (Op::Lt, v("1.3.0")),
            (Op::Ne, v("1.2.5")),
            (Op::Lt, v("3.0.1")),
            (Op::Eq, v("9.9.9")),
            (Op::Ge, v("0.1.1")),
            (Op::Ge, v("1.0.0")),
            (Op::Lt, v("2.0.0")),
            (Op::Ge, v("0.0.1")),
            (Op::Lt, v("8.0.0")),
        ]
    );
    assert_eq!(Range::mixed_vec_to_stand_vec(vec![]), vec![]);
}

#[test]
fn sort_vec_expands_and_sorts_by_version() {
    let given = vec![(Op::Lt, v("2.0.0")), (Op::Ne, v("1.5.0")), (Op::Tilde, v("1.2.3"))];
    assert_eq!(
        Range::sort_vec(given),
        vec![
            (Op::Ge, v("1.2.3")),
            (Op::Lt, v("1.3.0")),
            (Op::Ne, v("1.5.0")),
            (Op::Lt, v("2.0.0")),
        ]
    );
}

#[test]
fn sort_vec_keeps_equal_versions_in_their_order() {
    let given = vec![
        (Op::Ne, v("1.0.0+c")),
        (Op::Eq, v("2.0.0")),
        (Op::Eq, v("1.0.0-b")),
        (Op::Ge, v("0.5.0")),
        (Op::Lt, v("1.0.0+a")),
    ];
    assert_eq!(
        Range::sort_vec(given),
        vec![
            (Op::Ge, v("0.5.0")),
            (Op::Ne, v("1.0.0+c")),
            (Op::Eq, v("1.0.0-b")),
            (Op::Lt, v("1.0.0+a")),
            (Op::Eq, v("2.0.0")),
        ]
    );
}

#[test]
fn separate_ops_groups_by_operator() {
    let groups = Range::separate_ops(vec![
        (Op::Ge, v("1.0.0")),
        (Op::Tilde, v("1.1.0")),
        (Op::Ge, v("0.5.0")),
        (Op::Ne, v("1.5.0")),
        (Op::Caret, v("3")),
        (Op::Ge, v("2.0.0")),
        (Op::Le, v("4")),
        (Op::Gt, v("5")),
        (Op::Lt, v("6")),
        (Op::Eq, v("7")),
    ]);
    assert_eq!(groups.get(Op::Ge), &vec![v("1.0.0"), v("0.5.0"), v("2.0.0")]);
    assert_eq!(groups.get(Op::Ne), &vec![v("1.5.0")]);
    assert_eq!(groups.get(Op::Tilde), &vec![v("1.1.0")]);
    assert_eq!(groups.get(Op::Caret), &vec![v("3.0.0")]);
    assert_eq!(groups.get(Op::Le), &vec![v("4.0.0")]);
    assert_eq!(groups.get(Op::Gt), &vec![v("5.0.0")]);
    assert_eq!(groups.get(Op::Lt), &vec![v("6.0.0")]);
    assert_eq!(groups.get(Op::Eq), &vec![v("7.0.0")]);
    let nothing = Range::separate_ops(vec![]);
    assert_eq!(nothing.get(Op::Ge), &vec![]);
    assert_eq!(nothing.get(Op::Eq), &vec![]);
}

#[test]
fn range_of_three_constraints() {
    let r = Range::from_ver_vec(vec![
        (Op::Ne, v("1.5.0")),
        (Op::Lt, v("2.0.0")),
        (Op::Ge, v("1.0.0")),
    ]);
    assert_eq!(r.min(), &some("1.0.0"));
    assert_eq!(r.max(), &some("2.0.0"));
    assert_eq!(r.except(), &vec![v("1.5.0")]);
    assert_eq!(r.included(), &vec![]);
}

#[test]
fn several_bounds_of_a_kind_give_the_tightest() {
    let r = Range::parse(">=1.0.0, >=1.2.0, >=0.5.0, <3.0.0, <2.0.0, <2.5.0").unwrap();
    assert_eq!(r.min(), &some("1.2.0"));
    assert_eq!(r.max(), &some("2.0.0"));
    let r = Range::parse("~1.2.3, ^1.0.0").unwrap();
    assert_eq!(r.min(), &some("1.2.3"));
    assert_eq!(r.max(), &some("1.3.0"));
    let r = Range::parse(">1.0.0 <=1.9.9 >=1.0.0").unwrap();
    assert_eq!(r.min(), &some("1.0.1"));
    assert_eq!(r.max(), &some("1.9.10"));
}

#[test]
fn of_equal_bounds_the_last_is_lower_and_the_first_is_upper() {
    let r = Range::parse(">=1.0.0+a, >=1.0.0+b, <2.0.0+c, <2.0.0+d").unwrap();
    assert_eq!(r.min(), &some("1.0.0+b"));
    assert_eq!(r.max(), &some("2.0.0+c"));
}

#[test]
fn excluded_and_named_versions_are_sorted() {
    let r = Range::parse("!=3.0.0, =2.0.0, !=1.0.0, =1.0.0+x, !=2.0.0, =1.0.0+w").unwrap();
    assert_eq!(r.min(), &None);
    assert_eq!(r.max(), &None);
    assert_eq!(r.except(), &vec![v("1.0.0"), v("2.0.0"), v("3.0.0")]);
    assert_eq!(r.included(), &vec![v("1.0.0+x"), v("1.0.0+w"), v("2.0.0")]);
}

#[test]
fn range_of_no_constraint_has_nothing() {
    let r = Range::from_ver_vec(vec![]);
    assert_eq!(r.min(), &None);
    assert_eq!(r.max(), &None);
    assert_eq!(r.except(), &vec![]);
    assert_eq!(r.included(), &vec![]);
    assert!(r.is_any());
    assert!(r.is_valid());
    assert!(!r.is_exact_match());
    assert_eq!(r.to_string(), "*");
}

#[test]
fn le_is_lt_of_the_next_patch_and_gt_is_ge_of_it() {
    assert_eq!(Range::parse("<=1.2.3").unwrap(), Range::parse("<1.2.4").unwrap());
    assert_eq!(Range::parse(">1.2.3").unwrap(), Range::parse(">=1.2.4").unwrap());
    assert_eq!(
        Range::parse(">=1.0.0, <=1.2.3, !=1.1.0").unwrap(),
        Range::parse(">=1.0.0, <1.2.4, !=1.1.0").unwrap()
    );
    assert_eq!(
        Range::parse("<9, >1.2.3, =0.1").unwrap(),
        Range::parse("<9, >=1.2.4, =0.1").unwrap()
    );
}
