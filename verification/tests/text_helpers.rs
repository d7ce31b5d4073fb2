use version_range::decimal::{push_number, read_number};
use version_range::op::op_of_chars;
use version_range::text::{skip_run, text_lt, to_chars, CharClass};
use version_range::Op;

#[test]
fn to_chars_gives_every_character() {
    assert_eq!(to_chars(""), Vec::<char>::new());
    assert_eq!(to_chars("a1."), vec!['a', '1', '.']);
    assert_eq!(to_chars("\u{e9}z\u{1f600}"), vec!['\u{e9}', 'z', '\u{1f600}']);
}

#[test]
fn classes_hold_their_characters() {
    for c in ['a', 'z', 'A', 'Z', '0', '9', '_'] {
        assert!(CharClass::Word.holds(c));
        assert!(CharClass::Token.holds(c));
    }
    assert!(!CharClass::Word.holds('.'));
    assert!(CharClass::Token.holds('.'));
    for c in ['-', '+', ' ', ',', ';', '`', '{', '@', '[', '/', ':', '\u{e9}', '\u{661}'] {
        assert!(!CharClass::Word.holds(c));
        assert!(!CharClass::Token.holds(c));
        assert!(!CharClass::Digit.holds(c));
    }
    for c in ['0', '5', '9'] {
        assert!(CharClass::Digit.holds(c));
    }
    assert!(!CharClass::Digit.holds('a'));
    assert!(CharClass::Space.holds(' '));
    assert!(!CharClass::Space.holds('\t'));
    assert!(!CharClass::Space.holds('\n'));
    assert!(!CharClass::Space.holds('\u{a0}'));
    for c in [' ', ',', ';'] {
        assert!(CharClass::Separator.holds(c));
    }
    assert!(!CharClass::Separator.holds('\t'));
    assert!(!CharClass::Separator.holds('|'));
}

#[test]
fn skip_run_takes_the_longest_run() {
    let chars = to_chars("  12ab.c_-x");
    assert_eq!(skip_run(&chars, 0, CharClass::Space), 2);
    assert_eq!(skip_run(&chars, 0, CharClass::Digit), 0);
    assert_eq!(skip_run(&chars, 2, CharClass::Digit), 4);
    assert_eq!(skip_run(&chars, 2, CharClass::Word), 6);
    assert_eq!(skip_run(&chars, 2, CharClass::Token), 9);
    assert_eq!(skip_run(&chars, 9, CharClass::Token), 9);
    assert_eq!(skip_run(&chars, 10, CharClass::Token), 11);
    assert_eq!(skip_run(&chars, 11, CharClass::Token), 11);
    assert_eq!(skip_run(&to_chars(" ,; ,x"), 0, CharClass::Separator), 5);
}

#[test]
fn text_lt_is_the_order_of_strings() {
    let texts =
        ["", "a", "ab", "b", "B", "10", "9", "a.b", "a_b", "\u{e9}", "z", "\u{1f600}", "zz"];
    for a in texts {
        for b in texts {
            assert_eq!(text_lt(a, b), a < b);
        }
    }
}

#[test]
fn read_number_gives_the_number_that_fits() {
    let chars = to_chars("x0042,4294967295;4294967296 00000000000000000007");
    assert_eq!(read_number(&chars, 1, 5), Some(42));
    assert_eq!(read_number(&chars, 1, 1), Some(0));
    assert_eq!(read_number(&chars, 1, 2), Some(0));
    assert_eq!(read_number(&chars, 6, 16), Some(u32::MAX));
    assert_eq!(read_number(&chars, 6, 15), Some(429496729));
    assert_eq!(read_number(&chars, 17, 27), None);
    assert_eq!(read_number(&chars, 28, 48), Some(7));
    assert_eq!(read_number(&to_chars("99999999999999999999999999"), 0, 26), None);
    assert_eq!(read_number(&to_chars("4294967300"), 0, 10), None);
}

#[test]
fn push_number_writes_without_leading_zeros() {
    for (n, text) in [
        (0, "0"),
        (7, "7"),
        (10, "10"),
        (99, "99"),
        (100, "100"),
        (1234567890, "1234567890"),
        (u32::MAX, "4294967295"),
    ] {
        let mut out = String::from("n=");
        push_number(&mut out, n);
        assert_eq!(out, format!("n={}", text));
        assert_eq!(out, format!("n={}", n));
    }
}

#[test]
fn op_of_chars_reads_a_stretch() {
    let chars = to_chars("a>=b==!=<=~^=><=>=<!");
    assert_eq!(op_of_chars(&chars, 1, 3), Some(Op::Ge));
    assert_eq!(op_of_chars(&chars, 1, 2), Some(Op::Gt));
    assert_eq!(op_of_chars(&chars, 2, 3), Some(Op::Eq));
    assert_eq!(op_of_chars(&chars, 4, 6), Some(Op::Eq));
    assert_eq!(op_of_chars(&chars, 6, 8), Some(Op::Ne));
    assert_eq!(op_of_chars(&chars, 8, 10), Some(Op::Le));
    assert_eq!(op_of_chars(&chars, 8, 9), Some(Op::Lt));
    assert_eq!(op_of_chars(&chars, 10, 11), Some(Op::Tilde));
    assert_eq!(op_of_chars(&chars, 11, 12), Some(Op::Caret));
    assert_eq!(op_of_chars(&chars, 11, 13), None);
    assert_eq!(op_of_chars(&chars, 10, 12), None);
    assert_eq!(op_of_chars(&chars, 15, 17), None);
    assert_eq!(op_of_chars(&chars, 17, 19), None);
    assert_eq!(op_of_chars(&chars, 19, 20), None);
    assert_eq!(op_of_chars(&chars, 0, 1), None);
    assert_eq!(op_of_chars(&chars, 1, 4), None);
    assert_eq!(op_of_chars(&chars, 5, 5), Some(Op::Eq));
}
