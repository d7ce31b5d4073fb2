//! The two syntaxes, each as a function from a text to what it denotes, and the
//! readers that compute those functions.
//!
//! Both are read from left to right without ever going back: at each point the
//! next characters decide what is read, the longest run is taken, and what has
//! been begun must be completed. A text is accepted only as a whole.

use vstd::prelude::*;
use vstd::string::*;
use crate::decimal::{decimal_value, read_number};
use crate::error::ParseError;
use crate::op::{op_of_chars, op_of_text, Op};
use crate::text::{
    char_at, class_at, is_token, lemma_run_end, run_end, skip_run, to_chars, CharClass,
};
use crate::version::{text_of, Version, VersionView};

verus! {

/// A number at `i`: the longest run of digits, at least one, that denotes a
/// number of 32 bits. With it comes the position behind the run.
pub open spec fn number_at(s: Seq<char>, i: int) -> Option<(nat, int)> {
    let end = run_end(s, i, CharClass::Digit);
    let value = decimal_value(s.subrange(i, end));
    if end > i && value <= u32::MAX {
        Some((value, end))
    } else {
        None
    }
}

/// A further number behind a dot. A dot before a digit begins one, and the
/// number must then be readable; anything else leaves the component out.
pub open spec fn dotted_number_at(s: Seq<char>, i: int) -> Option<(Option<nat>, int)> {
    if char_at(s, i, '.') && class_at(s, i + 1, CharClass::Digit) {
        match number_at(s, i + 1) {
            Some((value, end)) => Some((Some(value), end)),
            None => None,
        }
    } else {
        Some((None, i))
    }
}

/// A token at `i`: a word character and the longest run of token characters
/// that it begins.
pub open spec fn token_at(s: Seq<char>, i: int) -> Option<(Seq<char>, int)> {
    if class_at(s, i, CharClass::Word) {
        let end = run_end(s, i, CharClass::Token);
        Some((s.subrange(i, end), end))
    } else {
        None
    }
}

/// A token behind the character `mark`. The mark begins the component, and a
/// token must follow it; without the mark the component is left out.
pub open spec fn marked_token_at(s: Seq<char>, i: int, mark: char) -> Option<
    (Option<Seq<char>>, int),
> {
    if char_at(s, i, mark) {
        match token_at(s, i + 1) {
            Some((token, end)) => Some((Some(token), end)),
            None => None,
        }
    } else {
        Some((None, i))
    }
}

/// Pre-release and build, in either order, each at most once: a pre-release
/// and then perhaps a build, or a build and then perhaps a pre-release.
pub open spec fn suffix_at(s: Seq<char>, i: int) -> Option<
    ((Option<Seq<char>>, Option<Seq<char>>), int),
> {
    if char_at(s, i, '+') {
        match token_at(s, i + 1) {
            None => None,
            Some((build, a)) => match marked_token_at(s, a, '-') {
                None => None,
                Some((pre, end)) => Some(((pre, Some(build)), end)),
            },
        }
    } else {
        match marked_token_at(s, i, '-') {
            None => None,
            Some((pre, a)) => match marked_token_at(s, a, '+') {
                None => None,
                Some((build, end)) => Some(((pre, build), end)),
            },
        }
    }
}

/// The position behind what may stand before the numbers: a `v` in either
/// case, and then one blank.
pub open spec fn after_prefix(s: Seq<char>, i: int) -> int {
    let a = if char_at(s, i, 'v') || char_at(s, i, 'V') {
        i + 1
    } else {
        i
    };
    if char_at(s, a, ' ') {
        a + 1
    } else {
        a
    }
}

/// A number that was left out counts as zero.
pub open spec fn or_zero(n: Option<nat>) -> nat {
    match n {
        Some(value) => value,
        None => 0,
    }
}

/// A version at `i`, with the position behind it: the prefix, the major
/// number, up to two further numbers behind dots, a fourth component behind a
/// dot, and the suffix.
pub open spec fn version_at(s: Seq<char>, i: int) -> Option<(VersionView, int)> {
    match number_at(s, after_prefix(s, i)) {
        None => None,
        Some((major, a)) => match dotted_number_at(s, a) {
            None => None,
            Some((minor, b)) => match dotted_number_at(s, b) {
                None => None,
                Some((patch, c)) => match marked_token_at(s, c, '.') {
                    None => None,
                    Some((extra, d)) => match suffix_at(s, d) {
                        None => None,
                        Some(((pre, build), end)) => Some(
                            (
                                VersionView {
                                    major,
                                    minor: or_zero(minor),
                                    patch: or_zero(patch),
                                    extra,
                                    pre,
                                    build,
                                },
                                end,
                            ),
                        ),
                    },
                },
            },
        }
    }
}

/// The version that a text denotes: blanks, one version, blanks, and nothing
/// more.
pub open spec fn version_of_text(s: Seq<char>) -> Option<VersionView> {
    match version_at(s, run_end(s, 0, CharClass::Space)) {
        None => None,
        Some((version, end)) => if run_end(s, end, CharClass::Space) == s.len() {
            Some(version)
        } else {
            None
        },
    }
}

/// The operator at `i` and the position behind it. The two-character
/// operators are tried first; where no operator stands, the constraint admits
/// the version that it names.
pub open spec fn op_at(s: Seq<char>, i: int) -> (Op, int) {
    if char_at(s, i + 1, '=') && char_at(s, i, '=') {
        (Op::Eq, i + 2)
    } else if char_at(s, i + 1, '=') && char_at(s, i, '!') {
        (Op::Ne, i + 2)
    } else if char_at(s, i + 1, '=') && char_at(s, i, '<') {
        (Op::Le, i + 2)
    } else if char_at(s, i + 1, '=') && char_at(s, i, '>') {
        (Op::Ge, i + 2)
    } else if char_at(s, i, '=') {
        (Op::Eq, i + 1)
    } else if char_at(s, i, '<') {
        (Op::Lt, i + 1)
    } else if char_at(s, i, '>') {
        (Op::Gt, i + 1)
    } else if char_at(s, i, '~') {
        (Op::Tilde, i + 1)
    } else if char_at(s, i, '^') {
        (Op::Caret, i + 1)
    } else {
        (Op::Eq, i)
    }
}

/// One constraint at `i`, with the position behind it: an operator, blanks, a
/// version, blanks.
pub open spec fn constraint_at(s: Seq<char>, i: int) -> Option<((Op, VersionView), int)> {
    let (op, a) = op_at(s, i);
    match version_at(s, run_end(s, a, CharClass::Space)) {
        None => None,
        Some((version, b)) => Some(((op, version), run_end(s, b, CharClass::Space))),
    }
}

/// The constraints that follow from `i` on, each behind a run of separators
/// that may be empty, and the position behind the last of them. Separators
/// that no constraint follows are not stepped over.
pub open spec fn more_constraints_at(s: Seq<char>, i: int) -> (Seq<(Op, VersionView)>, int)
    decreases s.len() - i,
{
    match constraint_at(s, run_end(s, i, CharClass::Separator)) {
        None => (Seq::empty(), i),
        Some((constraint, a)) => if i < a <= s.len() {
            let (rest, end) = more_constraints_at(s, a);
            (seq![constraint] + rest, end)
        } else {
            (Seq::empty(), i)
        },
    }
}

/// The constraints that a text denotes, in the order in which they stand:
/// blanks, at least one constraint, blanks, and nothing more.
pub open spec fn constraints_of_text(s: Seq<char>) -> Option<Seq<(Op, VersionView)>> {
    match constraint_at(s, run_end(s, 0, CharClass::Space)) {
        None => None,
        Some((first, a)) => {
            let (rest, end) = more_constraints_at(s, a);
            if run_end(s, end, CharClass::Space) == s.len() {
                Some(seq![first] + rest)
            } else {
                None
            }
        },
    }
}

/// Whether every constraint of a list names a well-formed version.
pub open spec fn all_well_formed(cs: Seq<(Op, VersionView)>) -> bool {
    forall|i: int| 0 <= i < cs.len() ==> (#[trigger] cs[i]).1.well_formed()
}

/// A token that is read is a token, and it stands where it was read.
pub proof fn lemma_token_at_is_token(s: Seq<char>, i: int)
    ensures
        token_at(s, i) matches Some((t, end)) ==> is_token(t) && 0 <= i < end <= s.len()
            && s.subrange(i, end) == t,
{
    if class_at(s, i, CharClass::Word) {
        lemma_run_end(s, i, CharClass::Token);
        lemma_run_end(s, i + 1, CharClass::Token);
        let t = s.subrange(i, run_end(s, i, CharClass::Token));
        assert(t[0] == s[i]);
    }
}

/// Whatever is read as a version is well formed.
pub proof fn lemma_version_at_well_formed(s: Seq<char>, i: int)
    ensures
        version_at(s, i) matches Some((v, _)) ==> v.well_formed(),
{
    if let Some((_, a)) = number_at(s, after_prefix(s, i)) {
        if let Some((_, b)) = dotted_number_at(s, a) {
            if let Some((_, c)) = dotted_number_at(s, b) {
                lemma_token_at_is_token(s, c + 1);
                if let Some((_, d)) = marked_token_at(s, c, '.') {
                    lemma_token_at_is_token(s, d + 1);
                    if char_at(s, d, '+') {
                        if let Some((_, e)) = token_at(s, d + 1) {
                            lemma_token_at_is_token(s, e + 1);
                        }
                    } else {
                        if let Some((_, e)) = marked_token_at(s, d, '-') {
                            lemma_token_at_is_token(s, e + 1);
                        }
                    }
                }
            }
        }
    }
}

proof fn lemma_constraint_at_well_formed(s: Seq<char>, i: int)
    ensures
        constraint_at(s, i) matches Some((c, _)) ==> c.1.well_formed(),
{
    lemma_version_at_well_formed(s, run_end(s, op_at(s, i).1, CharClass::Space));
}

proof fn lemma_more_constraints_well_formed(s: Seq<char>, i: int)
    ensures
        forall|k: int|
            0 <= k < more_constraints_at(s, i).0.len() ==> (#[trigger] more_constraints_at(
                s,
                i,
            ).0[k]).1.well_formed(),
    decreases s.len() - i,
{
    let from = run_end(s, i, CharClass::Separator);
    if let Some((c, a)) = constraint_at(s, from) {
        if i < a <= s.len() {
            lemma_constraint_at_well_formed(s, from);
            lemma_more_constraints_well_formed(s, a);
            let all = more_constraints_at(s, i).0;
            let rest = more_constraints_at(s, a).0;
            assert forall|k: int| 0 <= k < all.len() implies (#[trigger] all[k]).1.well_formed(
            ) by {
                if k > 0 {
                    assert(all[k] == rest[k - 1]);
                }
            }
        }
    }
}

/// Whatever is read as a list of constraints names well-formed versions only.
pub proof fn lemma_constraints_well_formed(s: Seq<char>)
    ensures
        constraints_of_text(s) matches Some(cs) ==> all_well_formed(cs),
{
    let start = run_end(s, 0, CharClass::Space);
    if let Some((first, a)) = constraint_at(s, start) {
        lemma_constraint_at_well_formed(s, start);
        lemma_more_constraints_well_formed(s, a);
        let rest = more_constraints_at(s, a).0;
        let all = seq![first] + rest;
        assert forall|k: int| 0 <= k < all.len() implies (#[trigger] all[k]).1.well_formed() by {
            if k > 0 {
                assert(all[k] == rest[k - 1]);
            }
        }
    }
}

fn read_number_at(chars: &Vec<char>, start: usize) -> (found: Option<(u32, usize)>)
    requires
        start <= chars.len(),
    ensures
        match found {
            Some((value, end)) => number_at(chars@, start as int) == Some(
                (value as nat, end as int),
            ) && start < end <= chars.len(),
            None => number_at(chars@, start as int) is None,
        },
{
    let end = skip_run(chars, start, CharClass::Digit);
    proof {
        lemma_run_end(chars@, start as int, CharClass::Digit);
    }
    if end == start {
        return None;
    }
    match read_number(chars, start, end) {
        Some(value) => Some((value, end)),
        None => None,
    }
}

fn read_dotted_number_at(chars: &Vec<char>, start: usize) -> (found: Option<(Option<u32>, usize)>)
    requires
        start <= chars.len(),
    ensures
        match found {
            Some((Some(value), end)) => dotted_number_at(chars@, start as int) == Some(
                (Some(value as nat), end as int),
            ) && start < end <= chars.len(),
            Some((None, end)) => dotted_number_at(chars@, start as int) == Some(
                (None::<nat>, end as int),
            ) && end == start,
            None => dotted_number_at(chars@, start as int) is None,
        },
{
    if start < chars.len() && chars[start] == '.' && start + 1 < chars.len()
        && CharClass::Digit.holds(chars[start + 1]) {
        match read_number_at(chars, start + 1) {
            Some((value, end)) => Some((Some(value), end)),
            None => None,
        }
    } else {
        Some((None, start))
    }
}

fn read_token_at(text: &str, chars: &Vec<char>, start: usize) -> (found: Option<(String, usize)>)
    requires
        chars@ == text@,
        start <= chars.len(),
    ensures
        match found {
            Some((token, end)) => token_at(chars@, start as int) == Some((token@, end as int))
                && start < end <= chars.len(),
            None => token_at(chars@, start as int) is None,
        },
{
    if start < chars.len() && CharClass::Word.holds(chars[start]) {
        let end = skip_run(chars, start, CharClass::Token);
        proof {
            lemma_run_end(chars@, start as int, CharClass::Token);
        }
        let token = text.substring_char(start, end).to_owned();
        Some((token, end))
    } else {
        None
    }
}

fn read_marked_token_at(text: &str, chars: &Vec<char>, start: usize, mark: char) -> (found: Option<
    (Option<String>, usize),
>)
    requires
        chars@ == text@,
        start <= chars.len(),
    ensures
        match found {
            Some((token, end)) => marked_token_at(chars@, start as int, mark) == Some(
                (text_of(token), end as int),
            ) && start <= end <= chars.len(),
            None => marked_token_at(chars@, start as int, mark) is None,
        },
{
    if start < chars.len() && chars[start] == mark {
        match read_token_at(text, chars, start + 1) {
            Some((token, end)) => Some((Some(token), end)),
            None => None,
        }
    } else {
        Some((None, start))
    }
}

fn read_suffix_at(text: &str, chars: &Vec<char>, start: usize) -> (found: Option<
    (Option<String>, Option<String>, usize),
>)
    requires
        chars@ == text@,
        start <= chars.len(),
    ensures
        match found {
            Some((pre, build, end)) => suffix_at(chars@, start as int) == Some(
                ((text_of(pre), text_of(build)), end as int),
            ) && start <= end <= chars.len(),
            None => suffix_at(chars@, start as int) is None,
        },
{
    if start < chars.len() && chars[start] == '+' {
        match read_token_at(text, chars, start + 1) {
            None => None,
            Some((build, a)) => match read_marked_token_at(text, chars, a, '-') {
                None => None,
                Some((pre, end)) => Some((pre, Some(build), end)),
            },
        }
    } else {
        match read_marked_token_at(text, chars, start, '-') {
            None => None,
            Some((pre, a)) => match read_marked_token_at(text, chars, a, '+') {
                None => None,
                Some((build, end)) => Some((pre, build, end)),
            },
        }
    }
}

fn skip_prefix(chars: &Vec<char>, start: usize) -> (end: usize)
    requires
        start <= chars.len(),
    ensures
        end == after_prefix(chars@, start as int),
        start <= end <= chars.len(),
{
    let a = if start < chars.len() && (chars[start] == 'v' || chars[start] == 'V') {
        start + 1
    } else {
        start
    };
    if a < chars.len() && chars[a] == ' ' {
        a + 1
    } else {
        a
    }
}

fn number_or_zero(n: Option<u32>) -> (value: u32)
    ensures
        value as nat == or_zero(
            match n {
                Some(v) => Some(v as nat),
                None => None,
            },
        ),
{
    match n {
        Some(v) => v,
        None => 0,
    }
}

fn read_version_at(text: &str, chars: &Vec<char>, start: usize) -> (found: Option<(Version, usize)>)
    requires
        chars@ == text@,
        start <= chars.len(),
    ensures
        match found {
            Some((version, end)) => version_at(chars@, start as int) == Some(
                (version@, end as int),
            ) && start < end <= chars.len(),
            None => version_at(chars@, start as int) is None,
        },
{
    let from = skip_prefix(chars, start);
    let (major, a) = match read_number_at(chars, from) {
        Some(found) => found,
        None => { return None; },
    };
    let (minor, b) = match read_dotted_number_at(chars, a) {
        Some(found) => found,
        None => { return None; },
    };
    let (patch, c) = match read_dotted_number_at(chars, b) {
        Some(found) => found,
        None => { return None; },
    };
    let (extra, d) = match read_marked_token_at(text, chars, c, '.') {
        Some(found) => found,
        None => { return None; },
    };
    let (pre, build, end) = match read_suffix_at(text, chars, d) {
        Some(found) => found,
        None => { return None; },
    };
    let version = Version::new(
        major,
        number_or_zero(minor),
        number_or_zero(patch),
        extra,
        pre,
        build,
    );
    Some((version, end))
}

/// Reads a text that holds one version and nothing else.
pub fn parse_version(text: &str) -> (result: Result<Version, ParseError>)
    ensures
        match result {
            Ok(version) => version_of_text(text@) == Some(version@) && version@.well_formed(),
            Err(e) => e == ParseError::Version && version_of_text(text@) is None,
        },
{
    proof {
        lemma_version_at_well_formed(text@, run_end(text@, 0, CharClass::Space));
    }
    let chars = to_chars(text);
    let start = skip_run(&chars, 0, CharClass::Space);
    match read_version_at(text, &chars, start) {
        None => Err(ParseError::Version),
        Some((version, end)) => {
            if skip_run(&chars, end, CharClass::Space) == chars.len() {
                Ok(version)
            } else {
                Err(ParseError::Version)
            }
        },
    }
}

/// The operator found at a position is the one that the characters there
/// spell.
pub proof fn lemma_op_at_spells(s: Seq<char>, i: int)
    requires
        0 <= i <= s.len(),
    ensures
        i <= op_at(s, i).1 <= i + 2,
        op_at(s, i).1 <= s.len(),
        op_of_text(s.subrange(i, op_at(s, i).1)) == Some(op_at(s, i).0),
{
}

fn read_op_at(chars: &Vec<char>, start: usize) -> (found: (Op, usize))
    requires
        start <= chars.len(),
    ensures
        op_at(chars@, start as int) == (found.0, found.1 as int),
        start <= found.1 <= chars.len(),
{
    let len = chars.len();
    let end = if start < len && (chars[start] == '=' || chars[start] == '!' || chars[start] == '<'
        || chars[start] == '>') && start + 1 < len && chars[start + 1] == '=' {
        start + 2
    } else if start < len && (chars[start] == '=' || chars[start] == '<' || chars[start] == '>'
        || chars[start] == '~' || chars[start] == '^') {
        start + 1
    } else {
        start
    };
    proof {
        lemma_op_at_spells(chars@, start as int);
    }
    match op_of_chars(chars, start, end) {
        Some(op) => (op, end),
        None => (Op::Eq, end),
    }
}

fn read_constraint_at(text: &str, chars: &Vec<char>, start: usize) -> (found: Option<
    ((Op, Version), usize),
>)
    requires
        chars@ == text@,
        start <= chars.len(),
    ensures
        match found {
            Some((constraint, end)) => constraint_at(chars@, start as int) == Some(
                ((constraint.0, constraint.1@), end as int),
            ) && start < end <= chars.len(),
            None => constraint_at(chars@, start as int) is None,
        },
{
    let (op, a) = read_op_at(chars, start);
    let b = skip_run(chars, a, CharClass::Space);
    match read_version_at(text, chars, b) {
        None => None,
        Some((version, c)) => {
            let end = skip_run(chars, c, CharClass::Space);
            Some(((op, version), end))
        },
    }
}

/// Reads a text that holds constraints and nothing else, and hands them out in
/// the order in which they stand.
pub fn parse_range(text: &str) -> (result: Result<Vec<(Op, Version)>, ParseError>)
    ensures
        match result {
            Ok(constraints) => constraints_of_text(text@) == Some(constraints.deep_view())
                && all_well_formed(constraints.deep_view()),
            Err(e) => e == ParseError::Range && constraints_of_text(text@) is None,
        },
{
    let chars = to_chars(text);
    let start = skip_run(&chars, 0, CharClass::Space);
    let (first, after_first) = match read_constraint_at(text, &chars, start) {
        Some(found) => found,
        None => { return Err(ParseError::Range); },
    };
    let ghost all = seq![(first.0, first.1@)] + more_constraints_at(chars@, after_first as int).0;
    let ghost last = more_constraints_at(chars@, after_first as int).1;
    let mut constraints: Vec<(Op, Version)> = Vec::new();
    constraints.push(first);
    let mut end: usize = after_first;
    assert(constraints.deep_view() =~= seq![(first.0, first.1@)]);
    loop
        invariant
            chars@ == text@,
            end <= chars.len(),
            all == constraints.deep_view() + more_constraints_at(chars@, end as int).0,
            last == more_constraints_at(chars@, end as int).1,
        ensures
            end <= chars.len(),
            all == constraints.deep_view(),
            last == end,
        decreases chars.len() - end,
    {
        let from = skip_run(&chars, end, CharClass::Separator);
        match read_constraint_at(text, &chars, from) {
            None => {
                assert(more_constraints_at(chars@, end as int).0 =~= Seq::empty());
                assert(all =~= constraints.deep_view());
                break ;
            },
            Some((constraint, next)) => {
                let ghost before = constraints.deep_view();
                let ghost view = (constraint.0, constraint.1@);
                constraints.push(constraint);
                assert(constraints.deep_view() =~= before.push(view));
                assert(before + (seq![view] + more_constraints_at(chars@, next as int).0)
                    =~= before.push(view) + more_constraints_at(chars@, next as int).0);
                end = next;
            },
        }
    }
    if skip_run(&chars, end, CharClass::Space) == chars.len() {
        proof {
            lemma_constraints_well_formed(text@);
            assert(constraints_of_text(text@) == Some(constraints.deep_view()));
        }
        Ok(constraints)
    } else {
        Err(ParseError::Range)
    }
}

} // verus!
