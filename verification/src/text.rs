//! Characters of the two syntaxes, maximal runs of them, and the order in
//! which two texts stand.

use vstd::prelude::*;
use vstd::std_specs::iter::IteratorSpec;

verus! {

/// A set of characters that the syntaxes treat alike.
#[derive(Clone, Copy, Debug)]
pub enum CharClass {
    /// The blank, and nothing else: tabs and line ends are no padding.
    Space,
    /// `0` to `9`.
    Digit,
    /// Letters, digits and `_`: what a token may begin with.
    Word,
    /// A word character or `.`: what a token may go on with.
    Token,
    /// Blank, comma or semicolon: what may stand between two constraints.
    Separator,
}

/// `a` to `z` and `A` to `Z`.
pub open spec fn is_letter(c: char) -> bool {
    ('a' <= c <= 'z') || ('A' <= c <= 'Z')
}

/// `0` to `9`.
pub open spec fn is_digit(c: char) -> bool {
    '0' <= c <= '9'
}

/// A letter, a digit or `_`.
pub open spec fn is_word(c: char) -> bool {
    is_letter(c) || is_digit(c) || c == '_'
}

/// Whether `c` belongs to the class `k`.
pub open spec fn in_class(k: CharClass, c: char) -> bool {
    match k {
        CharClass::Space => c == ' ',
        CharClass::Digit => is_digit(c),
        CharClass::Word => is_word(c),
        CharClass::Token => is_word(c) || c == '.',
        CharClass::Separator => c == ' ' || c == ',' || c == ';',
    }
}

/// Whether every character of `s` belongs to the class `k`.
pub open spec fn all_in_class(s: Seq<char>, k: CharClass) -> bool {
    forall|i: int| 0 <= i < s.len() ==> in_class(k, #[trigger] s[i])
}

/// Whether position `i` of `s` exists and holds a character of class `k`.
pub open spec fn class_at(s: Seq<char>, i: int, k: CharClass) -> bool {
    0 <= i < s.len() && in_class(k, s[i])
}

/// Whether position `i` of `s` exists and holds the character `c`.
pub open spec fn char_at(s: Seq<char>, i: int, c: char) -> bool {
    0 <= i < s.len() && s[i] == c
}

/// Whether `s` is a token: a word character followed by any number of word
/// characters and dots.
pub open spec fn is_token(s: Seq<char>) -> bool {
    &&& s.len() >= 1
    &&& in_class(CharClass::Word, s[0])
    &&& all_in_class(s, CharClass::Token)
}

/// Where the longest run of class `k` that starts at `i` ends: the first
/// position from `i` on that holds no character of the class, or the end of `s`.
pub open spec fn run_end(s: Seq<char>, i: int, k: CharClass) -> int
    decreases s.len() - i,
{
    if class_at(s, i, k) {
        run_end(s, i + 1, k)
    } else {
        i
    }
}

/// A run ends at or after its start and inside the text, everything in it is of
/// the class, and what follows it is not.
pub proof fn lemma_run_end(s: Seq<char>, i: int, k: CharClass)
    requires
        0 <= i <= s.len(),
    ensures
        i <= run_end(s, i, k) <= s.len(),
        forall|j: int| i <= j < run_end(s, i, k) ==> in_class(k, #[trigger] s[j]),
        !class_at(s, run_end(s, i, k), k),
        all_in_class(s.subrange(i, run_end(s, i, k)), k),
    decreases s.len() - i,
{
    if class_at(s, i, k) {
        lemma_run_end(s, i + 1, k);
    }
}

/// A stretch of the class that is followed by something else, or by the end, is
/// the run that starts where it starts.
pub proof fn lemma_run_end_is(s: Seq<char>, i: int, j: int, k: CharClass)
    requires
        0 <= i <= j <= s.len(),
        forall|m: int| i <= m < j ==> in_class(k, #[trigger] s[m]),
        !class_at(s, j, k),
    ensures
        run_end(s, i, k) == j,
    decreases j - i,
{
    if i < j {
        lemma_run_end_is(s, i + 1, j, k);
    }
}

impl CharClass {
    /// Tests one character against the class.
    pub fn holds(self, c: char) -> (b: bool)
        ensures
            b == in_class(self, c),
    {
        let letter = (c >= 'a' && c <= 'z') || (c >= 'A' && c <= 'Z');
        let digit = c >= '0' && c <= '9';
        match self {
            CharClass::Space => c == ' ',
            CharClass::Digit => digit,
            CharClass::Word => letter || digit || c == '_',
            CharClass::Token => letter || digit || c == '_' || c == '.',
            CharClass::Separator => c == ' ' || c == ',' || c == ';',
        }
    }
}

/// Steps over the longest run of class `k` that starts at `start`.
pub fn skip_run(chars: &Vec<char>, start: usize, k: CharClass) -> (end: usize)
    requires
        start <= chars.len(),
    ensures
        end == run_end(chars@, start as int, k),
        start <= end <= chars.len(),
{
    let mut end: usize = start;
    while end < chars.len() && k.holds(chars[end])
        invariant
            start <= end <= chars.len(),
            run_end(chars@, start as int, k) == run_end(chars@, end as int, k),
        decreases chars.len() - end,
    {
        end += 1;
    }
    end
}

/// The characters of a text, one by one.
pub fn to_chars(text: &str) -> (chars: Vec<char>)
    ensures
        chars@ == text@,
{
    let mut chars: Vec<char> = Vec::new();
    for c in it: text.chars()
        invariant
            chars@ == it.seq().take(it.index() as int),
            it.seq() == text@,
    {
        chars.push(c);
    }
    chars
}

/// Whether `a` stands before `b` from position `i` on, both being alike before
/// it: at the first position where they differ `a` holds the smaller character,
/// or `a` ends there and `b` goes on.
pub open spec fn lex_lt_from(a: Seq<char>, b: Seq<char>, i: int) -> bool
    decreases a.len() - i,
{
    if i >= b.len() {
        false
    } else if i >= a.len() {
        true
    } else if a[i] != b[i] {
        a[i] < b[i]
    } else {
        lex_lt_from(a, b, i + 1)
    }
}

/// The order of texts: character by character, by code point, a proper prefix
/// before what it is a prefix of.
pub open spec fn lex_lt(a: Seq<char>, b: Seq<char>) -> bool {
    lex_lt_from(a, b, 0)
}

/// Of two texts that are alike up to `i`, exactly one of three holds: the
/// first stands before the second, they are the same, or the second stands
/// before the first.
pub proof fn lemma_lex_trichotomy_from(a: Seq<char>, b: Seq<char>, i: int)
    requires
        0 <= i <= a.len(),
        i <= b.len(),
        a.take(i) == b.take(i),
    ensures
        lex_lt_from(a, b, i) || a == b || lex_lt_from(b, a, i),
        !(lex_lt_from(a, b, i) && a == b),
        !(lex_lt_from(a, b, i) && lex_lt_from(b, a, i)),
        !(a == b && lex_lt_from(b, a, i)),
    decreases a.len() - i,
{
    if i >= b.len() || i >= a.len() {
        if i >= b.len() && i >= a.len() {
            assert(a =~= a.take(i));
            assert(b =~= b.take(i));
        }
    } else if a[i] != b[i] {
    } else {
        assert(a.take(i + 1) =~= a.take(i).push(a[i]));
        assert(b.take(i + 1) =~= b.take(i).push(b[i]));
        lemma_lex_trichotomy_from(a, b, i + 1);
    }
}

/// The order of texts is total and strict.
pub proof fn lemma_lex_trichotomy(a: Seq<char>, b: Seq<char>)
    ensures
        lex_lt(a, b) || a == b || lex_lt(b, a),
        !(lex_lt(a, b) && a == b),
        !(lex_lt(a, b) && lex_lt(b, a)),
        !(a == b && lex_lt(b, a)),
{
    assert(a.take(0) =~= b.take(0));
    lemma_lex_trichotomy_from(a, b, 0);
}

proof fn lemma_lex_transitive_from(a: Seq<char>, b: Seq<char>, c: Seq<char>, i: int)
    requires
        0 <= i,
        lex_lt_from(a, b, i),
        lex_lt_from(b, c, i),
    ensures
        lex_lt_from(a, c, i),
    decreases a.len() - i,
{
    if i < a.len() && i < b.len() && i < c.len() && a[i] == b[i] && b[i] == c[i] {
        lemma_lex_transitive_from(a, b, c, i + 1);
    }
}

/// The order of texts is transitive.
pub proof fn lemma_lex_transitive(a: Seq<char>, b: Seq<char>, c: Seq<char>)
    requires
        lex_lt(a, b),
        lex_lt(b, c),
    ensures
        lex_lt(a, c),
{
    lemma_lex_transitive_from(a, b, c, 0);
}

/// Whether `a` stands before `b` in the order of texts.
pub fn text_lt(a: &str, b: &str) -> (before: bool)
    ensures
        before == lex_lt(a@, b@),
{
    let mut rest_of_a = a.chars();
    let mut rest_of_b = b.chars();
    let ghost mut i: int = 0;
    assert(a@.skip(0) =~= a@);
    assert(b@.skip(0) =~= b@);
    loop
        invariant
            0 <= i <= a@.len(),
            i <= b@.len(),
            rest_of_a.remaining() == a@.skip(i),
            rest_of_b.remaining() == b@.skip(i),
            lex_lt(a@, b@) == lex_lt_from(a@, b@, i),
        decreases a@.len() - i,
    {
        let next_of_a = rest_of_a.next();
        let next_of_b = rest_of_b.next();
        match (next_of_a, next_of_b) {
            (_, None) => {
                return false;
            },
            (None, Some(_)) => {
                return true;
            },
            (Some(x), Some(y)) => {
                assert(x == a@[i] && y == b@[i]);
                if x != y {
                    return x < y;
                }
            },
        }
        proof {
            assert(a@.skip(i).drop_first() =~= a@.skip(i + 1));
            assert(b@.skip(i).drop_first() =~= b@.skip(i + 1));
            i = i + 1;
        }
    }
}

} // verus!
