//! The version syntax said outright: every way in which a version can be
//! written, and the proof that these, and no others, are the texts that are
//! read as versions.

use vstd::prelude::*;
use crate::decimal::decimal_value;
use crate::grammar::{
    after_prefix, dotted_number_at, lemma_token_at_is_token, marked_token_at, number_at, or_zero,
    suffix_at, token_at, version_at, version_of_text,
};
use crate::text::{
    all_in_class, char_at, class_at, in_class, is_digit, is_token, lemma_run_end,
    lemma_run_end_is, run_end, CharClass,
};
use crate::version::{tagged, VersionView};

verus! {

/// One way of writing a version.
pub struct Spelling {
    /// How many blanks stand before the version.
    pub lead: nat,
    /// The `v` before the numbers, in the case in which it is written.
    pub v: Option<char>,
    /// Whether a blank stands behind the `v`.
    pub gap: bool,
    /// The digits of the major number.
    pub major: Seq<char>,
    /// The digits of the minor number, if it is written.
    pub minor: Option<Seq<char>>,
    /// The digits of the patch number, if it is written.
    pub patch: Option<Seq<char>>,
    /// The fourth component.
    pub extra: Option<Seq<char>>,
    /// The pre-release component.
    pub pre: Option<Seq<char>>,
    /// The build component.
    pub build: Option<Seq<char>>,
    /// Whether the build is written before the pre-release.
    pub build_first: bool,
    /// How many blanks stand behind the version.
    pub trail: nat,
}

/// Whether `d` is a numeral of a number of 32 bits: digits, at least one.
/// Leading zeros are allowed.
pub open spec fn is_numeral(d: Seq<char>) -> bool {
    &&& d.len() >= 1
    &&& all_in_class(d, CharClass::Digit)
    &&& decimal_value(d) <= u32::MAX
}

/// A run of `n` blanks.
pub open spec fn blanks(n: nat) -> Seq<char> {
    Seq::new(n, |i: int| ' ')
}

/// The number that a numeral denotes, if it is written.
pub open spec fn value_of(d: Option<Seq<char>>) -> Option<nat> {
    match d {
        Some(digits) => Some(decimal_value(digits)),
        None => None,
    }
}

/// Pre-release and build as they are written, in the one order or the other.
pub open spec fn suffix_text(
    pre: Option<Seq<char>>,
    build: Option<Seq<char>>,
    build_first: bool,
) -> Seq<char> {
    if build_first {
        tagged('+', build) + tagged('-', pre)
    } else {
        tagged('-', pre) + tagged('+', build)
    }
}

impl Spelling {
    /// What a spelling has to keep to. The patch number is written only
    /// behind the minor number, and a fourth component that begins with a
    /// digit only behind all three numbers, where it cannot be taken for one
    /// of them.
    pub open spec fn well_formed(self) -> bool {
        &&& (self.v matches Some(c) ==> c == 'v' || c == 'V')
        &&& (self.gap ==> self.v is Some)
        &&& is_numeral(self.major)
        &&& (self.minor matches Some(d) ==> is_numeral(d))
        &&& (self.patch matches Some(d) ==> is_numeral(d))
        &&& (self.patch is Some ==> self.minor is Some)
        &&& (self.extra matches Some(t) ==> is_token(t))
        &&& (self.extra matches Some(t) ==> (is_digit(t[0]) ==> self.patch is Some))
        &&& (self.pre matches Some(t) ==> is_token(t))
        &&& (self.build matches Some(t) ==> is_token(t))
    }

    /// What stands before the numbers.
    pub open spec fn prefix(self) -> Seq<char> {
        match self.v {
            Some(c) => if self.gap {
                seq![c, ' ']
            } else {
                seq![c]
            },
            None => Seq::empty(),
        }
    }

    /// Pre-release and build in the order in which they are written.
    pub open spec fn suffix(self) -> Seq<char> {
        suffix_text(self.pre, self.build, self.build_first)
    }

    /// The spelling from its numbers on: the major number, the minor and the
    /// patch number and the fourth component, each behind a dot, pre-release
    /// and build, and blanks.
    pub open spec fn from_numbers(self) -> Seq<char> {
        self.major + (tagged('.', self.minor) + (tagged('.', self.patch) + (tagged(
            '.',
            self.extra,
        ) + (self.suffix() + blanks(self.trail)))))
    }

    /// The text of the spelling: blanks, what stands before the numbers, and
    /// the rest from the numbers on.
    pub open spec fn text(self) -> Seq<char> {
        blanks(self.lead) + (self.prefix() + self.from_numbers())
    }

    /// The version that the spelling is one of.
    pub open spec fn version(self) -> VersionView {
        VersionView {
            major: decimal_value(self.major),
            minor: or_zero(value_of(self.minor)),
            patch: or_zero(value_of(self.patch)),
            extra: self.extra,
            pre: self.pre,
            build: self.build,
        }
    }
}

/// Whether a text is empty or begins with something that ends a number: no
/// digit.
pub open spec fn ends_number(rest: Seq<char>) -> bool {
    rest.len() > 0 ==> !is_digit(rest[0])
}

/// Whether a text is empty or begins with something that ends a token: no
/// token character.
pub open spec fn ends_token(rest: Seq<char>) -> bool {
    rest.len() > 0 ==> !in_class(CharClass::Token, rest[0])
}

/// Whether a text is empty or begins with something that ends a version:
/// neither a token character nor the mark of a pre-release or of a build.
pub open spec fn ends_version(rest: Seq<char>) -> bool {
    rest.len() > 0 ==> !in_class(CharClass::Token, rest[0]) && rest[0] != '-' && rest[0] != '+'
}

/// What is left of a text from `i` on.
pub open spec fn from(s: Seq<char>, i: int) -> Seq<char> {
    s.subrange(i, s.len() as int)
}

/// Where a piece and a rest stand at `i`, the piece stands at `i`, the rest
/// stands behind it, and each begins where it is said to stand.
pub proof fn lemma_piece_and_rest(s: Seq<char>, i: int, piece: Seq<char>, rest: Seq<char>)
    requires
        0 <= i <= s.len(),
        from(s, i) == piece + rest,
    ensures
        i + piece.len() + rest.len() == s.len(),
        s.subrange(i, i + piece.len()) == piece,
        from(s, i + piece.len()) == rest,
        forall|k: int| 0 <= k < piece.len() ==> s[i + k] == #[trigger] piece[k],
        forall|k: int| 0 <= k < rest.len() ==> s[i + piece.len() + k] == #[trigger] rest[k],
{
    let whole = piece + rest;
    assert(whole.len() == s.len() - i);
    assert forall|k: int| 0 <= k < piece.len() implies s[i + k] == #[trigger] piece[k] by {
        assert(whole[k] == piece[k]);
        assert(from(s, i)[k] == s[i + k]);
    }
    assert forall|k: int| 0 <= k < rest.len() implies s[i + piece.len() + k]
        == #[trigger] rest[k] by {
        assert(whole[piece.len() + k] == rest[k]);
        assert(from(s, i)[piece.len() + k] == s[i + piece.len() + k]);
    }
    assert(s.subrange(i, i + piece.len()) =~= piece);
    assert(from(s, i + piece.len()) =~= rest);
}

/// Blanks before something that is no blank are stepped over, and no more.
proof fn lemma_blanks_read(s: Seq<char>, i: int, n: nat, rest: Seq<char>)
    requires
        0 <= i <= s.len(),
        from(s, i) == blanks(n) + rest,
        rest.len() > 0 ==> rest[0] != ' ',
    ensures
        run_end(s, i, CharClass::Space) == i + n,
        from(s, i + n) == rest,
        i + n + rest.len() == s.len(),
{
    lemma_piece_and_rest(s, i, blanks(n), rest);
    assert forall|m: int| i <= m < i + n implies in_class(CharClass::Space, #[trigger] s[m]) by {
        assert(s[i + (m - i)] == blanks(n)[m - i]);
    }
    if rest.len() > 0 {
        assert(s[i + n + 0] == rest[0]);
    }
    lemma_run_end_is(s, i, i + n, CharClass::Space);
}

/// A numeral before something that is no digit is read as its number.
proof fn lemma_numeral_read(s: Seq<char>, i: int, d: Seq<char>, rest: Seq<char>)
    requires
        0 <= i <= s.len(),
        from(s, i) == d + rest,
        is_numeral(d),
        ends_number(rest),
    ensures
        number_at(s, i) == Some((decimal_value(d), i + d.len())),
        from(s, i + d.len()) == rest,
        i + d.len() + rest.len() == s.len(),
        class_at(s, i, CharClass::Digit),
{
    lemma_piece_and_rest(s, i, d, rest);
    assert forall|m: int| i <= m < i + d.len() implies in_class(
        CharClass::Digit,
        #[trigger] s[m],
    ) by {
        assert(s[i + (m - i)] == d[m - i]);
    }
    if rest.len() > 0 {
        assert(s[i + d.len() + 0] == rest[0]);
    }
    assert(s[i + 0] == d[0]);
    lemma_run_end_is(s, i, i + d.len(), CharClass::Digit);
}

/// A number behind a dot is read as that number; where none is written and
/// what follows is no dot before a digit, none is read.
proof fn lemma_dotted_numeral_read(s: Seq<char>, i: int, d: Option<Seq<char>>, rest: Seq<char>)
    requires
        0 <= i <= s.len(),
        from(s, i) == tagged('.', d) + rest,
        d matches Some(digits) ==> is_numeral(digits),
        d is Some ==> ends_number(rest),
        d is None ==> !(rest.len() > 1 && rest[0] == '.' && is_digit(rest[1])),
        d is None ==> !(rest.len() == 1 && rest[0] == '.'),
    ensures
        dotted_number_at(s, i) == Some((value_of(d), i + tagged('.', d).len())),
        from(s, i + tagged('.', d).len()) == rest,
        i + tagged('.', d).len() + rest.len() == s.len(),
{
    lemma_piece_and_rest(s, i, tagged('.', d), rest);
    match d {
        Some(digits) => {
            assert(from(s, i) =~= seq!['.'] + (digits + rest));
            lemma_piece_and_rest(s, i, seq!['.'], digits + rest);
            assert(s[i + 0] == seq!['.'][0]);
            lemma_numeral_read(s, i + 1, digits, rest);
        },
        None => {
            if rest.len() > 0 {
                assert(s[i + 0 + 0] == rest[0]);
            }
            if rest.len() > 1 {
                assert(s[i + 0 + 1] == rest[1]);
            }
        },
    }
}

/// A token before something that goes on no token is read as it stands.
proof fn lemma_token_read(s: Seq<char>, i: int, t: Seq<char>, rest: Seq<char>)
    requires
        0 <= i <= s.len(),
        from(s, i) == t + rest,
        is_token(t),
        ends_token(rest),
    ensures
        token_at(s, i) == Some((t, i + t.len())),
        from(s, i + t.len()) == rest,
        i + t.len() + rest.len() == s.len(),
{
    lemma_piece_and_rest(s, i, t, rest);
    assert forall|m: int| i <= m < i + t.len() implies in_class(
        CharClass::Token,
        #[trigger] s[m],
    ) by {
        assert(s[i + (m - i)] == t[m - i]);
    }
    if rest.len() > 0 {
        assert(s[i + t.len() + 0] == rest[0]);
    }
    assert(s[i + 0] == t[0]);
    lemma_run_end_is(s, i, i + t.len(), CharClass::Token);
}

/// A component behind its mark is read as it stands; where none is written
/// and what follows does not begin with the mark, none is read.
proof fn lemma_marked_token_read(
    s: Seq<char>,
    i: int,
    mark: char,
    t: Option<Seq<char>>,
    rest: Seq<char>,
)
    requires
        0 <= i <= s.len(),
        from(s, i) == tagged(mark, t) + rest,
        t matches Some(token) ==> is_token(token),
        t is Some ==> ends_token(rest),
        t is None ==> (rest.len() > 0 ==> rest[0] != mark),
    ensures
        marked_token_at(s, i, mark) == Some((t, i + tagged(mark, t).len())),
        from(s, i + tagged(mark, t).len()) == rest,
        i + tagged(mark, t).len() + rest.len() == s.len(),
        char_at(s, i, mark) == (t is Some),
{
    lemma_piece_and_rest(s, i, tagged(mark, t), rest);
    match t {
        Some(token) => {
            assert(from(s, i) =~= seq![mark] + (token + rest));
            lemma_piece_and_rest(s, i, seq![mark], token + rest);
            assert(s[i + 0] == seq![mark][0]);
            lemma_token_read(s, i + 1, token, rest);
        },
        None => {
            if rest.len() > 0 {
                assert(s[i + 0 + 0] == rest[0]);
            }
        },
    }
}

/// Pre-release and build before a blank or the end are read as they stand,
/// in whichever order they are written.
proof fn lemma_suffix_read(
    s: Seq<char>,
    i: int,
    pre: Option<Seq<char>>,
    build: Option<Seq<char>>,
    build_first: bool,
    rest: Seq<char>,
)
    requires
        0 <= i <= s.len(),
        from(s, i) == suffix_text(pre, build, build_first) + rest,
        pre matches Some(t) ==> is_token(t),
        build matches Some(t) ==> is_token(t),
        ends_version(rest),
    ensures
        suffix_at(s, i) == Some(
            ((pre, build), i + suffix_text(pre, build, build_first).len()),
        ),
        from(s, i + suffix_text(pre, build, build_first).len()) == rest,
        i + suffix_text(pre, build, build_first).len() + rest.len() == s.len(),
{
    let dash = tagged('-', pre);
    let plus = tagged('+', build);
    let none = None::<Seq<char>>;
    if build is Some && (build_first || pre is None) {
        // the build stands first
        let t = build->0;
        assert(from(s, i) =~= seq!['+'] + (t + (dash + rest)));
        lemma_piece_and_rest(s, i, seq!['+'], t + (dash + rest));
        assert(s[i + 0] == seq!['+'][0]);
        lemma_token_read(s, i + 1, t, dash + rest);
        lemma_marked_token_read(s, i + 1 + t.len(), '-', pre, rest);
    } else {
        // the pre-release stands first, or nothing stands here
        assert(from(s, i) =~= dash + (plus + rest));
        lemma_marked_token_read(s, i, '-', pre, plus + rest);
        lemma_marked_token_read(s, i + dash.len(), '+', build, rest);
        if pre is None {
            assert(build is None);
            if rest.len() > 0 {
                lemma_piece_and_rest(s, i, Seq::empty(), rest);
                assert(s[i + 0 + 0] == rest[0]);
            }
        } else {
            lemma_piece_and_rest(s, i, dash, plus + rest);
            assert(s[i + 0] == dash[0]);
        }
        assert(!char_at(s, i, '+'));
    }
}

/// What stands before the numbers is stepped over.
proof fn lemma_prefix_read(s: Seq<char>, i: int, sp: Spelling, rest: Seq<char>)
    requires
        0 <= i <= s.len(),
        sp.well_formed(),
        from(s, i) == sp.prefix() + rest,
        rest.len() > 0,
        is_digit(rest[0]),
    ensures
        after_prefix(s, i) == i + sp.prefix().len(),
        from(s, i + sp.prefix().len()) == rest,
        i + sp.prefix().len() + rest.len() == s.len(),
        !char_at(s, i, ' '),
{
    let prefix = sp.prefix();
    lemma_piece_and_rest(s, i, prefix, rest);
    assert(s[i + prefix.len() + 0] == rest[0]);
    if prefix.len() > 0 {
        assert(s[i + 0] == prefix[0]);
    }
    if prefix.len() > 1 {
        assert(s[i + 1] == prefix[1]);
    }
}

/// The numbers of a spelling are read as they are written.
proof fn lemma_numbers_read(s: Seq<char>, i: int, sp: Spelling, rest: Seq<char>)
    requires
        0 <= i <= s.len(),
        sp.well_formed(),
        from(s, i) == sp.major + (tagged('.', sp.minor) + (tagged('.', sp.patch) + (tagged(
            '.',
            sp.extra,
        ) + rest))),
        ends_token(rest),
    ensures
        ({
            let a = i + sp.major.len();
            let b = a + tagged('.', sp.minor).len();
            let c = b + tagged('.', sp.patch).len();
            let d = c + tagged('.', sp.extra).len();
            &&& number_at(s, i) == Some((decimal_value(sp.major), a))
            &&& dotted_number_at(s, a) == Some((value_of(sp.minor), b))
            &&& dotted_number_at(s, b) == Some((value_of(sp.patch), c))
            &&& marked_token_at(s, c, '.') == Some((sp.extra, d))
            &&& from(s, d) == rest
            &&& d + rest.len() == s.len()
        }),
{
    let r3 = tagged('.', sp.extra) + rest;
    let r2 = tagged('.', sp.patch) + r3;
    let r1 = tagged('.', sp.minor) + r2;
    let a = i + sp.major.len();
    let b = a + tagged('.', sp.minor).len();
    let c = b + tagged('.', sp.patch).len();
    // what each rest begins with
    assert(ends_number(r3) && (sp.extra is None ==> r3 =~= rest));
    assert(sp.extra matches Some(t) ==> r3[0] == '.' && r3[1] == t[0]);
    assert(ends_number(r2) && (sp.patch is None ==> r2 =~= r3));
    assert(ends_number(r1) && (sp.minor is None ==> r1 =~= r2));
    lemma_numeral_read(s, i, sp.major, r1);
    lemma_dotted_numeral_read(s, a, sp.minor, r2);
    lemma_dotted_numeral_read(s, b, sp.patch, r3);
    lemma_marked_token_read(s, c, '.', sp.extra, rest);
}

/// A spelling without the blanks around it, before something that ends a
/// version, is read as its version wherever it stands.
pub proof fn lemma_version_read_at(s: Seq<char>, i: int, sp: Spelling, rest: Seq<char>)
    requires
        0 <= i <= s.len(),
        sp.well_formed(),
        from(s, i) == sp.prefix() + (sp.major + (tagged('.', sp.minor) + (tagged('.', sp.patch)
            + (tagged('.', sp.extra) + (sp.suffix() + rest))))),
        ends_version(rest),
    ensures
        version_at(s, i) == Some((sp.version(), s.len() - rest.len())),
        from(s, s.len() - rest.len()) == rest,
        i < s.len() - rest.len(),
        !char_at(s, i, ' '),
{
    let r3 = sp.suffix() + rest;
    let r2 = sp.major + (tagged('.', sp.minor) + (tagged('.', sp.patch) + (tagged('.', sp.extra)
        + r3)));
    let numbers = i + sp.prefix().len();
    let e3 = numbers + sp.major.len() + tagged('.', sp.minor).len() + tagged('.', sp.patch).len()
        + tagged('.', sp.extra).len();
    assert(r2[0] == sp.major[0]);
    assert(ends_token(r3)) by {
        if tagged('+', sp.build).len() > 0 {
            assert(tagged('+', sp.build)[0] == '+');
        }
        if tagged('-', sp.pre).len() > 0 {
            assert(tagged('-', sp.pre)[0] == '-');
        }
    }
    lemma_prefix_read(s, i, sp, r2);
    lemma_numbers_read(s, numbers, sp, r3);
    lemma_suffix_read(s, e3, sp.pre, sp.build, sp.build_first, rest);
}

/// A spelling is read as its version from its first blank on.
proof fn lemma_spelling_read_at(s: Seq<char>, sp: Spelling)
    requires
        sp.well_formed(),
        from(s, 0) == sp.text(),
    ensures
        run_end(s, 0, CharClass::Space) == sp.lead,
        version_at(s, sp.lead as int) == Some((sp.version(), s.len() - sp.trail)),
        from(s, s.len() - sp.trail) == blanks(sp.trail),
        sp.trail <= s.len(),
{
    let r2 = sp.from_numbers();
    let r1 = sp.prefix() + r2;
    assert(r2[0] == sp.major[0]);
    assert(r1.len() > 0 && r1[0] != ' ') by {
        if sp.prefix().len() > 0 {
            assert(r1[0] == sp.prefix()[0]);
        } else {
            assert(r1[0] == r2[0]);
        }
    }
    lemma_blanks_read(s, 0, sp.lead, r1);
    lemma_version_read_at(s, sp.lead as int, sp, blanks(sp.trail));
}

/// Every way of writing a version is read as that version.
pub proof fn lemma_spelling_is_read(sp: Spelling)
    requires
        sp.well_formed(),
    ensures
        version_of_text(sp.text()) == Some(sp.version()),
{
    let s = sp.text();
    assert(from(s, 0) =~= s);
    lemma_spelling_read_at(s, sp);
    let end = s.len() - sp.trail;
    assert(blanks(sp.trail) =~= blanks(sp.trail) + Seq::<char>::empty());
    lemma_blanks_read(s, end, sp.trail, Seq::empty());
}

/// The way in which a text writes a version, if it is read as one: its pieces
/// as the readers find them.
pub open spec fn spelling_of(s: Seq<char>) -> Spelling {
    let start = run_end(s, 0, CharClass::Space);
    let numbers = after_prefix(s, start);
    let e0 = run_end(s, numbers, CharClass::Digit);
    let e1 = match dotted_number_at(s, e0) {
        Some((_, end)) => end,
        None => e0,
    };
    let e2 = match dotted_number_at(s, e1) {
        Some((_, end)) => end,
        None => e1,
    };
    let (extra, e3) = match marked_token_at(s, e2, '.') {
        Some(found) => found,
        None => (None, e2),
    };
    let ((pre, build), e5) = match suffix_at(s, e3) {
        Some(found) => found,
        None => ((None, None), e3),
    };
    Spelling {
        lead: start as nat,
        v: if numbers > start {
            Some(s[start])
        } else {
            None
        },
        gap: numbers > start + 1,
        major: s.subrange(numbers, e0),
        minor: if e1 > e0 {
            Some(s.subrange(e0 + 1, e1))
        } else {
            None
        },
        patch: if e2 > e1 {
            Some(s.subrange(e1 + 1, e2))
        } else {
            None
        },
        extra,
        pre,
        build,
        build_first: char_at(s, e3, '+'),
        trail: (s.len() - e5) as nat,
    }
}

/// A stretch and what follows it are what stands from the start of the
/// stretch on.
proof fn lemma_joined_at(s: Seq<char>, i: int, j: int)
    requires
        0 <= i <= j <= s.len(),
    ensures
        from(s, i) == s.subrange(i, j) + from(s, j),
{
    assert(from(s, i) =~= s.subrange(i, j) + from(s, j));
}

/// A run of blanks is blanks.
proof fn lemma_blanks_are(s: Seq<char>, i: int)
    requires
        0 <= i <= s.len(),
    ensures
        i <= run_end(s, i, CharClass::Space) <= s.len(),
        s.subrange(i, run_end(s, i, CharClass::Space)) == blanks(
            (run_end(s, i, CharClass::Space) - i) as nat,
        ),
{
    lemma_run_end(s, i, CharClass::Space);
    let j = run_end(s, i, CharClass::Space);
    assert(s.subrange(i, j) =~= blanks((j - i) as nat));
}

/// A number that is read is written as a numeral.
proof fn lemma_number_is(s: Seq<char>, i: int)
    requires
        0 <= i <= s.len(),
        number_at(s, i) is Some,
    ensures
        i < (number_at(s, i)->0).1 <= s.len(),
        (number_at(s, i)->0).1 == run_end(s, i, CharClass::Digit),
        is_numeral(s.subrange(i, (number_at(s, i)->0).1)),
        decimal_value(s.subrange(i, (number_at(s, i)->0).1)) == (number_at(s, i)->0).0,
{
    lemma_run_end(s, i, CharClass::Digit);
}

/// A number behind a dot that is read is written as a dot and a numeral, and
/// where none is read, no dot before a digit stands there.
proof fn lemma_dotted_is(s: Seq<char>, i: int)
    requires
        0 <= i <= s.len(),
        dotted_number_at(s, i) is Some,
    ensures
        ({
            let (n, e) = dotted_number_at(s, i)->0;
            let digits = s.subrange(i + 1, e);
            &&& i <= e <= s.len()
            &&& n is None ==> e == i && !(char_at(s, i, '.') && class_at(
                s,
                i + 1,
                CharClass::Digit,
            ))
            &&& n is Some ==> e > i + 1 && is_numeral(digits) && n == Some(decimal_value(digits))
                && s.subrange(i, e) == tagged('.', Some(digits))
        }),
{
    if char_at(s, i, '.') && class_at(s, i + 1, CharClass::Digit) {
        lemma_number_is(s, i + 1);
        let e = (dotted_number_at(s, i)->0).1;
        assert(s.subrange(i, e) =~= tagged('.', Some(s.subrange(i + 1, e))));
    }
}

/// A component that is read is written behind its mark, and where none is
/// read, the mark does not stand there.
proof fn lemma_marked_is(s: Seq<char>, i: int, mark: char)
    requires
        0 <= i <= s.len(),
        marked_token_at(s, i, mark) is Some,
    ensures
        ({
            let (t, e) = marked_token_at(s, i, mark)->0;
            &&& i <= e <= s.len()
            &&& (t matches Some(token) ==> is_token(token))
            &&& (t is Some) == char_at(s, i, mark)
            &&& s.subrange(i, e) == tagged(mark, t)
        }),
{
    let (t, e) = marked_token_at(s, i, mark)->0;
    if char_at(s, i, mark) {
        lemma_token_at_is_token(s, i + 1);
        assert(s.subrange(i, e) =~= tagged(mark, t));
    } else {
        assert(s.subrange(i, e) =~= tagged(mark, t));
    }
}

/// Pre-release and build that are read are written in the one order or the
/// other; the build stands first where a plus sign stands first.
proof fn lemma_suffix_is(s: Seq<char>, i: int)
    requires
        0 <= i <= s.len(),
        suffix_at(s, i) is Some,
    ensures
        ({
            let ((pre, build), e) = suffix_at(s, i)->0;
            &&& i <= e <= s.len()
            &&& (pre matches Some(t) ==> is_token(t))
            &&& (build matches Some(t) ==> is_token(t))
            &&& s.subrange(i, e) == suffix_text(pre, build, char_at(s, i, '+'))
        }),
{
    let ((pre, build), e) = suffix_at(s, i)->0;
    if char_at(s, i, '+') {
        lemma_token_at_is_token(s, i + 1);
        let a = (token_at(s, i + 1)->0).1;
        lemma_marked_is(s, a, '-');
        lemma_joined_at(s, i, a);
        lemma_joined_at(s, a, e);
        assert(s.subrange(i, a) =~= tagged('+', build));
        assert(s.subrange(i, e) =~= s.subrange(i, a) + s.subrange(a, e));
    } else {
        lemma_marked_is(s, i, '-');
        let a = (marked_token_at(s, i, '-')->0).1;
        lemma_marked_is(s, a, '+');
        assert(s.subrange(i, e) =~= s.subrange(i, a) + s.subrange(a, e));
    }
}

/// Whatever is read as a version is one way of writing that version.
pub proof fn lemma_read_is_spelling(s: Seq<char>)
    requires
        version_of_text(s) is Some,
    ensures
        spelling_of(s).well_formed(),
        spelling_of(s).text() == s,
        spelling_of(s).version() == version_of_text(s)->0,
{
    let sp = spelling_of(s);
    let start = run_end(s, 0, CharClass::Space);
    let numbers = after_prefix(s, start);
    lemma_blanks_are(s, 0);
    lemma_run_end(s, 0, CharClass::Space);
    lemma_number_is(s, numbers);
    let e0 = (number_at(s, numbers)->0).1;
    lemma_dotted_is(s, e0);
    let e1 = (dotted_number_at(s, e0)->0).1;
    lemma_dotted_is(s, e1);
    let e2 = (dotted_number_at(s, e1)->0).1;
    lemma_marked_is(s, e2, '.');
    let e3 = (marked_token_at(s, e2, '.')->0).1;
    lemma_suffix_is(s, e3);
    let e5 = (suffix_at(s, e3)->0).1;
    lemma_blanks_are(s, e5);
    assert(sp.well_formed()) by {
        if sp.extra is Some && sp.patch is None {
            assert(sp.extra->0[0] == s[e2 + 1]) by {
                lemma_token_at_is_token(s, e2 + 1);
                assert(s.subrange(e2 + 1, e3)[0] == s[e2 + 1]);
            }
        }
    }
    assert(s.subrange(start, numbers) =~= sp.prefix());
    assert(s.subrange(e0, e1) == tagged('.', sp.minor)) by {
        if sp.minor is None {
            assert(s.subrange(e0, e1) =~= tagged('.', sp.minor));
        }
    }
    assert(s.subrange(e1, e2) == tagged('.', sp.patch)) by {
        if sp.patch is None {
            assert(s.subrange(e1, e2) =~= tagged('.', sp.patch));
        }
    }
    assert(from(s, e5) == blanks(sp.trail));
    lemma_joined_at(s, e3, e5);
    lemma_joined_at(s, e2, e3);
    lemma_joined_at(s, e1, e2);
    lemma_joined_at(s, e0, e1);
    lemma_joined_at(s, numbers, e0);
    lemma_joined_at(s, start, numbers);
    lemma_joined_at(s, 0, start);
    assert(from(s, 0) =~= s);
}

/// The version syntax: a text is read as a version exactly if it is one way
/// of writing that version.
pub proof fn lemma_version_syntax(s: Seq<char>, v: VersionView)
    ensures
        version_of_text(s) == Some(v) <==> exists|sp: Spelling|
            sp.well_formed() && #[trigger] sp.text() == s && sp.version() == v,
{
    if version_of_text(s) == Some(v) {
        lemma_read_is_spelling(s);
        assert(spelling_of(s).text() == s);
    }
    if exists|sp: Spelling| sp.well_formed() && #[trigger] sp.text() == s && sp.version() == v {
        let sp = choose|sp: Spelling|
            sp.well_formed() && #[trigger] sp.text() == s && sp.version() == v;
        lemma_spelling_is_read(sp);
    }
}

} // verus!
