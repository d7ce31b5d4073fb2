//! One version: its components, its model, its written form, and the three
//! relations in which two versions can stand.

use core::cmp::Ordering;
use vstd::prelude::*;
use vstd::string::*;
use crate::decimal::{decimal_text, push_number};
use crate::error::ParseError;
use crate::grammar::{parse_version, version_of_text};
use crate::text::{
    is_token, lemma_lex_transitive, lemma_lex_trichotomy, lemma_run_end, lex_lt, skip_run, text_lt,
    to_chars, CharClass,
};

verus! {

/// A version as contracts speak of it: three numbers and three optional
/// tokens.
pub struct VersionView {
    pub major: nat,
    pub minor: nat,
    pub patch: nat,
    /// A fourth component behind the patch number; it takes part in the order.
    pub extra: Option<Seq<char>>,
    /// Marks a version that comes before the release of the same numbers.
    pub pre: Option<Seq<char>>,
    /// Says how the artifact was built; no relation but identity looks at it.
    pub build: Option<Seq<char>>,
}

/// The characters of a token that may be absent.
pub open spec fn text_of(token: Option<String>) -> Option<Seq<char>> {
    match token {
        Some(t) => Some(t@),
        None => None,
    }
}

/// The order of the fourth component: an absent one before every present one,
/// two present ones in the order of texts.
pub open spec fn extra_lt(a: Option<Seq<char>>, b: Option<Seq<char>>) -> bool {
    match (a, b) {
        (None, Some(_)) => true,
        (Some(x), Some(y)) => lex_lt(x, y),
        _ => false,
    }
}

/// The order of the pre-release component: every present one before an absent
/// one, since a pre-release precedes the release; two present ones in the order
/// of texts.
pub open spec fn pre_lt(a: Option<Seq<char>>, b: Option<Seq<char>>) -> bool {
    match (a, b) {
        (Some(_), None) => true,
        (Some(x), Some(y)) => lex_lt(x, y),
        _ => false,
    }
}

/// A component as it is written: the mark and the token, or nothing.
pub open spec fn tagged(mark: char, token: Option<Seq<char>>) -> Seq<char> {
    match token {
        Some(t) => seq![mark] + t,
        None => Seq::empty(),
    }
}

impl VersionView {
    /// A version of three numbers and nothing else.
    pub open spec fn plain(major: nat, minor: nat, patch: nat) -> VersionView {
        VersionView { major, minor, patch, extra: None, pre: None, build: None }
    }

    /// Whether each number fits in 32 bits and each token that is present is
    /// one that the version syntax can hold.
    pub open spec fn well_formed(self) -> bool {
        &&& self.major <= u32::MAX
        &&& self.minor <= u32::MAX
        &&& self.patch <= u32::MAX
        &&& (self.extra matches Some(t) ==> is_token(t))
        &&& (self.pre matches Some(t) ==> is_token(t))
        &&& (self.build matches Some(t) ==> is_token(t))
    }

    /// Equality in the range order: the numbers and the fourth component are
    /// the same. Pre-release and build are not looked at, so a pre-release
    /// equals its release here.
    pub open spec fn range_eq(self, other: VersionView) -> bool {
        &&& self.major == other.major
        &&& self.minor == other.minor
        &&& self.patch == other.patch
        &&& self.extra == other.extra
    }

    /// The range order: by major, then minor, then patch, then the fourth
    /// component. It is what bounds are compared and constraints are sorted by.
    pub open spec fn range_lt(self, other: VersionView) -> bool {
        if self.major != other.major {
            self.major < other.major
        } else if self.minor != other.minor {
            self.minor < other.minor
        } else if self.patch != other.patch {
            self.patch < other.patch
        } else {
            extra_lt(self.extra, other.extra)
        }
    }

    /// At most `other` in the range order.
    pub open spec fn range_le(self, other: VersionView) -> bool {
        self.range_lt(other) || self.range_eq(other)
    }

    /// The precedence order, by which one version is an upgrade of another:
    /// the range order first, and between two versions equal in it the
    /// pre-release component decides. The build is not looked at.
    pub open spec fn older_than(self, other: VersionView) -> bool {
        self.range_lt(other) || (self.range_eq(other) && pre_lt(self.pre, other.pre))
    }

    /// The written form: the three numbers with dots between them, then the
    /// fourth component behind a dot, the pre-release behind a hyphen and the
    /// build behind a plus sign, each only if present.
    pub open spec fn render(self) -> Seq<char> {
        decimal_text(self.major) + seq!['.'] + decimal_text(self.minor) + seq!['.']
            + decimal_text(self.patch) + tagged('.', self.extra) + tagged('-', self.pre)
            + tagged('+', self.build)
    }
}

/// How two versions stand in the range order, as one of three answers.
pub open spec fn range_ordering(a: VersionView, b: VersionView) -> Ordering {
    if a.range_lt(b) {
        Ordering::Less
    } else if b.range_lt(a) {
        Ordering::Greater
    } else {
        Ordering::Equal
    }
}

/// One concrete version. Its value never changes: every `with_` method hands
/// out a new version.
#[derive(Debug, PartialEq, Eq)]
pub struct Version {
    major: u32,
    minor: u32,
    patch: u32,
    extra_version: Option<String>,
    pre_release: Option<String>,
    build: Option<String>,
}

impl View for Version {
    type V = VersionView;

    closed spec fn view(&self) -> VersionView {
        VersionView {
            major: self.major as nat,
            minor: self.minor as nat,
            patch: self.patch as nat,
            extra: text_of(self.extra_version),
            pre: text_of(self.pre_release),
            build: text_of(self.build),
        }
    }
}

impl DeepView for Version {
    type V = VersionView;

    open spec fn deep_view(&self) -> VersionView {
        self@
    }
}

fn copy_token(token: &Option<String>) -> (copy: Option<String>)
    ensures
        copy == *token,
{
    match token {
        Some(t) => Some(t.clone()),
        None => None,
    }
}

fn same_token(a: &Option<String>, b: &Option<String>) -> (same: bool)
    ensures
        same == (text_of(*a) == text_of(*b)),
{
    match (a, b) {
        (Some(x), Some(y)) => *x == *y,
        (None, None) => true,
        _ => false,
    }
}

fn extra_before(a: &Option<String>, b: &Option<String>) -> (before: bool)
    ensures
        before == extra_lt(text_of(*a), text_of(*b)),
{
    match (a, b) {
        (None, Some(_)) => true,
        (Some(x), Some(y)) => text_lt(x.as_str(), y.as_str()),
        _ => false,
    }
}

fn pre_before(a: &Option<String>, b: &Option<String>) -> (before: bool)
    ensures
        before == pre_lt(text_of(*a), text_of(*b)),
{
    match (a, b) {
        (Some(_), None) => true,
        (Some(x), Some(y)) => text_lt(x.as_str(), y.as_str()),
        _ => false,
    }
}

fn token_fits(token: &Option<String>) -> (fits: bool)
    ensures
        fits == (text_of(*token) matches Some(t) ==> is_token(t)),
{
    match token {
        Some(t) => {
            let chars = to_chars(t.as_str());
            if chars.len() == 0 || !CharClass::Word.holds(chars[0]) {
                return false;
            }
            proof {
                lemma_run_end(chars@, 0, CharClass::Token);
            }
            skip_run(&chars, 0, CharClass::Token) == chars.len()
        },
        None => true,
    }
}

fn push_tagged(out: &mut String, mark: &str, token: &Option<String>)
    requires
        mark@.len() == 1,
    ensures
        final(out)@ == old(out)@ + tagged(mark@[0], text_of(*token)),
{
    match token {
        Some(t) => {
            out.append(mark);
            out.append(t.as_str());
            assert(mark@ =~= seq![mark@[0]]);
            assert(out@ =~= old(out)@ + (seq![mark@[0]] + t@));
        },
        None => {
            assert(out@ =~= old(out)@ + Seq::<char>::empty());
        },
    }
}

impl Version {
    /// A version of the given components. The tokens are taken as they are,
    /// whether or not the version syntax could hold them: `is_well_formed`
    /// tells.
    pub fn new(
        major: u32,
        minor: u32,
        patch: u32,
        extra_version: Option<String>,
        pre_release: Option<String>,
        build: Option<String>,
    ) -> (version: Self)
        ensures
            version@ == (VersionView {
                major: major as nat,
                minor: minor as nat,
                patch: patch as nat,
                extra: text_of(extra_version),
                pre: text_of(pre_release),
                build: text_of(build),
            }),
    {
        Self { major, minor, patch, extra_version, pre_release, build }
    }

    /// Reads a version from a text that holds it and nothing else but blanks
    /// around it.
    ///
    /// A version is written as `1.2.3`, with the minor and the patch number
    /// left out where they are zero. A `v` in either case may stand before it,
    /// and one blank behind the `v`. A fourth component may follow behind a
    /// dot, then a pre-release behind `-` and a build behind `+`, these two in
    /// either order. Each of the three is a token: letters, digits, `_` and
    /// `.`, not beginning with a dot.
    pub fn parse(version: &str) -> (result: Result<Self, ParseError>)
        ensures
            match result {
                Ok(v) => version_of_text(version@) == Some(v@) && v@.well_formed(),
                Err(e) => e == ParseError::Version && version_of_text(version@) is None,
            },
    {
        parse_version(version)
    }

    /// The major number.
    pub fn major(&self) -> (major: u32)
        ensures
            major == self@.major,
    {
        self.major
    }

    /// The minor number.
    pub fn minor(&self) -> (minor: u32)
        ensures
            minor == self@.minor,
    {
        self.minor
    }

    /// The patch number.
    pub fn patch(&self) -> (patch: u32)
        ensures
            patch == self@.patch,
    {
        self.patch
    }

    /// The fourth component, if there is one.
    pub fn extra_version(&self) -> (token: &Option<String>)
        ensures
            text_of(*token) == self@.extra,
    {
        &self.extra_version
    }

    /// The pre-release component, if there is one.
    pub fn pre_release(&self) -> (token: &Option<String>)
        ensures
            text_of(*token) == self@.pre,
    {
        &self.pre_release
    }

    /// The build component, if there is one.
    pub fn build(&self) -> (token: &Option<String>)
        ensures
            text_of(*token) == self@.build,
    {
        &self.build
    }

    /// This version with another major number.
    pub fn with_major(&self, major: u32) -> (version: Self)
        ensures
            version@ == (VersionView { major: major as nat, ..self@ }),
    {
        Self {
            major,
            minor: self.minor,
            patch: self.patch,
            extra_version: copy_token(&self.extra_version),
            pre_release: copy_token(&self.pre_release),
            build: copy_token(&self.build),
        }
    }

    /// This version with another minor number.
    pub fn with_minor(&self, minor: u32) -> (version: Self)
        ensures
            version@ == (VersionView { minor: minor as nat, ..self@ }),
    {
        Self {
            major: self.major,
            minor,
            patch: self.patch,
            extra_version: copy_token(&self.extra_version),
            pre_release: copy_token(&self.pre_release),
            build: copy_token(&self.build),
        }
    }

    /// This version with another patch number.
    pub fn with_patch(&self, patch: u32) -> (version: Self)
        ensures
            version@ == (VersionView { patch: patch as nat, ..self@ }),
    {
        Self {
            major: self.major,
            minor: self.minor,
            patch,
            extra_version: copy_token(&self.extra_version),
            pre_release: copy_token(&self.pre_release),
            build: copy_token(&self.build),
        }
    }

    /// This version with another fourth component, or without one.
    pub fn with_extra_version(&self, extra_version: Option<String>) -> (version: Self)
        ensures
            version@ == (VersionView { extra: text_of(extra_version), ..self@ }),
    {
        Self {
            major: self.major,
            minor: self.minor,
            patch: self.patch,
            extra_version,
            pre_release: copy_token(&self.pre_release),
            build: copy_token(&self.build),
        }
    }

    /// This version with another pre-release component, or without one.
    pub fn with_pre_release(&self, pre_release: Option<String>) -> (version: Self)
        ensures
            version@ == (VersionView { pre: text_of(pre_release), ..self@ }),
    {
        Self {
            major: self.major,
            minor: self.minor,
            patch: self.patch,
            extra_version: copy_token(&self.extra_version),
            pre_release,
            build: copy_token(&self.build),
        }
    }

    /// This version with another build component, or without one.
    pub fn with_build(&self, build: Option<String>) -> (version: Self)
        ensures
            version@ == (VersionView { build: text_of(build), ..self@ }),
    {
        Self {
            major: self.major,
            minor: self.minor,
            patch: self.patch,
            extra_version: copy_token(&self.extra_version),
            pre_release: copy_token(&self.pre_release),
            build,
        }
    }

    /// Whether each token that is present is one that the version syntax can
    /// hold. The written form of such a version reads back as the version.
    pub fn is_well_formed(&self) -> (well_formed: bool)
        ensures
            well_formed == self@.well_formed(),
    {
        token_fits(&self.extra_version) && token_fits(&self.pre_release) && token_fits(
            &self.build,
        )
    }

    /// Identity: every component is the same, the build too.
    pub fn is(&self, other: &Self) -> (same: bool)
        ensures
            same == (self@ == other@),
    {
        self.major == other.major && self.minor == other.minor && self.patch == other.patch
            && same_token(&self.extra_version, &other.extra_version) && same_token(
            &self.pre_release,
            &other.pre_release,
        ) && same_token(&self.build, &other.build)
    }

    /// How this version stands to `other` in the range order.
    pub fn cmp(&self, other: &Self) -> (o: Ordering)
        ensures
            o == range_ordering(self@, other@),
            (o == Ordering::Less) == self@.range_lt(other@),
            (o == Ordering::Equal) == self@.range_eq(other@),
            (o == Ordering::Greater) == other@.range_lt(self@),
    {
        proof {
            lemma_range_trichotomy(self@, other@);
        }
        if self.major < other.major {
            Ordering::Less
        } else if self.major > other.major {
            Ordering::Greater
        } else if self.minor < other.minor {
            Ordering::Less
        } else if self.minor > other.minor {
            Ordering::Greater
        } else if self.patch < other.patch {
            Ordering::Less
        } else if self.patch > other.patch {
            Ordering::Greater
        } else if extra_before(&self.extra_version, &other.extra_version) {
            Ordering::Less
        } else if extra_before(&other.extra_version, &self.extra_version) {
            Ordering::Greater
        } else {
            Ordering::Equal
        }
    }

    /// Whether this version is before `other` in the range order.
    pub fn range_lt(&self, other: &Self) -> (before: bool)
        ensures
            before == self@.range_lt(other@),
    {
        match self.cmp(other) {
            Ordering::Less => true,
            _ => false,
        }
    }

    /// Whether this version equals `other` in the range order.
    pub fn range_eq(&self, other: &Self) -> (equal: bool)
        ensures
            equal == self@.range_eq(other@),
    {
        match self.cmp(other) {
            Ordering::Equal => true,
            _ => false,
        }
    }

    /// Whether this version is at most `other` in the range order.
    pub fn range_le(&self, other: &Self) -> (at_most: bool)
        ensures
            at_most == self@.range_le(other@),
    {
        match self.cmp(other) {
            Ordering::Greater => false,
            _ => true,
        }
    }

    /// How this version stands to `other` in the range order. The order is
    /// total, so there is always an answer.
    pub fn partial_cmp(&self, other: &Self) -> (o: Option<Ordering>)
        ensures
            o == Some(range_ordering(self@, other@)),
    {
        Some(self.cmp(other))
    }

    /// Whether this version precedes `other` in the precedence order.
    pub fn is_older_than(&self, other: &Self) -> (older: bool)
        ensures
            older == self@.older_than(other@),
    {
        match self.cmp(other) {
            Ordering::Less => true,
            Ordering::Greater => false,
            Ordering::Equal => pre_before(&self.pre_release, &other.pre_release),
        }
    }

    /// The written form of this version.
    pub fn to_string(&self) -> (text: String)
        ensures
            text@ == self@.render(),
    {
        proof {
            reveal_strlit(".");
            reveal_strlit("-");
            reveal_strlit("+");
        }
        let mut text = String::new();
        push_number(&mut text, self.major);
        text.append(".");
        push_number(&mut text, self.minor);
        text.append(".");
        push_number(&mut text, self.patch);
        assert(text@ =~= decimal_text(self@.major) + seq!['.'] + decimal_text(self@.minor) + seq![
            '.',
        ] + decimal_text(self@.patch));
        push_tagged(&mut text, ".", &self.extra_version);
        push_tagged(&mut text, "-", &self.pre_release);
        push_tagged(&mut text, "+", &self.build);
        text
    }
}

impl Clone for Version {
    fn clone(&self) -> (copy: Self)
        ensures
            copy == *self,
    {
        Self {
            major: self.major,
            minor: self.minor,
            patch: self.patch,
            extra_version: copy_token(&self.extra_version),
            pre_release: copy_token(&self.pre_release),
            build: copy_token(&self.build),
        }
    }
}

impl core::str::FromStr for Version {
    type Err = ParseError;

    /// Reads a version as `parse` does.
    fn from_str(s: &str) -> (result: Result<Self, ParseError>)
        ensures
            match result {
                Ok(v) => version_of_text(s@) == Some(v@) && v@.well_formed(),
                Err(e) => e == ParseError::Version && version_of_text(s@) is None,
            },
    {
        Self::parse(s)
    }
}

impl Default for Version {
    /// The first release: `1.0.0`.
    fn default() -> (version: Self)
        ensures
            version@ == VersionView::plain(1, 0, 0),
    {
        Self { major: 1, minor: 0, patch: 0, extra_version: None, pre_release: None, build: None }
    }
}

/// Of two versions exactly one holds: the first is before the second in the
/// range order, they are equal in it, or the second is before the first.
pub proof fn lemma_range_trichotomy(a: VersionView, b: VersionView)
    ensures
        a.range_lt(b) || a.range_eq(b) || b.range_lt(a),
        !(a.range_lt(b) && a.range_eq(b)),
        !(a.range_lt(b) && b.range_lt(a)),
        !(a.range_eq(b) && b.range_lt(a)),
{
    match (a.extra, b.extra) {
        (Some(x), Some(y)) => {
            lemma_lex_trichotomy(x, y);
        },
        _ => {},
    }
}

/// The range order is transitive.
pub proof fn lemma_range_lt_transitive(a: VersionView, b: VersionView, c: VersionView)
    requires
        a.range_lt(b),
        b.range_lt(c),
    ensures
        a.range_lt(c),
{
    match (a.extra, b.extra, c.extra) {
        (Some(x), Some(y), Some(z)) => {
            if lex_lt(x, y) && lex_lt(y, z) {
                lemma_lex_transitive(x, y, z);
            }
        },
        _ => {},
    }
}

/// "At most" in the range order is transitive, and a version that is at most
/// one that is before a third is before the third.
pub proof fn lemma_range_le_transitive(a: VersionView, b: VersionView, c: VersionView)
    requires
        a.range_le(b),
    ensures
        b.range_le(c) ==> a.range_le(c),
        b.range_lt(c) ==> a.range_lt(c),
{
    if a.range_lt(b) && b.range_lt(c) {
        lemma_range_lt_transitive(a, b, c);
    }
}

/// A version that is before one that is at most a third is before the third.
pub proof fn lemma_range_lt_le_transitive(a: VersionView, b: VersionView, c: VersionView)
    requires
        a.range_lt(b),
        b.range_le(c),
    ensures
        a.range_lt(c),
{
    if b.range_lt(c) {
        lemma_range_lt_transitive(a, b, c);
    }
}

/// Two versions that are equal in the range order stand alike to every third
/// version: the range order looks at nothing but the numbers and the fourth
/// component.
pub proof fn lemma_range_eq_stands_alike(a: VersionView, b: VersionView, c: VersionView)
    requires
        a.range_eq(b),
    ensures
        a.range_lt(c) == b.range_lt(c),
        c.range_lt(a) == c.range_lt(b),
        a.range_eq(c) == b.range_eq(c),
        a.range_le(c) == b.range_le(c),
        c.range_le(a) == c.range_le(b),
{
}

/// The range order is a total order on the numbers and the fourth component.
/// Of two versions exactly one holds: the first is before the second, they are
/// equal in the range order, or the second is before the first. Both "before"
/// and "equal" are transitive. Pre-release and build have no part in it: a
/// version with others in their place equals the version that it was.
pub proof fn lemma_range_order_is_total(
    a: VersionView,
    b: VersionView,
    c: VersionView,
    pre: Option<Seq<char>>,
    build: Option<Seq<char>>,
)
    ensures
        a.range_lt(b) || a.range_eq(b) || b.range_lt(a),
        !(a.range_lt(b) && a.range_eq(b)),
        !(a.range_lt(b) && b.range_lt(a)),
        !(a.range_eq(b) && b.range_lt(a)),
        a.range_lt(b) && b.range_lt(c) ==> a.range_lt(c),
        a.range_eq(b) && b.range_eq(c) ==> a.range_eq(c),
        a.range_eq(VersionView { pre, build, ..a }),
{
    lemma_range_trichotomy(a, b);
    if a.range_lt(b) && b.range_lt(c) {
        lemma_range_lt_transitive(a, b, c);
    }
}

/// The precedence order is a total order on everything but the build. Of two
/// versions exactly one holds: the first is older, the second is older, or
/// they differ in nothing but the build. "Older" is transitive, and a version
/// that is before another in the range order is older than it.
pub proof fn lemma_precedence_is_total(a: VersionView, b: VersionView, c: VersionView)
    ensures
        a.older_than(b) || b.older_than(a) || a == (VersionView { build: a.build, ..b }),
        !(a.older_than(b) && b.older_than(a)),
        !(a.older_than(b) && a == (VersionView { build: a.build, ..b })),
        !(b.older_than(a) && a == (VersionView { build: a.build, ..b })),
        a.older_than(b) && b.older_than(c) ==> a.older_than(c),
        a.range_lt(b) ==> a.older_than(b),
{
    lemma_range_trichotomy(a, b);
    match (a.pre, b.pre) {
        (Some(x), Some(y)) => {
            lemma_lex_trichotomy(x, y);
        },
        _ => {},
    }
    if a.older_than(b) && b.older_than(c) {
        lemma_range_trichotomy(b, c);
        lemma_range_trichotomy(a, c);
        if a.range_lt(b) && b.range_lt(c) {
            lemma_range_lt_transitive(a, b, c);
        }
        match (a.pre, b.pre, c.pre) {
            (Some(x), Some(y), Some(z)) => {
                if lex_lt(x, y) && lex_lt(y, z) {
                    lemma_lex_transitive(x, y, z);
                }
            },
            _ => {},
        }
    }
}

impl Version {
    /// The numbers of a version fit in 32 bits.
    pub proof fn lemma_numbers_fit(&self)
        ensures
            self@.major <= u32::MAX,
            self@.minor <= u32::MAX,
            self@.patch <= u32::MAX,
    {
    }
}

} // verus!
