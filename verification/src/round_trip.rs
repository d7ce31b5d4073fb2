//! Writing and reading: the written form of a version denotes that version.

use vstd::prelude::*;
use crate::decimal::{decimal_text, lemma_decimal_text};
use crate::grammar::{lemma_version_at_well_formed, version_of_text};
use crate::spelling::{blanks, lemma_spelling_is_read, Spelling};
use crate::text::{is_digit, run_end, CharClass};
use crate::version::{tagged, VersionView};

verus! {

/// The way in which a version is written out: no blanks, no `v`, all three
/// numbers without leading zeros, the pre-release before the build.
pub open spec fn written(v: VersionView) -> Spelling {
    Spelling {
        lead: 0,
        v: None,
        gap: false,
        major: decimal_text(v.major),
        minor: Some(decimal_text(v.minor)),
        patch: Some(decimal_text(v.patch)),
        extra: v.extra,
        pre: v.pre,
        build: v.build,
        build_first: false,
        trail: 0,
    }
}

/// The way in which a well-formed version is written out is a spelling of
/// that version.
pub proof fn lemma_written_is_spelling(v: VersionView)
    requires
        v.well_formed(),
    ensures
        written(v).well_formed(),
        written(v).version() == v,
{
    lemma_decimal_text(v.major);
    lemma_decimal_text(v.minor);
    lemma_decimal_text(v.patch);
}

/// Three texts one behind the other are the same however they are bracketed.
proof fn lemma_joined_either_way(a: Seq<char>, b: Seq<char>, c: Seq<char>)
    ensures
        (a + b) + c == a + (b + c),
{
    assert((a + b) + c =~= a + (b + c));
}

/// The written form of a version before any text is the pieces of the way in
/// which it is written out, one behind the other, and then that text.
pub proof fn lemma_render_before(v: VersionView, rest: Seq<char>)
    ensures
        v.render() + rest == written(v).prefix() + (written(v).major + (tagged(
            '.',
            written(v).minor,
        ) + (tagged('.', written(v).patch) + (tagged('.', written(v).extra) + (written(
            v,
        ).suffix() + rest))))),
        v.render().len() > 0,
        is_digit(v.render()[0]),
{
    let d1 = decimal_text(v.major);
    let d2 = tagged('.', Some(decimal_text(v.minor)));
    let d3 = tagged('.', Some(decimal_text(v.patch)));
    let x = tagged('.', v.extra);
    let p = tagged('-', v.pre);
    let b = tagged('+', v.build);
    lemma_decimal_text(v.major);
    // the written form, piece by piece from the left
    let l2 = d1 + d2;
    let l3 = l2 + d3;
    let l4 = l3 + x;
    let l5 = l4 + p;
    let l6 = l5 + b;
    assert(d1 + seq!['.'] + decimal_text(v.minor) =~= l2);
    assert(l2 + seq!['.'] + decimal_text(v.patch) =~= l3);
    assert(v.render() == l6);
    assert(l6[0] == d1[0]);
    // and bracketed from the right
    let r5 = (p + b) + rest;
    lemma_joined_either_way(l5, b, rest);
    lemma_joined_either_way(l4, p, b + rest);
    lemma_joined_either_way(p, b, rest);
    lemma_joined_either_way(l3, x, r5);
    lemma_joined_either_way(l2, d3, x + r5);
    lemma_joined_either_way(d1, d2, d3 + (x + r5));
    assert(written(v).prefix() + (d1 + (d2 + (d3 + (x + r5)))) =~= d1 + (d2 + (d3 + (x + r5))));
}

/// The written form of a version is the text of the way in which it is
/// written out.
proof fn lemma_render_is_written(v: VersionView)
    ensures
        v.render() == written(v).text(),
{
    let none = Seq::<char>::empty();
    lemma_render_before(v, none);
    assert(v.render() + none =~= v.render());
    assert(blanks(0) =~= none);
    assert(written(v).text() =~= written(v).prefix() + written(v).from_numbers());
}

/// Round trip: the written form of a well-formed version denotes that version,
/// component by component, and so one that equals it in the range order.
pub proof fn lemma_render_then_parse(v: VersionView)
    requires
        v.well_formed(),
    ensures
        version_of_text(v.render()) == Some(v),
        version_of_text(v.render()) matches Some(w) && w.range_eq(v),
{
    lemma_written_is_spelling(v);
    lemma_render_is_written(v);
    lemma_spelling_is_read(written(v));
}

/// Reading, writing and reading again: where a text denotes a version, the
/// written form of that version denotes the same version, and so one that
/// equals the first in the range order.
pub proof fn lemma_parse_render_parse(s: Seq<char>)
    requires
        version_of_text(s) is Some,
    ensures
        version_of_text(version_of_text(s)->0.render()) == version_of_text(s),
        version_of_text(version_of_text(s)->0.render()) matches Some(w) && w.range_eq(
            version_of_text(s)->0,
        ),
{
    lemma_version_at_well_formed(s, run_end(s, 0, CharClass::Space));
    lemma_render_then_parse(version_of_text(s)->0);
}

/// Two well-formed versions that are written alike are the same version: the
/// written form leaves nothing out, the build included.
pub proof fn lemma_render_tells_apart(a: VersionView, b: VersionView)
    requires
        a.well_formed(),
        b.well_formed(),
        a.render() == b.render(),
    ensures
        a == b,
{
    lemma_render_then_parse(a);
    lemma_render_then_parse(b);
}

} // verus!
