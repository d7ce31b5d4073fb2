//! Writing and reading constraints: what is written for a list of
//! constraints, or for a range, reads back as it was.

use vstd::prelude::*;
use crate::expand::{all_expandable, expand, expand_all, expandable};
use crate::grammar::{
    all_well_formed, constraint_at, constraints_of_text, more_constraints_at, op_at,
};
use crate::op::Op;
use crate::range::{bound_text, bound_under, join, list_texts, list_under, range_of, RangeView};
use crate::range_laws::{
    ascending, lemma_bounds_are_tightest, lemma_lists_are_ascending, lemma_range_of_constraints,
};
use crate::round_trip::{lemma_render_before, lemma_written_is_spelling, written};
use crate::spelling::{from, lemma_piece_and_rest, lemma_version_read_at};
use crate::text::{class_at, is_digit, lemma_run_end_is, run_end, CharClass};
use crate::version::VersionView;

verus! {

/// An operator as it is written.
pub open spec fn op_text(op: Op) -> Seq<char> {
    match op {
        Op::Eq => seq!['='],
        Op::Ne => seq!['!', '='],
        Op::Gt => seq!['>'],
        Op::Lt => seq!['<'],
        Op::Ge => seq!['>', '='],
        Op::Le => seq!['<', '='],
        Op::Tilde => seq!['~'],
        Op::Caret => seq!['^'],
    }
}

/// A constraint as it is written: the operator and the version, with nothing
/// between them.
pub open spec fn constraint_text(c: (Op, VersionView)) -> Seq<char> {
    op_text(c.0) + c.1.render()
}

/// Each constraint of a list as it is written.
pub open spec fn texts_of(cs: Seq<(Op, VersionView)>) -> Seq<Seq<char>> {
    Seq::new(cs.len(), |i: int| constraint_text(cs[i]))
}

/// The constraints of a list from the `k`-th on as they are written, each
/// behind a comma.
spec fn tail_text(cs: Seq<(Op, VersionView)>, k: int) -> Seq<char>
    decreases cs.len() - k,
{
    if 0 <= k < cs.len() {
        seq![','] + (constraint_text(cs[k]) + tail_text(cs, k + 1))
    } else {
        Seq::empty()
    }
}

/// A list with one more constraint behind it is written with one more comma
/// and that constraint at the end.
proof fn lemma_tail_text_push(cs: Seq<(Op, VersionView)>, c: (Op, VersionView), k: int)
    requires
        0 <= k <= cs.len(),
    ensures
        tail_text(cs.push(c), k) == tail_text(cs, k) + (seq![','] + constraint_text(c)),
    decreases cs.len() - k,
{
    let more = cs.push(c);
    if k < cs.len() {
        lemma_tail_text_push(cs, c, k + 1);
        assert(more[k] == cs[k]);
        assert(tail_text(more, k) =~= tail_text(cs, k) + (seq![','] + constraint_text(c)));
    } else {
        assert(tail_text(more, k + 1) =~= Seq::<char>::empty());
        assert(tail_text(more, k) =~= tail_text(cs, k) + (seq![','] + constraint_text(c)));
    }
}

/// What is written for a list is what is written for its first constraint
/// and then, each behind a comma, for the others.
proof fn lemma_join_is_first_and_tail(cs: Seq<(Op, VersionView)>)
    requires
        cs.len() > 0,
    ensures
        join(texts_of(cs)) == constraint_text(cs[0]) + tail_text(cs, 1),
    decreases cs.len(),
{
    let texts = texts_of(cs);
    if cs.len() == 1 {
        assert(tail_text(cs, 1) =~= Seq::<char>::empty());
        assert(join(texts) =~= constraint_text(cs[0]) + tail_text(cs, 1));
    } else {
        let front = cs.drop_last();
        lemma_join_is_first_and_tail(front);
        lemma_tail_text_push(front, cs.last(), 1);
        assert(front.push(cs.last()) =~= cs);
        assert(texts.drop_last() =~= texts_of(front));
        assert(join(texts) =~= constraint_text(cs[0]) + tail_text(cs, 1));
    }
}

/// An operator before a digit is read as it is written.
proof fn lemma_op_read(s: Seq<char>, i: int, op: Op, rest: Seq<char>)
    requires
        0 <= i <= s.len(),
        from(s, i) == op_text(op) + rest,
        rest.len() > 0,
        is_digit(rest[0]),
    ensures
        op_at(s, i) == (op, i + op_text(op).len()),
        from(s, i + op_text(op).len()) == rest,
        !class_at(s, i, CharClass::Separator),
        !class_at(s, i + op_text(op).len(), CharClass::Space),
{
    let t = op_text(op);
    lemma_piece_and_rest(s, i, t, rest);
    assert(s[i + 0] == t[0]);
    if t.len() > 1 {
        assert(s[i + 1] == t[1]);
    }
    assert(s[i + t.len() + 0] == rest[0]);
}

/// A constraint as it is written, before a comma or the end, is read as it
/// was.
proof fn lemma_constraint_read(s: Seq<char>, i: int, c: (Op, VersionView), rest: Seq<char>)
    requires
        0 <= i <= s.len(),
        c.1.well_formed(),
        from(s, i) == constraint_text(c) + rest,
        rest.len() > 0 ==> rest[0] == ',',
    ensures
        constraint_at(s, i) == Some((c, s.len() - rest.len())),
        from(s, s.len() - rest.len()) == rest,
        i < s.len() - rest.len(),
        !class_at(s, i, CharClass::Separator),
{
    let v = c.1;
    lemma_render_before(v, rest);
    lemma_written_is_spelling(v);
    let after_op = v.render() + rest;
    assert(from(s, i) =~= op_text(c.0) + after_op);
    assert(after_op[0] == v.render()[0]);
    lemma_op_read(s, i, c.0, after_op);
    let j = i + op_text(c.0).len();
    lemma_version_read_at(s, j, written(v), rest);
    let end = s.len() - rest.len();
    if rest.len() > 0 {
        assert(s[end] == from(s, end)[0]);
    }
}

/// Constraints as they are written, each behind a comma, are read as they
/// were, up to the end of the text.
proof fn lemma_more_constraints_read(s: Seq<char>, i: int, cs: Seq<(Op, VersionView)>, k: int)
    requires
        0 <= i <= s.len(),
        0 <= k <= cs.len(),
        all_well_formed(cs),
        from(s, i) == tail_text(cs, k),
    ensures
        more_constraints_at(s, i) == (cs.skip(k), s.len() as int),
    decreases cs.len() - k,
{
    if k < cs.len() {
        let rest = tail_text(cs, k + 1);
        let item = constraint_text(cs[k]) + rest;
        lemma_piece_and_rest(s, i, seq![','], item);
        assert(s[i + 0] == seq![','][0]);
        assert(rest.len() > 0 ==> rest[0] == ',');
        lemma_constraint_read(s, i + 1, cs[k], rest);
        lemma_run_end_is(s, i, i + 1, CharClass::Separator);
        let end = s.len() - rest.len();
        lemma_more_constraints_read(s, end, cs, k + 1);
        assert(seq![cs[k]] + cs.skip(k + 1) =~= cs.skip(k));
    } else {
        assert(from(s, i).len() == 0);
        assert(cs.skip(k) =~= Seq::<(Op, VersionView)>::empty());
    }
}

/// A text in which a first constraint is read, and behind it the others up
/// to the end, is read as the list of them all.
proof fn lemma_first_and_more(s: Seq<char>, cs: Seq<(Op, VersionView)>, end: int)
    requires
        cs.len() > 0,
        0 <= end <= s.len(),
        !class_at(s, 0, CharClass::Separator),
        constraint_at(s, 0) == Some((cs[0], end)),
        more_constraints_at(s, end) == (cs.skip(1), s.len() as int),
    ensures
        constraints_of_text(s) == Some(cs),
{
    assert(run_end(s, 0, CharClass::Space) == 0);
    assert(run_end(s, s.len() as int, CharClass::Space) == s.len());
    assert(seq![cs[0]] + cs.skip(1) =~= cs);
}

/// A text that holds the constraints of a list as they are written, with
/// commas between them, is read as that list.
proof fn lemma_written_constraints_read(s: Seq<char>, cs: Seq<(Op, VersionView)>)
    requires
        cs.len() > 0,
        all_well_formed(cs),
        s == constraint_text(cs[0]) + tail_text(cs, 1),
    ensures
        constraints_of_text(s) == Some(cs),
{
    let rest = tail_text(cs, 1);
    let end = s.len() - rest.len();
    assert(from(s, 0) =~= s);
    assert(rest.len() > 0 ==> rest[0] == ',');
    assert(cs[0].1.well_formed());
    lemma_constraint_read(s, 0, cs[0], rest);
    lemma_more_constraints_read(s, end, cs, 1);
    lemma_first_and_more(s, cs, end);
}

/// What is written for a list of constraints, with commas between them, is
/// read as that list.
pub proof fn lemma_constraints_read_back(cs: Seq<(Op, VersionView)>)
    requires
        cs.len() > 0,
        all_well_formed(cs),
    ensures
        constraints_of_text(join(texts_of(cs))) == Some(cs),
{
    lemma_join_is_first_and_tail(cs);
    lemma_written_constraints_read(join(texts_of(cs)), cs);
}

/// The pieces that a range is written in are what is written for its
/// constraints.
proof fn lemma_parts_are_texts(r: RangeView)
    ensures
        r.parts() == texts_of(r.constraints()),
{
    let lower = bound_under(Op::Ge, r.min);
    let upper = bound_under(Op::Lt, r.max);
    let out = list_under(Op::Ne, r.except);
    let named = list_under(Op::Eq, r.included);
    assert(bound_text(seq!['>', '='], r.min) =~= texts_of(lower));
    assert(bound_text(seq!['<'], r.max) =~= texts_of(upper));
    assert(list_texts(seq!['!', '='], r.except) =~= texts_of(out));
    assert(list_texts(seq!['='], r.included) =~= texts_of(named));
    lemma_texts_of_joined(lower, upper);
    lemma_texts_of_joined(lower + upper, out);
    lemma_texts_of_joined(lower + upper + out, named);
}

/// What is written for two lists one behind the other is what is written for
/// each.
proof fn lemma_texts_of_joined(a: Seq<(Op, VersionView)>, b: Seq<(Op, VersionView)>)
    ensures
        texts_of(a + b) == texts_of(a) + texts_of(b),
{
    assert(texts_of(a + b) =~= texts_of(a) + texts_of(b));
}

/// The written form of a range that has a bound is read as the constraints of
/// that range.
pub proof fn lemma_range_reads_back(r: RangeView)
    requires
        r.well_formed(),
        !r.is_any(),
    ensures
        constraints_of_text(r.render()) == Some(r.constraints()),
{
    let cs = r.constraints();
    lemma_parts_are_texts(r);
    assert(cs.len() > 0);
    assert forall|i: int| 0 <= i < cs.len() implies (#[trigger] cs[i]).1.well_formed() by {
        let lower = bound_under(Op::Ge, r.min);
        let upper = bound_under(Op::Lt, r.max);
        let out = list_under(Op::Ne, r.except);
        let named = list_under(Op::Eq, r.included);
        if i < lower.len() {
            assert(cs[i] == lower[i]);
        } else if i < lower.len() + upper.len() {
            assert(cs[i] == upper[i - lower.len()]);
        } else if i < lower.len() + upper.len() + out.len() {
            assert(cs[i] == out[i - lower.len() - upper.len()]);
        } else {
            assert(cs[i] == named[i - lower.len() - upper.len() - out.len()]);
        }
    }
    lemma_constraints_read_back(cs);
}

/// Constraints that are well formed and can be expanded expand to
/// constraints that are well formed.
proof fn lemma_expand_all_well_formed(cs: Seq<(Op, VersionView)>)
    requires
        all_well_formed(cs),
        all_expandable(cs),
    ensures
        all_well_formed(expand_all(cs)),
    decreases cs.len(),
{
    if cs.len() > 0 {
        let front = cs.drop_last();
        assert(all_well_formed(front) && all_expandable(front)) by {
            assert forall|i: int| 0 <= i < front.len() implies (#[trigger] front[i]).1.well_formed()
                && expandable(front[i]) by {
                assert(front[i] == cs[i]);
            }
        }
        lemma_expand_all_well_formed(front);
        let head = expand_all(front);
        let tail = expand(cs.last());
        let e = expand_all(cs);
        assert(cs[cs.len() - 1].1.well_formed() && expandable(cs[cs.len() - 1]));
        assert forall|i: int| 0 <= i < e.len() implies (#[trigger] e[i]).1.well_formed() by {
            if i < head.len() {
                assert(e[i] == head[i]);
            } else {
                assert(e[i] == tail[i - head.len()]);
            }
        }
    }
}

/// The range that well-formed constraints denote is well formed, and its
/// excluded versions and those admitted by name stand in the range order.
pub proof fn lemma_range_of_is_regular(cs: Seq<(Op, VersionView)>)
    requires
        all_well_formed(cs),
        all_expandable(cs),
    ensures
        range_of(cs).well_formed(),
        ascending(range_of(cs).except),
        ascending(range_of(cs).included),
{
    let r = range_of(cs);
    let e = expand_all(cs);
    lemma_expand_all_well_formed(cs);
    lemma_bounds_are_tightest(cs);
    lemma_lists_are_ascending(cs);
    if let Some(lo) = r.min {
        let i = choose|i: int| 0 <= i < e.len() && e[i] == (Op::Ge, lo);
        assert(e[i].1.well_formed());
    }
    if let Some(hi) = r.max {
        let i = choose|i: int| 0 <= i < e.len() && e[i] == (Op::Lt, hi);
        assert(e[i].1.well_formed());
    }
    let out = r.except;
    let named = r.included;
    assert forall|k: int| 0 <= k < out.len() implies (#[trigger] out[k]).well_formed() by {
        assert(out.contains(out[k]));
        let i = choose|i: int| 0 <= i < e.len() && e[i] == (Op::Ne, out[k]);
        assert(e[i].1.well_formed());
    }
    assert forall|k: int| 0 <= k < named.len() implies (#[trigger] named[k]).well_formed() by {
        assert(named.contains(named[k]));
        let i = choose|i: int| 0 <= i < e.len() && e[i] == (Op::Eq, named[k]);
        assert(e[i].1.well_formed());
    }
}

/// Round trip for ranges: the written form of a range that has a bound, whose
/// versions are well formed and whose lists stand in the range order, is read
/// as constraints that denote that range.
pub proof fn lemma_range_round_trip(r: RangeView)
    requires
        r.well_formed(),
        !r.is_any(),
        ascending(r.except),
        ascending(r.included),
    ensures
        constraints_of_text(r.render()) matches Some(cs) && all_expandable(cs) && range_of(cs)
            == r,
{
    lemma_range_reads_back(r);
    lemma_range_of_constraints(r);
}

/// Reading, writing and reading again: the range that well-formed
/// constraints denote, if it has a bound, is written so that it reads back
/// as the same range.
pub proof fn lemma_range_of_round_trip(cs: Seq<(Op, VersionView)>)
    requires
        all_well_formed(cs),
        all_expandable(cs),
        !range_of(cs).is_any(),
    ensures
        constraints_of_text(range_of(cs).render()) matches Some(ds) && all_expandable(ds)
            && range_of(ds) == range_of(cs),
{
    lemma_range_of_is_regular(cs);
    lemma_range_round_trip(range_of(cs));
}

} // verus!
