//! What holds of the range that a list of constraints denotes.

use vstd::prelude::*;
use vstd::seq_lib::to_multiset_contains;
use crate::expand::{all_expandable, expand, expand_all, insert_by_version, sort_by_version};
use crate::expand_laws::{
    is_basic, lemma_expand_all_joined, lemma_expand_all_members, lemma_expand_all_one,
    lemma_sort_by_version, sorted_by_version,
};
use crate::op::Op;
use crate::range::{bound_under, holds, list_under, range_of, versions_with, RangeView};
use crate::version::{
    lemma_range_le_transitive, lemma_range_lt_le_transitive, lemma_range_trichotomy, VersionView,
};

verus! {

/// Whether a list of versions is in the range order, lowest first.
pub open spec fn ascending(s: Seq<VersionView>) -> bool {
    forall|i: int, j: int| 0 <= i < j < s.len() ==> (#[trigger] s[i]).range_le(#[trigger] s[j])
}

/// The versions under an operator are those that some constraint of the list
/// names with that operator.
pub proof fn lemma_versions_with_members(s: Seq<(Op, VersionView)>, op: Op)
    ensures
        forall|v: VersionView| #[trigger]
            versions_with(s, op).contains(v) == s.contains((op, v)),
    decreases s.len(),
{
    let g = versions_with(s, op);
    if s.len() > 0 {
        let front = s.drop_last();
        let last = s.last();
        lemma_versions_with_members(front, op);
        let gf = versions_with(front, op);
        assert forall|v: VersionView| g.contains(v) == s.contains((op, v)) by {
            if g.contains(v) {
                let i = choose|i: int| 0 <= i < g.len() && g[i] == v;
                if last.0 == op && i == g.len() - 1 {
                    assert(s[s.len() - 1] == (op, v));
                } else {
                    assert(gf[i] == v);
                    assert(gf.contains(v));
                    let k = choose|k: int| 0 <= k < front.len() && front[k] == (op, v);
                    assert(s[k] == (op, v));
                }
            }
            if s.contains((op, v)) {
                let k = choose|k: int| 0 <= k < s.len() && s[k] == (op, v);
                if k == s.len() - 1 {
                    assert(g[g.len() - 1] == v);
                } else {
                    assert(front[k] == (op, v));
                    assert(front.contains((op, v)));
                    assert(gf.contains(v));
                    let i = choose|i: int| 0 <= i < gf.len() && gf[i] == v;
                    assert(g[i] == v);
                }
            }
        }
    } else {
        assert forall|v: VersionView| g.contains(v) == s.contains((op, v)) by {}
    }
}

/// The versions under an operator in a sorted list are in the range order.
pub proof fn lemma_versions_with_ascending(s: Seq<(Op, VersionView)>, op: Op)
    requires
        sorted_by_version(s),
    ensures
        ascending(versions_with(s, op)),
    decreases s.len(),
{
    let g = versions_with(s, op);
    if s.len() > 0 {
        let front = s.drop_last();
        let last = s.last();
        assert forall|i: int, j: int| 0 <= i < j < front.len() implies (
        #[trigger] front[i]).1.range_le((#[trigger] front[j]).1) by {
            assert(front[i] == s[i] && front[j] == s[j]);
        }
        lemma_versions_with_ascending(front, op);
        lemma_versions_with_members(front, op);
        let gf = versions_with(front, op);
        assert forall|i: int, j: int| 0 <= i < j < g.len() implies (#[trigger] g[i]).range_le(
            #[trigger] g[j],
        ) by {
            if j < gf.len() {
                assert(g[i] == gf[i] && g[j] == gf[j]);
            } else {
                assert(g[j] == last.1);
                assert(g[i] == gf[i]);
                assert(gf.contains(gf[i]));
                let k = choose|k: int| 0 <= k < front.len() && front[k] == (op, gf[i]);
                assert(s[k] == front[k]);
                assert(s[k].1.range_le(s[s.len() - 1].1));
            }
        }
    }
}

/// The excluded versions of a range and those admitted by name stand in the
/// range order.
pub proof fn lemma_lists_are_ascending(cs: Seq<(Op, VersionView)>)
    ensures
        ascending(range_of(cs).except),
        ascending(range_of(cs).included),
{
    let s = sort_by_version(expand_all(cs));
    lemma_sort_by_version(expand_all(cs));
    lemma_versions_with_ascending(s, Op::Ne);
    lemma_versions_with_ascending(s, Op::Eq);
}

/// Whether a constraint in a basic operator lets `v` pass. A constraint under
/// `=` shuts nothing out: it admits.
pub open spec fn permits(c: (Op, VersionView), v: VersionView) -> bool {
    match c.0 {
        Op::Ge => c.1.range_le(v),
        Op::Lt => v.range_lt(c.1),
        Op::Ne => !c.1.range_eq(v),
        _ => true,
    }
}

/// Whether a constraint admits `v` by name.
pub open spec fn names(c: (Op, VersionView), v: VersionView) -> bool {
    c.0 == Op::Eq && c.1.range_eq(v)
}

/// Whether some constraint of a list admits `v` by name.
pub open spec fn some_names(cs: Seq<(Op, VersionView)>, v: VersionView) -> bool {
    exists|i: int| 0 <= i < cs.len() && names(#[trigger] cs[i], v)
}

/// Whether every constraint of a list lets `v` pass.
pub open spec fn all_permit(cs: Seq<(Op, VersionView)>, v: VersionView) -> bool {
    forall|i: int| 0 <= i < cs.len() ==> permits(#[trigger] cs[i], v)
}

/// The bounds of a range are the tightest that its constraints set. The lower
/// bound is a version under `>=` that none under `>=` is above, and is absent
/// only where there is none; the upper bound is a version under `<` that none
/// under `<` is below, and is absent only where there is none. What is
/// excluded is what stands under `!=`, and what is admitted by name is what
/// stands under `=`.
pub proof fn lemma_bounds_are_tightest(cs: Seq<(Op, VersionView)>)
    ensures
        ({
            let e = expand_all(cs);
            let r = range_of(cs);
            &&& r.min matches Some(lo) ==> e.contains((Op::Ge, lo))
            &&& r.min matches Some(lo) ==> forall|i: int|
                0 <= i < e.len() && (#[trigger] e[i]).0 == Op::Ge ==> e[i].1.range_le(lo)
            &&& r.min is None ==> forall|i: int| 0 <= i < e.len() ==> (#[trigger] e[i]).0 != Op::Ge
            &&& r.max matches Some(hi) ==> e.contains((Op::Lt, hi))
            &&& r.max matches Some(hi) ==> forall|i: int|
                0 <= i < e.len() && (#[trigger] e[i]).0 == Op::Lt ==> hi.range_le(e[i].1)
            &&& r.max is None ==> forall|i: int| 0 <= i < e.len() ==> (#[trigger] e[i]).0 != Op::Lt
            &&& forall|v: VersionView| #[trigger] r.except.contains(v) == e.contains((Op::Ne, v))
            &&& forall|v: VersionView| #[trigger] r.included.contains(v) == e.contains((Op::Eq, v))
        }),
{
    let e = expand_all(cs);
    let r = range_of(cs);
    let s = sort_by_version(e);
    lemma_sort_by_version(e);
    lemma_versions_with_members(s, Op::Ge);
    lemma_versions_with_members(s, Op::Lt);
    lemma_versions_with_members(s, Op::Ne);
    lemma_versions_with_members(s, Op::Eq);
    lemma_versions_with_ascending(s, Op::Ge);
    lemma_versions_with_ascending(s, Op::Lt);
    let g = versions_with(s, Op::Ge);
    let l = versions_with(s, Op::Lt);
    assert forall|i: int| 0 <= i < e.len() && (#[trigger] e[i]).0 == Op::Ge implies g.len() > 0
        && e[i].1.range_le(g.last()) by {
        assert(e.contains(e[i]));
        assert(s.contains((Op::Ge, e[i].1)));
        assert(g.contains(e[i].1));
        let k = choose|k: int| 0 <= k < g.len() && g[k] == e[i].1;
        if k < g.len() - 1 {
            assert(g[k].range_le(g[g.len() - 1]));
        }
    }
    assert forall|i: int| 0 <= i < e.len() && (#[trigger] e[i]).0 == Op::Lt implies l.len() > 0
        && l.first().range_le(e[i].1) by {
        assert(e.contains(e[i]));
        assert(s.contains((Op::Lt, e[i].1)));
        assert(l.contains(e[i].1));
        let k = choose|k: int| 0 <= k < l.len() && l[k] == e[i].1;
        if k > 0 {
            assert(l[0].range_le(l[k]));
        }
    }
    if g.len() > 0 {
        assert(g.contains(g[g.len() - 1]));
        assert(s.contains((Op::Ge, g.last())));
    }
    if l.len() > 0 {
        assert(l.contains(l[0]));
        assert(s.contains((Op::Lt, l.first())));
    }
    assert forall|v: VersionView| #[trigger] r.except.contains(v) == e.contains((Op::Ne, v)) by {
        assert(s.contains((Op::Ne, v)) == e.contains((Op::Ne, v)));
    }
    assert forall|v: VersionView| #[trigger]
        r.included.contains(v) == e.contains((Op::Eq, v)) by {
        assert(s.contains((Op::Eq, v)) == e.contains((Op::Eq, v)));
    }
}

/// Every constraint counts, in whatever order the constraints stand: a range
/// admits a version exactly if some constraint admits it by name, or every
/// constraint lets it pass.
pub proof fn lemma_contains_iff_constraints_hold(cs: Seq<(Op, VersionView)>, v: VersionView)
    ensures
        range_of(cs).contains(v) == (some_names(expand_all(cs), v) || all_permit(
            expand_all(cs),
            v,
        )),
{
    let e = expand_all(cs);
    let r = range_of(cs);
    lemma_bounds_are_tightest(cs);
    // admitted by name
    if holds(r.included, v) {
        let k = choose|k: int| 0 <= k < r.included.len() && (#[trigger] r.included[k]).range_eq(v);
        assert(r.included.contains(r.included[k]));
        assert(e.contains((Op::Eq, r.included[k])));
        let i = choose|i: int| 0 <= i < e.len() && e[i] == (Op::Eq, r.included[k]);
        assert(names(e[i], v));
    }
    if some_names(e, v) {
        let i = choose|i: int| 0 <= i < e.len() && names(#[trigger] e[i], v);
        assert(e.contains((Op::Eq, e[i].1)));
        assert(r.included.contains(e[i].1));
        let k = choose|k: int| 0 <= k < r.included.len() && r.included[k] == e[i].1;
        assert(r.included[k].range_eq(v));
    }
    assert(holds(r.included, v) == some_names(e, v));
    // within the bounds
    if r.within_bounds(v) {
        assert forall|i: int| 0 <= i < e.len() implies permits(#[trigger] e[i], v) by {
            match e[i].0 {
                Op::Ge => {
                    lemma_range_le_transitive(e[i].1, r.min->0, v);
                },
                Op::Lt => {
                    lemma_range_lt_le_transitive(v, r.max->0, e[i].1);
                },
                Op::Ne => {
                    assert(e.contains(e[i]));
                    assert(r.except.contains(e[i].1));
                    let k = choose|k: int| 0 <= k < r.except.len() && r.except[k] == e[i].1;
                    assert(!r.except[k].range_eq(v));
                },
                _ => {},
            }
        }
    }
    if all_permit(e, v) {
        if let Some(lo) = r.min {
            let i = choose|i: int| 0 <= i < e.len() && e[i] == (Op::Ge, lo);
            assert(permits(e[i], v));
        }
        if let Some(hi) = r.max {
            let i = choose|i: int| 0 <= i < e.len() && e[i] == (Op::Lt, hi);
            assert(permits(e[i], v));
        }
        if holds(r.except, v) {
            let k = choose|k: int| 0 <= k < r.except.len() && (#[trigger] r.except[k]).range_eq(v);
            assert(r.except.contains(r.except[k]));
            assert(e.contains((Op::Ne, r.except[k])));
            let i = choose|i: int| 0 <= i < e.len() && e[i] == (Op::Ne, r.except[k]);
            assert(permits(e[i], v));
        }
    }
    assert(r.within_bounds(v) == all_permit(e, v));
}

/// `~b` admits from `b` up to the next minor version, and nothing else.
pub proof fn lemma_tilde_admits(b: VersionView, v: VersionView)
    ensures
        range_of(seq![(Op::Tilde, b)]).contains(v) == (b.range_le(v) && v.range_lt(
            VersionView::plain(b.major, b.minor + 1, 0),
        )),
{
    let cs = seq![(Op::Tilde, b)];
    let e = expand_all(cs);
    lemma_expand_all_one(cs[0]);
    lemma_contains_iff_constraints_hold(cs, v);
    assert(e == seq![(Op::Ge, b), (Op::Lt, VersionView::plain(b.major, b.minor + 1, 0))]);
    assert(permits(e[0], v) == b.range_le(v));
    assert(permits(e[1], v) == v.range_lt(VersionView::plain(b.major, b.minor + 1, 0)));
    assert(!some_names(e, v));
}

/// `^b` admits from `b` up to the next major version, and nothing else.
pub proof fn lemma_caret_admits(b: VersionView, v: VersionView)
    ensures
        range_of(seq![(Op::Caret, b)]).contains(v) == (b.range_le(v) && v.range_lt(
            VersionView::plain(b.major + 1, 0, 0),
        )),
{
    let cs = seq![(Op::Caret, b)];
    let e = expand_all(cs);
    lemma_expand_all_one(cs[0]);
    lemma_contains_iff_constraints_hold(cs, v);
    assert(e == seq![(Op::Ge, b), (Op::Lt, VersionView::plain(b.major + 1, 0, 0))]);
    assert(permits(e[0], v) == b.range_le(v));
    assert(permits(e[1], v) == v.range_lt(VersionView::plain(b.major + 1, 0, 0)));
    assert(!some_names(e, v));
}

/// `<=b` says what `<` says of the next patch version, and `>b` says what
/// `>=` says of the next patch version: among whatever other constraints, the
/// two denote the same range.
pub proof fn lemma_le_and_gt_by_next_patch(
    before: Seq<(Op, VersionView)>,
    b: VersionView,
    after: Seq<(Op, VersionView)>,
)
    ensures
        range_of(before + seq![(Op::Le, b)] + after) == range_of(
            before + seq![(Op::Lt, VersionView::plain(b.major, b.minor, b.patch + 1))] + after,
        ),
        range_of(before + seq![(Op::Gt, b)] + after) == range_of(
            before + seq![(Op::Ge, VersionView::plain(b.major, b.minor, b.patch + 1))] + after,
        ),
{
    let next = VersionView::plain(b.major, b.minor, b.patch + 1);
    lemma_expand_all_one((Op::Le, b));
    lemma_expand_all_one((Op::Lt, next));
    lemma_expand_all_one((Op::Gt, b));
    lemma_expand_all_one((Op::Ge, next));
    lemma_expand_all_joined(before, seq![(Op::Le, b)]);
    lemma_expand_all_joined(before, seq![(Op::Lt, next)]);
    lemma_expand_all_joined(before, seq![(Op::Gt, b)]);
    lemma_expand_all_joined(before, seq![(Op::Ge, next)]);
    lemma_expand_all_joined(before + seq![(Op::Le, b)], after);
    lemma_expand_all_joined(before + seq![(Op::Lt, next)], after);
    lemma_expand_all_joined(before + seq![(Op::Gt, b)], after);
    lemma_expand_all_joined(before + seq![(Op::Ge, next)], after);
}

/// The order in which constraints are given does not matter to what the range
/// admits: two lists of the same constraints admit the same versions.
pub proof fn lemma_order_is_immaterial(
    cs: Seq<(Op, VersionView)>,
    ds: Seq<(Op, VersionView)>,
    v: VersionView,
)
    requires
        cs.to_multiset() == ds.to_multiset(),
    ensures
        range_of(cs).contains(v) == range_of(ds).contains(v),
{
    lemma_contains_iff_constraints_hold(cs, v);
    lemma_contains_iff_constraints_hold(ds, v);
    lemma_same_constraints_expand_alike(cs, ds);
    lemma_same_constraints_expand_alike(ds, cs);
    let a = expand_all(cs);
    let b = expand_all(ds);
    lemma_same_members_hold_alike(a, b, v);
    lemma_same_members_hold_alike(b, a, v);
}

proof fn lemma_same_constraints_expand_alike(
    cs: Seq<(Op, VersionView)>,
    ds: Seq<(Op, VersionView)>,
)
    requires
        cs.to_multiset() == ds.to_multiset(),
    ensures
        forall|x: (Op, VersionView)| expand_all(cs).contains(x) ==> expand_all(ds).contains(x),
{
    assert forall|x: (Op, VersionView)| expand_all(cs).contains(x) implies expand_all(
        ds,
    ).contains(x) by {
        lemma_expand_all_members(cs, x);
        lemma_expand_all_members(ds, x);
        let i = choose|i: int| 0 <= i < cs.len() && expand(#[trigger] cs[i]).contains(x);
        assert(cs.contains(cs[i]));
        to_multiset_contains(cs, cs[i]);
        to_multiset_contains(ds, cs[i]);
        let j = choose|j: int| 0 <= j < ds.len() && ds[j] == cs[i];
        assert(expand(ds[j]).contains(x));
    }
}

proof fn lemma_same_members_hold_alike(
    a: Seq<(Op, VersionView)>,
    b: Seq<(Op, VersionView)>,
    v: VersionView,
)
    requires
        forall|x: (Op, VersionView)| a.contains(x) ==> b.contains(x),
    ensures
        some_names(a, v) ==> some_names(b, v),
        all_permit(b, v) ==> all_permit(a, v),
{
    if some_names(a, v) {
        let i = choose|i: int| 0 <= i < a.len() && names(#[trigger] a[i], v);
        assert(a.contains(a[i]));
        let j = choose|j: int| 0 <= j < b.len() && b[j] == a[i];
        assert(names(b[j], v));
    }
    if all_permit(b, v) {
        assert forall|i: int| 0 <= i < a.len() implies permits(#[trigger] a[i], v) by {
            assert(a.contains(a[i]));
            let j = choose|j: int| 0 <= j < b.len() && b[j] == a[i];
            assert(permits(b[j], v));
        }
    }
}

/// The build never counts but for identity. Two versions that differ in
/// nothing but the build are equal in the range order, stand alike to every
/// third version in the range order and in the precedence order, and every
/// range admits both or neither.
pub proof fn lemma_build_is_ignored(
    a: VersionView,
    build: Option<Seq<char>>,
    c: VersionView,
    r: RangeView,
)
    ensures
        ({
            let b = VersionView { build, ..a };
            &&& a.range_eq(b)
            &&& a.range_lt(c) == b.range_lt(c)
            &&& c.range_lt(a) == c.range_lt(b)
            &&& a.range_eq(c) == b.range_eq(c)
            &&& a.older_than(c) == b.older_than(c)
            &&& c.older_than(a) == c.older_than(b)
            &&& r.contains(a) == r.contains(b)
        }),
{
    let b = VersionView { build, ..a };
    lemma_range_eq_admitted_alike(a, b, r);
}

/// Two versions that are equal in the range order are admitted by the same
/// ranges.
pub proof fn lemma_range_eq_admitted_alike(a: VersionView, b: VersionView, r: RangeView)
    requires
        a.range_eq(b),
    ensures
        r.contains(a) == r.contains(b),
{
    assert(holds(r.included, a) == holds(r.included, b)) by {
        lemma_holds_alike(r.included, a, b);
    }
    assert(holds(r.except, a) == holds(r.except, b)) by {
        lemma_holds_alike(r.except, a, b);
    }
}

proof fn lemma_holds_alike(list: Seq<VersionView>, a: VersionView, b: VersionView)
    requires
        a.range_eq(b),
    ensures
        holds(list, a) == holds(list, b),
{
    if holds(list, a) {
        let i = choose|i: int| 0 <= i < list.len() && (#[trigger] list[i]).range_eq(a);
        assert(list[i].range_eq(b));
    }
    if holds(list, b) {
        let i = choose|i: int| 0 <= i < list.len() && (#[trigger] list[i]).range_eq(b);
        assert(list[i].range_eq(a));
    }
}

/// A list of versions that is in the range order, with one more version: it
/// stands behind every version that is not above it.
pub open spec fn insert_version(sorted: Seq<VersionView>, v: VersionView) -> Seq<VersionView>
    decreases sorted.len(),
{
    if sorted.len() > 0 && v.range_lt(sorted.last()) {
        insert_version(sorted.drop_last(), v).push(sorted.last())
    } else {
        sorted.push(v)
    }
}

/// A list of versions sorted in the range order, lowest first, equal ones in
/// the order in which they stood.
pub open spec fn sort_versions(vs: Seq<VersionView>) -> Seq<VersionView>
    decreases vs.len(),
{
    if vs.len() == 0 {
        vs
    } else {
        insert_version(sort_versions(vs.drop_last()), vs.last())
    }
}

/// Sorting a list that is in the range order changes nothing.
pub proof fn lemma_sort_versions_of_ascending(vs: Seq<VersionView>)
    requires
        ascending(vs),
    ensures
        sort_versions(vs) == vs,
    decreases vs.len(),
{
    if vs.len() > 0 {
        let front = vs.drop_last();
        assert(ascending(front)) by {
            assert forall|i: int, j: int| 0 <= i < j < front.len() implies (
            #[trigger] front[i]).range_le(#[trigger] front[j]) by {
                assert(front[i] == vs[i] && front[j] == vs[j]);
            }
        }
        lemma_sort_versions_of_ascending(front);
        if front.len() > 0 {
            assert(front.last() == vs[vs.len() - 2]);
            assert(vs[vs.len() - 2].range_le(vs[vs.len() - 1]));
            lemma_range_trichotomy(vs.last(), front.last());
        }
        assert(front.push(vs.last()) =~= vs);
    }
}

/// Putting a constraint into a sorted list puts its version into the list of
/// the versions under its operator, and leaves the lists of the versions
/// under the other operators as they were.
proof fn lemma_insert_among_versions(s: Seq<(Op, VersionView)>, c: (Op, VersionView), op: Op)
    requires
        sorted_by_version(s),
    ensures
        versions_with(insert_by_version(s, c), op) == (if c.0 == op {
            insert_version(versions_with(s, op), c.1)
        } else {
            versions_with(s, op)
        }),
    decreases s.len(),
{
    let g = versions_with(s, op);
    if s.len() > 0 && c.1.range_lt(s.last().1) {
        let front = s.drop_last();
        assert(sorted_by_version(front)) by {
            assert forall|i: int, j: int| 0 <= i < j < front.len() implies (
            #[trigger] front[i]).1.range_le((#[trigger] front[j]).1) by {
                assert(front[i] == s[i] && front[j] == s[j]);
            }
        }
        lemma_insert_among_versions(front, c, op);
        let more = insert_by_version(front, c).push(s.last());
        assert(more.drop_last() =~= insert_by_version(front, c));
        assert(more.last() == s.last());
        if s.last().0 == op {
            assert(g.drop_last() =~= versions_with(front, op));
            assert(g.last() == s.last().1);
        }
    } else {
        assert(s.push(c).drop_last() =~= s);
        if c.0 == op && g.len() > 0 {
            // the last version under the operator stands in the list, at or
            // before its end, and so is not above the new one
            lemma_versions_with_members(s, op);
            assert(g.contains(g[g.len() - 1]));
            let m = choose|m: int| 0 <= m < s.len() && s[m] == (op, g.last());
            lemma_range_trichotomy(c.1, s.last().1);
            if m < s.len() - 1 {
                assert(s[m].1.range_le(s[s.len() - 1].1));
            }
            lemma_range_le_transitive(g.last(), s.last().1, c.1);
            lemma_range_trichotomy(c.1, g.last());
        }
    }
}

/// Sorting constraints sorts the versions under each operator, and nothing
/// else happens to them.
pub proof fn lemma_sort_among_versions(cs: Seq<(Op, VersionView)>, op: Op)
    ensures
        versions_with(sort_by_version(cs), op) == sort_versions(versions_with(cs, op)),
    decreases cs.len(),
{
    if cs.len() > 0 {
        let front = cs.drop_last();
        lemma_sort_among_versions(front, op);
        lemma_sort_by_version(front);
        lemma_insert_among_versions(sort_by_version(front), cs.last(), op);
        if cs.last().0 == op {
            let g = versions_with(front, op);
            assert(g.push(cs.last().1).drop_last() =~= g);
        }
    }
}

/// The versions under an operator in two lists one behind the other are
/// those in the first and then those in the second.
pub proof fn lemma_versions_with_joined(
    a: Seq<(Op, VersionView)>,
    b: Seq<(Op, VersionView)>,
    op: Op,
)
    ensures
        versions_with(a + b, op) == versions_with(a, op) + versions_with(b, op),
    decreases b.len(),
{
    if b.len() == 0 {
        assert(a + b =~= a);
        assert(versions_with(a, op) + versions_with(b, op) =~= versions_with(a, op));
    } else {
        lemma_versions_with_joined(a, b.drop_last(), op);
        assert((a + b).drop_last() =~= a + b.drop_last());
        assert((a + b).last() == b.last());
        let head = versions_with(a, op);
        let tail = versions_with(b.drop_last(), op);
        assert((head + tail).push(b.last().1) =~= head + tail.push(b.last().1));
    }
}

/// The versions under an operator in a list of versions that all stand under
/// one operator are all of them, or none.
proof fn lemma_versions_with_list_under(vs: Seq<VersionView>, under: Op, op: Op)
    ensures
        versions_with(list_under(under, vs), op) == (if under == op {
            vs
        } else {
            Seq::empty()
        }),
    decreases vs.len(),
{
    let cs = list_under(under, vs);
    if vs.len() > 0 {
        lemma_versions_with_list_under(vs.drop_last(), under, op);
        assert(cs.drop_last() =~= list_under(under, vs.drop_last()));
        assert(cs.last() == (under, vs.last()));
        if under == op {
            assert(vs.drop_last().push(vs.last()) =~= vs);
        }
    } else {
        assert(versions_with(cs, op) =~= Seq::<VersionView>::empty());
        assert(vs =~= Seq::<VersionView>::empty());
    }
}

/// The versions under an operator in the constraints of a range are its
/// lower bound, its upper bound, its excluded versions or those that it
/// admits by name.
proof fn lemma_versions_of_constraints(r: RangeView, op: Op)
    ensures
        versions_with(r.constraints(), op) == (match op {
            Op::Ge => bound_list(r.min),
            Op::Lt => bound_list(r.max),
            Op::Ne => r.except,
            Op::Eq => r.included,
            _ => Seq::empty(),
        }),
{
    let none = Seq::<VersionView>::empty();
    let lower = bound_under(Op::Ge, r.min);
    let upper = bound_under(Op::Lt, r.max);
    let out = list_under(Op::Ne, r.except);
    let named = list_under(Op::Eq, r.included);
    assert(lower =~= list_under(Op::Ge, bound_list(r.min)));
    assert(upper =~= list_under(Op::Lt, bound_list(r.max)));
    lemma_versions_with_list_under(bound_list(r.min), Op::Ge, op);
    lemma_versions_with_list_under(bound_list(r.max), Op::Lt, op);
    lemma_versions_with_list_under(r.except, Op::Ne, op);
    lemma_versions_with_list_under(r.included, Op::Eq, op);
    lemma_versions_with_joined(lower, upper, op);
    lemma_versions_with_joined(lower + upper, out, op);
    lemma_versions_with_joined(lower + upper + out, named, op);
    let g = versions_with(r.constraints(), op);
    let a = versions_with(lower, op);
    let b = versions_with(upper, op);
    let c = versions_with(out, op);
    let d = versions_with(named, op);
    assert(g == a + b + c + d);
    match op {
        Op::Ge => {
            assert(a + none + none + none =~= a);
        },
        Op::Lt => {
            assert(none + b + none + none =~= b);
        },
        Op::Ne => {
            assert(none + none + c + none =~= c);
        },
        Op::Eq => {
            assert(none + none + none + d =~= d);
        },
        _ => {
            assert(none + none + none + none =~= none);
        },
    }
}

/// A bound as a list of at most one version.
pub open spec fn bound_list(bound: Option<VersionView>) -> Seq<VersionView> {
    match bound {
        Some(v) => seq![v],
        None => Seq::empty(),
    }
}

/// Expanding constraints in the basic operators changes nothing.
pub proof fn lemma_expand_all_of_basic(cs: Seq<(Op, VersionView)>)
    requires
        forall|i: int| 0 <= i < cs.len() ==> is_basic((#[trigger] cs[i]).0),
    ensures
        expand_all(cs) == cs,
    decreases cs.len(),
{
    if cs.len() > 0 {
        let front = cs.drop_last();
        assert forall|i: int| 0 <= i < front.len() implies is_basic((#[trigger] front[i]).0) by {
            assert(front[i] == cs[i]);
        }
        lemma_expand_all_of_basic(front);
        assert(is_basic(cs[cs.len() - 1].0));
        assert(expand(cs.last()) =~= seq![cs.last()]);
        assert(front + seq![cs.last()] =~= cs);
    }
}

/// A range whose excluded versions and whose versions admitted by name stand
/// in the range order is the range that its own constraints denote.
pub proof fn lemma_range_of_constraints(r: RangeView)
    requires
        ascending(r.except),
        ascending(r.included),
    ensures
        range_of(r.constraints()) == r,
        all_expandable(r.constraints()),
{
    let cs = r.constraints();
    assert forall|i: int| 0 <= i < cs.len() implies is_basic((#[trigger] cs[i]).0) by {
        let lower = bound_under(Op::Ge, r.min);
        let upper = bound_under(Op::Lt, r.max);
        let out = list_under(Op::Ne, r.except);
        let named = list_under(Op::Eq, r.included);
        if i < lower.len() {
            assert(cs[i] == lower[i]);
        } else if i < lower.len() + upper.len() {
            assert(cs[i] == upper[i - lower.len()]);
        } else if i < lower.len() + upper.len() + out.len() {
            assert(cs[i] == out[i - lower.len() - upper.len()]);
        } else {
            assert(cs[i] == named[i - lower.len() - upper.len() - out.len()]);
        }
    }
    lemma_expand_all_of_basic(cs);
    lemma_sort_among_versions(cs, Op::Ge);
    lemma_sort_among_versions(cs, Op::Lt);
    lemma_sort_among_versions(cs, Op::Ne);
    lemma_sort_among_versions(cs, Op::Eq);
    lemma_versions_of_constraints(r, Op::Ge);
    lemma_versions_of_constraints(r, Op::Lt);
    lemma_versions_of_constraints(r, Op::Ne);
    lemma_versions_of_constraints(r, Op::Eq);
    lemma_sort_versions_of_ascending(bound_list(r.min));
    lemma_sort_versions_of_ascending(bound_list(r.max));
    lemma_sort_versions_of_ascending(r.except);
    lemma_sort_versions_of_ascending(r.included);
}

} // verus!
