//! What holds of expanding and sorting constraints.

use vstd::prelude::*;
use vstd::seq_lib::{to_multiset_build, to_multiset_contains, to_multiset_insert};
use crate::expand::{expand, expand_all, insert_by_version, sort_by_version};
use crate::op::Op;
use crate::version::{lemma_range_le_transitive, lemma_range_trichotomy, VersionView};

verus! {

/// Whether an operator is one of the four basic ones.
pub open spec fn is_basic(op: Op) -> bool {
    op == Op::Ge || op == Op::Lt || op == Op::Ne || op == Op::Eq
}

/// What a list expands to holds basic operators only.
pub proof fn lemma_expand_all_is_basic(cs: Seq<(Op, VersionView)>)
    ensures
        forall|i: int|
            0 <= i < expand_all(cs).len() ==> is_basic((#[trigger] expand_all(cs)[i]).0),
    decreases cs.len(),
{
    if cs.len() > 0 {
        lemma_expand_all_is_basic(cs.drop_last());
        let front = expand_all(cs.drop_last());
        let tail = expand(cs.last());
        assert forall|i: int| 0 <= i < expand_all(cs).len() implies is_basic(
            (#[trigger] expand_all(cs)[i]).0,
        ) by {
            if i < front.len() {
                assert(expand_all(cs)[i] == front[i]);
            } else {
                assert(expand_all(cs)[i] == tail[i - front.len()]);
            }
        }
    }
}

/// Expanding a list of one constraint is expanding that constraint.
pub proof fn lemma_expand_all_one(c: (Op, VersionView))
    ensures
        expand_all(seq![c]) == expand(c),
{
    assert(seq![c].drop_last() =~= Seq::<(Op, VersionView)>::empty());
    assert(expand_all(seq![c].drop_last()) =~= Seq::<(Op, VersionView)>::empty());
    assert(Seq::<(Op, VersionView)>::empty() + expand(c) =~= expand(c));
}

/// Expanding two lists one behind the other is expanding each.
pub proof fn lemma_expand_all_joined(a: Seq<(Op, VersionView)>, b: Seq<(Op, VersionView)>)
    ensures
        expand_all(a + b) == expand_all(a) + expand_all(b),
    decreases b.len(),
{
    if b.len() == 0 {
        assert(a + b =~= a);
        assert(expand_all(a) + expand_all(b) =~= expand_all(a));
    } else {
        lemma_expand_all_joined(a, b.drop_last());
        assert((a + b).drop_last() =~= a + b.drop_last());
        assert((a + b).last() == b.last());
        let front = expand_all(b.drop_last());
        let tail = expand(b.last());
        assert(expand_all(a) + front + tail =~= expand_all(a) + (front + tail));
    }
}

/// What a list expands to holds exactly what its constraints expand to.
pub proof fn lemma_expand_all_members(cs: Seq<(Op, VersionView)>, x: (Op, VersionView))
    ensures
        expand_all(cs).contains(x) == exists|i: int|
            0 <= i < cs.len() && expand(#[trigger] cs[i]).contains(x),
    decreases cs.len(),
{
    if cs.len() > 0 {
        let front = cs.drop_last();
        let tail = expand(cs.last());
        lemma_expand_all_members(front, x);
        let e = expand_all(cs);
        if e.contains(x) {
            let k = choose|k: int| 0 <= k < e.len() && e[k] == x;
            if k < expand_all(front).len() {
                assert(expand_all(front)[k] == x);
                assert(expand_all(front).contains(x));
                let i = choose|i: int|
                    0 <= i < front.len() && expand(#[trigger] front[i]).contains(x);
                assert(cs[i] == front[i]);
            } else {
                assert(tail[k - expand_all(front).len()] == x);
                assert(expand(cs[cs.len() - 1]).contains(x));
            }
        }
        if exists|i: int| 0 <= i < cs.len() && expand(#[trigger] cs[i]).contains(x) {
            let i = choose|i: int| 0 <= i < cs.len() && expand(#[trigger] cs[i]).contains(x);
            if i < front.len() {
                assert(front[i] == cs[i]);
                assert(expand_all(front).contains(x));
                let head = expand_all(front);
                let k = choose|k: int| 0 <= k < head.len() && head[k] == x;
                assert(e[k] == x);
            } else {
                let k = choose|k: int| 0 <= k < tail.len() && tail[k] == x;
                assert(e[expand_all(front).len() + k] == x);
            }
        }
    }
}

/// Whether a list of constraints is in the order of their versions: no
/// constraint stands before one of a lower version.
pub open spec fn sorted_by_version(s: Seq<(Op, VersionView)>) -> bool {
    forall|i: int, j: int|
        0 <= i < j < s.len() ==> (#[trigger] s[i]).1.range_le((#[trigger] s[j]).1)
}

/// Where a constraint goes in a sorted list: behind the last constraint whose
/// version is not above its own.
pub open spec fn place_of(sorted: Seq<(Op, VersionView)>, c: (Op, VersionView)) -> int
    decreases sorted.len(),
{
    if sorted.len() > 0 && c.1.range_lt(sorted.last().1) {
        place_of(sorted.drop_last(), c)
    } else {
        sorted.len() as int
    }
}

/// Putting a constraint into a list puts it at its place and moves nothing
/// else: what stands behind it is above it, what stands just before it is not.
pub proof fn lemma_insert_at_place(s: Seq<(Op, VersionView)>, c: (Op, VersionView))
    ensures
        0 <= place_of(s, c) <= s.len(),
        insert_by_version(s, c) == s.insert(place_of(s, c), c),
        forall|m: int| place_of(s, c) <= m < s.len() ==> c.1.range_lt((#[trigger] s[m]).1),
        place_of(s, c) > 0 ==> !c.1.range_lt(s[place_of(s, c) - 1].1),
    decreases s.len(),
{
    if s.len() > 0 && c.1.range_lt(s.last().1) {
        let front = s.drop_last();
        lemma_insert_at_place(front, c);
        let p = place_of(front, c);
        assert(front.insert(p, c).push(s.last()) =~= s.insert(p, c));
        assert forall|m: int| p <= m < s.len() implies c.1.range_lt((#[trigger] s[m]).1) by {
            if m < front.len() {
                assert(s[m] == front[m]);
            }
        }
        if p > 0 {
            assert(s[p - 1] == front[p - 1]);
        }
    } else {
        assert(s.push(c) =~= s.insert(s.len() as int, c));
    }
}

/// Putting a constraint into a sorted list leaves it sorted.
pub proof fn lemma_insert_keeps_sorted(s: Seq<(Op, VersionView)>, c: (Op, VersionView))
    requires
        sorted_by_version(s),
    ensures
        sorted_by_version(insert_by_version(s, c)),
{
    lemma_insert_at_place(s, c);
    let p = place_of(s, c);
    let r = s.insert(p, c);
    assert forall|i: int, j: int| 0 <= i < j < r.len() implies (#[trigger] r[i]).1.range_le(
        (#[trigger] r[j]).1,
    ) by {
        if j < p {
            assert(r[i] == s[i] && r[j] == s[j]);
        } else if j == p {
            assert(r[i] == s[i] && r[j] == c);
            lemma_range_trichotomy(c.1, s[p - 1].1);
            if i < p - 1 {
                lemma_range_le_transitive(s[i].1, s[p - 1].1, c.1);
            }
        } else if i < p {
            assert(r[i] == s[i] && r[j] == s[j - 1]);
        } else if i == p {
            assert(r[i] == c && r[j] == s[j - 1]);
        } else {
            assert(r[i] == s[i - 1] && r[j] == s[j - 1]);
        }
    }
}

/// Sorting puts the constraints in the order of their versions and neither
/// adds nor drops one.
pub proof fn lemma_sort_by_version(cs: Seq<(Op, VersionView)>)
    ensures
        sorted_by_version(sort_by_version(cs)),
        sort_by_version(cs).to_multiset() == cs.to_multiset(),
        sort_by_version(cs).len() == cs.len(),
        forall|c: (Op, VersionView)| sort_by_version(cs).contains(c) == cs.contains(c),
    decreases cs.len(),
{
    if cs.len() > 0 {
        let front = cs.drop_last();
        let c = cs.last();
        lemma_sort_by_version(front);
        let s = sort_by_version(front);
        lemma_insert_keeps_sorted(s, c);
        lemma_insert_at_place(s, c);
        to_multiset_insert(s, place_of(s, c), c);
        to_multiset_build(front, c);
        assert(front.push(c) =~= cs);
        s.insert_ensures(place_of(s, c), c);
    }
    assert forall|c: (Op, VersionView)| sort_by_version(cs).contains(c) == cs.contains(c) by {
        to_multiset_contains(sort_by_version(cs), c);
        to_multiset_contains(cs, c);
    }
}

/// The constraints of a list whose version equals `w` in the range order, in
/// the order of the list.
pub open spec fn equal_to(s: Seq<(Op, VersionView)>, w: VersionView) -> Seq<(Op, VersionView)>
    decreases s.len(),
{
    if s.len() == 0 {
        Seq::empty()
    } else if s.last().1.range_eq(w) {
        equal_to(s.drop_last(), w).push(s.last())
    } else {
        equal_to(s.drop_last(), w)
    }
}

proof fn lemma_insert_is_stable(s: Seq<(Op, VersionView)>, c: (Op, VersionView), w: VersionView)
    ensures
        equal_to(insert_by_version(s, c), w) == (if c.1.range_eq(w) {
            equal_to(s, w).push(c)
        } else {
            equal_to(s, w)
        }),
    decreases s.len(),
{
    if s.len() > 0 && c.1.range_lt(s.last().1) {
        let front = s.drop_last();
        lemma_insert_is_stable(front, c, w);
        let r = insert_by_version(front, c).push(s.last());
        assert(r.drop_last() =~= insert_by_version(front, c));
        assert(r.last() == s.last());
        lemma_range_trichotomy(c.1, s.last().1);
    } else {
        assert(s.push(c).drop_last() =~= s);
    }
}

/// Sorting is stable: constraints of equal versions keep the order in which
/// they stood.
pub proof fn lemma_sort_is_stable(cs: Seq<(Op, VersionView)>, w: VersionView)
    ensures
        equal_to(sort_by_version(cs), w) == equal_to(cs, w),
    decreases cs.len(),
{
    if cs.len() > 0 {
        lemma_sort_is_stable(cs.drop_last(), w);
        lemma_insert_is_stable(sort_by_version(cs.drop_last()), cs.last(), w);
    }
}

} // verus!
