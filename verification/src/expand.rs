//! Constraints in the four basic operators: how the others are expanded into
//! them, and how a list of constraints is sorted by version.

use vstd::prelude::*;
use crate::op::Op;
use crate::range::Range;
use crate::version::{Version, VersionView};

verus! {

/// Whether the version that bounds a constraint from the other side can be
/// written with numbers of 32 bits: the number that the operator raises is not
/// the largest one.
pub open spec fn expandable(c: (Op, VersionView)) -> bool {
    match c.0 {
        Op::Tilde => c.1.minor < u32::MAX,
        Op::Caret => c.1.major < u32::MAX,
        Op::Le => c.1.patch < u32::MAX,
        Op::Gt => c.1.patch < u32::MAX,
        _ => true,
    }
}

/// Whether every constraint of a list is expandable.
pub open spec fn all_expandable(cs: Seq<(Op, VersionView)>) -> bool {
    forall|i: int| 0 <= i < cs.len() ==> expandable(#[trigger] cs[i])
}

/// One constraint in the four basic operators `>=`, `<`, `!=` and `=`.
///
/// `~v` admits from `v` up to the next minor version, `^v` from `v` up to the
/// next major version; `<=v` is below the next patch version and `>v` is from
/// the next patch version on. The versions that are made here are plain: they
/// carry no fourth component, pre-release or build.
pub open spec fn expand(c: (Op, VersionView)) -> Seq<(Op, VersionView)> {
    let v = c.1;
    match c.0 {
        Op::Tilde => seq![(Op::Ge, v), (Op::Lt, VersionView::plain(v.major, v.minor + 1, 0))],
        Op::Caret => seq![(Op::Ge, v), (Op::Lt, VersionView::plain(v.major + 1, 0, 0))],
        Op::Le => seq![(Op::Lt, VersionView::plain(v.major, v.minor, v.patch + 1))],
        Op::Gt => seq![(Op::Ge, VersionView::plain(v.major, v.minor, v.patch + 1))],
        _ => seq![c],
    }
}

/// A list of constraints in the four basic operators: each constraint
/// expanded, in the order of the list.
pub open spec fn expand_all(cs: Seq<(Op, VersionView)>) -> Seq<(Op, VersionView)>
    decreases cs.len(),
{
    if cs.len() == 0 {
        Seq::empty()
    } else {
        expand_all(cs.drop_last()) + expand(cs.last())
    }
}

/// A list that is sorted by version, with one more constraint: it stands
/// behind every constraint whose version is not above its own, and so behind
/// those of an equal version.
pub open spec fn insert_by_version(sorted: Seq<(Op, VersionView)>, c: (Op, VersionView)) -> Seq<
    (Op, VersionView),
>
    decreases sorted.len(),
{
    if sorted.len() > 0 && c.1.range_lt(sorted.last().1) {
        insert_by_version(sorted.drop_last(), c).push(sorted.last())
    } else {
        sorted.push(c)
    }
}

/// A list of constraints sorted by version in the range order, lowest first.
/// Constraints of equal versions keep the order in which they stood.
pub open spec fn sort_by_version(cs: Seq<(Op, VersionView)>) -> Seq<(Op, VersionView)>
    decreases cs.len(),
{
    if cs.len() == 0 {
        cs
    } else {
        insert_by_version(sort_by_version(cs.drop_last()), cs.last())
    }
}

fn can_expand(constraint: &(Op, Version)) -> (fits: bool)
    ensures
        fits == expandable((constraint.0, constraint.1@)),
{
    match constraint.0 {
        Op::Tilde => constraint.1.minor() < u32::MAX,
        Op::Caret => constraint.1.major() < u32::MAX,
        Op::Le => constraint.1.patch() < u32::MAX,
        Op::Gt => constraint.1.patch() < u32::MAX,
        _ => true,
    }
}

/// Puts one more constraint into a list that is sorted by version.
fn insert_sorted(sorted: &mut Vec<(Op, Version)>, constraint: (Op, Version))
    ensures
        final(sorted).deep_view() == insert_by_version(
            old(sorted).deep_view(),
            (constraint.0, constraint.1@),
        ),
{
    let ghost before = sorted.deep_view();
    let ghost c = (constraint.0, constraint.1@);
    let mut at: usize = sorted.len();
    assert(before.take(at as int) =~= before);
    assert(before.skip(at as int) =~= Seq::empty());
    while at > 0 && constraint.1.range_lt(&sorted[at - 1].1)
        invariant
            at <= sorted.len(),
            sorted.deep_view() == before,
            c == (constraint.0, constraint.1@),
            insert_by_version(before, c) == insert_by_version(before.take(at as int), c)
                + before.skip(at as int),
        decreases at,
    {
        let ghost head = before.take(at as int);
        assert(head.last() == before[at - 1]);
        assert(head.drop_last() =~= before.take(at - 1));
        assert(insert_by_version(head, c) == insert_by_version(before.take(at - 1), c).push(
            before[at - 1],
        ));
        assert(insert_by_version(before.take(at - 1), c).push(before[at - 1]) + before.skip(
            at as int,
        ) =~= insert_by_version(before.take(at - 1), c) + before.skip(at - 1));
        at -= 1;
    }
    proof {
        let head = before.take(at as int);
        if at > 0 {
            assert(head.last() == before[at - 1]);
        }
        assert(insert_by_version(head, c) == head.push(c));
    }
    sorted.insert(at, constraint);
    assert(sorted.deep_view() =~= before.take(at as int).push(c) + before.skip(at as int));
}

impl Range {
    /// Whether every constraint of a list can be expanded, which is what
    /// `from_ver_vec` asks of its argument.
    pub fn is_expandable(ranges: &Vec<(Op, Version)>) -> (fits: bool)
        ensures
            fits == all_expandable(ranges.deep_view()),
    {
        let mut i: usize = 0;
        while i < ranges.len()
            invariant
                i <= ranges.len(),
                forall|k: int| 0 <= k < i ==> expandable(#[trigger] ranges.deep_view()[k]),
            decreases ranges.len() - i,
        {
            if !can_expand(&ranges[i]) {
                assert(!expandable(ranges.deep_view()[i as int]));
                return false;
            }
            i += 1;
        }
        true
    }

    /// `~v` as a lower and an upper bound.
    pub fn tilde_range_to_vec(version: Version) -> (bounds: Vec<(Op, Version)>)
        requires
            version@.minor < u32::MAX,
        ensures
            bounds.deep_view() == expand((Op::Tilde, version@)),
    {
        let upper = Version::new(version.major(), version.minor() + 1, 0, None, None, None);
        let mut bounds: Vec<(Op, Version)> = Vec::new();
        bounds.push((Op::Ge, version));
        bounds.push((Op::Lt, upper));
        assert(bounds.deep_view() =~= expand((Op::Tilde, version@)));
        bounds
    }

    /// `^v` as a lower and an upper bound.
    pub fn caret_range_to_vec(version: Version) -> (bounds: Vec<(Op, Version)>)
        requires
            version@.major < u32::MAX,
        ensures
            bounds.deep_view() == expand((Op::Caret, version@)),
    {
        let upper = Version::new(version.major() + 1, 0, 0, None, None, None);
        let mut bounds: Vec<(Op, Version)> = Vec::new();
        bounds.push((Op::Ge, version));
        bounds.push((Op::Lt, upper));
        assert(bounds.deep_view() =~= expand((Op::Caret, version@)));
        bounds
    }

    /// `<=v` as an upper bound that is not itself admitted.
    pub fn le_range_to_lt(version: Version) -> (bounds: Vec<(Op, Version)>)
        requires
            version@.patch < u32::MAX,
        ensures
            bounds.deep_view() == expand((Op::Le, version@)),
    {
        let upper = Version::new(
            version.major(),
            version.minor(),
            version.patch() + 1,
            None,
            None,
            None,
        );
        let mut bounds: Vec<(Op, Version)> = Vec::new();
        bounds.push((Op::Lt, upper));
        assert(bounds.deep_view() =~= expand((Op::Le, version@)));
        bounds
    }

    /// `<=v` in the basic operators.
    pub fn le_range_to_vec(version: Version) -> (bounds: Vec<(Op, Version)>)
        requires
            version@.patch < u32::MAX,
        ensures
            bounds.deep_view() == expand((Op::Le, version@)),
    {
        Self::le_range_to_lt(version)
    }

    /// `>v` as a lower bound that is itself admitted.
    pub fn gt_range_to_ge(version: Version) -> (bounds: Vec<(Op, Version)>)
        requires
            version@.patch < u32::MAX,
        ensures
            bounds.deep_view() == expand((Op::Gt, version@)),
    {
        let lower = Version::new(
            version.major(),
            version.minor(),
            version.patch() + 1,
            None,
            None,
            None,
        );
        let mut bounds: Vec<(Op, Version)> = Vec::new();
        bounds.push((Op::Ge, lower));
        assert(bounds.deep_view() =~= expand((Op::Gt, version@)));
        bounds
    }

    /// `>v` in the basic operators.
    pub fn gt_range_to_vec(version: Version) -> (bounds: Vec<(Op, Version)>)
        requires
            version@.patch < u32::MAX,
        ensures
            bounds.deep_view() == expand((Op::Gt, version@)),
    {
        Self::gt_range_to_ge(version)
    }

    /// Expands every constraint of a list into the basic operators.
    pub fn mixed_vec_to_stand_vec(ranges: Vec<(Op, Version)>) -> (basic: Vec<(Op, Version)>)
        requires
            all_expandable(ranges.deep_view()),
        ensures
            basic.deep_view() == expand_all(ranges.deep_view()),
    {
        let ghost given = ranges.deep_view();
        let mut basic: Vec<(Op, Version)> = Vec::new();
        assert(given.take(0) =~= Seq::empty());
        for constraint in it: ranges
            invariant
                it.seq().len() == given.len(),
                forall|i: int|
                    0 <= i < given.len() ==> given[i] == (
                        (#[trigger] it.seq()[i]).0,
                        it.seq()[i].1@,
                    ),
                all_expandable(given),
                basic.deep_view() == expand_all(given.take(it.index() as int)),
        {
            let ghost done = given.take(it.index() as int);
            let ghost next = given.take(it.index() + 1);
            let ghost before = basic.deep_view();
            let (op, version) = constraint;
            assert(given[it.index() as int] == (op, version@));
            assert(expandable(given[it.index() as int]));
            let mut bounds = match op {
                Op::Tilde => Self::tilde_range_to_vec(version),
                Op::Caret => Self::caret_range_to_vec(version),
                Op::Le => Self::le_range_to_vec(version),
                Op::Gt => Self::gt_range_to_vec(version),
                _ => {
                    let mut same: Vec<(Op, Version)> = Vec::new();
                    same.push((op, version));
                    assert(same.deep_view() =~= expand((op, version@)));
                    same
                },
            };
            let ghost added = bounds.deep_view();
            basic.append(&mut bounds);
            assert(basic.deep_view() =~= before + added);
            assert(next.drop_last() =~= done);
            assert(next.last() == (op, version@));
        }
        assert(given.take(given.len() as int) =~= given);
        basic
    }

    /// Expands every constraint of a list into the basic operators and sorts
    /// the outcome by version.
    pub fn sort_vec(ranges: Vec<(Op, Version)>) -> (sorted: Vec<(Op, Version)>)
        requires
            all_expandable(ranges.deep_view()),
        ensures
            sorted.deep_view() == sort_by_version(expand_all(ranges.deep_view())),
    {
        let basic = Self::mixed_vec_to_stand_vec(ranges);
        let ghost given = basic.deep_view();
        let mut sorted: Vec<(Op, Version)> = Vec::new();
        assert(given.take(0) =~= Seq::empty());
        for constraint in it: basic
            invariant
                it.seq().len() == given.len(),
                forall|i: int|
                    0 <= i < given.len() ==> given[i] == (
                        (#[trigger] it.seq()[i]).0,
                        it.seq()[i].1@,
                    ),
                sorted.deep_view() == sort_by_version(given.take(it.index() as int)),
        {
            let ghost next = given.take(it.index() + 1);
            assert(next.drop_last() =~= given.take(it.index() as int));
            assert(next.last() == (constraint.0, constraint.1@));
            insert_sorted(&mut sorted, constraint);
        }
        assert(given.take(given.len() as int) =~= given);
        sorted
    }
}

} // verus!
