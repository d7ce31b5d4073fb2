//! Ranges of versions: the range that a list of constraints denotes, what a
//! range admits, and how it is written.

use vstd::prelude::*;
use vstd::string::*;
use crate::error::ParseError;
use crate::expand::{all_expandable, expand_all, sort_by_version};
use crate::grammar::{constraints_of_text, parse_range};
use crate::op::Op;
use crate::version::{Version, VersionView};

verus! {

/// A range as contracts speak of it.
pub struct RangeView {
    /// The lowest version inside the bounds, if the range is bounded below.
    pub min: Option<VersionView>,
    /// The lowest version above the bounds, if the range is bounded above.
    pub max: Option<VersionView>,
    /// Versions that are out even between the bounds.
    pub except: Seq<VersionView>,
    /// Versions that are in even outside the bounds.
    pub included: Seq<VersionView>,
}

/// Whether a list holds a version that equals `v` in the range order.
pub open spec fn holds(list: Seq<VersionView>, v: VersionView) -> bool {
    exists|i: int| 0 <= i < list.len() && (#[trigger] list[i]).range_eq(v)
}

/// Texts with a comma between each two of them.
pub open spec fn join(parts: Seq<Seq<char>>) -> Seq<char>
    decreases parts.len(),
{
    if parts.len() == 0 {
        Seq::empty()
    } else if parts.len() == 1 {
        parts[0]
    } else {
        join(parts.drop_last()) + seq![','] + parts.last()
    }
}

/// A bound as it is written behind its operator, if it is present.
pub open spec fn bound_text(mark: Seq<char>, bound: Option<VersionView>) -> Seq<Seq<char>> {
    match bound {
        Some(v) => seq![mark + v.render()],
        None => Seq::empty(),
    }
}

/// Each version of a list as it is written behind the operator.
pub open spec fn list_texts(mark: Seq<char>, versions: Seq<VersionView>) -> Seq<Seq<char>> {
    Seq::new(versions.len(), |i: int| mark + versions[i].render())
}

/// Whether every version of a list is well formed.
pub open spec fn all_versions_well_formed(versions: Seq<VersionView>) -> bool {
    forall|i: int| 0 <= i < versions.len() ==> (#[trigger] versions[i]).well_formed()
}

/// A bound as a constraint under the operator `op`, if it is present.
pub open spec fn bound_under(op: Op, bound: Option<VersionView>) -> Seq<(Op, VersionView)> {
    match bound {
        Some(v) => seq![(op, v)],
        None => Seq::empty(),
    }
}

/// Each version of a list as a constraint under the operator `op`.
pub open spec fn list_under(op: Op, versions: Seq<VersionView>) -> Seq<(Op, VersionView)> {
    Seq::new(versions.len(), |i: int| (op, versions[i]))
}

impl RangeView {
    /// Whether every version of the range is well formed.
    pub open spec fn well_formed(self) -> bool {
        &&& (self.min matches Some(v) ==> v.well_formed())
        &&& (self.max matches Some(v) ==> v.well_formed())
        &&& all_versions_well_formed(self.except)
        &&& all_versions_well_formed(self.included)
    }

    /// The range as a list of constraints in the basic operators: the lower
    /// bound under `>=`, the upper bound under `<`, the excluded versions
    /// under `!=` and those admitted by name under `=`.
    pub open spec fn constraints(self) -> Seq<(Op, VersionView)> {
        bound_under(Op::Ge, self.min) + bound_under(Op::Lt, self.max) + list_under(
            Op::Ne,
            self.except,
        ) + list_under(Op::Eq, self.included)
    }

    /// Whether `v` is neither below the lower bound, nor at or above the upper
    /// bound, nor excluded. A bound that is absent asks nothing.
    pub open spec fn within_bounds(self, v: VersionView) -> bool {
        &&& (self.min matches Some(lo) ==> lo.range_le(v))
        &&& (self.max matches Some(hi) ==> v.range_lt(hi))
        &&& !holds(self.except, v)
    }

    /// Whether the range admits `v`: it is admitted by name, or it is within
    /// the bounds. All comparisons are in the range order.
    pub open spec fn contains(self, v: VersionView) -> bool {
        holds(self.included, v) || self.within_bounds(v)
    }

    /// Whether the range is unbounded: it has neither a lower nor an upper
    /// bound.
    pub open spec fn is_any(self) -> bool {
        self.min is None && self.max is None
    }

    /// Whether the bounds do not contradict each other: where both are
    /// present, the lower one is at most the upper one.
    pub open spec fn is_valid(self) -> bool {
        self.min matches Some(lo) ==> (self.max matches Some(hi) ==> lo.range_le(hi))
    }

    /// What the range is written as, piece by piece: the lower bound behind
    /// `>=`, the upper bound behind `<`, each excluded version behind `!=` and
    /// each version admitted by name behind `=`.
    pub open spec fn parts(self) -> Seq<Seq<char>> {
        bound_text(seq!['>', '='], self.min) + bound_text(seq!['<'], self.max) + list_texts(
            seq!['!', '='],
            self.except,
        ) + list_texts(seq!['='], self.included)
    }

    /// The written form of the range: `*` where it is unbounded, else its
    /// pieces with commas between them.
    pub open spec fn render(self) -> Seq<char> {
        if self.is_any() {
            seq!['*']
        } else {
            join(self.parts())
        }
    }

    /// Whether the range names exactly one version: its two bounds are equal
    /// in the range order and that version is not excluded, or one version is
    /// admitted by name and nothing shuts it out.
    pub open spec fn is_exact_match(self) -> bool {
        ||| (self.min matches Some(lo) && self.max matches Some(hi) && lo.range_eq(hi) && !holds(
            self.except,
            lo,
        ))
        ||| (self.included.len() == 1 && self.within_bounds(self.included[0]))
    }
}

/// The versions that a list constrains with the operator `op`, in the order of
/// the list.
pub open spec fn versions_with(cs: Seq<(Op, VersionView)>, op: Op) -> Seq<VersionView>
    decreases cs.len(),
{
    if cs.len() == 0 {
        Seq::empty()
    } else if cs.last().0 == op {
        versions_with(cs.drop_last(), op).push(cs.last().1)
    } else {
        versions_with(cs.drop_last(), op)
    }
}

/// The last of a list, if there is one.
pub open spec fn last_of(versions: Seq<VersionView>) -> Option<VersionView> {
    if versions.len() > 0 {
        Some(versions.last())
    } else {
        None
    }
}

/// The first of a list, if there is one.
pub open spec fn first_of(versions: Seq<VersionView>) -> Option<VersionView> {
    if versions.len() > 0 {
        Some(versions.first())
    } else {
        None
    }
}

/// The range that a list of constraints denotes.
///
/// The constraints are expanded into the basic operators and sorted by
/// version. Every constraint has to hold, so the lower bound is the highest
/// of the versions under `>=` and the upper bound the lowest of those under
/// `<`; of several that are equal in the range order, the one that stood last
/// is the lower bound and the one that stood first is the upper bound. The
/// versions under `!=` are excluded and those under `=` are admitted, both in
/// sorted order.
pub open spec fn range_of(cs: Seq<(Op, VersionView)>) -> RangeView {
    let sorted = sort_by_version(expand_all(cs));
    RangeView {
        min: last_of(versions_with(sorted, Op::Ge)),
        max: first_of(versions_with(sorted, Op::Lt)),
        except: versions_with(sorted, Op::Ne),
        included: versions_with(sorted, Op::Eq),
    }
}

/// A range of versions: a lower bound that is inside, an upper bound that is
/// outside, versions that are excluded and versions that are admitted by name.
/// Its value never changes.
#[derive(Debug, PartialEq, Eq)]
pub struct Range {
    min: Option<Version>,
    max: Option<Version>,
    except: Vec<Version>,
    included: Vec<Version>,
}

/// The model of a version that may be absent.
pub open spec fn view_of(version: Option<Version>) -> Option<VersionView> {
    match version {
        Some(v) => Some(v@),
        None => None,
    }
}

impl View for Range {
    type V = RangeView;

    closed spec fn view(&self) -> RangeView {
        RangeView {
            min: view_of(self.min),
            max: view_of(self.max),
            except: self.except.deep_view(),
            included: self.included.deep_view(),
        }
    }
}

/// The versions of a list of constraints, sorted into one list for each
/// operator.
pub struct OpGroups {
    eq: Vec<Version>,
    ne: Vec<Version>,
    gt: Vec<Version>,
    lt: Vec<Version>,
    ge: Vec<Version>,
    le: Vec<Version>,
    tilde: Vec<Version>,
    caret: Vec<Version>,
}

impl OpGroups {
    /// The versions that stand under the operator `op`.
    pub closed spec fn group(&self, op: Op) -> Seq<VersionView> {
        match op {
            Op::Eq => self.eq.deep_view(),
            Op::Ne => self.ne.deep_view(),
            Op::Gt => self.gt.deep_view(),
            Op::Lt => self.lt.deep_view(),
            Op::Ge => self.ge.deep_view(),
            Op::Le => self.le.deep_view(),
            Op::Tilde => self.tilde.deep_view(),
            Op::Caret => self.caret.deep_view(),
        }
    }

    /// The versions that stand under the operator `op`.
    pub fn get(&self, op: Op) -> (versions: &Vec<Version>)
        ensures
            versions.deep_view() == self.group(op),
    {
        match op {
            Op::Eq => &self.eq,
            Op::Ne => &self.ne,
            Op::Gt => &self.gt,
            Op::Lt => &self.lt,
            Op::Ge => &self.ge,
            Op::Le => &self.le,
            Op::Tilde => &self.tilde,
            Op::Caret => &self.caret,
        }
    }
}

fn list_holds(list: &Vec<Version>, version: &Version) -> (found: bool)
    ensures
        found == holds(list.deep_view(), version@),
{
    let mut i: usize = 0;
    while i < list.len()
        invariant
            i <= list.len(),
            forall|k: int| 0 <= k < i ==> !(#[trigger] list.deep_view()[k]).range_eq(version@),
        decreases list.len() - i,
    {
        if list[i].range_eq(version) {
            assert(list.deep_view()[i as int].range_eq(version@));
            return true;
        }
        i += 1;
    }
    false
}

/// Writes one more piece at the end of `out`, behind a comma unless it is the
/// first.
fn push_part(out: &mut String, first: bool, mark: &str, version: &Version)
    ensures
        final(out)@ == old(out)@ + (if first {
            Seq::<char>::empty()
        } else {
            seq![',']
        }) + (mark@ + version@.render()),
{
    if !first {
        proof {
            reveal_strlit(",");
        }
        out.append(",");
        assert(","@ =~= seq![',']);
    }
    let ghost before = out@;
    out.append(mark);
    let text = version.to_string();
    out.append(text.as_str());
    assert(out@ =~= before + (mark@ + version@.render()));
    assert(first ==> before =~= old(out)@ + Seq::<char>::empty());
}

/// A list of texts with one more behind it is joined by a comma and the new
/// text, or is the new text alone.
proof fn lemma_join_push(parts: Seq<Seq<char>>, part: Seq<char>)
    ensures
        join(parts.push(part)) == join(parts) + (if parts.len() == 0 {
            Seq::<char>::empty()
        } else {
            seq![',']
        }) + part,
{
    assert(parts.push(part).drop_last() =~= parts);
    if parts.len() == 0 {
        assert(join(parts.push(part)) =~= join(parts) + Seq::<char>::empty() + part);
    }
}

fn push_list(out: &mut String, first: &mut bool, mark: &str, versions: &Vec<Version>, Ghost(
    parts,
): Ghost<Seq<Seq<char>>>)
    requires
        old(out)@ == join(parts),
        *old(first) == (parts.len() == 0),
    ensures
        final(out)@ == join(parts + list_texts(mark@, versions.deep_view())),
        *final(first) == ((parts + list_texts(mark@, versions.deep_view())).len() == 0),
{
    let ghost texts = list_texts(mark@, versions.deep_view());
    let mut i: usize = 0;
    assert(parts + texts.take(0) =~= parts);
    while i < versions.len()
        invariant
            i <= versions.len(),
            texts == list_texts(mark@, versions.deep_view()),
            out@ == join(parts + texts.take(i as int)),
            *first == ((parts + texts.take(i as int)).len() == 0),
        decreases versions.len() - i,
    {
        proof {
            lemma_join_push(parts + texts.take(i as int), texts[i as int]);
            assert((parts + texts.take(i as int)).push(texts[i as int]) =~= parts + texts.take(
                i + 1,
            ));
        }
        push_part(out, *first, mark, &versions[i]);
        *first = false;
        i += 1;
    }
    assert(texts.take(versions.len() as int) =~= texts);
}

impl Range {
    /// Sorts the versions of a list of constraints into one list for each
    /// operator. Within a list they keep their order.
    pub fn separate_ops(ranges: Vec<(Op, Version)>) -> (groups: OpGroups)
        ensures
            forall|op: Op| #[trigger] groups.group(op) == versions_with(ranges.deep_view(), op),
    {
        let ghost given = ranges.deep_view();
        let mut groups = OpGroups {
            eq: Vec::new(),
            ne: Vec::new(),
            gt: Vec::new(),
            lt: Vec::new(),
            ge: Vec::new(),
            le: Vec::new(),
            tilde: Vec::new(),
            caret: Vec::new(),
        };
        assert(given.take(0) =~= Seq::empty());
        assert forall|op: Op| #[trigger] groups.group(op) == versions_with(given.take(0), op) by {
            assert(groups.group(op) =~= Seq::empty());
        }
        for constraint in it: ranges
            invariant
                it.seq().len() == given.len(),
                forall|i: int|
                    0 <= i < given.len() ==> given[i] == (
                        (#[trigger] it.seq()[i]).0,
                        it.seq()[i].1@,
                    ),
                forall|op: Op| #[trigger]
                    groups.group(op) == versions_with(given.take(it.index() as int), op),
        {
            let ghost done = given.take(it.index() as int);
            let ghost next = given.take(it.index() + 1);
            let ghost old_groups = groups;
            let (op, version) = constraint;
            let ghost v = version@;
            assert(next.drop_last() =~= done);
            assert(next.last() == (op, v));
            match op {
                Op::Eq => groups.eq.push(version),
                Op::Ne => groups.ne.push(version),
                Op::Gt => groups.gt.push(version),
                Op::Lt => groups.lt.push(version),
                Op::Ge => groups.ge.push(version),
                Op::Le => groups.le.push(version),
                Op::Tilde => groups.tilde.push(version),
                Op::Caret => groups.caret.push(version),
            }
            assert forall|other: Op| #[trigger]
                groups.group(other) == versions_with(next, other) by {
                assert(old_groups.group(other) == versions_with(done, other));
                if other == op {
                    assert(groups.group(other) =~= old_groups.group(other).push(v));
                } else {
                    assert(groups.group(other) =~= old_groups.group(other));
                }
            }
        }
        assert(given.take(given.len() as int) =~= given);
        groups
    }

    /// The range that a list of constraints denotes. A list that contradicts
    /// itself gives a range that is not valid, not a failure.
    pub fn from_ver_vec(ranges: Vec<(Op, Version)>) -> (range: Self)
        requires
            all_expandable(ranges.deep_view()),
        ensures
            range@ == range_of(ranges.deep_view()),
    {
        let sorted = Self::sort_vec(ranges);
        let groups = Self::separate_ops(sorted);
        let ghost lower = groups.group(Op::Ge);
        let ghost upper = groups.group(Op::Lt);
        let ghost out = groups.group(Op::Ne);
        let ghost named = groups.group(Op::Eq);
        let OpGroups { eq: included, ne: except, lt: mut above, ge: mut below, .. } = groups;
        let min = below.pop();
        let max = if above.len() > 0 {
            Some(above.swap_remove(0))
        } else {
            None
        };
        assert(view_of(min) == last_of(lower));
        assert(view_of(max) == first_of(upper));
        assert(except.deep_view() == out && included.deep_view() == named);
        Range { min, max, except, included }
    }

    /// The lower bound, which is inside the range.
    pub fn min(&self) -> (bound: &Option<Version>)
        ensures
            view_of(*bound) == self@.min,
    {
        &self.min
    }

    /// The upper bound, which is outside the range.
    pub fn max(&self) -> (bound: &Option<Version>)
        ensures
            view_of(*bound) == self@.max,
    {
        &self.max
    }

    /// The versions that are excluded.
    pub fn except(&self) -> (versions: &Vec<Version>)
        ensures
            versions.deep_view() == self@.except,
    {
        &self.except
    }

    /// The versions that are admitted by name.
    pub fn included(&self) -> (versions: &Vec<Version>)
        ensures
            versions.deep_view() == self@.included,
    {
        &self.included
    }

    /// Whether the range admits `version`.
    pub fn contains(&self, version: Version) -> (inside: bool)
        ensures
            inside == self@.contains(version@),
    {
        if list_holds(&self.included, &version) {
            return true;
        }
        let above = match &self.min {
            Some(lo) => lo.range_le(&version),
            None => true,
        };
        let below = match &self.max {
            Some(hi) => version.range_lt(hi),
            None => true,
        };
        above && below && !list_holds(&self.except, &version)
    }

    /// Whether the range is unbounded.
    pub fn is_any(&self) -> (any: bool)
        ensures
            any == self@.is_any(),
    {
        self.min.is_none() && self.max.is_none()
    }

    /// Whether the bounds do not contradict each other. What `contains` says
    /// of a range that is not valid means nothing.
    pub fn is_valid(&self) -> (valid: bool)
        ensures
            valid == self@.is_valid(),
    {
        match (&self.min, &self.max) {
            (Some(lo), Some(hi)) => lo.range_le(hi),
            _ => true,
        }
    }

    /// Whether the range names exactly one version.
    pub fn is_exact_match(&self) -> (exact: bool)
        ensures
            exact == self@.is_exact_match(),
    {
        let closed = match (&self.min, &self.max) {
            (Some(lo), Some(hi)) => lo.range_eq(hi) && !list_holds(&self.except, lo),
            _ => false,
        };
        if closed {
            return true;
        }
        if self.included.len() != 1 {
            return false;
        }
        let named = &self.included[0];
        let above = match &self.min {
            Some(lo) => lo.range_le(named),
            None => true,
        };
        let below = match &self.max {
            Some(hi) => named.range_lt(hi),
            None => true,
        };
        above && below && !list_holds(&self.except, named)
    }

    /// The written form of the range.
    pub fn to_string(&self) -> (text: String)
        ensures
            text@ == self@.render(),
    {
        proof {
            reveal_strlit("*");
            reveal_strlit(">=");
            reveal_strlit("<");
            reveal_strlit("!=");
            reveal_strlit("=");
        }
        if self.is_any() {
            assert("*"@ =~= seq!['*']);
            return String::from_str("*");
        }
        assert(">="@ =~= seq!['>', '=']);
        assert("<"@ =~= seq!['<']);
        assert("!="@ =~= seq!['!', '=']);
        assert("="@ =~= seq!['=']);
        let mut out = String::new();
        let mut first = true;
        let ghost lower = bound_text(">="@, self@.min);
        let ghost upper = bound_text("<"@, self@.max);
        assert(join(Seq::<Seq<char>>::empty()) =~= out@);
        match &self.min {
            Some(lo) => {
                proof {
                    lemma_join_push(Seq::empty(), ">="@ + lo@.render());
                    assert(Seq::<Seq<char>>::empty().push(">="@ + lo@.render()) =~= lower);
                }
                push_part(&mut out, first, ">=", lo);
                first = false;
            },
            None => {},
        }
        assert(out@ == join(lower));
        match &self.max {
            Some(hi) => {
                proof {
                    lemma_join_push(lower, "<"@ + hi@.render());
                    assert(lower.push("<"@ + hi@.render()) =~= lower + upper);
                }
                push_part(&mut out, first, "<", hi);
                first = false;
            },
            None => {
                assert(lower =~= lower + upper);
            },
        }
        assert(out@ == join(lower + upper));
        push_list(&mut out, &mut first, "!=", &self.except, Ghost(lower + upper));
        push_list(
            &mut out,
            &mut first,
            "=",
            &self.included,
            Ghost(lower + upper + list_texts("!="@, self@.except)),
        );
        out
    }

    /// Reads a range: one or more constraints, with blanks, commas or
    /// semicolons between them. A constraint whose bound on the other side
    /// cannot be written in numbers of 32 bits is rejected like any text that
    /// is no range.
    pub fn parse(range: &str) -> (result: Result<Self, ParseError>)
        ensures
            match result {
                Ok(r) => constraints_of_text(range@) matches Some(cs) && all_expandable(cs)
                    && r@ == range_of(cs),
                Err(e) => e == ParseError::Range && (constraints_of_text(range@) matches Some(cs)
                    ==> !all_expandable(cs)),
            },
    {
        let constraints = match parse_range(range) {
            Ok(constraints) => constraints,
            Err(_) => { return Err(ParseError::Range); },
        };
        if !Self::is_expandable(&constraints) {
            return Err(ParseError::Range);
        }
        Ok(Self::from_ver_vec(constraints))
    }
}

} // verus!
