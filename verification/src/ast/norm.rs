//! The canonical form of a tree, as a mathematical function, together with
//! the laws the canonicalization obeys.

use vstd::prelude::*;
use vstd::assert_multisets_equal;

use crate::ast::repeat::normalize_kind;
use crate::ast::wf_seq;
use crate::ast::wf_view;
use crate::ast::AstView;
use crate::ast::ByteRange;
use crate::ast::RepeatKind;

verus! {

/// Whether a range sequence is sorted ascending by `start`.
pub open spec fn sorted_by_start(ranges: Seq<ByteRange>) -> bool {
    forall|i: int, j: int| 0 <= i < j < ranges.len() ==> ranges[i].start <= ranges[j].start
}

/// Insert `range` into `sorted` from the right: it lands after every
/// element whose `start` is not greater than its own, which keeps a sort
/// built from repeated insertion stable.
pub open spec fn insert_by_start(sorted: Seq<ByteRange>, range: ByteRange) -> Seq<ByteRange>
    decreases sorted.len(),
{
    if sorted.len() == 0 {
        seq![range]
    } else if sorted.last().start > range.start {
        insert_by_start(sorted.drop_last(), range).push(sorted.last())
    } else {
        sorted.push(range)
    }
}

/// Stable insertion sort ascending by `start`: ranges with equal `start`
/// keep their original relative order.
pub open spec fn sort_by_start(ranges: Seq<ByteRange>) -> Seq<ByteRange>
    decreases ranges.len(),
{
    if ranges.len() == 0 {
        ranges
    } else {
        insert_by_start(sort_by_start(ranges.drop_last()), ranges.last())
    }
}

/// The canonical form of a tree shape.
///
/// Children are canonicalized first; then a class is sorted by range start,
/// a singleton alternation or concatenation collapses into its child, a
/// degenerate repetition kind is folded, a zero-repetition node becomes
/// `Empty`, and a one-repetition node becomes its (canonicalized) child.
/// A group keeps its wrapper no matter what its child becomes.
pub open spec fn normalize_view(v: AstView) -> AstView
    decreases v,
{
    match v {
        AstView::Empty => v,
        AstView::Dot => v,
        AstView::Lit(_) => v,
        AstView::Class(ranges) => AstView::Class(sort_by_start(ranges)),
        AstView::Alt(children) => if children.len() == 1 {
            normalize_view(children[0])
        } else {
            AstView::Alt(normalize_seq(children))
        },
        AstView::Concat(children) => if children.len() == 1 {
            normalize_view(children[0])
        } else {
            AstView::Concat(normalize_seq(children))
        },
        AstView::Group(child) => AstView::Group(normalize_seq(child)),
        AstView::Repeat(kind, child) => {
            let folded = normalize_kind(kind);
            if folded == RepeatKind::Exact(0) {
                AstView::Empty
            } else if folded == RepeatKind::Exact(1) && child.len() == 1 {
                normalize_view(child[0])
            } else {
                AstView::Repeat(folded, normalize_seq(child))
            }
        },
    }
}

/// The canonical form of every shape in a sequence, in order.
pub open spec fn normalize_seq(vs: Seq<AstView>) -> Seq<AstView>
    decreases vs,
{
    if vs.len() == 0 {
        Seq::empty()
    } else {
        normalize_seq(vs.drop_last()).push(normalize_view(vs.last()))
    }
}

/// `normalize_seq` maps the sequence elementwise.
pub proof fn lemma_normalize_seq_index(vs: Seq<AstView>)
    ensures
        normalize_seq(vs).len() == vs.len(),
        forall|i: int|
            #![trigger normalize_seq(vs)[i]]
            0 <= i < vs.len() ==> normalize_seq(vs)[i] == normalize_view(vs[i]),
    decreases vs,
{
    if vs.len() > 0 {
        lemma_normalize_seq_index(vs.drop_last());
    }
}

/// Where the scan from the right stops is exactly where [`insert_by_start`]
/// places the new range.
pub(crate) proof fn lemma_insert_by_start_at(s: Seq<ByteRange>, range: ByteRange, k: int)
    requires
        0 <= k <= s.len(),
        forall|j: int| k <= j < s.len() ==> s[j].start > range.start,
        k > 0 ==> s[k - 1].start <= range.start,
    ensures
        insert_by_start(s, range) == s.insert(k, range),
    decreases s.len(),
{
    if k == s.len() {
        assert(insert_by_start(s, range) =~= s.insert(k, range));
    } else {
        lemma_insert_by_start_at(s.drop_last(), range, k);
        assert(insert_by_start(s, range) =~= s.insert(k, range));
    }
}

/// The index at which [`insert_by_start`] places a new range: right after
/// every element whose `start` is not greater than the new one's.
pub open spec fn insert_pos(s: Seq<ByteRange>, range: ByteRange) -> int
    decreases s.len(),
{
    if s.len() == 0 {
        0
    } else if s.last().start > range.start {
        insert_pos(s.drop_last(), range)
    } else {
        s.len() as int
    }
}

/// The defining facts of [`insert_pos`], and that [`insert_by_start`] is a
/// plain sequence insertion at that index.
pub proof fn lemma_insert_pos(s: Seq<ByteRange>, range: ByteRange)
    ensures
        0 <= insert_pos(s, range) <= s.len(),
        forall|j: int| insert_pos(s, range) <= j < s.len() ==> s[j].start > range.start,
        insert_pos(s, range) > 0 ==> s[insert_pos(s, range) - 1].start <= range.start,
        insert_by_start(s, range) == s.insert(insert_pos(s, range), range),
    decreases s.len(),
{
    if s.len() > 0 && s.last().start > range.start {
        lemma_insert_pos(s.drop_last(), range);
        assert forall|j: int| insert_pos(s, range) <= j < s.len() implies s[j].start
            > range.start by {
            if j < s.len() - 1 {
                assert(s.drop_last()[j] == s[j]);
            }
        }
    }
    lemma_insert_by_start_at(s, range, insert_pos(s, range));
}

/// Inserting into a sorted sequence keeps it sorted.
pub proof fn lemma_insert_by_start_sorted(s: Seq<ByteRange>, range: ByteRange)
    requires
        sorted_by_start(s),
    ensures
        sorted_by_start(insert_by_start(s, range)),
        insert_by_start(s, range).len() == s.len() + 1,
{
    lemma_insert_pos(s, range);
    let p = insert_pos(s, range);
    s.insert_ensures(p, range);
    let t = s.insert(p, range);
    assert forall|i: int, j: int| 0 <= i < j < t.len() implies t[i].start <= t[j].start by {
        if i < p && j < p {
            assert(t[i] == s[i] && t[j] == s[j]);
        } else if i < p && j == p {
            assert(t[i] == s[i] && t[j] == range);
            assert(s[p - 1].start <= range.start);
        } else if i < p && j > p {
            assert(t[i] == s[i] && t[j] == s[j - 1]);
        } else if i == p {
            assert(t[i] == range && t[j] == s[j - 1]);
            assert(s[j - 1].start > range.start);
        } else {
            assert(t[i] == s[i - 1] && t[j] == s[j - 1]);
        }
    }
}

/// Sorting sorts: the result of [`sort_by_start`] is sorted ascending by
/// `start` and has the same length as the input.
pub proof fn lemma_sort_by_start_sorted(ranges: Seq<ByteRange>)
    ensures
        sorted_by_start(sort_by_start(ranges)),
        sort_by_start(ranges).len() == ranges.len(),
    decreases ranges.len(),
{
    if ranges.len() > 0 {
        lemma_sort_by_start_sorted(ranges.drop_last());
        lemma_insert_by_start_sorted(sort_by_start(ranges.drop_last()), ranges.last());
    }
}

/// Inserting adds exactly the new range: the result holds the ranges of
/// the input plus the inserted one, with multiplicity.
pub proof fn lemma_insert_by_start_multiset(s: Seq<ByteRange>, range: ByteRange)
    ensures
        insert_by_start(s, range).to_multiset() == s.to_multiset().insert(range),
{
    broadcast use vstd::seq_lib::group_to_multiset_ensures;

    lemma_insert_pos(s, range);
    let p = insert_pos(s, range);
    s.insert_ensures(p, range);
    let t = s.insert(p, range);
    assert(t.remove(p) =~= s);
    assert(t.remove(p).to_multiset() =~= t.to_multiset().remove(t[p]));
    assert(t.contains(range));
    assert(t.to_multiset().count(range) > 0);
    assert_multisets_equal!(t.to_multiset(), s.to_multiset().insert(range));
}

/// Sorting keeps exactly the ranges of the input, with multiplicity.
pub proof fn lemma_sort_by_start_multiset(ranges: Seq<ByteRange>)
    ensures
        sort_by_start(ranges).to_multiset() == ranges.to_multiset(),
    decreases ranges.len(),
{
    broadcast use vstd::seq_lib::group_to_multiset_ensures;

    if ranges.len() > 0 {
        lemma_sort_by_start_multiset(ranges.drop_last());
        lemma_insert_by_start_multiset(sort_by_start(ranges.drop_last()), ranges.last());
        assert(ranges =~= ranges.drop_last().push(ranges.last()));
        assert(ranges.drop_last().push(ranges.last()).to_multiset() =~= ranges.drop_last()
            .to_multiset().insert(ranges.last()));
    }
}

/// Sorting an already sorted sequence changes nothing.
pub proof fn lemma_sort_by_start_fixpoint(ranges: Seq<ByteRange>)
    requires
        sorted_by_start(ranges),
    ensures
        sort_by_start(ranges) == ranges,
    decreases ranges.len(),
{
    if ranges.len() > 0 {
        let front = ranges.drop_last();
        assert(sorted_by_start(front)) by {
            assert forall|i: int, j: int| 0 <= i < j < front.len() implies front[i].start
                <= front[j].start by {
                assert(front[i] == ranges[i] && front[j] == ranges[j]);
            }
        }
        lemma_sort_by_start_fixpoint(front);
        if front.len() > 0 {
            assert(front.last() == ranges[ranges.len() - 2]);
            assert(front.last().start <= ranges.last().start);
        }
        assert(insert_by_start(front, ranges.last()) =~= ranges);
    }
}

/// Whether a tree shape is already in canonical form: classes are sorted,
/// no alternation or concatenation has exactly one child, no repetition
/// kind is foldable, no repetition repeats zero or one times, and the same
/// holds of every subtree.
pub open spec fn is_canonical(v: AstView) -> bool
    decreases v,
{
    match v {
        AstView::Empty => true,
        AstView::Dot => true,
        AstView::Lit(_) => true,
        AstView::Class(ranges) => sorted_by_start(ranges),
        AstView::Alt(children) => children.len() != 1 && (forall|i: int|
            0 <= i < children.len() ==> is_canonical(#[trigger] children[i])),
        AstView::Concat(children) => children.len() != 1 && (forall|i: int|
            0 <= i < children.len() ==> is_canonical(#[trigger] children[i])),
        AstView::Group(child) => forall|i: int|
            0 <= i < child.len() ==> is_canonical(#[trigger] child[i]),
        AstView::Repeat(kind, child) => normalize_kind(kind) == kind && kind
            != RepeatKind::Exact(0) && !(kind == RepeatKind::Exact(1) && child.len() == 1)
            && (forall|i: int| 0 <= i < child.len() ==> is_canonical(#[trigger] child[i])),
    }
}

/// Whether every shape in a sequence is canonical.
pub open spec fn canonical_seq(vs: Seq<AstView>) -> bool {
    forall|i: int| 0 <= i < vs.len() ==> is_canonical(#[trigger] vs[i])
}

/// Canonicalizing any tree shape yields a canonical one.
pub proof fn lemma_normalize_canonical(v: AstView)
    ensures
        is_canonical(normalize_view(v)),
    decreases v, 1int,
{
    match v {
        AstView::Class(ranges) => {
            lemma_sort_by_start_sorted(ranges);
        },
        AstView::Alt(children) => {
            if children.len() == 1 {
                lemma_normalize_canonical(children[0]);
            } else {
                lemma_normalize_seq_canonical(children);
                lemma_normalize_seq_index(children);
            }
        },
        AstView::Concat(children) => {
            if children.len() == 1 {
                lemma_normalize_canonical(children[0]);
            } else {
                lemma_normalize_seq_canonical(children);
                lemma_normalize_seq_index(children);
            }
        },
        AstView::Group(child) => {
            lemma_normalize_seq_canonical(child);
        },
        AstView::Repeat(kind, child) => {
            let folded = normalize_kind(kind);
            if folded == RepeatKind::Exact(1) && child.len() == 1 {
                lemma_normalize_canonical(child[0]);
            } else {
                lemma_normalize_seq_canonical(child);
                lemma_normalize_seq_index(child);
            }
        },
        _ => {},
    }
}

/// Canonicalizing every shape of a sequence yields canonical ones.
pub proof fn lemma_normalize_seq_canonical(vs: Seq<AstView>)
    ensures
        canonical_seq(normalize_seq(vs)),
    decreases vs, 0int,
{
    lemma_normalize_seq_index(vs);
    assert forall|i: int| 0 <= i < normalize_seq(vs).len() implies #[trigger] is_canonical(
        normalize_seq(vs)[i],
    ) by {
        lemma_normalize_canonical(vs[i]);
    }
}

/// Canonicalizing a canonical tree shape changes nothing.
pub proof fn lemma_canonical_fixpoint(v: AstView)
    requires
        is_canonical(v),
    ensures
        normalize_view(v) == v,
    decreases v, 1int,
{
    match v {
        AstView::Class(ranges) => {
            lemma_sort_by_start_fixpoint(ranges);
        },
        AstView::Alt(children) => {
            lemma_canonical_seq_fixpoint(children);
        },
        AstView::Concat(children) => {
            lemma_canonical_seq_fixpoint(children);
        },
        AstView::Group(child) => {
            lemma_canonical_seq_fixpoint(child);
        },
        AstView::Repeat(kind, child) => {
            lemma_canonical_seq_fixpoint(child);
        },
        _ => {},
    }
}

/// Canonicalizing a sequence of canonical shapes changes nothing.
pub proof fn lemma_canonical_seq_fixpoint(vs: Seq<AstView>)
    requires
        canonical_seq(vs),
    ensures
        normalize_seq(vs) == vs,
    decreases vs, 0int,
{
    lemma_normalize_seq_index(vs);
    assert forall|i: int| 0 <= i < vs.len() implies #[trigger] normalize_seq(vs)[i] == vs[i] by {
        lemma_canonical_fixpoint(vs[i]);
    }
    assert(normalize_seq(vs) =~= vs);
}

/// Canonicalization is idempotent: canonicalizing an already canonical tree
/// is a no-op, so one pass reaches the fixed point.
pub proof fn lemma_normalize_idempotent(v: AstView)
    ensures
        normalize_view(normalize_view(v)) == normalize_view(v),
{
    lemma_normalize_canonical(v);
    lemma_canonical_fixpoint(normalize_view(v));
}

/// Canonicalization preserves well-formedness.
pub proof fn lemma_normalize_wf(v: AstView)
    requires
        wf_view(v),
    ensures
        wf_view(normalize_view(v)),
    decreases v, 1int,
{
    match v {
        AstView::Alt(children) => {
            if children.len() == 1 {
                assert(wf_view(children[0]));
                lemma_normalize_wf(children[0]);
            } else {
                lemma_normalize_seq_wf(children);
                lemma_normalize_seq_index(children);
            }
        },
        AstView::Concat(children) => {
            if children.len() == 1 {
                assert(wf_view(children[0]));
                lemma_normalize_wf(children[0]);
            } else {
                lemma_normalize_seq_wf(children);
                lemma_normalize_seq_index(children);
            }
        },
        AstView::Group(child) => {
            lemma_normalize_seq_wf(child);
            lemma_normalize_seq_index(child);
        },
        AstView::Repeat(kind, child) => {
            let folded = normalize_kind(kind);
            if folded == RepeatKind::Exact(1) && child.len() == 1 {
                assert(wf_view(child[0]));
                lemma_normalize_wf(child[0]);
            } else {
                lemma_normalize_seq_wf(child);
                lemma_normalize_seq_index(child);
            }
        },
        AstView::Class(ranges) => {
            lemma_sort_by_start_sorted(ranges);
        },
        _ => {},
    }
}

/// Canonicalization preserves well-formedness across a sequence.
pub proof fn lemma_normalize_seq_wf(vs: Seq<AstView>)
    requires
        wf_seq(vs),
    ensures
        wf_seq(normalize_seq(vs)),
    decreases vs, 0int,
{
    lemma_normalize_seq_index(vs);
    assert forall|i: int| 0 <= i < normalize_seq(vs).len() implies #[trigger] wf_view(
        normalize_seq(vs)[i],
    ) by {
        assert(wf_view(vs[i]));
        lemma_normalize_wf(vs[i]);
    }
}

/// Repeating anything exactly zero times canonicalizes to `Empty`.
pub proof fn lemma_normalize_repeat_zero(child: Seq<AstView>)
    ensures
        normalize_view(AstView::Repeat(RepeatKind::Exact(0), child)) == AstView::Empty,
{
}

/// Repeating a child exactly once canonicalizes to the canonicalized child.
pub proof fn lemma_normalize_repeat_once(child: AstView)
    ensures
        normalize_view(AstView::Repeat(RepeatKind::Exact(1), seq![child])) == normalize_view(
            child,
        ),
{
    assert(seq![child].len() == 1 && seq![child][0] == child);
}

/// A repetition bounded by the same count on both sides canonicalizes
/// exactly as the corresponding exact repetition does.
pub proof fn lemma_normalize_repeat_folded(n: u32, child: Seq<AstView>)
    ensures
        normalize_view(AstView::Repeat(RepeatKind::Bounded(n, n), child)) == normalize_view(
            AstView::Repeat(RepeatKind::Exact(n), child),
        ),
{
}

/// A singleton alternation canonicalizes to its canonicalized child.
pub proof fn lemma_normalize_alt_singleton(x: AstView)
    ensures
        normalize_view(AstView::Alt(seq![x])) == normalize_view(x),
{
    assert(seq![x].len() == 1 && seq![x][0] == x);
}

/// A singleton concatenation canonicalizes to its canonicalized child.
pub proof fn lemma_normalize_concat_singleton(x: AstView)
    ensures
        normalize_view(AstView::Concat(seq![x])) == normalize_view(x),
{
    assert(seq![x].len() == 1 && seq![x][0] == x);
}

/// Canonicalizing a class sorts its ranges ascending by `start`, keeping
/// exactly the ranges it had, and does nothing else to them.
pub proof fn lemma_normalize_class_sorted(ranges: Seq<ByteRange>)
    ensures
        normalize_view(AstView::Class(ranges)) == AstView::Class(sort_by_start(ranges)),
        sorted_by_start(sort_by_start(ranges)),
        sort_by_start(ranges).to_multiset() == ranges.to_multiset(),
{
    lemma_sort_by_start_sorted(ranges);
    lemma_sort_by_start_multiset(ranges);
}

} // verus!
