//! Properties of the layout tree that hold across its operations.

use vstd::prelude::*;

use super::rects::{PaneId, Rect, SplitDir};
use super::tree::{
    clamp_ratio, rect_fits, rect_within, rects_disjoint, split_parts, too_small, LayoutNode,
    MAX_RATIO, MIN_RATIO,
};

verus! {

broadcast use vstd::seq_lib::group_seq_properties;

/// The leaves that differ from `target`, in order.
pub open spec fn leaves_without(s: Seq<PaneId>, target: PaneId) -> Seq<PaneId> {
    s.filter(|x: PaneId| x != target)
}

/// Removing a pane keeps every other leaf, in order, and nothing else; the
/// tree vanishes exactly when every leaf was that pane.
pub proof fn lemma_without_leaves(n: LayoutNode, target: PaneId)
    ensures
        n.without(target) is None <==> leaves_without(n.leaves(), target).len() == 0,
        n.without(target) matches Some(m) ==> m.leaves() == leaves_without(n.leaves(), target),
    decreases n,
{
    let pred = |x: PaneId| x != target;
    match n {
        LayoutNode::Leaf(id) => {
            reveal_with_fuel(Seq::filter, 2);
            assert(seq![id].drop_last() =~= Seq::<PaneId>::empty());
        },
        LayoutNode::Split { a, b, .. } => {
            lemma_without_leaves(*a, target);
            lemma_without_leaves(*b, target);
            Seq::filter_distributes_over_add(a.leaves(), b.leaves(), pred);
        },
    }
}

/// Replacing the leftmost leaf `target` splices the replacement's leaves in
/// its place and leaves every other leaf where it was.
pub proof fn lemma_replaced_leaves(n: LayoutNode, target: PaneId, repl: LayoutNode)
    requires
        n.leaves().contains(target),
    ensures
        n.replaced(target, repl).0.leaves() == n.leaves().take(n.leaves().index_of_first(target)->0)
            + repl.leaves() + n.leaves().skip(n.leaves().index_of_first(target)->0 + 1),
    decreases n,
{
    let s = n.leaves();
    lemma_first_index(s, target);
    match n {
        LayoutNode::Leaf(id) => {
            assert(s[0] == id);
            assert(s.index_of_first(target)->0 == 0);
            assert(s.take(0) =~= Seq::<PaneId>::empty());
            assert(s.skip(1) =~= Seq::<PaneId>::empty());
            assert(Seq::<PaneId>::empty() + repl.leaves() + Seq::<PaneId>::empty() =~= repl.leaves());
        },
        LayoutNode::Split { a, b, .. } => {
            let sa = a.leaves();
            let sb = b.leaves();
            assert(s == sa + sb);
            lemma_replaced_found_law(*a, target, repl);
            if sa.contains(target) {
                lemma_replaced_leaves(*a, target, repl);
                lemma_first_index(sa, target);
                let i = sa.index_of_first(target)->0;
                assert(s[i] == target);
                assert forall|j: int| 0 <= j < i implies s[j] != target by {
                    assert(s[j] == sa[j]);
                }
                lemma_index_of_is(s, target, i);
                assert(s.take(i) =~= sa.take(i));
                assert(s.skip(i + 1) =~= sa.skip(i + 1) + sb);
                assert(sa.take(i) + repl.leaves() + sa.skip(i + 1) + sb =~= s.take(i) + repl.leaves()
                    + s.skip(i + 1));
            } else {
                assert(sb.contains(target)) by {
                    let k = choose|k: int| 0 <= k < s.len() && s[k] == target;
                    if k < sa.len() {
                        assert(sa[k] == target);
                    } else {
                        assert(sb[k - sa.len()] == target);
                    }
                }
                lemma_replaced_leaves(*b, target, repl);
                lemma_first_index(sb, target);
                let i = sb.index_of_first(target)->0;
                let j = sa.len() + i;
                assert(s[j] == target);
                assert forall|k: int| 0 <= k < j implies s[k] != target by {
                    if k < sa.len() {
                        assert(s[k] == sa[k]);
                    } else {
                        assert(s[k] == sb[k - sa.len()]);
                    }
                }
                lemma_index_of_is(s, target, j);
                assert(s.take(j) =~= sa + sb.take(i));
                assert(s.skip(j + 1) =~= sb.skip(i + 1));
                assert(sa + (sb.take(i) + repl.leaves() + sb.skip(i + 1)) =~= s.take(j) + repl.leaves()
                    + s.skip(j + 1));
            }
        },
    }
}

proof fn lemma_replaced_found_law(n: LayoutNode, target: PaneId, repl: LayoutNode)
    ensures
        n.replaced(target, repl).1 == n.leaves().contains(target),
    decreases n,
{
    match n {
        LayoutNode::Leaf(id) => {
            assert(n.leaves()[0] == id);
        },
        LayoutNode::Split { a, b, .. } => {
            lemma_replaced_found_law(*a, target, repl);
            lemma_replaced_found_law(*b, target, repl);
            let s = a.leaves() + b.leaves();
            if s.contains(target) {
                let k = choose|k: int| 0 <= k < s.len() && s[k] == target;
                if k < a.leaves().len() {
                    assert(a.leaves()[k] == target);
                } else {
                    assert(b.leaves()[k - a.leaves().len()] == target);
                }
            }
            if a.leaves().contains(target) {
                let k = choose|k: int| 0 <= k < a.leaves().len() && a.leaves()[k] == target;
                assert(s[k] == target);
            }
            if b.leaves().contains(target) {
                let k = choose|k: int| 0 <= k < b.leaves().len() && b.leaves()[k] == target;
                assert(s[a.leaves().len() + k] == target);
            }
        },
    }
}

proof fn lemma_first_index(s: Seq<PaneId>, x: PaneId)
    requires
        s.contains(x),
    ensures
        0 <= s.index_of_first(x)->0 < s.len(),
        s[s.index_of_first(x)->0] == x,
        forall|j: int| 0 <= j < s.index_of_first(x)->0 ==> s[j] != x,
{
    s.index_of_first_ensures(x);
}

proof fn lemma_index_of_is(s: Seq<PaneId>, x: PaneId, i: int)
    requires
        0 <= i < s.len(),
        s[i] == x,
        forall|j: int| 0 <= j < i ==> s[j] != x,
    ensures
        s.index_of_first(x)->0 == i,
{
    assert(s.contains(x));
    lemma_first_index(s, x);
    let k = s.index_of_first(x)->0;
    if k < i {
        assert(s[k] != x);
    }
    if k > i {
        assert(s[i] != x);
    }
}

/// Resizing never changes which panes the tree holds nor their order, keeps
/// every ratio in range, and reports whether the pane is in the tree.
pub proof fn lemma_adjusted_shape(n: LayoutNode, target: PaneId, axis: SplitDir, delta: int, done: bool)
    requires
        n.ratios_in_range(),
    ensures
        n.adjusted(target, axis, delta, done).0.leaves() == n.leaves(),
        n.adjusted(target, axis, delta, done).0.ratios_in_range(),
        n.adjusted(target, axis, delta, done).2 == n.leaves().contains(target),
        done ==> n.adjusted(target, axis, delta, done).1,
    decreases n,
{
    match n {
        LayoutNode::Leaf(id) => {
            assert(n.leaves()[0] == id);
            if n.leaves().contains(target) {
                let k = choose|k: int| 0 <= k < n.leaves().len() && n.leaves()[k] == target;
            }
        },
        LayoutNode::Split { dir, ratio, a, b } => {
            let (na, d1, in_a) = a.adjusted(target, axis, delta, done);
            lemma_adjusted_shape(*a, target, axis, delta, done);
            lemma_adjusted_shape(*b, target, axis, delta, d1);
            let s = a.leaves() + b.leaves();
            if s.contains(target) {
                let k = choose|k: int| 0 <= k < s.len() && s[k] == target;
                if k < a.leaves().len() {
                    assert(a.leaves()[k] == target);
                } else {
                    assert(b.leaves()[k - a.leaves().len()] == target);
                }
            }
            if a.leaves().contains(target) {
                let k = choose|k: int| 0 <= k < a.leaves().len() && a.leaves()[k] == target;
                assert(s[k] == target);
            }
            if b.leaves().contains(target) {
                let k = choose|k: int| 0 <= k < b.leaves().len() && b.leaves()[k] == target;
                assert(s[a.leaves().len() + k] == target);
            }
            let v = ratio + if in_a { delta } else { -delta };
            assert(MIN_RATIO <= clamp_ratio(v) <= MAX_RATIO);
        },
    }
}

/// Every pane is laid out inside the rectangle the tree is given.
pub proof fn lemma_layout_within(n: LayoutNode, rect: Rect)
    requires
        rect_fits(rect),
    ensures
        forall|k: int|
            0 <= k < n.layout_rects(rect).len() ==> rect_within(#[trigger] n.layout_rects(rect)[k].1, rect),
    decreases n,
{
    match n {
        LayoutNode::Leaf(id) => {
            assert(n.layout_rects(rect) =~= seq![(id, rect)]);
        },
        LayoutNode::Split { dir, ratio, a, b } => {
            if too_small(rect, dir) {
                lemma_layout_within(*a, rect);
                assert(n.layout_rects(rect) == a.layout_rects(rect));
            } else {
                let (ra, rb, _) = split_parts(rect, dir, ratio as int);
                lemma_layout_within(*a, ra);
                lemma_layout_within(*b, rb);
                let sa = a.layout_rects(ra);
                let sb = b.layout_rects(rb);
                assert(n.layout_rects(rect) == sa + sb);
                assert(rect_within(ra, rect));
                assert(rect_within(rb, rect));
                assert forall|k: int| 0 <= k < (sa + sb).len() implies rect_within(#[trigger] (sa + sb)[k].1, rect) by {
                    if k < sa.len() {
                        assert((sa + sb)[k] == sa[k]);
                    } else {
                        assert((sa + sb)[k] == sb[k - sa.len()]);
                    }
                }
            }
        },
    }
}

/// No two panes laid out by the tree overlap.
pub proof fn lemma_layout_disjoint(n: LayoutNode, rect: Rect)
    requires
        rect_fits(rect),
    ensures
        forall|j: int, k: int|
            0 <= j < k < n.layout_rects(rect).len() ==> rects_disjoint(
                #[trigger] n.layout_rects(rect)[j].1,
                #[trigger] n.layout_rects(rect)[k].1,
            ),
    decreases n,
{
    match n {
        LayoutNode::Leaf(id) => {
            assert(n.layout_rects(rect) =~= seq![(id, rect)]);
        },
        LayoutNode::Split { dir, ratio, a, b } => {
            if too_small(rect, dir) {
                lemma_layout_disjoint(*a, rect);
                assert(n.layout_rects(rect) == a.layout_rects(rect));
            } else {
                let (ra, rb, _) = split_parts(rect, dir, ratio as int);
                lemma_layout_disjoint(*a, ra);
                lemma_layout_disjoint(*b, rb);
                lemma_layout_within(*a, ra);
                lemma_layout_within(*b, rb);
                let sa = a.layout_rects(ra);
                let sb = b.layout_rects(rb);
                let s = sa + sb;
                assert(n.layout_rects(rect) == s);
                assert forall|j: int, k: int| 0 <= j < k < s.len() implies rects_disjoint(
                    #[trigger] s[j].1,
                    #[trigger] s[k].1,
                ) by {
                    if k < sa.len() {
                        assert(s[j] == sa[j]);
                        assert(s[k] == sa[k]);
                    } else if j >= sa.len() {
                        assert(s[j] == sb[j - sa.len()]);
                        assert(s[k] == sb[k - sa.len()]);
                    } else {
                        assert(s[j] == sa[j]);
                        assert(s[k] == sb[k - sa.len()]);
                        assert(rect_within(sa[j].1, ra));
                        assert(rect_within(sb[k - sa.len()].1, rb));
                    }
                }
            }
        },
    }
}

/// Every pane that is laid out is a leaf of the tree.
pub proof fn lemma_layout_panes_are_leaves(n: LayoutNode, rect: Rect)
    ensures
        forall|k: int|
            0 <= k < n.layout_rects(rect).len() ==> n.leaves().contains(
                #[trigger] n.layout_rects(rect)[k].0,
            ),
    decreases n,
{
    match n {
        LayoutNode::Leaf(id) => {
            assert(n.leaves()[0] == id);
        },
        LayoutNode::Split { dir, ratio, a, b } => {
            let s = a.leaves() + b.leaves();
            if too_small(rect, dir) {
                lemma_layout_panes_are_leaves(*a, rect);
                assert forall|k: int| 0 <= k < a.layout_rects(rect).len() implies s.contains(
                    #[trigger] a.layout_rects(rect)[k].0,
                ) by {
                    let id = a.layout_rects(rect)[k].0;
                    let i = choose|i: int| 0 <= i < a.leaves().len() && a.leaves()[i] == id;
                    assert(s[i] == id);
                }
            } else {
                let (ra, rb, _) = split_parts(rect, dir, ratio as int);
                lemma_layout_panes_are_leaves(*a, ra);
                lemma_layout_panes_are_leaves(*b, rb);
                let sa = a.layout_rects(ra);
                let sb = b.layout_rects(rb);
                assert forall|k: int| 0 <= k < (sa + sb).len() implies s.contains(
                    #[trigger] (sa + sb)[k].0,
                ) by {
                    if k < sa.len() {
                        let id = sa[k].0;
                        let i = choose|i: int| 0 <= i < a.leaves().len() && a.leaves()[i] == id;
                        assert(s[i] == id);
                    } else {
                        let id = sb[k - sa.len()].0;
                        let i = choose|i: int| 0 <= i < b.leaves().len() && b.leaves()[i] == id;
                        assert(s[a.leaves().len() + i] == id);
                    }
                }
            }
        },
    }
}

} // verus!
