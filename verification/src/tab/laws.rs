//! What the tab operations keep and promise across calls: the focus history,
//! the focus chosen after a close, the place of a new pane after a split, and
//! the target of a directional focus move.

use vstd::prelude::*;

use super::{best_target, is_not, last_alive, move_score, recorded, SPLIT_RATIO};
use crate::layout::laws::lemma_replaced_leaves;
use crate::layout::tree::LayoutNode;
use crate::layout::rects::spec_overlap;
use crate::layout::{PaneId, Rect, SplitDir};

verus! {

broadcast use vstd::seq_lib::group_seq_properties;

proof fn lemma_filter_twice(s: Seq<PaneId>, id: PaneId)
    ensures
        s.filter(is_not(id)).filter(is_not(id)) == s.filter(is_not(id)),
    decreases s.len(),
{
    reveal_with_fuel(Seq::filter, 1);
    if s.len() > 0 {
        lemma_filter_twice(s.drop_last(), id);
        let f = s.drop_last().filter(is_not(id));
        if s.last() != id {
            assert(f.push(s.last()).drop_last() =~= f);
        }
    }
}

proof fn lemma_filter_drops(s: Seq<PaneId>, id: PaneId)
    ensures
        !s.filter(is_not(id)).contains(id),
        forall|x: PaneId| x != id ==> (s.filter(is_not(id)).contains(x) <==> s.contains(x)),
{
    assert forall|x: PaneId| x != id implies (s.filter(is_not(id)).contains(x) <==> s.contains(x)) by {
        if s.contains(x) {
            let k = s.index_of(x);
            assert(is_not(id)(s[k]));
            s.lemma_filter_contains(is_not(id), k);
        }
        if s.filter(is_not(id)).contains(x) {
            s.lemma_filter_contains_rev(is_not(id), x);
        }
    }
    if s.filter(is_not(id)).contains(id) {
        let k = s.filter(is_not(id)).index_of(id);
        s.lemma_filter_pred(is_not(id), k);
    }
}

/// Focusing a pane puts it at the recent end of the history exactly once,
/// keeps every other pane of the history, and focusing it again changes
/// nothing more.
pub proof fn lemma_recorded(history: Seq<PaneId>, id: PaneId)
    ensures
        recorded(history, id).last() == id,
        recorded(history, id).drop_last() == history.filter(is_not(id)),
        !recorded(history, id).drop_last().contains(id),
        forall|x: PaneId| x != id ==> (recorded(history, id).contains(x) <==> history.contains(x)),
        recorded(recorded(history, id), id) == recorded(history, id),
{
    let f = history.filter(is_not(id));
    lemma_filter_drops(history, id);
    assert(recorded(history, id).drop_last() =~= f);
    reveal_with_fuel(Seq::filter, 1);
    assert(f.push(id).drop_last() =~= f);
    assert(f.push(id).filter(is_not(id)) == f.filter(is_not(id)));
    lemma_filter_twice(history, id);
}

/// The pane focused after a close is the most recently focused pane that is
/// still alive: it is alive, it is in the history, and no pane focused
/// after it is alive. When no pane of the history is alive there is none.
pub proof fn lemma_last_alive(history: Seq<PaneId>, alive: Seq<PaneId>)
    ensures
        match last_alive(history, alive) {
            Some(id) => {
                &&& alive.contains(id)
                &&& exists|i: int|
                    0 <= i < history.len() && history[i] == id && forall|j: int|
                        i < j < history.len() ==> !alive.contains(#[trigger] history[j])
            },
            None => forall|i: int| 0 <= i < history.len() ==> !alive.contains(#[trigger] history[i]),
        },
    decreases history.len(),
{
    if history.len() > 0 {
        let init = history.drop_last();
        lemma_last_alive(init, alive);
        if alive.contains(history.last()) {
            let i = history.len() - 1;
            assert(history[i] == history.last());
        } else {
            match last_alive(init, alive) {
                Some(id) => {
                    let i = choose|i: int|
                        0 <= i < init.len() && init[i] == id && forall|j: int|
                            i < j < init.len() ==> !alive.contains(#[trigger] init[j]);
                    assert(history[i] == id);
                    assert forall|j: int| i < j < history.len() implies !alive.contains(#[trigger] history[j]) by {
                        if j < init.len() {
                            assert(history[j] == init[j]);
                        }
                    }
                },
                None => {
                    assert forall|i: int| 0 <= i < history.len() implies !alive.contains(#[trigger] history[i]) by {
                        if i < init.len() {
                            assert(history[i] == init[i]);
                        }
                    }
                },
            }
        }
    }
}

/// After pane `target` is closed, the pane chosen for focus from the history
/// without `target` is never `target` and is alive whenever some pane of the
/// history is.
pub proof fn lemma_close_focus(history: Seq<PaneId>, panes: Seq<PaneId>, target: PaneId)
    ensures
        ({
            let h = history.filter(is_not(target));
            let alive = panes.filter(is_not(target));
            match last_alive(h, alive) {
                Some(id) => id != target && panes.contains(id) && history.contains(id),
                None => forall|x: PaneId| x != target && history.contains(x) ==> !panes.contains(x),
            }
        }),
{
    let h = history.filter(is_not(target));
    let alive = panes.filter(is_not(target));
    lemma_filter_drops(history, target);
    lemma_filter_drops(panes, target);
    lemma_last_alive(h, alive);
    match last_alive(h, alive) {
        Some(id) => {
            let i = choose|i: int|
                0 <= i < h.len() && h[i] == id && forall|j: int| i < j < h.len() ==> !alive.contains(#[trigger] h[j]);
            assert(h.contains(id));
        },
        None => {
            assert forall|x: PaneId| x != target && history.contains(x) implies !panes.contains(x) by {
                assert(h.contains(x));
                let k = h.index_of(x);
                assert(!alive.contains(h[k]));
            }
        },
    }
}

/// Splitting the focused pane puts the new pane right after it, in the order
/// of the layout's leaves, and leaves every other pane where it was.
pub proof fn lemma_split_leaves(layout: LayoutNode, focused: PaneId, new_id: PaneId, dir: SplitDir)
    requires
        layout.leaves().contains(focused),
    ensures
        ({
            let repl = LayoutNode::Split {
                dir,
                ratio: SPLIT_RATIO,
                a: Box::new(LayoutNode::Leaf(focused)),
                b: Box::new(LayoutNode::Leaf(new_id)),
            };
            let s = layout.leaves();
            let i = s.index_of_first(focused)->0;
            &&& 0 <= i < s.len()
            &&& s[i] == focused
            &&& layout.replaced(focused, repl).0.leaves() == s.take(i) + seq![focused, new_id] + s.skip(i + 1)
        }),
{
    let repl = LayoutNode::Split {
        dir,
        ratio: SPLIT_RATIO,
        a: Box::new(LayoutNode::Leaf(focused)),
        b: Box::new(LayoutNode::Leaf(new_id)),
    };
    let s = layout.leaves();
    s.index_of_first_ensures(focused);
    lemma_replaced_leaves(layout, focused, repl);
    assert(LayoutNode::Leaf(focused).leaves() =~= seq![focused]);
    assert(LayoutNode::Leaf(new_id).leaves() =~= seq![new_id]);
    assert(repl.leaves() =~= seq![focused, new_id]);
}

/// A directional focus move never targets the focused pane; its target is a
/// laid-out pane lying on the requested side, and no earlier candidate
/// scores higher and no later one scores as high.
pub proof fn lemma_best_target(
    rects: Seq<(PaneId, Rect)>,
    n: int,
    focused: PaneId,
    cur: Rect,
    dir: SplitDir,
    positive: bool,
    weight: int,
)
    requires
        0 <= n <= rects.len(),
    ensures
        match best_target(rects, n, focused, cur, dir, positive, weight) {
            Some((id, score)) => {
                &&& id != focused
                &&& exists|k: int|
                    0 <= k < n && rects[k].0 == id && move_score(cur, rects[k].1, dir, positive, weight) == Some(
                        score,
                    )
                &&& forall|k: int|
                    0 <= k < n && rects[k].0 != focused ==> match #[trigger] move_score(
                        cur,
                        rects[k].1,
                        dir,
                        positive,
                        weight,
                    ) {
                        Some(s) => s <= score,
                        None => true,
                    }
            },
            None => forall|k: int|
                0 <= k < n && rects[k].0 != focused ==> #[trigger] move_score(cur, rects[k].1, dir, positive, weight)
                    is None,
        },
    decreases n,
{
    if n > 0 {
        lemma_best_target(rects, n - 1, focused, cur, dir, positive, weight);
    }
}

/// `r` lies entirely on the requested side of `cur`: left or right of it
/// for a vertical move, above or below it for a horizontal one.
pub open spec fn lies_beyond(cur: Rect, r: Rect, dir: SplitDir, positive: bool) -> bool {
    match (dir, positive) {
        (SplitDir::Vertical, false) => r.x + r.w <= cur.x,
        (SplitDir::Vertical, true) => cur.x + cur.w <= r.x,
        (SplitDir::Horizontal, false) => r.y + r.h <= cur.y,
        (SplitDir::Horizontal, true) => cur.y + cur.h <= r.y,
    }
}

/// The span `r` and `cur` share across the direction of travel: rows for a
/// vertical move, columns for a horizontal one.
pub open spec fn shared_span(cur: Rect, r: Rect, dir: SplitDir) -> int {
    match dir {
        SplitDir::Vertical => spec_overlap(cur.y as int, cur.h as int, r.y as int, r.h as int),
        SplitDir::Horizontal => spec_overlap(cur.x as int, cur.w as int, r.x as int, r.w as int),
    }
}

/// How far `r` lies from `cur` on the requested side.
pub open spec fn distance_beyond(cur: Rect, r: Rect, dir: SplitDir, positive: bool) -> int {
    match (dir, positive) {
        (SplitDir::Vertical, false) => cur.x - (r.x + r.w),
        (SplitDir::Vertical, true) => r.x - (cur.x + cur.w),
        (SplitDir::Horizontal, false) => cur.y - (r.y + r.h),
        (SplitDir::Horizontal, true) => r.y - (cur.y + cur.h),
    }
}

proof fn lemma_move_score_geometry(cur: Rect, r: Rect, dir: SplitDir, positive: bool, weight: int)
    ensures
        shared_span(cur, r, dir) >= 0,
        lies_beyond(cur, r, dir, positive) ==> distance_beyond(cur, r, dir, positive) >= 0,
        move_score(cur, r, dir, positive, weight) == if lies_beyond(cur, r, dir, positive) && shared_span(cur, r, dir)
            > 0 {
            Some(shared_span(cur, r, dir) * weight - distance_beyond(cur, r, dir, positive))
        } else {
            None::<int>
        },
{
    assert(spec_overlap(r.y as int, r.h as int, cur.y as int, cur.h as int) == spec_overlap(
        cur.y as int,
        cur.h as int,
        r.y as int,
        r.h as int,
    ));
    assert(spec_overlap(r.x as int, r.w as int, cur.x as int, cur.w as int) == spec_overlap(
        cur.x as int,
        cur.w as int,
        r.x as int,
        r.w as int,
    ));
}

/// A directional focus move goes to a pane that lies on the requested side
/// and shares some span with the focused pane, and to the nearest one: no
/// candidate sharing as much span lies closer, and (for a positive weight)
/// a candidate sharing more span is passed over only when it lies farther
/// away. When no pane lies on that side sharing span, focus does not move.
pub proof fn lemma_focus_moves_to_nearest(
    rects: Seq<(PaneId, Rect)>,
    focused: PaneId,
    cur: Rect,
    dir: SplitDir,
    positive: bool,
    weight: int,
)
    ensures
        match best_target(rects, rects.len() as int, focused, cur, dir, positive, weight) {
            Some((id, _)) => exists|k: int|
                {
                    &&& 0 <= k < rects.len()
                    &&& rects[k].0 == id
                    &&& id != focused
                    &&& lies_beyond(cur, rects[k].1, dir, positive)
                    &&& shared_span(cur, rects[k].1, dir) > 0
                    &&& forall|j: int|
                        0 <= j < rects.len() && rects[j].0 != focused && lies_beyond(cur, rects[j].1, dir, positive)
                            && #[trigger] shared_span(cur, rects[j].1, dir) == shared_span(cur, rects[k].1, dir)
                            ==> distance_beyond(cur, rects[k].1, dir, positive) <= distance_beyond(
                            cur,
                            rects[j].1,
                            dir,
                            positive,
                        )
                    &&& weight > 0 ==> forall|j: int|
                        0 <= j < rects.len() && rects[j].0 != focused && lies_beyond(cur, rects[j].1, dir, positive)
                            && #[trigger] shared_span(cur, rects[j].1, dir) > shared_span(cur, rects[k].1, dir)
                            ==> distance_beyond(cur, rects[k].1, dir, positive) < distance_beyond(
                            cur,
                            rects[j].1,
                            dir,
                            positive,
                        )
                },
            None => forall|j: int|
                0 <= j < rects.len() && rects[j].0 != focused ==> !(lies_beyond(cur, rects[j].1, dir, positive)
                    && #[trigger] shared_span(cur, rects[j].1, dir) > 0),
        },
{
    let n = rects.len() as int;
    lemma_best_target(rects, n, focused, cur, dir, positive, weight);
    match best_target(rects, n, focused, cur, dir, positive, weight) {
        Some((id, score)) => {
            let k = choose|k: int|
                0 <= k < n && rects[k].0 == id && move_score(cur, rects[k].1, dir, positive, weight) == Some(score);
            let rk = rects[k].1;
            lemma_move_score_geometry(cur, rk, dir, positive, weight);
            let sk = shared_span(cur, rk, dir);
            let dk = distance_beyond(cur, rk, dir, positive);
            assert forall|j: int|
                0 <= j < rects.len() && rects[j].0 != focused && lies_beyond(cur, rects[j].1, dir, positive)
                    && #[trigger] shared_span(cur, rects[j].1, dir) == sk implies dk <= distance_beyond(
                cur,
                rects[j].1,
                dir,
                positive,
            ) by {
                lemma_move_score_geometry(cur, rects[j].1, dir, positive, weight);
                let _ = move_score(cur, rects[j].1, dir, positive, weight);
            }
            if weight > 0 {
                assert forall|j: int|
                    0 <= j < rects.len() && rects[j].0 != focused && lies_beyond(cur, rects[j].1, dir, positive)
                        && #[trigger] shared_span(cur, rects[j].1, dir) > sk implies dk < distance_beyond(
                    cur,
                    rects[j].1,
                    dir,
                    positive,
                ) by {
                    lemma_move_score_geometry(cur, rects[j].1, dir, positive, weight);
                    let _ = move_score(cur, rects[j].1, dir, positive, weight);
                    let sj = shared_span(cur, rects[j].1, dir);
                    assert(sj * weight - sk * weight >= weight) by (nonlinear_arith)
                        requires
                            sj > sk,
                            weight > 0,
                    ;
                }
            }
            assert(rects[k].0 == id);
        },
        None => {
            assert forall|j: int|
                0 <= j < rects.len() && rects[j].0 != focused implies !(lies_beyond(cur, rects[j].1, dir, positive)
                    && #[trigger] shared_span(cur, rects[j].1, dir) > 0) by {
                lemma_move_score_geometry(cur, rects[j].1, dir, positive, weight);
                let _ = move_score(cur, rects[j].1, dir, positive, weight);
            }
        },
    }
}

} // verus!
