//! Pane bookkeeping of one tab: the layout tree, the live panes, the focused
//! pane and the history of focus, with the decisions of splitting, closing,
//! resizing and moving focus between panes.

use vstd::prelude::*;

pub mod laws;

use crate::layout::tree::{Divider, LayoutNode, rect_fits};
use crate::layout::{overlap_1d, PaneId, Rect, SplitDir};
use crate::layout::rects::spec_overlap;

verus! {

broadcast use vstd::seq_lib::group_seq_properties;

/// Identifier of a tab.
pub type TabId = u64;

/// Share of the split given to the existing pane when it is split, in thousandths.
pub const SPLIT_RATIO: u32 = 500;

/// The panes of one tab and the focus among them.
///
/// The pane objects themselves (terminal, view) are kept by the caller,
/// keyed by the ids held here.
pub struct Tab {
    pub id: TabId,
    pub layout: LayoutNode,
    pub focused_pane: PaneId,
    /// Panes in the order they were last focused; the most recent is last.
    pub focus_history: Vec<PaneId>,
    /// Ids of the panes that are alive.
    pub panes: Vec<PaneId>,
    pub next_pane_id: PaneId,
}

/// What became of a tab after one of its panes was closed.
#[derive(Clone, Copy, Debug, PartialEq, Eq, Structural)]
pub enum CloseOutcome {
    /// Other panes remain; focus moved to one of them.
    Closed,
    /// The last pane was closed; the application should exit.
    LastPaneClosed,
}

/// Holds of every id other than `id`.
pub open spec fn is_not(id: PaneId) -> spec_fn(PaneId) -> bool {
    |x: PaneId| x != id
}

/// `history` with `id` moved (or added) to the end.
pub open spec fn recorded(history: Seq<PaneId>, id: PaneId) -> Seq<PaneId> {
    history.filter(is_not(id)).push(id)
}

/// The most recently focused pane of `history` that is still in `alive`.
pub open spec fn last_alive(history: Seq<PaneId>, alive: Seq<PaneId>) -> Option<PaneId>
    decreases history.len(),
{
    if history.len() == 0 {
        None
    } else if alive.contains(history.last()) {
        Some(history.last())
    } else {
        last_alive(history.drop_last(), alive)
    }
}

/// Rank of `r` as a focus target from `cur` in the given direction: `None`
/// when `r` does not lie entirely on that side of `cur` or shares no span
/// with it across the direction of travel; otherwise the shared span times
/// `weight`, minus the gap between the two rectangles.
pub open spec fn move_score(cur: Rect, r: Rect, dir: SplitDir, positive: bool, weight: int) -> Option<int> {
    match (dir, positive) {
        (SplitDir::Vertical, false) => if r.x + r.w <= cur.x && spec_overlap(r.y as int, r.h as int, cur.y as int, cur.h as int) != 0 {
            Some(spec_overlap(r.y as int, r.h as int, cur.y as int, cur.h as int) * weight - (cur.x - (r.x + r.w)))
        } else {
            None
        },
        (SplitDir::Vertical, true) => if cur.x + cur.w <= r.x && spec_overlap(r.y as int, r.h as int, cur.y as int, cur.h as int) != 0 {
            Some(spec_overlap(r.y as int, r.h as int, cur.y as int, cur.h as int) * weight - (r.x - (cur.x + cur.w)))
        } else {
            None
        },
        (SplitDir::Horizontal, false) => if r.y + r.h <= cur.y && spec_overlap(r.x as int, r.w as int, cur.x as int, cur.w as int) != 0 {
            Some(spec_overlap(r.x as int, r.w as int, cur.x as int, cur.w as int) * weight - (cur.y - (r.y + r.h)))
        } else {
            None
        },
        (SplitDir::Horizontal, true) => if cur.y + cur.h <= r.y && spec_overlap(r.x as int, r.w as int, cur.x as int, cur.w as int) != 0 {
            Some(spec_overlap(r.x as int, r.w as int, cur.x as int, cur.w as int) * weight - (r.y - (cur.y + cur.h)))
        } else {
            None
        },
    }
}

/// The best focus target among the first `n` rectangles: the highest score,
/// the earliest one on a tie; the pane `focused` itself is never a target.
pub open spec fn best_target(
    rects: Seq<(PaneId, Rect)>,
    n: int,
    focused: PaneId,
    cur: Rect,
    dir: SplitDir,
    positive: bool,
    weight: int,
) -> Option<(PaneId, int)>
    decreases n,
{
    if n <= 0 {
        None
    } else {
        let prev = best_target(rects, n - 1, focused, cur, dir, positive, weight);
        let (id, r) = rects[n - 1];
        if id == focused {
            prev
        } else {
            match move_score(cur, r, dir, positive, weight) {
                None => prev,
                Some(score) => match prev {
                    Some((_, best)) => if score > best {
                        Some((id, score))
                    } else {
                        prev
                    },
                    None => Some((id, score)),
                },
            }
        }
    }
}

/// Index of the first rectangle laid out for pane `id`, if any.
pub open spec fn rect_index_of(rects: Seq<(PaneId, Rect)>, id: PaneId) -> Option<int> {
    if exists|i: int| 0 <= i < rects.len() && rects[i].0 == id {
        Some(choose|i: int| 0 <= i < rects.len() && rects[i].0 == id && forall|j: int| 0 <= j < i ==> rects[j].0 != id)
    } else {
        None
    }
}

impl Tab {
    /// The bookkeeping is consistent: no pane is listed twice, in the live set
    /// or in the focus history, and fresh ids are still available.
    pub open spec fn wf(&self) -> bool {
        &&& self.focus_history@.no_duplicates()
        &&& self.panes@.no_duplicates()
        &&& self.next_pane_id < u64::MAX
    }

    /// A tab whose layout holds the single pane `first_pane`, focused, with no
    /// live pane yet.
    pub fn new(id: TabId, first_pane: PaneId) -> (t: Tab)
        requires
            first_pane < u64::MAX - 1,
        ensures
            t.wf(),
            t.id == id,
            t.layout == LayoutNode::Leaf(first_pane),
            t.focused_pane == first_pane,
            t.focus_history@ == seq![first_pane],
            t.panes@ == Seq::<PaneId>::empty(),
            t.next_pane_id == first_pane + 1,
    {
        let mut history = Vec::new();
        history.push(first_pane);
        Tab {
            id,
            layout: LayoutNode::Leaf(first_pane),
            focused_pane: first_pane,
            focus_history: history,
            panes: Vec::new(),
            next_pane_id: first_pane + 1,
        }
    }

    /// Records that pane `id` is alive (its terminal was started).
    pub fn add_pane(&mut self, id: PaneId)
        requires
            old(self).wf(),
        ensures
            final(self).wf(),
            final(self).panes@ == if old(self).panes@.contains(id) {
                old(self).panes@
            } else {
                old(self).panes@.push(id)
            },
            final(self).layout == old(self).layout,
            final(self).focused_pane == old(self).focused_pane,
            final(self).focus_history@ == old(self).focus_history@,
            final(self).next_pane_id == old(self).next_pane_id,
            final(self).id == old(self).id,
    {
        if !vec_contains(&self.panes, id) {
            self.panes.push(id);
        }
    }

    /// Moves pane `id` to the most recent end of the focus history.
    pub fn record_focus(&mut self, id: PaneId)
        requires
            old(self).wf(),
        ensures
            final(self).wf(),
            final(self).focus_history@ == recorded(old(self).focus_history@, id),
            final(self).layout == old(self).layout,
            final(self).focused_pane == old(self).focused_pane,
            final(self).panes@ == old(self).panes@,
            final(self).next_pane_id == old(self).next_pane_id,
            final(self).id == old(self).id,
    {
        let kept = vec_without(&self.focus_history, id);
        let mut kept = kept;
        kept.push(id);
        proof {
            lemma_recorded_no_duplicates(self.focus_history@, id);
        }
        self.focus_history = kept;
    }

    /// Focuses pane `id` and records it in the focus history.
    pub fn set_focus(&mut self, id: PaneId)
        requires
            old(self).wf(),
        ensures
            final(self).wf(),
            final(self).focused_pane == id,
            final(self).focus_history@ == recorded(old(self).focus_history@, id),
            final(self).layout == old(self).layout,
            final(self).panes@ == old(self).panes@,
            final(self).next_pane_id == old(self).next_pane_id,
            final(self).id == old(self).id,
    {
        self.focused_pane = id;
        self.record_focus(id);
    }

    /// Focuses the most recently focused pane that is still alive, or else
    /// the first pane of the layout.
    pub fn focus_fallback(&mut self)
        requires
            old(self).wf(),
        ensures
            final(self).wf(),
            final(self).focused_pane == match last_alive(old(self).focus_history@, old(self).panes@) {
                Some(id) => id,
                None => old(self).layout.leaves()[0],
            },
            final(self).focus_history@ == recorded(old(self).focus_history@, final(self).focused_pane),
            final(self).layout == old(self).layout,
            final(self).panes@ == old(self).panes@,
            final(self).next_pane_id == old(self).next_pane_id,
            final(self).id == old(self).id,
    {
        let found = find_last_alive(&self.focus_history, &self.panes);
        match found {
            Some(id) => {
                self.set_focus(id);
            },
            None => {
                let first = self.layout.first_leaf();
                match first {
                    Some(id) => {
                        self.set_focus(id);
                    },
                    None => {},
                }
            },
        }
    }

    /// Computes the pane rectangles and dividers for a pane area of the given size.
    pub fn pane_rects(&self, buffer_width: usize, buffer_height: usize) -> (r: (
        Vec<(PaneId, Rect)>,
        Vec<Divider>,
    ))
        ensures
            r.0@ == self.layout.layout_rects(Rect { x: 0, y: 0, w: buffer_width, h: buffer_height }),
            r.1@ == self.layout.layout_dividers(Rect { x: 0, y: 0, w: buffer_width, h: buffer_height }),
    {
        let mut out = Vec::new();
        let mut dividers = Vec::new();
        let root = Rect { x: 0, y: 0, w: buffer_width, h: buffer_height };
        self.layout.leaf_rects(root, &mut out, &mut dividers);
        proof {
            assert(out@ =~= Seq::<(PaneId, Rect)>::empty() + self.layout.layout_rects(root));
            assert(dividers@ =~= Seq::<Divider>::empty() + self.layout.layout_dividers(root));
        }
        (out, dividers)
    }

    /// Splits the focused pane in `dir`, placing a new pane after it, and
    /// focuses the new pane. Returns the id of the new pane, whose terminal
    /// the caller starts; `None` when the focused pane is not in the layout.
    pub fn split_focused(&mut self, dir: SplitDir) -> (r: Option<PaneId>)
        requires
            old(self).wf(),
            old(self).next_pane_id < u64::MAX - 1,
        ensures
            final(self).wf(),
            final(self).id == old(self).id,
            final(self).panes@ == old(self).panes@,
            !old(self).layout.leaves().contains(old(self).focused_pane) ==> r is None && *final(self)
                == *old(self),
            old(self).layout.leaves().contains(old(self).focused_pane) ==> {
                let new_id = old(self).next_pane_id;
                let repl = LayoutNode::Split {
                    dir,
                    ratio: SPLIT_RATIO,
                    a: Box::new(LayoutNode::Leaf(old(self).focused_pane)),
                    b: Box::new(LayoutNode::Leaf(new_id)),
                };
                &&& r == Some(new_id)
                &&& final(self).next_pane_id == new_id + 1
                &&& final(self).layout == old(self).layout.replaced(old(self).focused_pane, repl).0
                &&& final(self).focused_pane == new_id
                &&& final(self).focus_history@ == recorded(old(self).focus_history@, new_id)
            },
    {
        let focused = self.focused_pane;
        if !self.layout.contains_pane(focused) {
            return None;
        }
        let new_id = self.next_pane_id;
        self.next_pane_id = self.next_pane_id + 1;
        let replacement = LayoutNode::Split {
            dir,
            ratio: SPLIT_RATIO,
            a: Box::new(LayoutNode::Leaf(focused)),
            b: Box::new(LayoutNode::Leaf(new_id)),
        };
        if self.layout.replace_leaf(focused, replacement) {
            self.set_focus(new_id);
        }
        Some(new_id)
    }

    /// Closes pane `target`: forgets it, removes it from the layout and focuses
    /// the most recently focused pane still alive (or the first pane of the
    /// layout). When no live pane remains nothing else changes and
    /// `LastPaneClosed` is returned.
    pub fn close_pane(&mut self, target: PaneId) -> (r: CloseOutcome)
        requires
            old(self).wf(),
        ensures
            final(self).wf(),
            final(self).id == old(self).id,
            final(self).next_pane_id == old(self).next_pane_id,
            final(self).panes@ == old(self).panes@.filter(is_not(target)),
            (r == CloseOutcome::LastPaneClosed) == (final(self).panes@.len() == 0),
            r == CloseOutcome::LastPaneClosed ==> {
                &&& final(self).layout == old(self).layout
                &&& final(self).focused_pane == old(self).focused_pane
                &&& final(self).focus_history@ == old(self).focus_history@.filter(is_not(target))
            },
            r == CloseOutcome::Closed ==> {
                let layout = match old(self).layout.without(target) {
                    Some(l) => l,
                    None => LayoutNode::Leaf(target),
                };
                let history = old(self).focus_history@.filter(is_not(target));
                let focus = match last_alive(history, final(self).panes@) {
                    Some(id) => id,
                    None => layout.leaves()[0],
                };
                &&& final(self).layout == layout
                &&& final(self).focused_pane == focus
                &&& final(self).focus_history@ == recorded(history, focus)
            },
    {
        self.panes = vec_without(&self.panes, target);
        self.focus_history = vec_without(&self.focus_history, target);
        if self.panes.len() == 0 {
            return CloseOutcome::LastPaneClosed;
        }
        let _ = self.layout.remove_pane(target);
        self.focus_fallback();
        CloseOutcome::Closed
    }

    /// Closes the focused pane.
    pub fn close_focused_pane(&mut self) -> (r: CloseOutcome)
        requires
            old(self).wf(),
        ensures
            final(self).wf(),
            final(self).id == old(self).id,
            final(self).next_pane_id == old(self).next_pane_id,
            final(self).panes@ == old(self).panes@.filter(is_not(old(self).focused_pane)),
            (r == CloseOutcome::LastPaneClosed) == (final(self).panes@.len() == 0),
            r == CloseOutcome::LastPaneClosed ==> {
                &&& final(self).layout == old(self).layout
                &&& final(self).focused_pane == old(self).focused_pane
                &&& final(self).focus_history@ == old(self).focus_history@.filter(is_not(old(self).focused_pane))
            },
            r == CloseOutcome::Closed ==> {
                let layout = match old(self).layout.without(old(self).focused_pane) {
                    Some(l) => l,
                    None => LayoutNode::Leaf(old(self).focused_pane),
                };
                let history = old(self).focus_history@.filter(is_not(old(self).focused_pane));
                let focus = match last_alive(history, final(self).panes@) {
                    Some(id) => id,
                    None => layout.leaves()[0],
                };
                &&& final(self).layout == layout
                &&& final(self).focused_pane == focus
                &&& final(self).focus_history@ == recorded(history, focus)
            },
    {
        let target = self.focused_pane;
        self.close_pane(target)
    }

    /// Resizes the split enclosing the focused pane along `dir` by `step`
    /// thousandths, toward the focused pane unless `negative`. Returns whether
    /// a split was adjusted.
    pub fn resize_focused(&mut self, dir: SplitDir, negative: bool, step: u16) -> (r: bool)
        requires
            old(self).wf(),
        ensures
            final(self).wf(),
            ({
                let delta = if negative { -(step as int) } else { step as int };
                let (layout, done, _) = old(self).layout.adjusted(old(self).focused_pane, dir, delta, false);
                &&& final(self).layout == layout
                &&& r == done
            }),
            final(self).focused_pane == old(self).focused_pane,
            final(self).focus_history@ == old(self).focus_history@,
            final(self).panes@ == old(self).panes@,
            final(self).next_pane_id == old(self).next_pane_id,
            final(self).id == old(self).id,
    {
        let delta: i32 = if negative { -(step as i32) } else { step as i32 };
        let mut done = false;
        self.layout.adjust_ratio_for_pane(self.focused_pane, dir, delta, &mut done);
        done
    }

    /// Moves focus to the neighbouring pane in the given direction, chosen by
    /// `move_score` among `rects` (the laid-out panes). Returns whether focus moved.
    pub fn focus_move(
        &mut self,
        dir: SplitDir,
        positive: bool,
        rects: &Vec<(PaneId, Rect)>,
        overlap_weight: i64,
    ) -> (r: bool)
        requires
            old(self).wf(),
            overlap_weight > i64::MIN,
            forall|i: int| 0 <= i < rects@.len() ==> rect_fits(#[trigger] rects@[i].1),
        ensures
            final(self).wf(),
            final(self).layout == old(self).layout,
            final(self).panes@ == old(self).panes@,
            final(self).next_pane_id == old(self).next_pane_id,
            final(self).id == old(self).id,
            ({
                match rect_index_of(rects@, old(self).focused_pane) {
                    None => !r && *final(self) == *old(self),
                    Some(ci) => match best_target(
                        rects@,
                        rects@.len() as int,
                        old(self).focused_pane,
                        rects@[ci].1,
                        dir,
                        positive,
                        overlap_weight as int,
                    ) {
                        None => !r && *final(self) == *old(self),
                        Some((id, _)) => {
                            &&& r
                            &&& final(self).focused_pane == id
                            &&& final(self).focus_history@ == recorded(old(self).focus_history@, id)
                        },
                    },
                }
            }),
    {
        let focused = self.focused_pane;
        let mut ci: usize = 0;
        while ci < rects.len()
            invariant
                ci <= rects@.len(),
                forall|j: int| 0 <= j < ci ==> rects@[j].0 != focused,
            ensures
                ci <= rects@.len(),
                forall|j: int| 0 <= j < ci ==> rects@[j].0 != focused,
                ci < rects@.len() ==> rects@[ci as int].0 == focused,
            decreases rects@.len() - ci,
        {
            if rects[ci].0 == focused {
                break;
            }
            ci = ci + 1;
        }
        if ci == rects.len() {
            return false;
        }
        proof {
            let p = |i: int| 0 <= i < rects@.len() && rects@[i].0 == focused && forall|j: int| 0 <= j < i ==> rects@[j].0 != focused;
            assert(p(ci as int));
            let c = choose|i: int| 0 <= i < rects@.len() && rects@[i].0 == focused && forall|j: int| 0 <= j < i ==> rects@[j].0 != focused;
            assert(p(c));
            if c < ci {
                assert(rects@[c].0 != focused);
            }
            if c > ci {
                assert(rects@[ci as int].0 != focused);
            }
            assert(rect_index_of(rects@, focused) == Some(ci as int));
        }
        let cur = rects[ci].1;
        let mut best: Option<(PaneId, i128)> = None;
        let mut k: usize = 0;
        while k < rects.len()
            invariant
                k <= rects@.len(),
                cur == rects@[ci as int].1,
                rect_fits(cur),
                overlap_weight > i64::MIN,
                forall|i: int| 0 <= i < rects@.len() ==> rect_fits(#[trigger] rects@[i].1),
                match best {
                    None => best_target(rects@, k as int, focused, cur, dir, positive, overlap_weight as int) is None,
                    Some((id, s)) => best_target(rects@, k as int, focused, cur, dir, positive, overlap_weight as int)
                        == Some((id, s as int)),
                },
            decreases rects@.len() - k,
        {
            let (id, r) = rects[k];
            proof {
                assert(rect_fits(rects@[k as int].1));
            }
            if id != focused {
                let score = compute_move_score(cur, r, dir, positive, overlap_weight);
                match score {
                    None => {},
                    Some(s) => {
                        let better = match best {
                            Some((_, b)) => s > b,
                            None => true,
                        };
                        if better {
                            best = Some((id, s));
                        }
                    },
                }
            }
            k = k + 1;
        }
        match best {
            Some((id, _)) => {
                self.set_focus(id);
                true
            },
            None => false,
        }
    }
}

/// Returns the first rectangle that contains the point, with its pane.
///
/// Coordinates are whole pixels; a caller holding fractional cursor
/// coordinates truncates them toward zero first.
pub fn pane_at_position(rects: &Vec<(PaneId, Rect)>, x: isize, y: isize) -> (r: Option<(PaneId, Rect)>)
    ensures
        match r {
            None => forall|i: int| 0 <= i < rects@.len() ==> !(#[trigger] rects@[i]).1.contains_point(x as int, y as int),
            Some(found) => exists|i: int|
                0 <= i < rects@.len() && rects@[i] == found && found.1.contains_point(x as int, y as int)
                    && forall|j: int| 0 <= j < i ==> !(#[trigger] rects@[j]).1.contains_point(x as int, y as int),
        },
{
    let mut i: usize = 0;
    while i < rects.len()
        invariant
            i <= rects@.len(),
            forall|j: int| 0 <= j < i ==> !(#[trigger] rects@[j]).1.contains_point(x as int, y as int),
        decreases rects@.len() - i,
    {
        if rects[i].1.contains(x, y) {
            return Some(rects[i]);
        }
        i = i + 1;
    }
    None
}

fn compute_move_score(cur: Rect, r: Rect, dir: SplitDir, positive: bool, weight: i64) -> (s: Option<i128>)
    requires
        rect_fits(cur),
        rect_fits(r),
        weight > i64::MIN,
    ensures
        match s {
            None => move_score(cur, r, dir, positive, weight as int) is None,
            Some(v) => move_score(cur, r, dir, positive, weight as int) == Some(v as int),
        },
{
    let (before, gap, overlap) = match (dir, positive) {
        (SplitDir::Vertical, false) => {
            if r.x + r.w <= cur.x {
                (true, (cur.x - (r.x + r.w)) as i128, overlap_1d(r.y, r.h, cur.y, cur.h))
            } else {
                (false, 0, 0)
            }
        },
        (SplitDir::Vertical, true) => {
            if cur.x + cur.w <= r.x {
                (true, (r.x - (cur.x + cur.w)) as i128, overlap_1d(r.y, r.h, cur.y, cur.h))
            } else {
                (false, 0, 0)
            }
        },
        (SplitDir::Horizontal, false) => {
            if r.y + r.h <= cur.y {
                (true, (cur.y - (r.y + r.h)) as i128, overlap_1d(r.x, r.w, cur.x, cur.w))
            } else {
                (false, 0, 0)
            }
        },
        (SplitDir::Horizontal, true) => {
            if cur.y + cur.h <= r.y {
                (true, (r.y - (cur.y + cur.h)) as i128, overlap_1d(r.x, r.w, cur.x, cur.w))
            } else {
                (false, 0, 0)
            }
        },
    };
    if !before || overlap == 0 {
        return None;
    }
    proof {
        lemma_score_bounds(overlap as int, weight as int, gap as int);
    }
    Some((overlap as i128) * (weight as i128) - gap)
}

proof fn lemma_score_bounds(overlap: int, weight: int, gap: int)
    requires
        0 <= overlap <= usize::MAX,
        i64::MIN < weight <= i64::MAX,
        0 <= gap <= usize::MAX,
    ensures
        i128::MIN <= overlap * weight - gap <= i128::MAX,
        i128::MIN <= overlap * weight <= i128::MAX,
{
    assert(-0x8000_0000_0000_0000_0000_0000_0000_0000 + 0x1_0000_0000_0000_0000 <= overlap * weight <= 0x7fff_ffff_ffff_ffff_0000_0000_0000_0000) by (nonlinear_arith)
        requires
            0 <= overlap <= 0xffff_ffff_ffff_ffff,
            -0x7fff_ffff_ffff_ffff <= weight <= 0x7fff_ffff_ffff_ffff,
    {
        if weight >= 0 {
            assert(overlap * weight <= 0xffff_ffff_ffff_ffff * 0x7fff_ffff_ffff_ffff);
        } else {
            assert(overlap * weight >= 0xffff_ffff_ffff_ffff * -0x7fff_ffff_ffff_ffff);
        }
    }
}

/// The most recently focused pane of `history` that is in `alive`.
fn find_last_alive(history: &Vec<PaneId>, alive: &Vec<PaneId>) -> (r: Option<PaneId>)
    ensures
        r == last_alive(history@, alive@),
{
    let mut i = history.len();
    while i > 0
        invariant
            i <= history@.len(),
            last_alive(history@, alive@) == last_alive(history@.take(i as int), alive@),
        decreases i,
    {
        let id = history[i - 1];
        proof {
            assert(history@.take(i as int).last() == id);
            assert(history@.take(i as int).drop_last() =~= history@.take(i - 1));
        }
        if vec_contains(alive, id) {
            return Some(id);
        }
        i = i - 1;
    }
    proof {
        assert(history@.take(0) =~= Seq::<PaneId>::empty());
    }
    None
}

/// Whether `v` holds `id`.
pub fn vec_contains(v: &Vec<PaneId>, id: PaneId) -> (r: bool)
    ensures
        r == v@.contains(id),
{
    let mut i: usize = 0;
    while i < v.len()
        invariant
            i <= v@.len(),
            forall|j: int| 0 <= j < i ==> v@[j] != id,
        decreases v@.len() - i,
    {
        if v[i] == id {
            return true;
        }
        i = i + 1;
    }
    false
}

/// The ids of `v` other than `id`, in order.
pub fn vec_without(v: &Vec<PaneId>, id: PaneId) -> (r: Vec<PaneId>)
    ensures
        r@ == v@.filter(is_not(id)),
        v@.no_duplicates() ==> r@.no_duplicates(),
{
    let ghost pred = is_not(id);
    let mut out: Vec<PaneId> = Vec::new();
    let mut i: usize = 0;
    while i < v.len()
        invariant
            i <= v@.len(),
            pred == is_not(id),
            out@ == v@.take(i as int).filter(pred),
        decreases v@.len() - i,
    {
        proof {
            reveal_with_fuel(Seq::filter, 1);
            assert(v@.take(i + 1).drop_last() =~= v@.take(i as int));
        }
        if v[i] != id {
            out.push(v[i]);
        }
        i = i + 1;
    }
    proof {
        assert(v@.take(v@.len() as int) =~= v@);
        if v@.no_duplicates() {
            lemma_filter_no_duplicates(v@, pred);
        }
    }
    out
}

proof fn lemma_filter_no_duplicates(s: Seq<PaneId>, pred: spec_fn(PaneId) -> bool)
    requires
        s.no_duplicates(),
    ensures
        s.filter(pred).no_duplicates(),
    decreases s.len(),
{
    reveal_with_fuel(Seq::filter, 1);
    if s.len() > 0 {
        let init = s.drop_last();
        assert(init.no_duplicates());
        lemma_filter_no_duplicates(init, pred);
        if pred(s.last()) {
            assert(!init.contains(s.last())) by {
                if init.contains(s.last()) {
                    let k = choose|k: int| 0 <= k < init.len() && init[k] == s.last();
                    assert(s[k] == s[s.len() - 1]);
                }
            }
            if init.filter(pred).contains(s.last()) {
                init.lemma_filter_contains_rev(pred, s.last());
            }
        }
    }
}

proof fn lemma_recorded_no_duplicates(history: Seq<PaneId>, id: PaneId)
    requires
        history.no_duplicates(),
    ensures
        recorded(history, id).no_duplicates(),
{
    let pred = is_not(id);
    lemma_filter_no_duplicates(history, pred);
    assert(!history.filter(pred).contains(id));
}

} // verus!
