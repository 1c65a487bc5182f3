//! Tab bar geometry (which tab is under a point, where a dragged tab drops)
//! and the decisions of dragging a tab.

use vstd::prelude::*;

use crate::layout::rects::pixel_in_rect;
use crate::layout::{fill_rect, Rect};

verus! {

/// Sizes that place the tabs in the tab bar, in pixels.
#[derive(Clone, Copy, Debug, PartialEq, Eq, Structural)]
pub struct TabBarMetrics {
    pub buffer_width: usize,
    /// Width of one character cell of the tab font.
    pub cell_w: usize,
    pub tab_gap: usize,
    pub side_padding: usize,
    pub max_width_cells: usize,
    pub max_width_px_extra: usize,
}

impl TabBarMetrics {
    /// The metrics of `num_tabs` tabs can be computed without overflow.
    pub open spec fn fits(self, num_tabs: int) -> bool {
        &&& self.tab_gap * num_tabs + self.side_padding * 2 <= usize::MAX
        &&& self.cell_w * self.max_width_cells + self.max_width_px_extra <= usize::MAX
        &&& self.buffer_width + self.tab_gap + self.cell_w * self.max_width_cells + self.max_width_px_extra <= usize::MAX
        &&& self.side_padding <= self.buffer_width + self.tab_gap
    }

    /// Whether the metrics of `num_tabs` tabs can be computed without overflow.
    pub fn fits_for(&self, num_tabs: usize) -> (r: bool)
        ensures
            r == self.fits(num_tabs as int),
    {
        proof {
            assert(self.tab_gap * num_tabs <= 0xffff_ffff_ffff_ffffu128 * 0xffff_ffff_ffff_ffffu128) by (nonlinear_arith)
                requires self.tab_gap <= 0xffff_ffff_ffff_ffffu128, num_tabs <= 0xffff_ffff_ffff_ffffu128;
            assert(self.cell_w * self.max_width_cells <= 0xffff_ffff_ffff_ffffu128 * 0xffff_ffff_ffff_ffffu128) by (nonlinear_arith)
                requires self.cell_w <= 0xffff_ffff_ffff_ffffu128, self.max_width_cells <= 0xffff_ffff_ffff_ffffu128;
        }
        let gaps = (self.tab_gap as u128) * (num_tabs as u128) + (self.side_padding as u128) * 2;
        let cap = (self.cell_w as u128) * (self.max_width_cells as u128) + self.max_width_px_extra as u128;
        gaps <= usize::MAX as u128 && cap <= usize::MAX as u128 && (self.buffer_width as u128) + (self.tab_gap as u128)
            + cap <= usize::MAX as u128 && (self.side_padding as u128) <= (self.buffer_width as u128) + (
        self.tab_gap as u128)
    }

    /// Width of each tab: the width left after the gaps and padding, shared
    /// evenly, but at most the maximal tab width.
    pub open spec fn tab_width(self, num_tabs: int) -> int {
        let gaps = self.tab_gap * (if num_tabs >= 1 { num_tabs - 1 } else { 0 }) + self.side_padding * 2;
        let available = if self.buffer_width >= gaps { self.buffer_width - gaps } else { 0 };
        let even = available / num_tabs;
        let cap = self.cell_w * self.max_width_cells + self.max_width_px_extra;
        if even <= cap {
            even
        } else {
            cap
        }
    }

    /// Left edge of tab `idx`.
    pub open spec fn tab_x0(self, num_tabs: int, idx: nat) -> int
        decreases idx, 0nat,
    {
        if idx == 0 {
            self.side_padding as int
        } else {
            self.tab_x1(num_tabs, (idx - 1) as nat) + self.tab_gap
        }
    }

    /// Right edge (exclusive) of tab `idx`: clipped to the buffer, and for the
    /// last tab to the buffer less the side padding.
    pub open spec fn tab_x1(self, num_tabs: int, idx: nat) -> int
        decreases idx, 1nat,
    {
        let end = self.tab_x0(num_tabs, idx) + self.tab_width(num_tabs);
        let limit = if idx == num_tabs - 1 {
            if self.buffer_width >= self.side_padding {
                self.buffer_width - self.side_padding
            } else {
                0
            }
        } else {
            self.buffer_width as int
        };
        if end <= limit {
            end
        } else {
            limit
        }
    }

    /// The tab under `x`, looking at the tabs from `idx` on; the search stops
    /// once a tab's right edge plus the gap reaches the buffer's width.
    pub open spec fn tab_at_from(self, num_tabs: int, x: int, idx: nat) -> Option<nat>
        decreases num_tabs - idx,
    {
        if idx >= num_tabs {
            None
        } else if self.tab_x0(num_tabs, idx) <= x < self.tab_x1(num_tabs, idx) {
            Some(idx)
        } else if self.tab_x1(num_tabs, idx) + self.tab_gap >= self.buffer_width {
            None
        } else {
            self.tab_at_from(num_tabs, x, idx + 1)
        }
    }

    /// The drop slot for `x`, looking at the tabs from `idx` on: the first tab
    /// whose midpoint lies right of `x`, or `num_tabs` after the last one.
    pub open spec fn drop_from(self, num_tabs: int, x: int, idx: nat) -> nat
        decreases num_tabs - idx,
    {
        if idx >= num_tabs {
            num_tabs as nat
        } else if x < (self.tab_x0(num_tabs, idx) + self.tab_x1(num_tabs, idx)) / 2 {
            idx
        } else {
            self.drop_from(num_tabs, x, idx + 1)
        }
    }
}

/// The tab found under `x` is one of the tabs searched, and `x` lies within
/// its span.
pub proof fn lemma_tab_hit(m: TabBarMetrics, n: int, x: int, idx: nat)
    ensures
        m.tab_at_from(n, x, idx) matches Some(i) ==> idx <= i < n && m.tab_x0(n, i) <= x < m.tab_x1(n, i),
    decreases n - idx,
{
    if idx < n {
        lemma_tab_hit(m, n, x, idx + 1);
    }
}

/// A drop slot is between the first tab searched and the end of the bar:
/// dropping never moves a tab past the last position.
pub proof fn lemma_drop_slot(m: TabBarMetrics, n: int, x: int, idx: nat)
    requires
        idx <= n,
    ensures
        idx <= m.drop_from(n, x, idx) <= n,
    decreases n - idx,
{
    if idx < n {
        lemma_drop_slot(m, n, x, idx + 1);
    }
}

proof fn lemma_bounds(m: TabBarMetrics, n: int, idx: nat)
    requires
        n >= 1,
        m.fits(n),
        idx < n,
    ensures
        m.side_padding <= m.tab_x0(n, idx),
        m.tab_x1(n, idx) <= m.buffer_width,
        m.tab_x0(n, idx) <= m.buffer_width + m.tab_gap,
        0 <= m.tab_width(n) <= m.cell_w * m.max_width_cells + m.max_width_px_extra,
    decreases idx,
{
    let gaps = m.tab_gap * (n - 1) + m.side_padding * 2;
    assert(m.tab_gap * (n - 1) <= m.tab_gap * n) by (nonlinear_arith)
        requires n >= 1, m.tab_gap >= 0;
    let available = if m.buffer_width >= gaps { m.buffer_width - gaps } else { 0 };
    assert(available / n >= 0) by (nonlinear_arith)
        requires available >= 0, n >= 1;
    if idx > 0 {
        lemma_bounds(m, n, (idx - 1) as nat);
    }
}

fn compute_tab_width(m: &TabBarMetrics, num_tabs: usize) -> (w: usize)
    requires
        num_tabs >= 1,
        m.fits(num_tabs as int),
    ensures
        w == m.tab_width(num_tabs as int),
{
    proof {
        assert(m.tab_gap * (num_tabs - 1) <= m.tab_gap * num_tabs) by (nonlinear_arith)
            requires num_tabs >= 1;
        assert(m.tab_gap * (num_tabs - 1) >= 0) by (nonlinear_arith)
            requires num_tabs >= 1;
    }
    let gaps = m.tab_gap * (num_tabs - 1) + m.side_padding * 2;
    let available = if m.buffer_width >= gaps { m.buffer_width - gaps } else { 0 };
    let even = available / num_tabs;
    let cap = m.cell_w * m.max_width_cells + m.max_width_px_extra;
    if even <= cap { even } else { cap }
}

fn compute_tab_x1(m: &TabBarMetrics, num_tabs: usize, idx: usize, x0: usize, tab_width: usize) -> (x1: usize)
    requires
        num_tabs >= 1,
        m.fits(num_tabs as int),
        idx < num_tabs,
        x0 == m.tab_x0(num_tabs as int, idx as nat),
        tab_width == m.tab_width(num_tabs as int),
    ensures
        x1 == m.tab_x1(num_tabs as int, idx as nat),
{
    proof {
        lemma_bounds(*m, num_tabs as int, idx as nat);
    }
    let end = x0 + tab_width;
    let limit = if idx == num_tabs - 1 {
        if m.buffer_width >= m.side_padding { m.buffer_width - m.side_padding } else { 0 }
    } else {
        m.buffer_width
    };
    if end <= limit { end } else { limit }
}

/// Calculates which tab index contains the given x-coordinate.
///
/// `x` is a whole pixel; a caller holding a fractional cursor position
/// truncates it toward zero first.
pub fn calculate_tab_at_position(m: &TabBarMetrics, num_tabs: usize, x: usize) -> (r: Option<usize>)
    requires
        m.fits(num_tabs as int),
    ensures
        r == (if num_tabs == 0 || x < m.side_padding {
            None
        } else {
            match m.tab_at_from(num_tabs as int, x as int, 0) {
                Some(i) => Some(i as usize),
                None => None,
            }
        }),
{
    if num_tabs == 0 {
        return None;
    }
    let tab_width = compute_tab_width(m, num_tabs);
    if x < m.side_padding {
        return None;
    }
    let mut x_offset = m.side_padding;
    let mut idx: usize = 0;
    while idx < num_tabs
        invariant
            num_tabs >= 1,
            m.fits(num_tabs as int),
            idx <= num_tabs,
            tab_width == m.tab_width(num_tabs as int),
            x >= m.side_padding,
            idx < num_tabs ==> x_offset == m.tab_x0(num_tabs as int, idx as nat),
            m.tab_at_from(num_tabs as int, x as int, 0) == m.tab_at_from(num_tabs as int, x as int, idx as nat),
        decreases num_tabs - idx,
    {
        let tab_x0 = x_offset;
        let tab_x1 = compute_tab_x1(m, num_tabs, idx, x_offset, tab_width);
        if x >= tab_x0 && x < tab_x1 {
            proof {
                assert(m.tab_at_from(num_tabs as int, x as int, idx as nat) == Some(idx as nat));
            }
            return Some(idx);
        }
        proof {
            lemma_bounds(*m, num_tabs as int, idx as nat);
        }
        x_offset = tab_x1 + m.tab_gap;
        if x_offset >= m.buffer_width {
            return None;
        }
        idx = idx + 1;
    }
    None
}

/// Calculates the drop position (insertion index) for a tab being dragged to x-coordinate.
pub fn calculate_tab_drop_position(m: &TabBarMetrics, num_tabs: usize, x: usize) -> (r: usize)
    requires
        m.fits(num_tabs as int),
    ensures
        r == (if num_tabs == 0 || x < m.side_padding {
            0
        } else {
            m.drop_from(num_tabs as int, x as int, 0) as int
        }),
{
    if num_tabs == 0 {
        return 0;
    }
    let tab_width = compute_tab_width(m, num_tabs);
    if x < m.side_padding {
        return 0;
    }
    let mut x_offset = m.side_padding;
    let mut idx: usize = 0;
    while idx < num_tabs
        invariant
            num_tabs >= 1,
            m.fits(num_tabs as int),
            idx <= num_tabs,
            tab_width == m.tab_width(num_tabs as int),
            x >= m.side_padding,
            idx < num_tabs ==> x_offset == m.tab_x0(num_tabs as int, idx as nat),
            m.drop_from(num_tabs as int, x as int, 0) == m.drop_from(num_tabs as int, x as int, idx as nat),
        decreases num_tabs - idx,
    {
        let tab_x0 = x_offset;
        let tab_x1 = compute_tab_x1(m, num_tabs, idx, x_offset, tab_width);
        proof {
            lemma_bounds(*m, num_tabs as int, idx as nat);
        }
        let tab_midpoint = tab_x0 / 2 + tab_x1 / 2 + (tab_x0 % 2 + tab_x1 % 2) / 2;
        proof {
            assert(tab_midpoint == (tab_x0 + tab_x1) / 2) by (nonlinear_arith)
                requires
                    tab_midpoint == tab_x0 / 2 + tab_x1 / 2 + (tab_x0 % 2 + tab_x1 % 2) / 2,
                    tab_x0 >= 0,
                    tab_x1 >= 0;
        }
        if x < tab_midpoint {
            proof {
                assert(m.drop_from(num_tabs as int, x as int, idx as nat) == idx as nat);
            }
            return idx;
        }
        x_offset = tab_x1 + m.tab_gap;
        idx = idx + 1;
    }
    num_tabs
}

/// The horizontal span `[x0, x1)` of one tab, as drawn.
#[derive(Clone, Copy, Debug, PartialEq, Eq, Structural)]
pub struct TabSpan {
    pub x0: usize,
    pub x1: usize,
}

/// The spans of all `num_tabs` tabs, left to right.
pub fn tab_spans(m: &TabBarMetrics, num_tabs: usize) -> (r: Vec<TabSpan>)
    requires
        m.fits(num_tabs as int),
    ensures
        r@.len() == num_tabs,
        forall|i: int|
            0 <= i < num_tabs ==> (#[trigger] r@[i]).x0 == m.tab_x0(num_tabs as int, i as nat) && r@[i].x1 == m.tab_x1(
                num_tabs as int,
                i as nat,
            ),
{
    let mut out: Vec<TabSpan> = Vec::new();
    if num_tabs == 0 {
        return out;
    }
    let tab_width = compute_tab_width(m, num_tabs);
    let mut x_offset = m.side_padding;
    let mut idx: usize = 0;
    while idx < num_tabs
        invariant
            num_tabs >= 1,
            m.fits(num_tabs as int),
            idx <= num_tabs,
            out@.len() == idx,
            tab_width == m.tab_width(num_tabs as int),
            idx < num_tabs ==> x_offset == m.tab_x0(num_tabs as int, idx as nat),
            forall|i: int|
                0 <= i < idx ==> (#[trigger] out@[i]).x0 == m.tab_x0(num_tabs as int, i as nat) && out@[i].x1
                    == m.tab_x1(num_tabs as int, i as nat),
        decreases num_tabs - idx,
    {
        let tab_x1 = compute_tab_x1(m, num_tabs, idx, x_offset, tab_width);
        proof {
            lemma_bounds(*m, num_tabs as int, idx as nat);
        }
        out.push(TabSpan { x0: x_offset, x1: tab_x1 });
        x_offset = tab_x1 + m.tab_gap;
        idx = idx + 1;
    }
    out
}

/// How many characters of a title fit in a tab of width `tab_width` with
/// `internal_padding` pixels on each side and `cell_w`-pixel characters.
pub fn title_capacity(tab_width: usize, internal_padding: usize, cell_w: usize) -> (r: usize)
    requires
        cell_w > 0,
        internal_padding * 2 <= usize::MAX,
    ensures
        r == (if tab_width >= internal_padding * 2 { tab_width - internal_padding * 2 } else { 0 }) / (cell_w as int),
{
    let pad = internal_padding * 2;
    let room = if tab_width >= pad { tab_width - pad } else { 0 };
    room / cell_w
}

/// Where a title of `chars` characters of `cell_w` pixels starts so that it
/// is centred in the span `[x0, x1)` (at `x0` when it does not fit).
pub fn title_x(x0: usize, x1: usize, chars: usize, cell_w: usize) -> (r: usize)
    requires
        chars * cell_w <= usize::MAX,
    ensures
        r == x0 + ({
            let width = if x1 >= x0 { x1 - x0 } else { 0 };
            if width >= chars * cell_w { width - chars * cell_w } else { 0 }
        }) / 2,
{
    let width = if x1 >= x0 { x1 - x0 } else { 0 };
    let text = chars * cell_w;
    let free = if width >= text { width - text } else { 0 };
    x0 + free / 2
}

/// Where the drop indicator of a dragged tab is drawn: at the left edge of
/// the tab it would drop before, or at the right edge of the last tab.
pub open spec fn spec_drop_indicator_x(m: TabBarMetrics, num_tabs: int, x: int) -> Option<int> {
    if num_tabs <= 0 {
        None
    } else {
        let d = m.drop_from(num_tabs, x, 0);
        if d < num_tabs {
            Some(m.tab_x0(num_tabs, d))
        } else {
            Some(m.tab_x1(num_tabs, (num_tabs - 1) as nat))
        }
    }
}

/// Computes where the drop indicator of a dragged tab is drawn for cursor x.
pub fn drop_indicator_x(m: &TabBarMetrics, num_tabs: usize, x: usize) -> (r: Option<usize>)
    requires
        m.fits(num_tabs as int),
    ensures
        match r {
            Some(v) => spec_drop_indicator_x(*m, num_tabs as int, x as int) == Some(v as int),
            None => spec_drop_indicator_x(*m, num_tabs as int, x as int) is None,
        },
{
    if num_tabs == 0 {
        return None;
    }
    let tab_width = compute_tab_width(m, num_tabs);
    let mut x_offset = m.side_padding;
    let mut last_x1: usize = 0;
    let mut idx: usize = 0;
    while idx < num_tabs
        invariant
            num_tabs >= 1,
            m.fits(num_tabs as int),
            idx <= num_tabs,
            tab_width == m.tab_width(num_tabs as int),
            idx < num_tabs ==> x_offset == m.tab_x0(num_tabs as int, idx as nat),
            idx > 0 ==> last_x1 == m.tab_x1(num_tabs as int, (idx - 1) as nat),
            m.drop_from(num_tabs as int, x as int, 0) == m.drop_from(num_tabs as int, x as int, idx as nat),
        decreases num_tabs - idx,
    {
        let tab_x0 = x_offset;
        let tab_x1 = compute_tab_x1(m, num_tabs, idx, x_offset, tab_width);
        proof {
            lemma_bounds(*m, num_tabs as int, idx as nat);
        }
        let tab_midpoint = tab_x0 / 2 + tab_x1 / 2 + (tab_x0 % 2 + tab_x1 % 2) / 2;
        proof {
            assert(tab_midpoint == (tab_x0 + tab_x1) / 2) by (nonlinear_arith)
                requires
                    tab_midpoint == tab_x0 / 2 + tab_x1 / 2 + (tab_x0 % 2 + tab_x1 % 2) / 2,
                    tab_x0 >= 0,
                    tab_x1 >= 0;
        }
        if x < tab_midpoint {
            proof {
                assert(m.drop_from(num_tabs as int, x as int, idx as nat) == idx as nat);
            }
            return Some(tab_x0);
        }
        last_x1 = tab_x1;
        x_offset = tab_x1 + m.tab_gap;
        idx = idx + 1;
    }
    Some(last_x1)
}

/// The pixels of the drop indicator at `x`: the columns `x - 1`, `x` and,
/// inside the buffer, `x + 1`, from row `y0` down to the row above the tab
/// bar's bottom border.
pub open spec fn indicator_rect(x: int, y0: int, buffer_width: int, tab_bar_height: int) -> Rect {
    let y1 = if tab_bar_height >= 1 { tab_bar_height - 1 } else { 0 };
    Rect {
        x: (x - 1) as usize,
        y: y0 as usize,
        w: if x + 1 < buffer_width { 3 } else { 2 },
        h: (if y1 >= y0 { y1 - y0 } else { 0 }) as usize,
    }
}

/// Draws the drop indicator of a committed tab drag into the tab bar rows
/// of `buffer`; nothing else changes. No indicator is drawn at the left
/// edge of the buffer or beyond its right edge.
pub fn draw_drop_indicator(
    buffer: &mut [u32],
    buffer_width: usize,
    tab_bar_height: usize,
    m: &TabBarMetrics,
    num_tabs: usize,
    drag: Option<TabDragState>,
    cursor_x: usize,
    indicator_y0: usize,
    color: u32,
)
    requires
        buffer_width * tab_bar_height <= old(buffer)@.len(),
        m.fits(num_tabs as int),
    ensures
        final(buffer)@.len() == old(buffer)@.len(),
        ({
            let shown = match drag {
                Some(d) => d.committed,
                None => false,
            };
            match spec_drop_indicator_x(*m, num_tabs as int, cursor_x as int) {
                Some(x) => if shown && 0 < x < buffer_width {
                    forall|i: int|
                        0 <= i < old(buffer)@.len() ==> #[trigger] final(buffer)@[i] == if pixel_in_rect(
                            i,
                            buffer_width as int,
                            tab_bar_height as int,
                            indicator_rect(x, indicator_y0 as int, buffer_width as int, tab_bar_height as int),
                        ) {
                            color
                        } else {
                            old(buffer)@[i]
                        }
                } else {
                    final(buffer)@ == old(buffer)@
                },
                None => final(buffer)@ == old(buffer)@,
            }
        }),
{
    let shown = match drag {
        Some(d) => d.committed,
        None => false,
    };
    if !shown {
        return;
    }
    match drop_indicator_x(m, num_tabs, cursor_x) {
        Some(x) => {
            if x > 0 && x < buffer_width {
                let y1 = if tab_bar_height >= 1 { tab_bar_height - 1 } else { 0 };
                let h = if y1 >= indicator_y0 { y1 - indicator_y0 } else { 0 };
                let w: usize = if x + 1 < buffer_width { 3 } else { 2 };
                let rect = Rect { x: x - 1, y: indicator_y0, w, h };
                proof {
                    assert(rect == indicator_rect(x as int, indicator_y0 as int, buffer_width as int, tab_bar_height as int));
                }
                fill_rect(buffer, buffer_width, tab_bar_height, rect, color);
            }
        },
        None => {},
    }
}

/// A tab being dragged with the mouse.
#[derive(Clone, Copy, Debug, PartialEq, Eq, Structural)]
pub struct TabDragState {
    pub tab_index: usize,
    /// Cursor x (whole pixels) when the button went down.
    pub start_x: isize,
    /// The cursor moved far enough for this to be a drag rather than a click.
    pub committed: bool,
    /// Where the tab would drop, once known.
    pub last_drop_idx: Option<usize>,
}

/// Distance in pixels the cursor must move before a press on a tab becomes a drag.
pub const DRAG_THRESHOLD: usize = 5;

/// What releasing the mouse button does to a tab being dragged.
#[derive(Clone, Copy, Debug, PartialEq, Eq, Structural)]
pub enum DragRelease {
    /// Move the tab at `from` to position `to`.
    Reorder { from: usize, to: usize },
    /// The press was a click on a tab: switch to it.
    Goto(usize),
    /// Nothing to do.
    Nothing,
}

impl TabDragState {
    /// Starts a potential drag of tab `tab_index` at cursor x `start_x`.
    pub fn start(tab_index: usize, start_x: isize) -> (d: TabDragState)
        ensures
            d == (TabDragState { tab_index, start_x, committed: false, last_drop_idx: None }),
    {
        TabDragState { tab_index, start_x, committed: false, last_drop_idx: None }
    }

    /// Updates the drag for the cursor at x: it commits once the cursor is
    /// more than `DRAG_THRESHOLD` pixels from where it started, and a
    /// committed drag over a visible tab bar records the drop slot
    /// `drop_idx`. Returns whether the drag became committed by this move.
    pub fn on_move(&mut self, x: isize, tab_bar_visible: bool, drop_idx: usize) -> (newly: bool)
        ensures
            ({
                let dist = if x >= old(self).start_x { x - old(self).start_x } else { old(self).start_x - x };
                let committed = old(self).committed || dist > DRAG_THRESHOLD;
                &&& final(self).committed == committed
                &&& newly == (committed && !old(self).committed)
                &&& final(self).tab_index == old(self).tab_index
                &&& final(self).start_x == old(self).start_x
                &&& final(self).last_drop_idx == if committed && tab_bar_visible {
                    Some(drop_idx)
                } else {
                    old(self).last_drop_idx
                }
            }),
    {
        let was = self.committed;
        let far = if x >= self.start_x {
            (x as i128) - (self.start_x as i128) > DRAG_THRESHOLD as i128
        } else {
            (self.start_x as i128) - (x as i128) > DRAG_THRESHOLD as i128
        };
        if !self.committed && far {
            self.committed = true;
        }
        if self.committed && tab_bar_visible {
            self.last_drop_idx = Some(drop_idx);
        }
        self.committed && !was
    }

    /// What releasing the button does: a committed drag reorders when it
    /// drops somewhere else; an uncommitted press inside the tab bar
    /// switches to the tab.
    pub open spec fn released(self, cursor_in_tab_bar: bool) -> DragRelease {
        if self.committed {
            match self.last_drop_idx {
                Some(to) => if to != self.tab_index {
                    DragRelease::Reorder { from: self.tab_index, to }
                } else {
                    DragRelease::Nothing
                },
                None => DragRelease::Nothing,
            }
        } else if cursor_in_tab_bar {
            DragRelease::Goto(self.tab_index)
        } else {
            DragRelease::Nothing
        }
    }

    /// Decides what releasing the button does.
    pub fn on_release(&self, cursor_in_tab_bar: bool) -> (r: DragRelease)
        ensures
            r == self.released(cursor_in_tab_bar),
    {
        if self.committed {
            match self.last_drop_idx {
                Some(to) => if to != self.tab_index {
                    DragRelease::Reorder { from: self.tab_index, to }
                } else {
                    DragRelease::Nothing
                },
                None => DragRelease::Nothing,
            }
        } else if cursor_in_tab_bar {
            DragRelease::Goto(self.tab_index)
        } else {
            DragRelease::Nothing
        }
    }
}

} // verus!
