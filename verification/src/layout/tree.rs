//! Binary layout tree of panes.

use vstd::prelude::*;

use super::rects::{PaneId, Rect, SplitDir};

verus! {

/// A node in the binary tree layout structure.
#[derive(Debug)]
pub enum LayoutNode {
    /// A leaf node containing a single pane.
    Leaf(PaneId),
    /// A split node containing two children.
    ///
    /// `ratio` is the share of the split given to `a`, in thousandths.
    Split { dir: SplitDir, ratio: u32, a: Box<LayoutNode>, b: Box<LayoutNode> },
}

/// A divider line between panes.
#[derive(Clone, Copy, Debug, PartialEq, Eq, Structural)]
pub struct Divider {
    pub x: usize,
    pub y: usize,
    pub w: usize,
    pub h: usize,
}

/// Width in pixels of the line drawn between two split children.
pub const DIVIDER_THICKNESS: usize = 1;

/// Smallest share (in thousandths) a split may give either child when resized.
pub const MIN_RATIO: u32 = 100;

/// Largest share (in thousandths) a split may give its first child when resized.
pub const MAX_RATIO: u32 = 900;

/// The right and bottom edges of the rectangle are addressable.
pub open spec fn rect_fits(rect: Rect) -> bool {
    &&& rect.x + rect.w <= usize::MAX
    &&& rect.y + rect.h <= usize::MAX
}

/// Offset of the divider inside a span of `len` pixels split at `ratio`
/// thousandths: the rounded share, kept between one pixel and `len - 2`.
pub open spec fn split_offset(len: int, ratio: int) -> int {
    let raw = (len * ratio + 500) / 1000;
    if raw < 1 {
        1
    } else if raw > len - 2 {
        len - 2
    } else {
        raw
    }
}

/// The two halves of `rect` and the divider between them, for a split in `dir`.
pub open spec fn split_parts(rect: Rect, dir: SplitDir, ratio: int) -> (Rect, Rect, Divider) {
    match dir {
        SplitDir::Vertical => {
            let div = split_offset(rect.w as int, ratio);
            (
                Rect { x: rect.x, y: rect.y, w: div as usize, h: rect.h },
                Rect { x: (rect.x + div + 1) as usize, y: rect.y, w: (rect.w - div - 1) as usize, h: rect.h },
                Divider { x: (rect.x + div) as usize, y: rect.y, w: 1, h: rect.h },
            )
        },
        SplitDir::Horizontal => {
            let div = split_offset(rect.h as int, ratio);
            (
                Rect { x: rect.x, y: rect.y, w: rect.w, h: div as usize },
                Rect { x: rect.x, y: (rect.y + div + 1) as usize, w: rect.w, h: (rect.h - div - 1) as usize },
                Divider { x: rect.x, y: (rect.y + div) as usize, w: rect.w, h: 1 },
            )
        },
    }
}

/// The span along the split axis is too small to hold two panes and a divider.
pub open spec fn too_small(rect: Rect, dir: SplitDir) -> bool {
    match dir {
        SplitDir::Vertical => rect.w <= 2,
        SplitDir::Horizontal => rect.h <= 2,
    }
}

impl LayoutNode {
    /// The pane ids of the leaves, from left to right.
    pub open spec fn leaves(self) -> Seq<PaneId>
        decreases self,
    {
        match self {
            LayoutNode::Leaf(id) => seq![id],
            LayoutNode::Split { a, b, .. } => a.leaves() + b.leaves(),
        }
    }

    /// The panes laid out in `rect`, each with the rectangle it is given, left to right.
    ///
    /// A split whose span is too small to divide gives the whole rectangle to
    /// its first child and hides the second.
    pub open spec fn layout_rects(self, rect: Rect) -> Seq<(PaneId, Rect)>
        decreases self,
    {
        match self {
            LayoutNode::Leaf(id) => seq![(id, rect)],
            LayoutNode::Split { dir, ratio, a, b } => {
                if too_small(rect, dir) {
                    a.layout_rects(rect)
                } else {
                    let (ra, rb, _) = split_parts(rect, dir, ratio as int);
                    a.layout_rects(ra) + b.layout_rects(rb)
                }
            },
        }
    }

    /// The dividers drawn in `rect`: each split's own divider, then those of
    /// its first child, then those of its second.
    pub open spec fn layout_dividers(self, rect: Rect) -> Seq<Divider>
        decreases self,
    {
        match self {
            LayoutNode::Leaf(_) => seq![],
            LayoutNode::Split { dir, ratio, a, b } => {
                if too_small(rect, dir) {
                    a.layout_dividers(rect)
                } else {
                    let (ra, rb, d) = split_parts(rect, dir, ratio as int);
                    seq![d] + a.layout_dividers(ra) + b.layout_dividers(rb)
                }
            },
        }
    }

    /// The tree with the leftmost leaf `target` replaced by `repl`, and
    /// whether such a leaf was found.
    pub open spec fn replaced(self, target: PaneId, repl: LayoutNode) -> (LayoutNode, bool)
        decreases self,
    {
        match self {
            LayoutNode::Leaf(id) => if id == target {
                (repl, true)
            } else {
                (self, false)
            },
            LayoutNode::Split { dir, ratio, a, b } => {
                let (na, fa) = a.replaced(target, repl);
                if fa {
                    (LayoutNode::Split { dir, ratio, a: Box::new(na), b }, true)
                } else {
                    let (nb, fb) = b.replaced(target, repl);
                    (LayoutNode::Split { dir, ratio, a, b: Box::new(nb) }, fb)
                }
            },
        }
    }

    /// The tree without the leaves `target`: a split that loses one child is
    /// replaced by the other, and nothing is left when every leaf is `target`.
    pub open spec fn without(self, target: PaneId) -> Option<LayoutNode>
        decreases self,
    {
        match self {
            LayoutNode::Leaf(id) => if id == target {
                None
            } else {
                Some(self)
            },
            LayoutNode::Split { dir, ratio, a, b } => {
                match (a.without(target), b.without(target)) {
                    (None, None) => None,
                    (Some(only), None) => Some(only),
                    (None, Some(only)) => Some(only),
                    (Some(na), Some(nb)) => Some(
                        LayoutNode::Split { dir, ratio, a: Box::new(na), b: Box::new(nb) },
                    ),
                }
            },
        }
    }
}

/// `r` lies inside `outer`.
pub open spec fn rect_within(r: Rect, outer: Rect) -> bool {
    &&& outer.x <= r.x
    &&& r.x + r.w <= outer.x + outer.w
    &&& outer.y <= r.y
    &&& r.y + r.h <= outer.y + outer.h
}

/// The two rectangles share no pixel.
pub open spec fn rects_disjoint(r: Rect, s: Rect) -> bool {
    ||| r.w == 0 || r.h == 0 || s.w == 0 || s.h == 0
    ||| r.x + r.w <= s.x || s.x + s.w <= r.x
    ||| r.y + r.h <= s.y || s.y + s.h <= r.y
}

fn compute_split_offset(len: usize, ratio: u32) -> (div: usize)
    requires
        len > 2,
    ensures
        div == split_offset(len as int, ratio as int),
        1 <= div <= len - 2,
{
    let wide_len = len as u128;
    let wide_ratio = ratio as u128;
    proof {
        vstd::arithmetic::mul::lemma_mul_upper_bound(
            wide_len as int,
            usize::MAX as int,
            wide_ratio as int,
            u32::MAX as int,
        );
        assert(usize::MAX * u32::MAX <= 0xffff_ffff_ffff_ffffu128 * 0xffff_ffffu128) by (nonlinear_arith)
            requires usize::MAX <= 0xffff_ffff_ffff_ffffu128;
    }
    let raw = (wide_len * wide_ratio + 500) / 1000;
    let max_div = len - (DIVIDER_THICKNESS + 1);
    if raw < 1 {
        1
    } else if raw > max_div as u128 {
        max_div
    } else {
        raw as usize
    }
}

impl LayoutNode {
    /// Computes the rectangles for all leaf panes and dividers.
    pub fn leaf_rects(&self, rect: Rect, out: &mut Vec<(PaneId, Rect)>, dividers: &mut Vec<Divider>)
        requires
            rect_fits(rect),
        ensures
            final(out)@ == old(out)@ + self.layout_rects(rect),
            final(dividers)@ == old(dividers)@ + self.layout_dividers(rect),
        decreases self,
    {
        match self {
            LayoutNode::Leaf(id) => {
                out.push((*id, rect));
            },
            LayoutNode::Split { dir, ratio, a, b } => {
                match dir {
                    SplitDir::Vertical => {
                        if rect.w <= DIVIDER_THICKNESS + 1 {
                            a.leaf_rects(rect, out, dividers);
                            return;
                        }
                        let div = compute_split_offset(rect.w, *ratio);
                        let left = Rect { x: rect.x, y: rect.y, w: div, h: rect.h };
                        let right = Rect {
                            x: rect.x + div + DIVIDER_THICKNESS,
                            y: rect.y,
                            w: rect.w - (div + DIVIDER_THICKNESS),
                            h: rect.h,
                        };
                        dividers.push(
                            Divider { x: rect.x + div, y: rect.y, w: DIVIDER_THICKNESS, h: rect.h },
                        );
                        a.leaf_rects(left, out, dividers);
                        b.leaf_rects(right, out, dividers);
                        proof {
                            let (ra, rb, d) = split_parts(rect, *dir, *ratio as int);
                            assert(ra == left);
                            assert(rb == right);
                        }
                    },
                    SplitDir::Horizontal => {
                        if rect.h <= DIVIDER_THICKNESS + 1 {
                            a.leaf_rects(rect, out, dividers);
                            return;
                        }
                        let div = compute_split_offset(rect.h, *ratio);
                        let top = Rect { x: rect.x, y: rect.y, w: rect.w, h: div };
                        let bottom = Rect {
                            x: rect.x,
                            y: rect.y + div + DIVIDER_THICKNESS,
                            w: rect.w,
                            h: rect.h - (div + DIVIDER_THICKNESS),
                        };
                        dividers.push(
                            Divider { x: rect.x, y: rect.y + div, w: rect.w, h: DIVIDER_THICKNESS },
                        );
                        a.leaf_rects(top, out, dividers);
                        b.leaf_rects(bottom, out, dividers);
                        proof {
                            let (ra, rb, d) = split_parts(rect, *dir, *ratio as int);
                            assert(ra == top);
                            assert(rb == bottom);
                        }
                    },
                }
            },
        }
    }

    /// Returns true if this node or any of its children contain the given pane.
    pub fn contains_pane(&self, target: PaneId) -> (r: bool)
        ensures
            r == self.leaves().contains(target),
        decreases self,
    {
        match self {
            LayoutNode::Leaf(id) => {
                proof {
                    assert(self.leaves()[0] == *id);
                }
                *id == target
            },
            LayoutNode::Split { a, b, .. } => {
                let r = a.contains_pane(target) || b.contains_pane(target);
                proof {
                    lemma_contains_concat(a.leaves(), b.leaves(), target);
                }
                r
            },
        }
    }

    /// Returns the first leaf pane ID in the tree.
    pub fn first_leaf(&self) -> (r: Option<PaneId>)
        ensures
            self.leaves().len() > 0,
            r == Some(self.leaves()[0]),
        decreases self,
    {
        match self {
            LayoutNode::Leaf(id) => Some(*id),
            LayoutNode::Split { a, b, .. } => {
                let r = a.first_leaf();
                proof {
                    let _ = b.first_leaf_exists();
                }
                r
            },
        }
    }

    proof fn first_leaf_exists(&self) -> (n: nat)
        ensures
            self.leaves().len() > 0,
        decreases self,
    {
        match self {
            LayoutNode::Leaf(_) => 1,
            LayoutNode::Split { a, b, .. } => {
                let _ = a.first_leaf_exists();
                1
            },
        }
    }
}

/// A ratio moved by `delta` thousandths, kept between `MIN_RATIO` and `MAX_RATIO`.
pub open spec fn clamp_ratio(v: int) -> int {
    if v < MIN_RATIO {
        MIN_RATIO as int
    } else if v > MAX_RATIO {
        MAX_RATIO as int
    } else {
        v
    }
}

impl LayoutNode {
    /// The tree after resizing toward pane `target` along `axis` by `delta`
    /// thousandths, the updated `done` flag, and whether `target` is in the tree.
    ///
    /// The innermost split along `axis` that encloses `target` is adjusted, and
    /// only when `done` was not already set: its ratio grows by `delta` when
    /// `target` lies in its first child and shrinks by `delta` otherwise.
    pub open spec fn adjusted(self, target: PaneId, axis: SplitDir, delta: int, done: bool) -> (
        LayoutNode,
        bool,
        bool,
    )
        decreases self,
    {
        match self {
            LayoutNode::Leaf(id) => (self, done, id == target),
            LayoutNode::Split { dir, ratio, a, b } => {
                let (na, d1, in_a) = a.adjusted(target, axis, delta, done);
                let (nb, d2, in_b) = if in_a {
                    (*b, d1, false)
                } else {
                    b.adjusted(target, axis, delta, d1)
                };
                if (in_a || in_b) && !d2 && dir == axis {
                    let signed = if in_a { delta } else { -delta };
                    (
                        LayoutNode::Split {
                            dir,
                            ratio: clamp_ratio(ratio + signed) as u32,
                            a: Box::new(na),
                            b: Box::new(nb),
                        },
                        true,
                        true,
                    )
                } else {
                    (LayoutNode::Split { dir, ratio, a: Box::new(na), b: Box::new(nb) }, d2, in_a || in_b)
                }
            },
        }
    }

    /// Every split ratio lies between `MIN_RATIO` and `MAX_RATIO`.
    pub open spec fn ratios_in_range(self) -> bool
        decreases self,
    {
        match self {
            LayoutNode::Leaf(_) => true,
            LayoutNode::Split { ratio, a, b, .. } => {
                &&& MIN_RATIO <= ratio <= MAX_RATIO
                &&& a.ratios_in_range()
                &&& b.ratios_in_range()
            },
        }
    }

    fn replaced_node(node: LayoutNode, target: PaneId, replacement: LayoutNode) -> (r: (LayoutNode, bool))
        ensures
            r == node.replaced(target, replacement),
        decreases node,
    {
        proof {
            lemma_replaced_found(node, target, replacement);
        }
        match node {
            LayoutNode::Leaf(id) => {
                if id == target {
                    let r = (replacement, true);
                    assert(r == node.replaced(target, replacement));
                    r
                } else {
                    let r = (LayoutNode::Leaf(id), false);
                    assert(r == node.replaced(target, replacement));
                    r
                }
            },
            LayoutNode::Split { dir, ratio, a, b } => {
                let ghost ga = *a;
                let ghost gb = *b;
                proof {
                    lemma_replaced_found(ga, target, replacement);
                }
                if a.contains_pane(target) {
                    let (na, found) = Self::replaced_node(*a, target, replacement);
                    let r = (LayoutNode::Split { dir, ratio, a: Box::new(na), b }, found);
                    assert(r.0 == LayoutNode::Split { dir, ratio, a: Box::new(ga.replaced(target, replacement).0), b: Box::new(gb) });
                    r
                } else {
                    let (nb, found) = Self::replaced_node(*b, target, replacement);
                    let r = (LayoutNode::Split { dir, ratio, a, b: Box::new(nb) }, found);
                    assert(r.0 == LayoutNode::Split { dir, ratio, a: Box::new(ga), b: Box::new(gb.replaced(target, replacement).0) });
                    r
                }
            },
        }
    }

    /// Replaces a leaf node with a new node. Returns true if successful.
    ///
    /// Only the leftmost leaf holding `target` is replaced.
    pub fn replace_leaf(&mut self, target: PaneId, replacement: LayoutNode) -> (r: bool)
        ensures
            (*final(self), r) == old(self).replaced(target, replacement),
            r == old(self).leaves().contains(target),
    {
        proof {
            lemma_replaced_found(*self, target, replacement);
        }
        let mut node = LayoutNode::Leaf(target);
        std::mem::swap(self, &mut node);
        let (new, found) = Self::replaced_node(node, target, replacement);
        *self = new;
        found
    }

    fn without_pane(node: LayoutNode, target: PaneId) -> (r: Option<LayoutNode>)
        ensures
            r == node.without(target),
        decreases node,
    {
        match node {
            LayoutNode::Leaf(id) => {
                if id == target {
                    None
                } else {
                    Some(LayoutNode::Leaf(id))
                }
            },
            LayoutNode::Split { dir, ratio, a, b } => {
                let a = Self::without_pane(*a, target);
                let b = Self::without_pane(*b, target);
                match (a, b) {
                    (None, None) => None,
                    (Some(only), None) => Some(only),
                    (None, Some(only)) => Some(only),
                    (Some(a), Some(b)) => Some(
                        LayoutNode::Split { dir, ratio, a: Box::new(a), b: Box::new(b) },
                    ),
                }
            },
        }
    }

    /// Removes a pane from the tree. Returns true if the tree is still valid.
    ///
    /// When every leaf is `target` the tree becomes the single leaf `target`
    /// and false is returned; the caller handles that case.
    pub fn remove_pane(&mut self, target: PaneId) -> (r: bool)
        ensures
            r == old(self).without(target) is Some,
            r ==> Some(*final(self)) == old(self).without(target),
            !r ==> *final(self) == LayoutNode::Leaf(target),
    {
        let mut old = LayoutNode::Leaf(target);
        std::mem::swap(self, &mut old);
        if let Some(new) = Self::without_pane(old, target) {
            *self = new;
            true
        } else {
            *self = LayoutNode::Leaf(target);
            false
        }
    }

    fn adjusted_node(node: LayoutNode, target: PaneId, axis: SplitDir, delta: i32, done: bool) -> (r: (
        LayoutNode,
        bool,
        bool,
    ))
        ensures
            r == node.adjusted(target, axis, delta as int, done),
        decreases node,
    {
        match node {
            LayoutNode::Leaf(id) => (LayoutNode::Leaf(id), done, id == target),
            LayoutNode::Split { dir, ratio, a, b } => {
                let (na, d1, in_a) = Self::adjusted_node(*a, target, axis, delta, done);
                let (nb, d2, in_b) = if in_a {
                    (*b, d1, false)
                } else {
                    Self::adjusted_node(*b, target, axis, delta, d1)
                };
                if (in_a || in_b) && !d2 && dir == axis {
                    let signed: i64 = if in_a { delta as i64 } else { -(delta as i64) };
                    let moved: i64 = ratio as i64 + signed;
                    let clamped: i64 = if moved < MIN_RATIO as i64 {
                        MIN_RATIO as i64
                    } else if moved > MAX_RATIO as i64 {
                        MAX_RATIO as i64
                    } else {
                        moved
                    };
                    (
                        LayoutNode::Split { dir, ratio: clamped as u32, a: Box::new(na), b: Box::new(nb) },
                        true,
                        true,
                    )
                } else {
                    (LayoutNode::Split { dir, ratio, a: Box::new(na), b: Box::new(nb) }, d2, in_a || in_b)
                }
            },
        }
    }

    /// Adjusts the split ratio for the pane in the given direction.
    ///
    /// `delta` is in thousandths; the adjusted ratio is kept between
    /// `MIN_RATIO` and `MAX_RATIO`. Returns whether `target` is in the tree.
    pub fn adjust_ratio_for_pane(
        &mut self,
        target: PaneId,
        axis: SplitDir,
        delta: i32,
        done: &mut bool,
    ) -> (r: bool)
        ensures
            (*final(self), *final(done), r) == old(self).adjusted(target, axis, delta as int, *old(done)),
    {
        let mut node = LayoutNode::Leaf(target);
        std::mem::swap(self, &mut node);
        let (new, new_done, found) = Self::adjusted_node(node, target, axis, delta, *done);
        *self = new;
        *done = new_done;
        found
    }
}

proof fn lemma_replaced_found(n: LayoutNode, target: PaneId, repl: LayoutNode)
    ensures
        n.replaced(target, repl).1 == n.leaves().contains(target),
    decreases n,
{
    match n {
        LayoutNode::Leaf(id) => {
            assert(n.leaves()[0] == id);
        },
        LayoutNode::Split { a, b, .. } => {
            lemma_replaced_found(*a, target, repl);
            lemma_replaced_found(*b, target, repl);
            lemma_contains_concat(a.leaves(), b.leaves(), target);
        },
    }
}

proof fn lemma_contains_concat(s: Seq<PaneId>, t: Seq<PaneId>, x: PaneId)
    ensures
        (s + t).contains(x) == (s.contains(x) || t.contains(x)),
{
    if s.contains(x) {
        let i = choose|i: int| 0 <= i < s.len() && s[i] == x;
        assert((s + t)[i] == x);
    }
    if t.contains(x) {
        let i = choose|i: int| 0 <= i < t.len() && t[i] == x;
        assert((s + t)[s.len() + i] == x);
    }
    if (s + t).contains(x) {
        let i = choose|i: int| 0 <= i < (s + t).len() && (s + t)[i] == x;
        if i < s.len() {
            assert(s[i] == x);
        } else {
            assert(t[i - s.len()] == x);
        }
    }
}

} // verus!
