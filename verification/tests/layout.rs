use yatmux::layout::tree::{Divider, LayoutNode};
use yatmux::layout::{draw_border, fill_rect, overlap_1d, Rect, SplitDir};

fn split(dir: SplitDir, a: LayoutNode, b: LayoutNode) -> LayoutNode {
    LayoutNode::Split { dir, ratio: 500, a: Box::new(a), b: Box::new(b) }
}

fn rects_of(node: &LayoutNode, w: usize, h: usize) -> (Vec<(u64, Rect)>, Vec<Divider>) {
    let mut out = Vec::new();
    let mut dividers = Vec::new();
    node.leaf_rects(Rect { x: 0, y: 0, w, h }, &mut out, &mut dividers);
    (out, dividers)
}

#[test]
fn overlap_of_intervals() {
    assert_eq!(overlap_1d(0, 10, 5, 10), 5);
    assert_eq!(overlap_1d(5, 10, 0, 10), 5);
    assert_eq!(overlap_1d(0, 10, 10, 5), 0);
    assert_eq!(overlap_1d(2, 3, 0, 100), 3);
}

#[test]
fn rect_contains_point() {
    let r = Rect { x: 10, y: 20, w: 5, h: 5 };
    assert!(r.contains(10, 20));
    assert!(r.contains(14, 24));
    assert!(!r.contains(15, 20));
    assert!(!r.contains(-1, 20));
    assert!(!r.contains(12, 25));
}

#[test]
fn fill_rect_paints_clipped_area() {
    let mut buf = vec![0u32; 4 * 3];
    fill_rect(&mut buf, 4, 3, Rect { x: 2, y: 1, w: 5, h: 5 }, 7);
    let expected = vec![0, 0, 0, 0, 0, 0, 7, 7, 0, 0, 7, 7];
    assert_eq!(buf, expected);
}

#[test]
fn draw_border_outlines_rect() {
    let mut buf = vec![0u32; 5 * 5];
    draw_border(&mut buf, 5, 5, Rect { x: 1, y: 1, w: 3, h: 3 }, 1);
    let expected = vec![
        0, 0, 0, 0, 0, //
        0, 1, 1, 1, 0, //
        0, 1, 0, 1, 0, //
        0, 1, 1, 1, 0, //
        0, 0, 0, 0, 0,
    ];
    assert_eq!(buf, expected);
}

#[test]
fn single_leaf_fills_area() {
    let node = LayoutNode::Leaf(1);
    let (rects, dividers) = rects_of(&node, 80, 24);
    assert_eq!(rects, vec![(1, Rect { x: 0, y: 0, w: 80, h: 24 })]);
    assert!(dividers.is_empty());
}

#[test]
fn vertical_split_rounds_ratio_and_draws_divider() {
    let node = split(SplitDir::Vertical, LayoutNode::Leaf(1), LayoutNode::Leaf(2));
    let (rects, dividers) = rects_of(&node, 101, 50);
    assert_eq!(
        rects,
        vec![(1, Rect { x: 0, y: 0, w: 51, h: 50 }), (2, Rect { x: 52, y: 0, w: 49, h: 50 })]
    );
    assert_eq!(dividers, vec![Divider { x: 51, y: 0, w: 1, h: 50 }]);
}

#[test]
fn horizontal_split_stacks_panes() {
    let node = split(SplitDir::Horizontal, LayoutNode::Leaf(1), LayoutNode::Leaf(2));
    let (rects, dividers) = rects_of(&node, 40, 21);
    assert_eq!(
        rects,
        vec![(1, Rect { x: 0, y: 0, w: 40, h: 11 }), (2, Rect { x: 0, y: 12, w: 40, h: 9 })]
    );
    assert_eq!(dividers, vec![Divider { x: 0, y: 11, w: 40, h: 1 }]);
}

#[test]
fn too_narrow_split_shows_first_child_only() {
    let node = split(SplitDir::Vertical, LayoutNode::Leaf(1), LayoutNode::Leaf(2));
    let (rects, dividers) = rects_of(&node, 2, 10);
    assert_eq!(rects, vec![(1, Rect { x: 0, y: 0, w: 2, h: 10 })]);
    assert!(dividers.is_empty());
}

#[test]
fn replace_and_remove_leaves() {
    let mut node = split(SplitDir::Vertical, LayoutNode::Leaf(1), LayoutNode::Leaf(2));
    assert!(node.contains_pane(2));
    assert!(!node.contains_pane(3));
    assert_eq!(node.first_leaf(), Some(1));
    let repl = split(SplitDir::Horizontal, LayoutNode::Leaf(2), LayoutNode::Leaf(3));
    assert!(node.replace_leaf(2, repl));
    assert!(node.contains_pane(3));
    assert!(!node.replace_leaf(9, LayoutNode::Leaf(10)));

    assert!(node.remove_pane(1));
    assert!(!node.contains_pane(1));
    assert_eq!(node.first_leaf(), Some(2));
    let (rects, _) = rects_of(&node, 10, 21);
    assert_eq!(rects.len(), 2);
    assert_eq!(rects[0].0, 2);
    assert_eq!(rects[1].0, 3);
}

#[test]
fn removing_the_only_leaf_leaves_tree_alone() {
    let mut node = LayoutNode::Leaf(4);
    assert!(!node.remove_pane(4));
    assert!(node.contains_pane(4));
}

#[test]
fn adjust_ratio_moves_divider_within_bounds() {
    let mut node = split(SplitDir::Vertical, LayoutNode::Leaf(1), LayoutNode::Leaf(2));
    let mut done = false;
    node.adjust_ratio_for_pane(1, SplitDir::Vertical, 100, &mut done);
    assert!(done);
    let (rects, _) = rects_of(&node, 101, 10);
    assert_eq!(rects[0].1.w, 61);

    let mut done = false;
    node.adjust_ratio_for_pane(1, SplitDir::Vertical, 10_000, &mut done);
    assert!(done);
    let (rects, _) = rects_of(&node, 101, 10);
    assert_eq!(rects[0].1.w, 91);

    let mut done = false;
    node.adjust_ratio_for_pane(1, SplitDir::Horizontal, 100, &mut done);
    assert!(!done);
}
