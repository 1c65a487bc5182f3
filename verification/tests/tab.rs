use yatmux::layout::tree::LayoutNode;
use yatmux::layout::{Rect, SplitDir};
use yatmux::tab::{pane_at_position, CloseOutcome, Tab};

fn two_pane_tab() -> Tab {
    let mut tab = Tab::new(7, 1);
    tab.add_pane(1);
    let new_id = tab.split_focused(SplitDir::Vertical);
    assert_eq!(new_id, Some(2));
    tab.add_pane(2);
    tab
}

#[test]
fn new_tab_has_one_focused_pane() {
    let tab = Tab::new(3, 10);
    assert_eq!(tab.id, 3);
    assert_eq!(tab.focused_pane, 10);
    assert_eq!(tab.focus_history, vec![10]);
    assert!(tab.panes.is_empty());
    assert_eq!(tab.next_pane_id, 11);
    assert!(tab.layout.contains_pane(10));
}

#[test]
fn split_focuses_new_pane_to_the_right() {
    let tab = two_pane_tab();
    assert_eq!(tab.focused_pane, 2);
    assert_eq!(tab.focus_history, vec![1, 2]);
    assert_eq!(tab.next_pane_id, 3);
    let (rects, dividers) = tab.pane_rects(101, 40);
    assert_eq!(rects.len(), 2);
    assert_eq!(rects[0], (1, Rect { x: 0, y: 0, w: 51, h: 40 }));
    assert_eq!(rects[1], (2, Rect { x: 52, y: 0, w: 49, h: 40 }));
    assert_eq!(dividers.len(), 1);
}

#[test]
fn split_of_missing_focus_does_nothing() {
    let mut tab = Tab::new(1, 1);
    tab.focused_pane = 99;
    assert_eq!(tab.split_focused(SplitDir::Horizontal), None);
    assert_eq!(tab.next_pane_id, 2);
    assert!(matches!(tab.layout, LayoutNode::Leaf(1)));
}

#[test]
fn add_pane_is_idempotent() {
    let mut tab = Tab::new(1, 1);
    tab.add_pane(1);
    tab.add_pane(1);
    assert_eq!(tab.panes, vec![1]);
}

#[test]
fn record_focus_moves_to_end_once() {
    let mut tab = two_pane_tab();
    tab.record_focus(1);
    assert_eq!(tab.focus_history, vec![2, 1]);
    tab.record_focus(1);
    assert_eq!(tab.focus_history, vec![2, 1]);
    tab.set_focus(2);
    assert_eq!(tab.focused_pane, 2);
    assert_eq!(tab.focus_history, vec![1, 2]);
}

#[test]
fn closing_focused_pane_returns_focus_to_previous() {
    let mut tab = two_pane_tab();
    assert_eq!(tab.close_focused_pane(), CloseOutcome::Closed);
    assert_eq!(tab.focused_pane, 1);
    assert_eq!(tab.panes, vec![1]);
    assert_eq!(tab.focus_history, vec![1]);
    assert!(matches!(tab.layout, LayoutNode::Leaf(1)));
}

#[test]
fn closing_last_pane_reports_it() {
    let mut tab = Tab::new(1, 1);
    tab.add_pane(1);
    assert_eq!(tab.close_pane(1), CloseOutcome::LastPaneClosed);
    assert!(tab.panes.is_empty());
    assert!(tab.focus_history.is_empty());
}

#[test]
fn closing_unfocused_pane_keeps_focus_on_most_recent() {
    let mut tab = two_pane_tab();
    let third = tab.split_focused(SplitDir::Horizontal);
    assert_eq!(third, Some(3));
    tab.add_pane(3);
    assert_eq!(tab.close_pane(1), CloseOutcome::Closed);
    assert_eq!(tab.focused_pane, 3);
    assert_eq!(tab.panes, vec![2, 3]);
    assert!(!tab.layout.contains_pane(1));
}

#[test]
fn focus_fallback_uses_first_leaf_without_live_history() {
    let mut tab = Tab::new(1, 5);
    tab.focus_fallback();
    assert_eq!(tab.focused_pane, 5);
}

#[test]
fn focus_moves_left_and_right() {
    let mut tab = two_pane_tab();
    let (rects, _) = tab.pane_rects(100, 40);
    assert!(tab.focus_move(SplitDir::Vertical, false, &rects, 1000));
    assert_eq!(tab.focused_pane, 1);
    assert!(!tab.focus_move(SplitDir::Vertical, false, &rects, 1000));
    assert_eq!(tab.focused_pane, 1);
    assert!(!tab.focus_move(SplitDir::Horizontal, true, &rects, 1000));
    assert!(tab.focus_move(SplitDir::Vertical, true, &rects, 1000));
    assert_eq!(tab.focused_pane, 2);
}

#[test]
fn focus_move_prefers_larger_overlap() {
    // Pane 1 on the left spans the height; panes 2 (top) and 3 (bottom) on the right.
    let rects = vec![
        (1u64, Rect { x: 0, y: 0, w: 50, h: 100 }),
        (2u64, Rect { x: 51, y: 0, w: 49, h: 30 }),
        (3u64, Rect { x: 51, y: 31, w: 49, h: 69 }),
    ];
    let mut tab = Tab::new(1, 1);
    assert!(tab.focus_move(SplitDir::Vertical, true, &rects, 1000));
    assert_eq!(tab.focused_pane, 3);
}

#[test]
fn focus_move_without_focused_rect_does_nothing() {
    let rects = vec![(2u64, Rect { x: 0, y: 0, w: 10, h: 10 })];
    let mut tab = Tab::new(1, 1);
    assert!(!tab.focus_move(SplitDir::Vertical, true, &rects, 1000));
    assert_eq!(tab.focused_pane, 1);
}

#[test]
fn resize_moves_the_enclosing_divider() {
    let mut tab = two_pane_tab();
    tab.set_focus(1);
    assert!(tab.resize_focused(SplitDir::Vertical, false, 100));
    let (rects, _) = tab.pane_rects(101, 10);
    assert_eq!(rects[0].1.w, 61);
    assert!(!tab.resize_focused(SplitDir::Horizontal, false, 100));
    tab.set_focus(2);
    assert!(tab.resize_focused(SplitDir::Vertical, false, 100));
    let (rects, _) = tab.pane_rects(101, 10);
    assert_eq!(rects[0].1.w, 51);
}

#[test]
fn pane_at_position_finds_first_containing_rect() {
    let rects = vec![
        (1u64, Rect { x: 0, y: 0, w: 50, h: 40 }),
        (2u64, Rect { x: 51, y: 0, w: 49, h: 40 }),
    ];
    assert_eq!(pane_at_position(&rects, 10, 10).map(|p| p.0), Some(1));
    assert_eq!(pane_at_position(&rects, 60, 39).map(|p| p.0), Some(2));
    assert_eq!(pane_at_position(&rects, 50, 10), None);
    assert_eq!(pane_at_position(&rects, -3, 10), None);
}
