use yatmux::tab_bar::{calculate_tab_at_position, calculate_tab_drop_position, DragRelease, TabBarMetrics, TabDragState};

fn metrics() -> TabBarMetrics {
    TabBarMetrics { buffer_width: 800, cell_w: 8, tab_gap: 4, side_padding: 10, max_width_cells: 20, max_width_px_extra: 16 }
}

#[test]
fn tab_under_cursor() {
    let m = metrics();
    // Three tabs of width 176: [10, 186), [190, 366), [370, 546).
    assert_eq!(calculate_tab_at_position(&m, 3, 5), None);
    assert_eq!(calculate_tab_at_position(&m, 3, 10), Some(0));
    assert_eq!(calculate_tab_at_position(&m, 3, 185), Some(0));
    assert_eq!(calculate_tab_at_position(&m, 3, 187), None);
    assert_eq!(calculate_tab_at_position(&m, 3, 200), Some(1));
    assert_eq!(calculate_tab_at_position(&m, 3, 545), Some(2));
    assert_eq!(calculate_tab_at_position(&m, 3, 600), None);
    assert_eq!(calculate_tab_at_position(&m, 0, 100), None);
}

#[test]
fn tabs_share_narrow_bar() {
    let m = TabBarMetrics { buffer_width: 100, cell_w: 8, tab_gap: 4, side_padding: 10, max_width_cells: 20, max_width_px_extra: 16 };
    // Available 100 - (4 + 20) = 76, so two tabs of 38: [10, 48), [52, 90).
    assert_eq!(calculate_tab_at_position(&m, 2, 47), Some(0));
    assert_eq!(calculate_tab_at_position(&m, 2, 52), Some(1));
    assert_eq!(calculate_tab_at_position(&m, 2, 89), Some(1));
    assert_eq!(calculate_tab_at_position(&m, 2, 90), None);
}

#[test]
fn drop_slot_by_midpoint() {
    let m = metrics();
    assert_eq!(calculate_tab_drop_position(&m, 3, 5), 0);
    assert_eq!(calculate_tab_drop_position(&m, 3, 50), 0);
    assert_eq!(calculate_tab_drop_position(&m, 3, 150), 1);
    assert_eq!(calculate_tab_drop_position(&m, 3, 300), 2);
    assert_eq!(calculate_tab_drop_position(&m, 3, 700), 3);
    assert_eq!(calculate_tab_drop_position(&m, 0, 700), 0);
}

#[test]
fn drag_commits_past_threshold() {
    let mut d = TabDragState::start(1, 100);
    assert!(!d.on_move(105, true, 2));
    assert!(!d.committed);
    assert_eq!(d.last_drop_idx, None);
    assert_eq!(d.on_release(true), DragRelease::Goto(1));
    assert_eq!(d.on_release(false), DragRelease::Nothing);
    assert!(d.on_move(94, true, 0));
    assert!(d.committed);
    assert_eq!(d.last_drop_idx, Some(0));
    assert!(!d.on_move(300, false, 3));
    assert_eq!(d.last_drop_idx, Some(0));
    assert_eq!(d.on_release(true), DragRelease::Reorder { from: 1, to: 0 });
    d.on_move(120, true, 1);
    assert_eq!(d.on_release(true), DragRelease::Nothing);
}

use yatmux::tab_bar::{draw_drop_indicator, drop_indicator_x, tab_spans, title_capacity, title_x, TabSpan};

#[test]
fn spans_of_tabs() {
    let m = metrics();
    assert_eq!(
        tab_spans(&m, 3),
        vec![TabSpan { x0: 10, x1: 186 }, TabSpan { x0: 190, x1: 366 }, TabSpan { x0: 370, x1: 546 }]
    );
    assert!(tab_spans(&m, 0).is_empty());
    let narrow = TabBarMetrics { buffer_width: 100, ..m };
    assert_eq!(tab_spans(&narrow, 2), vec![TabSpan { x0: 10, x1: 48 }, TabSpan { x0: 52, x1: 90 }]);
}

#[test]
fn title_fitting_and_centring() {
    assert_eq!(title_capacity(176, 8, 8), 20);
    assert_eq!(title_capacity(10, 8, 8), 0);
    assert_eq!(title_x(10, 186, 5, 8), 78);
    assert_eq!(title_x(10, 20, 5, 8), 10);
    assert_eq!(title_x(30, 20, 1, 8), 30);
}

#[test]
fn drop_indicator_positions() {
    let m = metrics();
    assert_eq!(drop_indicator_x(&m, 3, 50), Some(10));
    assert_eq!(drop_indicator_x(&m, 3, 150), Some(190));
    assert_eq!(drop_indicator_x(&m, 3, 700), Some(546));
    assert_eq!(drop_indicator_x(&m, 0, 700), None);
}

#[test]
fn drop_indicator_pixels() {
    let m = TabBarMetrics { buffer_width: 20, cell_w: 2, tab_gap: 2, side_padding: 2, max_width_cells: 2, max_width_px_extra: 0 };
    // Two tabs of width 4: [2, 6) and [8, 12).
    let mut drag = TabDragState::start(0, 0);
    let mut buf = vec![0u32; 20 * 4];
    draw_drop_indicator(&mut buf, 20, 4, &m, 2, Some(drag), 9, 1, 7);
    assert!(buf.iter().all(|&p| p == 0));
    drag.committed = true;
    draw_drop_indicator(&mut buf, 20, 4, &m, 2, Some(drag), 9, 1, 7);
    // Cursor 9 lies left of the second tab's midpoint 10: indicator at x = 8, rows 1 and 2.
    for y in 0..4 {
        for x in 0..20 {
            let expected = if (1..3).contains(&y) && (7..10).contains(&x) { 7 } else { 0 };
            assert_eq!(buf[y * 20 + x], expected, "pixel ({x}, {y})");
        }
    }
    let mut buf = vec![0u32; 20 * 4];
    draw_drop_indicator(&mut buf, 20, 4, &m, 2, None, 9, 1, 7);
    assert!(buf.iter().all(|&p| p == 0));
}
