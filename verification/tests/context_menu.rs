use yatmux::actions::Action;
use yatmux::context_menu::{menu_command, pane_menu_items, tab_bar_menu_items, ContextMenu, ContextMenuAction, MenuCommand};

#[test]
fn test_calculate_rendered_position() {
    // Test normal case - menu fits on screen
    let (rendered_x, rendered_y) = ContextMenu::calculate_rendered_position(100, 50, 200, 100, 800, 600);
    assert_eq!(rendered_x, 100);
    assert_eq!(rendered_y, 50);

    // Test edge case - menu would exceed right boundary
    let (rendered_x, rendered_y) = ContextMenu::calculate_rendered_position(700, 50, 200, 100, 800, 600);
    assert_eq!(rendered_x, 600); // 800 - 200
    assert_eq!(rendered_y, 50);

    // Test edge case - menu would exceed bottom boundary
    let (rendered_x, rendered_y) = ContextMenu::calculate_rendered_position(100, 550, 200, 100, 800, 600);
    assert_eq!(rendered_x, 100);
    assert_eq!(rendered_y, 500); // 600 - 100

    // Test corner case - menu would exceed both boundaries
    let (rendered_x, rendered_y) = ContextMenu::calculate_rendered_position(750, 580, 100, 50, 800, 600);
    assert_eq!(rendered_x, 700); // 800 - 100
    assert_eq!(rendered_y, 550); // 600 - 50
}

#[test]
fn test_calculate_rendered_position_zero_size() {
    let (rendered_x, rendered_y) = ContextMenu::calculate_rendered_position(100, 100, 0, 0, 800, 600);
    assert_eq!(rendered_x, 100);
    assert_eq!(rendered_y, 100);
}

#[test]
fn test_calculate_rendered_position_small_buffer() {
    let (rendered_x, rendered_y) = ContextMenu::calculate_rendered_position(50, 50, 200, 200, 100, 100);
    assert_eq!(rendered_x, 0);
    assert_eq!(rendered_y, 0);
}

#[test]
fn menu_size_uses_longest_label_and_padding() {
    let items = pane_menu_items(true, false, false, false);
    // Longest label is "Clear Scrollback" (16 bytes); cell width 10 adds 2 cells of padding.
    let (w, h) = ContextMenu::menu_size(&items, 10, 20);
    assert_eq!(w, 16 * 10 + 20);
    assert_eq!(h, items.len() * 28);
    let empty: Vec<(&'static str, ContextMenuAction)> = Vec::new();
    assert_eq!(ContextMenu::menu_size(&empty, 10, 20), (100, 0));
}

#[test]
fn open_keeps_menu_on_screen_and_hovers_first() {
    let items = tab_bar_menu_items(0, 1);
    let menu = ContextMenu::open(items, 790, 590, 10, 20, 800, 600);
    // width: "Close Tab" is 9 bytes -> 90 + 20 = 110; height: 2 items * 28 = 56
    assert_eq!(menu.rendered_x, 690);
    assert_eq!(menu.rendered_y, 544);
    assert_eq!(menu.hovered, Some(0));
    assert_eq!(menu.click_x, 790);
}

#[test]
fn item_at_finds_rows_and_rejects_outside() {
    let items = pane_menu_items(false, false, false, false);
    let mut menu = ContextMenu::open(items, 10, 10, 10, 20, 800, 600);
    assert_eq!(menu.item_at(15, 10, 10, 20), Some(ContextMenuAction::Paste));
    assert_eq!(menu.item_at(15, 10 + 28, 10, 20), Some(ContextMenuAction::SelectAll));
    assert_eq!(menu.item_at(5, 20, 10, 20), None);
    assert_eq!(menu.item_at(15, 5, 10, 20), None);
    assert_eq!(menu.item_at(15, 10 + 28 * 50, 10, 20), None);
    menu.update_hover(15, 10 + 28 * 2, 10, 20);
    assert_eq!(menu.hovered, Some(2));
    menu.update_hover(15, 10 + 28 * 50, 10, 20);
    assert_eq!(menu.hovered, None);
}

#[test]
fn tab_bar_menu_depends_on_position() {
    let acts = |v: Vec<(&'static str, ContextMenuAction)>| v.into_iter().map(|(_, a)| a).collect::<Vec<_>>();
    assert_eq!(
        acts(tab_bar_menu_items(0, 1)),
        vec![ContextMenuAction::NewTab, ContextMenuAction::CloseTab]
    );
    assert_eq!(
        acts(tab_bar_menu_items(1, 3)),
        vec![
            ContextMenuAction::NewTab,
            ContextMenuAction::CloseTab,
            ContextMenuAction::MoveTabLeft,
            ContextMenuAction::MoveTabToStart,
            ContextMenuAction::MoveTabRight,
            ContextMenuAction::MoveTabToEnd,
            ContextMenuAction::NextTab,
            ContextMenuAction::PrevTab,
            ContextMenuAction::CloseOtherTabs,
            ContextMenuAction::CloseTabsToRight,
        ]
    );
}

#[test]
fn pane_menu_lists_optional_items() {
    let items = pane_menu_items(true, true, true, true);
    let labels: Vec<&str> = items.iter().map(|(l, _)| *l).collect();
    assert_eq!(
        labels,
        vec![
            "Copy",
            "Paste",
            "Select All",
            "Search",
            "Open URL",
            "Scroll to Top",
            "Scroll to Bottom",
            "Clear Scrollback",
            "Reset Terminal",
            "Copy Last Output",
            "Jump to Previous Prompt",
            "Jump to Next Prompt",
        ]
    );
}

#[test]
fn tab_bar_menu_labels() {
    let labels: Vec<&str> = tab_bar_menu_items(2, 3).iter().map(|(l, _)| *l).collect();
    assert_eq!(
        labels,
        vec!["New Tab", "Close Tab", "Move Tab Left", "Move Tab to Start", "Next Tab", "Previous Tab", "Close Other Tabs"]
    );
}

#[test]
fn menu_items_map_to_commands() {
    assert_eq!(menu_command(ContextMenuAction::Search), Some(MenuCommand::Run(Action::SearchFind)));
    assert_eq!(menu_command(ContextMenuAction::Copy), Some(MenuCommand::Run(Action::Copy)));
    assert_eq!(menu_command(ContextMenuAction::SelectAll), Some(MenuCommand::SelectAll));
    assert_eq!(menu_command(ContextMenuAction::OpenUrl), Some(MenuCommand::OpenUrl));
    assert_eq!(menu_command(ContextMenuAction::JumpToPrevPrompt), Some(MenuCommand::Run(Action::JumpToPrevPrompt)));
    assert_eq!(menu_command(ContextMenuAction::NextTab), Some(MenuCommand::Run(Action::NextTab)));
    assert_eq!(menu_command(ContextMenuAction::MoveTabLeft), None);
    assert_eq!(menu_command(ContextMenuAction::CloseTabsToRight), None);
}
