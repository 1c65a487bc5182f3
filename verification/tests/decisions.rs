use yatmux::actions::{
    is_search_mode_only_action, next_tab_index, plan_action, prefer_global_binding, prev_tab_index, Action, ActionPlan,
};
use yatmux::context_menu::{tab_bar_menu_items, ContextMenu, ContextMenuAction};
use yatmux::keyboard::{search_key, HelpOverlay, SearchKey};
use yatmux::keys::{keybind_name, LogicalKey, Modifiers, NamedKey};
use yatmux::layout::SplitDir;
use yatmux::mouse::{left_click, other_click, LeftClick, LeftClickContext, OtherClick};
use yatmux::pane::{shadow_prompt_shown, toggle_shadow_prompt, ShadowPrompt, ShadowPromptMode};
use yatmux::profiles::{cycle_profile_index, profile_index, profile_message};
use yatmux::tab_bar::{DragRelease, TabBarMetrics, TabDragState};

fn names(v: &[&str]) -> Vec<String> {
    v.iter().map(|s| s.to_string()).collect()
}

#[test]
fn action_plans() {
    assert_eq!(plan_action(Action::Tab3), ActionPlan::GotoTab(2));
    assert_eq!(plan_action(Action::FocusLeft), ActionPlan::FocusMove { dir: SplitDir::Vertical, positive: false });
    assert_eq!(plan_action(Action::ResizeDown), ActionPlan::Resize { dir: SplitDir::Horizontal, grow: true });
    assert_eq!(plan_action(Action::ScrollPageDown), ActionPlan::Scroll(-24));
    assert_eq!(plan_action(Action::ScrollLineUp), ActionPlan::Scroll(1));
    assert_eq!(plan_action(Action::ZoomOut), ActionPlan::ZoomBy(-1));
    assert_eq!(plan_action(Action::SwitchToProfile4), ActionPlan::SwitchToProfile(4));
    assert_eq!(plan_action(Action::SearchNext), ActionPlan::Nothing);
    assert_eq!(plan_action(Action::Disabled), ActionPlan::Nothing);
    assert_eq!(plan_action(Action::SearchFind), ActionPlan::OpenSearch);
}

#[test]
fn tab_index_wraps() {
    assert_eq!(next_tab_index(0, 3), 1);
    assert_eq!(next_tab_index(2, 3), 0);
    assert_eq!(prev_tab_index(0, 3), 2);
    assert_eq!(prev_tab_index(2, 3), 1);
    assert_eq!(next_tab_index(0, 1), 0);
}

#[test]
fn global_only_bindings_win() {
    assert_eq!(prefer_global_binding(Some(1), Some(Action::NewTab), Some(2)), Some(1));
    assert_eq!(prefer_global_binding(Some(1), Some(Action::Copy), Some(2)), Some(2));
    assert_eq!(prefer_global_binding(None::<u8>, None, Some(2)), Some(2));
    assert!(is_search_mode_only_action(Action::SearchClose));
    assert!(!is_search_mode_only_action(Action::SearchFind));
}

#[test]
fn search_box_keys() {
    let plain = Modifiers::empty();
    assert!(matches!(search_key(Some(Action::SearchClose), &LogicalKey::Other, plain, 0), SearchKey::Close));
    assert!(matches!(
        search_key(Some(Action::SearchConfirm), &LogicalKey::Other, plain, 0),
        SearchKey::Confirm { advance: false }
    ));
    assert!(matches!(
        search_key(Some(Action::SearchConfirm), &LogicalKey::Other, plain, 3),
        SearchKey::Confirm { advance: true }
    ));
    assert!(matches!(search_key(None, &LogicalKey::Named(NamedKey::Backspace), plain, 0), SearchKey::PopChar));
    match search_key(Some(Action::Copy), &LogicalKey::Character("ab".to_string()), plain, 0) {
        SearchKey::Type(t) => assert_eq!(t, "ab"),
        _ => panic!("expected typed text"),
    }
    let ctrl = Modifiers { control: true, shift: false, alt: false, super_key: false };
    assert!(matches!(search_key(None, &LogicalKey::Character("a".to_string()), ctrl, 0), SearchKey::Ignore));
}

#[test]
fn keybind_names() {
    let m = Modifiers { control: true, shift: true, alt: false, super_key: true };
    assert_eq!(keybind_name("r", m), "ctrl+shift+r");
    let m = Modifiers { control: false, shift: false, alt: true, super_key: false };
    assert_eq!(keybind_name("1", m), "alt+1");
    assert_eq!(keybind_name("f5", Modifiers::empty()), "f5");
}

fn base_click() -> LeftClickContext {
    LeftClickContext {
        pressed: true,
        menu_open: false,
        menu_item: None,
        buffer_empty: false,
        drag: None,
        release_in_tab_bar: false,
        press_in_tab_bar: false,
        tab_count: 2,
        tab_under_cursor: None,
        cursor_x: 40,
        pane_under_cursor: Some(3),
    }
}

#[test]
fn left_click_decisions() {
    let c = base_click();
    assert_eq!(left_click(&c), LeftClick::Pane(3));
    let mut m = c;
    m.menu_open = true;
    m.menu_item = Some(ContextMenuAction::Paste);
    assert_eq!(left_click(&m), LeftClick::MenuPress(Some(ContextMenuAction::Paste)));
    m.pressed = false;
    assert_eq!(left_click(&m), LeftClick::Nothing);
    let mut t = c;
    t.press_in_tab_bar = true;
    t.tab_under_cursor = Some(1);
    assert_eq!(left_click(&t), LeftClick::StartDrag(TabDragState::start(1, 40)));
    t.tab_count = 1;
    assert_eq!(left_click(&t), LeftClick::Nothing);
    let mut r = c;
    r.pressed = false;
    r.drag = Some(TabDragState::start(0, 10));
    r.release_in_tab_bar = true;
    assert_eq!(left_click(&r), LeftClick::EndDrag(DragRelease::Goto(0)));
    let mut e = c;
    e.buffer_empty = true;
    assert_eq!(left_click(&e), LeftClick::Nothing);
}

#[test]
fn other_click_decisions() {
    assert_eq!(other_click(true, false, false, false), OtherClick::Nothing);
    assert_eq!(other_click(true, true, true, false), OtherClick::CloseMenu);
    assert_eq!(other_click(false, true, true, false), OtherClick::CloseMenu);
    assert_eq!(other_click(false, true, false, false), OtherClick::Paste);
    assert_eq!(other_click(true, true, false, true), OtherClick::TabBarMenu);
    assert_eq!(other_click(true, true, false, false), OtherClick::PaneMenu);
}

#[test]
fn profile_cycling() {
    let p = names(&["default", "work", "ssh"]);
    assert_eq!(cycle_profile_index(&p, "default", false), Some(1));
    assert_eq!(cycle_profile_index(&p, "ssh", false), Some(0));
    assert_eq!(cycle_profile_index(&p, "default", true), Some(2));
    assert_eq!(cycle_profile_index(&p, "work", true), Some(0));
    assert_eq!(cycle_profile_index(&p, "unknown", false), Some(1));
    assert_eq!(cycle_profile_index(&names(&["default"]), "default", false), None);
    assert_eq!(profile_index(1, 3), Some(0));
    assert_eq!(profile_index(4, 3), None);
    assert_eq!(profile_message("work"), "Profile: work");
}

#[test]
fn shadow_prompt_toggling() {
    let mut enabled = true;
    let mut p = ShadowPrompt::new();
    p.insert_str("partial");
    assert_eq!(toggle_shadow_prompt(false, &mut enabled, &mut p), "Shadow prompt is disabled in config");
    assert!(enabled);
    assert_eq!(p.buffer, "partial");
    assert_eq!(toggle_shadow_prompt(true, &mut enabled, &mut p), "Shadow prompt: OFF");
    assert!(!enabled);
    assert!(p.is_empty());
    assert_eq!(toggle_shadow_prompt(true, &mut enabled, &mut p), "Shadow prompt: ON");
    assert!(enabled);
}

#[test]
fn help_toggle_and_wheel() {
    let mut h = HelpOverlay::new();
    h.toggle();
    assert!(h.show_help);
    h.help_max_scroll = 10;
    h.scroll_lines(-3);
    assert_eq!(h.help_scroll, 3);
    h.scroll_lines(-30);
    assert_eq!(h.help_scroll, 10);
    h.scroll_lines(4);
    assert_eq!(h.help_scroll, 6);
    h.scroll_lines(isize::MAX);
    assert_eq!(h.help_scroll, 0);
    h.scroll_lines(isize::MIN);
    assert_eq!(h.help_scroll, 10);
    h.handle_input(Some("x"), Some("x"), Modifiers::empty());
    assert!(h.help_filter.is_active());
    h.toggle();
    assert!(!h.show_help);
    assert!(!h.help_filter.is_active());
    assert_eq!(h.help_filter.query(), "");
    h.toggle();
    assert_eq!(h.help_scroll, 0);
    assert_eq!(h.help_max_scroll, 0);
}

#[test]
fn metric_checks() {
    let m = TabBarMetrics { buffer_width: 800, cell_w: 8, tab_gap: 4, side_padding: 10, max_width_cells: 20, max_width_px_extra: 16 };
    assert!(m.fits_for(3));
    let big = TabBarMetrics { cell_w: usize::MAX, ..m };
    assert!(!big.fits_for(3));
    let items = tab_bar_menu_items(0, 2);
    assert!(ContextMenu::metrics_fit_for(&items, 8, 16));
    assert!(!ContextMenu::metrics_fit_for(&items, usize::MAX / 2, 16));
    assert!(!ContextMenu::metrics_fit_for(&items, 8, usize::MAX));
}

#[test]
fn shadow_prompt_display_rule() {
    assert!(!ShadowPromptMode::Off.is_on());
    assert!(ShadowPromptMode::OnTyping.is_on());
    assert!(shadow_prompt_shown(ShadowPromptMode::Always, true, false, true, false));
    assert!(!shadow_prompt_shown(ShadowPromptMode::OnTyping, true, false, true, false));
    assert!(shadow_prompt_shown(ShadowPromptMode::OnTyping, true, false, true, true));
    assert!(!shadow_prompt_shown(ShadowPromptMode::Always, true, true, true, true));
    assert!(!shadow_prompt_shown(ShadowPromptMode::Always, false, false, true, true));
    assert!(!shadow_prompt_shown(ShadowPromptMode::Off, true, false, true, true));
    assert!(!shadow_prompt_shown(ShadowPromptMode::Always, true, false, false, true));
}
