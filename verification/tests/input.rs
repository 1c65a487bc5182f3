use yatmux::actions::{is_always_handled_action, is_global_only_action, Action};
use yatmux::keyboard::{handle_shadow_prompt_input, prompt_jump_offset, route_key, HelpOverlay, KeyContext, KeyRoute};
use yatmux::keys::{key_event_to_string, KeyCode, KeyEvent, LogicalKey, Modifiers, NamedKey, PhysicalKey};
use yatmux::pane::ShadowPrompt;

fn event(physical: PhysicalKey, logical: LogicalKey) -> KeyEvent {
    KeyEvent { physical_key: physical, logical_key: logical, text: None, pressed: true }
}

fn plain() -> KeyContext {
    KeyContext {
        prompt_open: false,
        help_consumed: false,
        plugin_binding: false,
        non_search_action: None,
        has_focused_pane: true,
        search_active: false,
        shadow_mode_on: true,
        shadow_enabled: true,
        command_running: false,
        alt_screen: false,
        ctrl: false,
        alt: false,
        has_text: true,
    }
}

#[test]
fn key_strings_follow_physical_key() {
    let e = event(PhysicalKey::Code(KeyCode::Minus), LogicalKey::Character("_".to_string()));
    assert_eq!(key_event_to_string(&e).as_deref(), Some("-"));
    let e = event(PhysicalKey::Code(KeyCode::Backslash), LogicalKey::Character("|".to_string()));
    assert_eq!(key_event_to_string(&e).as_deref(), Some("\\"));
    let e = event(PhysicalKey::Code(KeyCode::ArrowUp), LogicalKey::Named(NamedKey::ArrowUp));
    assert_eq!(key_event_to_string(&e).as_deref(), Some("up"));
    let e = event(PhysicalKey::Code(KeyCode::F12), LogicalKey::Named(NamedKey::F12));
    assert_eq!(key_event_to_string(&e).as_deref(), Some("f12"));
}

#[test]
fn key_strings_fall_back_to_logical_key() {
    let e = event(PhysicalKey::Unidentified, LogicalKey::Character("Ä".to_string()));
    assert_eq!(key_event_to_string(&e).as_deref(), Some("ä"));
    let e = event(PhysicalKey::Code(KeyCode::Other), LogicalKey::Named(NamedKey::PageDown));
    assert_eq!(key_event_to_string(&e).as_deref(), Some("pagedown"));
    let e = event(PhysicalKey::Unidentified, LogicalKey::Other);
    assert_eq!(key_event_to_string(&e), None);
    let e = event(PhysicalKey::Unidentified, LogicalKey::Named(NamedKey::Other));
    assert_eq!(key_event_to_string(&e), None);
}

#[test]
fn lowercase_conversion() {
    let e = event(PhysicalKey::Unidentified, LogicalKey::Character("T".to_string()));
    assert_eq!(key_event_to_string(&e).as_deref(), Some("t"));
}

#[test]
fn global_only_actions() {
    assert!(is_global_only_action(Action::NewTab));
    assert!(is_global_only_action(Action::SwitchToProfile9));
    assert!(is_global_only_action(Action::ReloadConfig));
    assert!(!is_global_only_action(Action::SplitVertical));
    assert!(!is_global_only_action(Action::Copy));
    assert!(is_always_handled_action(Action::SplitVertical));
    assert!(!is_always_handled_action(Action::Copy));
}

#[test]
fn routing_order() {
    let mut c = plain();
    assert_eq!(route_key(&c), KeyRoute::Terminal { send_text: true });
    c.ctrl = true;
    assert_eq!(route_key(&c), KeyRoute::Terminal { send_text: false });
    c.command_running = true;
    assert_eq!(route_key(&c), KeyRoute::ShadowPrompt);
    c.alt_screen = true;
    assert_eq!(route_key(&c), KeyRoute::Terminal { send_text: false });
    c.non_search_action = Some(Action::Copy);
    assert_eq!(route_key(&c), KeyRoute::Execute(Action::Copy));
    c.search_active = true;
    assert_eq!(route_key(&c), KeyRoute::Search);
    c.non_search_action = Some(Action::NewTab);
    assert_eq!(route_key(&c), KeyRoute::Execute(Action::NewTab));
    c.non_search_action = Some(Action::Copy);
    c.has_focused_pane = false;
    assert_eq!(route_key(&c), KeyRoute::Ignore);
    c.plugin_binding = true;
    assert_eq!(route_key(&c), KeyRoute::PluginKeybind);
    c.help_consumed = true;
    assert_eq!(route_key(&c), KeyRoute::HelpOverlay);
    c.prompt_open = true;
    assert_eq!(route_key(&c), KeyRoute::Prompt);
}

#[test]
fn help_overlay_ignores_keys_when_hidden() {
    let mut h = HelpOverlay::new();
    assert!(!h.handle_input(Some("up"), None, Modifiers::empty()));
    assert!(!h.handle_input(Some("a"), Some("a"), Modifiers::empty()));
    assert_eq!(h.help_filter.query(), "");
}

#[test]
fn help_overlay_scrolls_within_bounds() {
    let mut h = HelpOverlay::new();
    h.show_help = true;
    h.help_max_scroll = 12;
    assert!(h.handle_input(Some("down"), None, Modifiers::empty()));
    assert_eq!(h.help_scroll, 1);
    assert!(h.handle_input(Some("pagedown"), None, Modifiers::empty()));
    assert_eq!(h.help_scroll, 11);
    assert!(h.handle_input(Some("pagedown"), None, Modifiers::empty()));
    assert_eq!(h.help_scroll, 12);
    assert!(h.handle_input(Some("down"), None, Modifiers::empty()));
    assert_eq!(h.help_scroll, 12);
    assert!(h.handle_input(Some("pageup"), None, Modifiers::empty()));
    assert_eq!(h.help_scroll, 2);
    assert!(h.handle_input(Some("pageup"), None, Modifiers::empty()));
    assert_eq!(h.help_scroll, 0);
    assert!(h.handle_input(Some("up"), None, Modifiers::empty()));
    assert_eq!(h.help_scroll, 0);
    assert!(h.handle_input(Some("end"), None, Modifiers::empty()));
    assert_eq!(h.help_scroll, 12);
    assert!(h.handle_input(Some("home"), None, Modifiers::empty()));
    assert_eq!(h.help_scroll, 0);
}

#[test]
fn help_overlay_filter_typing() {
    let mut h = HelpOverlay::new();
    h.show_help = true;
    h.help_max_scroll = 5;
    h.help_scroll = 3;
    assert!(h.handle_input(Some("d"), Some("d"), Modifiers::empty()));
    assert!(h.shell_warning_dismissed);
    assert!(!h.help_filter.is_active());
    assert!(h.handle_input(Some("t"), Some("t"), Modifiers::empty()));
    assert!(h.help_filter.is_active());
    assert_eq!(h.help_filter.query(), "t");
    assert_eq!(h.help_scroll, 0);
    assert!(h.handle_input(Some("d"), Some("d"), Modifiers::empty()));
    assert_eq!(h.help_filter.query(), "td");
    let ctrl = Modifiers { control: true, shift: false, alt: false, super_key: false };
    assert!(!h.handle_input(Some("x"), Some("x"), ctrl));
    assert_eq!(h.help_filter.query(), "td");
    assert!(h.handle_input(Some("backspace"), None, Modifiers::empty()));
    assert_eq!(h.help_filter.query(), "t");
    assert!(h.handle_input(Some("escape"), None, Modifiers::empty()));
    assert!(!h.help_filter.is_active());
    assert_eq!(h.help_filter.query(), "");
    assert!(!h.handle_input(Some("escape"), None, Modifiers::empty()));
}

#[test]
fn shadow_prompt_keys() {
    let mut p = ShadowPrompt::new();
    assert!(handle_shadow_prompt_input(&mut p, &LogicalKey::Character("ls".to_string()), Modifiers::empty()));
    assert!(handle_shadow_prompt_input(&mut p, &LogicalKey::Named(NamedKey::Space), Modifiers::empty()));
    assert_eq!(p.buffer, "ls ");
    let ctrl = Modifiers { control: true, shift: false, alt: false, super_key: false };
    assert!(!handle_shadow_prompt_input(&mut p, &LogicalKey::Character("c".to_string()), ctrl));
    assert_eq!(p.buffer, "ls ");
    assert!(handle_shadow_prompt_input(&mut p, &LogicalKey::Named(NamedKey::Backspace), Modifiers::empty()));
    assert!(handle_shadow_prompt_input(&mut p, &LogicalKey::Named(NamedKey::Home), Modifiers::empty()));
    assert!(handle_shadow_prompt_input(&mut p, &LogicalKey::Named(NamedKey::Delete), Modifiers::empty()));
    assert_eq!(p.buffer, "s");
    assert!(handle_shadow_prompt_input(&mut p, &LogicalKey::Named(NamedKey::Enter), Modifiers::empty()));
    assert_eq!(p.buffer, "\ns");
    assert_eq!(p.cursor, 1);
    assert!(!handle_shadow_prompt_input(&mut p, &LogicalKey::Named(NamedKey::F5), Modifiers::empty()));
    assert!(handle_shadow_prompt_input(&mut p, &LogicalKey::Named(NamedKey::Escape), Modifiers::empty()));
    assert!(p.is_empty());
    assert!(!p.visible);
}

#[test]
fn prompt_jumps() {
    let prompts = vec![10usize, 40, 70];
    // View top at row 100 - 50 = 50.
    assert_eq!(prompt_jump_offset(&prompts, 100, 50, true), Some(30));
    assert_eq!(prompt_jump_offset(&prompts, 100, 50, false), Some(60));
    assert_eq!(prompt_jump_offset(&prompts, 100, 0, true), None);
    assert_eq!(prompt_jump_offset(&prompts, 100, 95, false), None);
    assert_eq!(prompt_jump_offset(&prompts, 5, 0, true), Some(0));
}

#[test]
fn shadow_prompt_typing_moves_cursor_past_text() {
    let mut p = ShadowPrompt::new();
    assert!(handle_shadow_prompt_input(&mut p, &LogicalKey::Character("ab".to_string()), Modifiers::empty()));
    assert!(handle_shadow_prompt_input(&mut p, &LogicalKey::Named(NamedKey::Home), Modifiers::empty()));
    assert!(handle_shadow_prompt_input(&mut p, &LogicalKey::Character("é".to_string()), Modifiers::empty()));
    assert_eq!(p.cursor, 2);
    assert!(handle_shadow_prompt_input(&mut p, &LogicalKey::Named(NamedKey::Space), Modifiers::empty()));
    assert_eq!(p.cursor, 3);
    assert!(handle_shadow_prompt_input(&mut p, &LogicalKey::Named(NamedKey::Enter), Modifiers::empty()));
    assert_eq!(p.cursor, 4);
    assert_eq!(p.buffer, "é \nab");
    assert_eq!(p.take(), "é \nab");
    assert!(p.is_empty());
    assert_eq!(p.cursor, 0);
    assert!(!p.visible);
}
