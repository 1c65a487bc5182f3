use yatmux::keys::{KeyEvent, LogicalKey, Modifiers, NamedKey, PhysicalKey};
use yatmux::pane::ShadowPrompt;
use yatmux::prompt::{handle_prompt_input, PromptKind, PromptResolution, PromptState};

fn named(key: NamedKey) -> KeyEvent {
    KeyEvent { physical_key: PhysicalKey::Unidentified, logical_key: LogicalKey::Named(key), text: None, pressed: true }
}

fn typed(s: &str) -> KeyEvent {
    KeyEvent {
        physical_key: PhysicalKey::Unidentified,
        logical_key: LogicalKey::Character(s.to_string()),
        text: Some(s.to_string()),
        pressed: true,
    }
}

fn ctrl() -> Modifiers {
    Modifiers { control: true, shift: false, alt: false, super_key: false }
}

#[test]
fn shadow_prompt_inserts_at_cursor() {
    let mut p = ShadowPrompt::new();
    assert!(p.is_empty());
    assert!(!p.visible);
    p.insert_str("hllo");
    assert_eq!(p.buffer, "hllo");
    assert_eq!(p.cursor, 4);
    assert!(p.visible);
    p.move_home();
    p.move_right();
    p.insert('e');
    assert_eq!(p.buffer, "hello");
    assert_eq!(p.cursor, 2);
}

#[test]
fn shadow_prompt_handles_multibyte_characters() {
    let mut p = ShadowPrompt::new();
    p.insert_str("aé");
    assert_eq!(p.cursor, 3);
    p.move_left();
    assert_eq!(p.cursor, 1);
    p.delete();
    assert_eq!(p.buffer, "a");
    p.move_end();
    p.insert('€');
    assert_eq!(p.cursor, 4);
    p.backspace();
    assert_eq!(p.buffer, "a");
    assert_eq!(p.cursor, 1);
}

#[test]
fn shadow_prompt_backspace_undoes_insert() {
    let mut p = ShadowPrompt::new();
    p.insert_str("abc");
    p.move_left();
    let before = (p.buffer.clone(), p.cursor);
    p.insert('ß');
    p.backspace();
    assert_eq!((p.buffer.clone(), p.cursor), before);
}

#[test]
fn shadow_prompt_edges_are_noops() {
    let mut p = ShadowPrompt::new();
    p.backspace();
    p.delete();
    p.move_left();
    p.move_right();
    assert_eq!(p.buffer, "");
    assert_eq!(p.cursor, 0);
    p.insert_str("xy");
    p.delete();
    assert_eq!(p.buffer, "xy");
    p.move_right();
    assert_eq!(p.cursor, 2);
}

#[test]
fn shadow_prompt_take_and_clear_reset() {
    let mut p = ShadowPrompt::new();
    p.insert_str("ls -la");
    let text = p.take();
    assert_eq!(text, "ls -la");
    assert!(p.is_empty());
    assert_eq!(p.cursor, 0);
    assert!(!p.visible);
    p.insert('x');
    p.clear();
    assert!(p.is_empty());
    assert!(!p.visible);
}

#[test]
fn input_prompt_types_and_submits() {
    let mut prompt = PromptState::input("id1".to_string(), "Title".to_string(), None, None);
    assert_eq!(prompt.kind, PromptKind::Input);
    assert_eq!(prompt.kind_label(), "input");
    let u = handle_prompt_input(&mut prompt, &typed("ab\u{7}c"), Modifiers::empty());
    assert!(u.needs_redraw);
    assert!(u.resolution.is_none());
    assert_eq!(prompt.input, "abc");
    let u = handle_prompt_input(&mut prompt, &named(NamedKey::Backspace), Modifiers::empty());
    assert!(u.needs_redraw);
    assert_eq!(prompt.input, "ab");
    let u = handle_prompt_input(&mut prompt, &typed("z"), ctrl());
    assert!(!u.needs_redraw);
    assert_eq!(prompt.input, "ab");
    let u = handle_prompt_input(&mut prompt, &named(NamedKey::Enter), Modifiers::empty());
    let r = u.resolution.unwrap();
    assert!(r.ok);
    assert_eq!(r.value.as_deref(), Some("ab"));
    assert_eq!(r.index, None);
}

#[test]
fn input_prompt_uses_default() {
    let mut prompt =
        PromptState::input("id".to_string(), "T".to_string(), Some("msg".to_string()), Some("dflt".to_string()));
    let u = handle_prompt_input(&mut prompt, &named(NamedKey::Enter), Modifiers::empty());
    assert_eq!(u.resolution.unwrap().value.as_deref(), Some("dflt"));
    let u = handle_prompt_input(&mut prompt, &named(NamedKey::Tab), Modifiers::empty());
    assert!(u.needs_redraw);
    assert_eq!(prompt.input, "dflt");
    let u = handle_prompt_input(&mut prompt, &named(NamedKey::Tab), Modifiers::empty());
    assert!(!u.needs_redraw);
}

#[test]
fn prompt_escape_cancels_and_release_is_ignored() {
    let mut prompt = PromptState::input("id".to_string(), "T".to_string(), None, None);
    let mut release = named(NamedKey::Escape);
    release.pressed = false;
    let u = handle_prompt_input(&mut prompt, &release, Modifiers::empty());
    assert!(u.resolution.is_none());
    assert!(!u.needs_redraw);
    let u = handle_prompt_input(&mut prompt, &named(NamedKey::Escape), Modifiers::empty());
    let r = u.resolution.unwrap();
    assert!(!r.ok);
    assert!(r.value.is_none());
    assert!(r.index.is_none());
    assert!(r.reason.is_none());
}

#[test]
fn confirm_prompt_switches_buttons() {
    let mut prompt = PromptState::confirm("c".to_string(), "Sure?".to_string(), None, Some("Yes".to_string()), None);
    assert_eq!(prompt.ok_label, "Yes");
    assert_eq!(prompt.cancel_label, "Cancel");
    assert_eq!(prompt.kind_label(), "confirm");
    let u = handle_prompt_input(&mut prompt, &named(NamedKey::ArrowRight), Modifiers::empty());
    assert!(u.needs_redraw);
    assert_eq!(prompt.selected, 1);
    let u = handle_prompt_input(&mut prompt, &named(NamedKey::Enter), Modifiers::empty());
    assert!(!u.resolution.unwrap().ok);
    handle_prompt_input(&mut prompt, &named(NamedKey::Tab), Modifiers::empty());
    assert_eq!(prompt.selected, 0);
    let u = handle_prompt_input(&mut prompt, &named(NamedKey::Enter), Modifiers::empty());
    assert!(u.resolution.unwrap().ok);
    let u = handle_prompt_input(&mut prompt, &typed("x"), Modifiers::empty());
    assert!(u.resolution.is_none() && !u.needs_redraw);
}

#[test]
fn pick_prompt_moves_within_items() {
    let items: Vec<String> = (0..8).map(|i| format!("item{i}")).collect();
    let mut prompt = PromptState::pick("p".to_string(), "Pick".to_string(), None, items, Some(20));
    assert_eq!(prompt.selected, 7);
    assert_eq!(prompt.ok_label, "Select");
    assert_eq!(prompt.kind_label(), "pick");
    let u = handle_prompt_input(&mut prompt, &named(NamedKey::ArrowDown), Modifiers::empty());
    assert!(!u.needs_redraw);
    assert_eq!(prompt.selected, 7);
    handle_prompt_input(&mut prompt, &named(NamedKey::PageUp), Modifiers::empty());
    assert_eq!(prompt.selected, 2);
    handle_prompt_input(&mut prompt, &named(NamedKey::PageUp), Modifiers::empty());
    assert_eq!(prompt.selected, 0);
    let u = handle_prompt_input(&mut prompt, &named(NamedKey::ArrowUp), Modifiers::empty());
    assert!(!u.needs_redraw);
    handle_prompt_input(&mut prompt, &named(NamedKey::ArrowDown), Modifiers::empty());
    assert_eq!(prompt.selected, 1);
    handle_prompt_input(&mut prompt, &named(NamedKey::PageDown), Modifiers::empty());
    assert_eq!(prompt.selected, 6);
    handle_prompt_input(&mut prompt, &named(NamedKey::PageDown), Modifiers::empty());
    assert_eq!(prompt.selected, 7);
    let u = handle_prompt_input(&mut prompt, &named(NamedKey::Enter), Modifiers::empty());
    let r = u.resolution.unwrap();
    assert!(r.ok);
    assert_eq!(r.index, Some(7));
    assert_eq!(r.value.as_deref(), Some("item7"));
}

#[test]
fn pick_prompt_on_empty_list() {
    let mut prompt = PromptState::pick("p".to_string(), "Pick".to_string(), None, Vec::new(), None);
    assert_eq!(prompt.selected, 0);
    let u = handle_prompt_input(&mut prompt, &named(NamedKey::Enter), Modifiers::empty());
    let r = u.resolution.unwrap();
    assert!(r.ok);
    assert_eq!(r.index, Some(0));
    assert!(r.value.is_none());
}

#[test]
fn resolutions_are_built_as_given() {
    let r = PromptResolution::submit(true, Some("v".to_string()), Some(3));
    assert!(r.ok);
    assert_eq!(r.value.as_deref(), Some("v"));
    assert_eq!(r.index, Some(3));
    assert!(r.reason.is_none());
    let c = PromptResolution::cancel();
    assert!(!c.ok && c.value.is_none() && c.index.is_none() && c.reason.is_none());
}
