use yatmux::tabs::TabList;
use yatmux::toast::{current_toast, DEFAULT_TOAST_DURATION_MS};

fn list(names: &[&'static str]) -> TabList<&'static str> {
    let mut l = TabList::new();
    for n in names {
        l.push(*n);
    }
    l
}

fn order(l: &TabList<&'static str>) -> Vec<&'static str> {
    l.as_slice().to_vec()
}

#[test]
fn push_activates_new_tab() {
    let mut l = TabList::new();
    assert_eq!(l.len(), 0);
    assert_eq!(l.active(), 0);
    assert_eq!(l.active_tab(), None);
    l.push("a");
    l.push("b");
    assert_eq!(l.active(), 1);
    assert_eq!(l.active_tab(), Some(&"b"));
}

#[test]
fn next_and_prev_wrap_around() {
    let mut l = list(&["a", "b", "c"]);
    l.next();
    assert_eq!(l.active(), 0);
    l.prev();
    assert_eq!(l.active(), 2);
    l.goto(1);
    assert_eq!(l.active(), 1);
    l.goto(7);
    assert_eq!(l.active(), 1);
}

#[test]
fn remove_keeps_active_in_range() {
    let mut l = list(&["a", "b", "c"]);
    assert_eq!(l.remove(2), Some("c"));
    assert_eq!(l.active(), 1);
    l.goto(0);
    assert_eq!(l.remove(1), Some("b"));
    assert_eq!(l.active(), 0);
    assert_eq!(l.remove(5), None);
    assert_eq!(l.remove(0), Some("a"));
    assert_eq!(l.len(), 0);
    assert_eq!(l.active(), 0);
}

#[test]
fn move_tab_uses_drop_slots() {
    let mut l = list(&["a", "b", "c", "d"]);
    l.move_tab(0, 3);
    assert_eq!(order(&l), vec!["b", "c", "a", "d"]);
    assert_eq!(l.active(), 2);
    l.move_tab(3, 0);
    assert_eq!(order(&l), vec!["d", "b", "c", "a"]);
    assert_eq!(l.active(), 0);
    l.move_tab(1, 4);
    assert_eq!(order(&l), vec!["d", "c", "a", "b"]);
    assert_eq!(l.active(), 3);
    l.move_tab(9, 0);
    assert_eq!(order(&l), vec!["d", "c", "a", "b"]);
}

#[test]
fn tab_mut_changes_one_tab() {
    let mut l: TabList<String> = TabList::new();
    l.push("a".to_string());
    l.push("b".to_string());
    l.tab_mut(0).push('!');
    assert_eq!(l.get(0).map(|s| s.as_str()), Some("a!"));
    assert_eq!(l.get(1).map(|s| s.as_str()), Some("b"));
    assert_eq!(l.active(), 1);
}

#[test]
fn toast_expires_after_its_duration() {
    let toast = Some("Config reloaded".to_string());
    let d = DEFAULT_TOAST_DURATION_MS as u128;
    assert_eq!(current_toast(&toast, 0, d), Some("Config reloaded"));
    assert_eq!(current_toast(&toast, d - 1, d), Some("Config reloaded"));
    assert_eq!(current_toast(&toast, d, d), None);
    assert_eq!(current_toast(&None, 0, d), None);
}
