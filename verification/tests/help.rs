use yatmux::help::consolidate_numbered_bindings;

fn pair(k: &str, l: &str) -> (String, String) {
    (k.to_string(), l.to_string())
}

#[test]
fn three_tab_bindings_become_a_range() {
    let mut b = vec![
        pair("ctrl+t", "New tab"),
        pair("alt+1", "Go to tab 1"),
        pair("alt+2", "Go to tab 2"),
        pair("ctrl+w", "Close tab"),
        pair("alt+3", "Go to tab 3"),
    ];
    consolidate_numbered_bindings(&mut b);
    assert_eq!(
        b,
        vec![pair("ctrl+t", "New tab"), pair("ctrl+w", "Close tab"), pair("alt+1-3", "Go to tab 1-3")]
    );
}

#[test]
fn range_spans_least_to_greatest_digit() {
    let mut b = vec![pair("alt+5", "Go to tab 5"), pair("alt+2", "Go to tab 2"), pair("alt+9", "Go to tab 9")];
    consolidate_numbered_bindings(&mut b);
    assert_eq!(b, vec![pair("alt+2-9", "Go to tab 2-9")]);
}

#[test]
fn two_tab_bindings_stay() {
    let mut b = vec![pair("alt+1", "Go to tab 1"), pair("alt+2", "Go to tab 2"), pair("ctrl+t", "New tab")];
    let before = b.clone();
    consolidate_numbered_bindings(&mut b);
    assert_eq!(b, before);
}

#[test]
fn mismatched_or_multi_digit_bindings_are_not_counted() {
    let mut b = vec![
        pair("alt+1", "Go to tab 1"),
        pair("alt+2", "Go to tab 3"),
        pair("alt+10", "Go to tab 10"),
        pair("ctrl+4", "Go to tab 4"),
        pair("alt+x", "Go to tab x"),
    ];
    let before = b.clone();
    consolidate_numbered_bindings(&mut b);
    assert_eq!(b, before);
}

use yatmux::help::{build_help_sections, sort_bindings_by_key, text_lt};

fn entry(c: &str, k: &str, l: &str) -> (String, String, String) {
    (c.to_string(), k.to_string(), l.to_string())
}

#[test]
fn text_order_is_string_order() {
    assert!(text_lt("a", "b"));
    assert!(text_lt("ab", "abc"));
    assert!(!text_lt("abc", "ab"));
    assert!(!text_lt("x", "x"));
    assert!(text_lt("Z", "a"));
    assert!(text_lt("", "a"));
    assert!(text_lt("é", "€"));
}

#[test]
fn bindings_sort_by_key_stably() {
    let b = vec![pair("ctrl+t", "New tab"), pair("alt+2", "Two"), pair("alt+1", "One"), pair("alt+2", "Again")];
    let sorted = sort_bindings_by_key(&b);
    assert_eq!(
        sorted,
        vec![pair("alt+1", "One"), pair("alt+2", "Two"), pair("alt+2", "Again"), pair("ctrl+t", "New tab")]
    );
}

#[test]
fn sections_in_fixed_then_name_order() {
    let entries = vec![
        entry("Tabs", "ctrl+t", "New tab"),
        entry("Zzz", "f1", "Last"),
        entry("Tabs", "alt+2", "Go to tab 2"),
        entry("General", "ctrl+q", "Quit"),
        entry("Custom", "f2", "Mine"),
        entry("Tabs", "alt+1", "Go to tab 1"),
        entry("Tabs", "alt+3", "Go to tab 3"),
        entry("Zzz", "f3", "Other"),
    ];
    let sections = build_help_sections(&entries);
    let titles: Vec<&str> = sections.iter().map(|s| s.title.as_str()).collect();
    assert_eq!(titles, vec!["General", "Tabs", "Custom", "Zzz"]);
    assert_eq!(sections[1].bindings, vec![pair("alt+1-3", "Go to tab 1-3"), pair("ctrl+t", "New tab")]);
    assert_eq!(sections[3].bindings, vec![pair("f1", "Last"), pair("f3", "Other")]);
    assert_eq!(sections[0].bindings, vec![pair("ctrl+q", "Quit")]);
}

#[test]
fn no_entries_no_sections() {
    assert!(build_help_sections(&Vec::new()).is_empty());
}
