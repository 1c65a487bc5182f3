use yatmux::help_filter::{HelpFilterState, HelpSection};

fn create_test_sections() -> Vec<HelpSection> {
    vec![
        HelpSection {
            title: "Config".to_string(),
            bindings: vec![("ctrl+shift+r".to_string(), "Reload config".to_string())],
        },
        HelpSection {
            title: "Navigation".to_string(),
            bindings: vec![
                ("alt+right".to_string(), "Focus right pane".to_string()),
                (
                    "ctrl+shift+right".to_string(),
                    "Resize: give right".to_string(),
                ),
                ("shift+insert".to_string(), "Paste".to_string()),
                ("ctrl+t".to_string(), "New tab".to_string()),
            ],
        },
    ]
}




#[test]
fn help_filter_test_single_char_after_plus() {
    // Bug case: +r should match ctrl+shift+r
    let mut filter = HelpFilterState::new();
    filter.activate();
    filter.push_char('+');
    filter.push_char('r');

    let sections = create_test_sections();
    let results = filter.update_filter(&sections);

    // Should match both ctrl+shift+r and ctrl+shift+right
    let all_bindings: Vec<_> = results.iter()
        .flat_map(|s| &s.bindings)
        .collect();

    assert!(!all_bindings.is_empty(), "Should have matches for +r");

    let has_reload = all_bindings.iter()
        .any(|b| b.key == "ctrl+shift+r" && b.action == "Reload config");
    let has_right = all_bindings.iter()
        .any(|b| b.key == "ctrl+shift+right");

    assert!(has_reload, "Should match ctrl+shift+r Reload config");
    assert!(has_right, "Should match ctrl+shift+right");
}

#[test]
fn help_filter_test_multi_char_after_plus() {
    // +ri should match ctrl+shift+right
    let mut filter = HelpFilterState::new();
    filter.activate();
    filter.push_char('+');
    filter.push_char('r');
    filter.push_char('i');

    let sections = create_test_sections();
    let results = filter.update_filter(&sections);

    let all_bindings: Vec<_> = results.iter()
        .flat_map(|s| &s.bindings)
        .collect();

    let has_right = all_bindings.iter()
        .any(|b| b.key == "ctrl+shift+right");

    assert!(has_right, "Should match ctrl+shift+right");
}

#[test]
fn help_filter_test_action_label_matching() {
    // "relo" should match "Reload config"
    let mut filter = HelpFilterState::new();
    filter.activate();
    for ch in "relo".chars() {
        filter.push_char(ch);
    }

    let sections = create_test_sections();
    let results = filter.update_filter(&sections);

    let all_bindings: Vec<_> = results.iter()
        .flat_map(|s| &s.bindings)
        .collect();

    let has_reload = all_bindings.iter()
        .any(|b| b.action == "Reload config");

    assert!(has_reload, "Should match 'Reload config' action");
}

#[test]
fn help_filter_test_case_insensitive() {
    // "REL" should match "Reload config" (case-insensitive)
    let mut filter = HelpFilterState::new();
    filter.activate();
    for ch in "REL".chars() {
        filter.push_char(ch);
    }

    let sections = create_test_sections();
    let results = filter.update_filter(&sections);

    let all_bindings: Vec<_> = results.iter()
        .flat_map(|s| &s.bindings)
        .collect();

    let has_reload = all_bindings.iter()
        .any(|b| b.action == "Reload config");

    assert!(has_reload, "Should match case-insensitively");
}

#[test]
fn help_filter_test_fuzzy_matching() {
    // "csr" should fuzzy match "ctrl+shift+r"
    let mut filter = HelpFilterState::new();
    filter.activate();
    for ch in "csr".chars() {
        filter.push_char(ch);
    }

    let sections = create_test_sections();
    let results = filter.update_filter(&sections);

    let all_bindings: Vec<_> = results.iter()
        .flat_map(|s| &s.bindings)
        .collect();

    let has_reload = all_bindings.iter()
        .any(|b| b.key == "ctrl+shift+r");

    assert!(has_reload, "Should fuzzy match ctrl+shift+r");
}

#[test]
fn help_filter_test_empty_query_returns_all() {
    let mut filter = HelpFilterState::new();
    filter.activate();

    let sections = create_test_sections();
    let results = filter.update_filter(&sections);

    // Count expected bindings
    let expected_count: usize = sections.iter()
        .map(|s| s.bindings.len())
        .sum();

    let result_count: usize = results.iter()
        .map(|s| s.bindings.len())
        .sum();

    assert_eq!(result_count, expected_count, "Empty query should return all bindings");
}

#[test]
fn help_filter_test_score_based_sorting() {
    let mut filter = HelpFilterState::new();
    filter.activate();
    filter.push_char('r');

    let sections = create_test_sections();
    let results = filter.update_filter(&sections);

    // Verify that bindings within each section are sorted by score descending
    for section in &results {
        for i in 1..section.bindings.len() {
            assert!(
                section.bindings[i-1].score >= section.bindings[i].score,
                "Bindings should be sorted by score (descending)"
            );
        }
    }
}

#[test]
fn help_filter_test_plus_t_matches() {
    // "+t" should match "ctrl+t"
    let mut filter = HelpFilterState::new();
    filter.activate();
    filter.push_char('+');
    filter.push_char('t');

    let sections = create_test_sections();
    let results = filter.update_filter(&sections);

    let all_bindings: Vec<_> = results.iter()
        .flat_map(|s| &s.bindings)
        .collect();

    let has_ctrl_t = all_bindings.iter()
        .any(|b| b.key == "ctrl+t");

    assert!(has_ctrl_t, "Should match ctrl+t");
}

#[test]
fn help_filter_test_deactivate_clears_query() {
    let mut filter = HelpFilterState::new();
    filter.activate();
    filter.push_char('t');
    filter.push_char('e');
    filter.push_char('s');
    filter.push_char('t');

    assert_eq!(filter.query(), "test");
    assert!(filter.is_active());

    filter.deactivate();

    assert_eq!(filter.query(), "");
    assert!(!filter.is_active());
}

#[test]
fn help_filter_test_pop_char_deactivates_on_empty() {
    let mut filter = HelpFilterState::new();
    filter.activate();
    filter.push_char('a');

    assert!(filter.is_active());

    filter.pop_char();

    assert!(!filter.is_active());
    assert_eq!(filter.query(), "");
}




#[test]
fn mod_test_single_char_after_plus() {
    // Bug case: +r should match ctrl+shift+r
    let mut filter = HelpFilterState::new();
    filter.activate();
    filter.push_char('+');
    filter.push_char('r');

    let sections = create_test_sections();
    let results = filter.update_filter(&sections);

    // Should match both ctrl+shift+r and ctrl+shift+right
    let all_bindings: Vec<_> = results.iter().flat_map(|s| &s.bindings).collect();

    assert!(!all_bindings.is_empty(), "Should have matches for +r");

    let has_reload = all_bindings
        .iter()
        .any(|b| b.key == "ctrl+shift+r" && b.action == "Reload config");
    let has_right = all_bindings.iter().any(|b| b.key == "ctrl+shift+right");

    assert!(has_reload, "Should match ctrl+shift+r Reload config");
    assert!(has_right, "Should match ctrl+shift+right");
}

#[test]
fn mod_test_multi_char_after_plus() {
    // +ri should match ctrl+shift+right
    let mut filter = HelpFilterState::new();
    filter.activate();
    filter.push_char('+');
    filter.push_char('r');
    filter.push_char('i');

    let sections = create_test_sections();
    let results = filter.update_filter(&sections);

    let all_bindings: Vec<_> = results.iter().flat_map(|s| &s.bindings).collect();

    let has_right = all_bindings.iter().any(|b| b.key == "ctrl+shift+right");

    assert!(has_right, "Should match ctrl+shift+right");
}

#[test]
fn mod_test_action_label_matching() {
    // "relo" should match "Reload config"
    let mut filter = HelpFilterState::new();
    filter.activate();
    for ch in "relo".chars() {
        filter.push_char(ch);
    }

    let sections = create_test_sections();
    let results = filter.update_filter(&sections);

    let all_bindings: Vec<_> = results.iter().flat_map(|s| &s.bindings).collect();

    let has_reload = all_bindings.iter().any(|b| b.action == "Reload config");

    assert!(has_reload, "Should match 'Reload config' action");
}

#[test]
fn mod_test_case_insensitive() {
    // "REL" should match "Reload config" (case-insensitive)
    let mut filter = HelpFilterState::new();
    filter.activate();
    for ch in "REL".chars() {
        filter.push_char(ch);
    }

    let sections = create_test_sections();
    let results = filter.update_filter(&sections);

    let all_bindings: Vec<_> = results.iter().flat_map(|s| &s.bindings).collect();

    let has_reload = all_bindings.iter().any(|b| b.action == "Reload config");

    assert!(has_reload, "Should match case-insensitively");
}

#[test]
fn mod_test_fuzzy_matching() {
    // "csr" should fuzzy match "ctrl+shift+r"
    let mut filter = HelpFilterState::new();
    filter.activate();
    for ch in "csr".chars() {
        filter.push_char(ch);
    }

    let sections = create_test_sections();
    let results = filter.update_filter(&sections);

    let all_bindings: Vec<_> = results.iter().flat_map(|s| &s.bindings).collect();

    let has_reload = all_bindings.iter().any(|b| b.key == "ctrl+shift+r");

    assert!(has_reload, "Should fuzzy match ctrl+shift+r");
}

#[test]
fn mod_test_empty_query_returns_all() {
    let mut filter = HelpFilterState::new();
    filter.activate();

    let sections = create_test_sections();
    let results = filter.update_filter(&sections);

    // Count expected bindings
    let expected_count: usize = sections.iter().map(|s| s.bindings.len()).sum();

    let result_count: usize = results.iter().map(|s| s.bindings.len()).sum();

    assert_eq!(result_count, expected_count, "Empty query should return all bindings");
}

#[test]
fn mod_test_score_based_sorting() {
    let mut filter = HelpFilterState::new();
    filter.activate();
    filter.push_char('r');

    let sections = create_test_sections();
    let results = filter.update_filter(&sections);

    // Verify that bindings within each section are sorted by score descending
    for section in &results {
        for i in 1..section.bindings.len() {
            assert!(
                section.bindings[i - 1].score >= section.bindings[i].score,
                "Bindings should be sorted by score (descending)"
            );
        }
    }
}

#[test]
fn mod_test_plus_t_matches() {
    // "+t" should match "ctrl+t"
    let mut filter = HelpFilterState::new();
    filter.activate();
    filter.push_char('+');
    filter.push_char('t');

    let sections = create_test_sections();
    let results = filter.update_filter(&sections);

    let all_bindings: Vec<_> = results.iter().flat_map(|s| &s.bindings).collect();

    let has_ctrl_t = all_bindings.iter().any(|b| b.key == "ctrl+t");

    assert!(has_ctrl_t, "Should match ctrl+t");
}

#[test]
fn mod_test_deactivate_clears_query() {
    let mut filter = HelpFilterState::new();
    filter.activate();
    filter.push_char('t');
    filter.push_char('e');
    filter.push_char('s');
    filter.push_char('t');

    assert_eq!(filter.query(), "test");
    assert!(filter.is_active());

    filter.deactivate();

    assert_eq!(filter.query(), "");
    assert!(!filter.is_active());
}

#[test]
fn mod_test_pop_char_deactivates_on_empty() {
    let mut filter = HelpFilterState::new();
    filter.activate();
    filter.push_char('a');

    assert!(filter.is_active());

    filter.pop_char();

    assert!(!filter.is_active());
    assert_eq!(filter.query(), "");
}

#[test]
fn default_filter_is_inactive_and_empty() {
    let filter = HelpFilterState::default();
    assert!(!filter.is_active());
    assert_eq!(filter.query(), "");
}

#[test]
fn filtered_scores_are_positive_and_sorted() {
    let mut filter = HelpFilterState::new();
    filter.activate();
    for ch in "shift".chars() {
        filter.push_char(ch);
    }
    let results = filter.update_filter(&create_test_sections());
    assert!(!results.is_empty());
    for section in &results {
        assert!(!section.bindings.is_empty());
        for w in section.bindings.windows(2) {
            assert!(w[0].score >= w[1].score);
        }
        for b in &section.bindings {
            assert!(b.score > 0);
        }
    }
}

#[test]
fn empty_query_keeps_non_ascii_bindings() {
    let mut filter = HelpFilterState::new();
    let sections = vec![HelpSection {
        title: "Übersicht".to_string(),
        bindings: vec![("ctrl+ä".to_string(), "Öffnen".to_string()), ("alt+x".to_string(), "Schließen".to_string())],
    }];
    let results = filter.update_filter(&sections);
    assert_eq!(results.len(), 1);
    assert_eq!(results[0].title, "Übersicht");
    let got: Vec<(&str, &str, i32)> =
        results[0].bindings.iter().map(|b| (b.key.as_str(), b.action.as_str(), b.score)).collect();
    assert_eq!(got, vec![("ctrl+ä", "Öffnen", 0), ("alt+x", "Schließen", 0)]);
}
