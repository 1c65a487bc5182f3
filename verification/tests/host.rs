use yatmux::actions::Action;
use yatmux::plugin_host::{Owners, PluginCommand, PluginEffect, PluginHost, MAX_PLUGIN_DISPATCH_DEPTH};
use yatmux::plugins::{Plugin, PluginManager};
use yatmux::prompt::PromptKind;

fn manager() -> PluginManager {
    let p = Plugin { name: "alpha".to_string(), root: "/p/alpha".to_string(), script: "/p/alpha/plugin.sh".to_string() };
    PluginManager::new(vec![p], None)
}

#[test]
fn owners_give_back_the_waiting_plugin_once() {
    let mut o = Owners::new();
    o.insert("req1".to_string(), "alpha".to_string());
    o.insert("req2".to_string(), "beta".to_string());
    o.insert("req1".to_string(), "gamma".to_string());
    assert_eq!(o.take("req1").as_deref(), Some("gamma"));
    assert_eq!(o.take("req1"), None);
    assert_eq!(o.take("req2").as_deref(), Some("beta"));
    assert_eq!(o.take("nope"), None);
}

#[test]
fn dispatch_depth_guard() {
    let mut h = PluginHost::new();
    assert!(h.may_dispatch());
    for _ in 0..MAX_PLUGIN_DISPATCH_DEPTH {
        h.begin_commands();
    }
    assert!(!h.may_dispatch());
    h.end_commands();
    assert!(h.may_dispatch());
    h.end_commands();
    h.end_commands();
    assert_eq!(h.dispatch_depth, 0);
}

#[test]
fn commands_resolve_their_target_tab() {
    let mut h = PluginHost::new();
    let mut m = manager();
    let e = h.apply_command(&mut m, "alpha", PluginCommand::SetTabCwd { cwd: "/tmp".to_string(), tab_id: None }, Some(4));
    assert!(matches!(e, PluginEffect::SetTabCwd { tab_id: 4, ref cwd } if cwd == "/tmp"));
    let e = h.apply_command(&mut m, "alpha", PluginCommand::SetTabCwd { cwd: "/x".to_string(), tab_id: Some(9) }, Some(4));
    assert!(matches!(e, PluginEffect::SetTabCwd { tab_id: 9, .. }));
    let e = h.apply_command(
        &mut m,
        "alpha",
        PluginCommand::SendText { text: "ls\n".to_string(), tab_id: None, pane_id: Some(2) },
        None,
    );
    assert!(matches!(e, PluginEffect::Nothing));
    let e = h.apply_command(&mut m, "alpha", PluginCommand::Action { action: Action::NewTab }, None);
    assert!(matches!(e, PluginEffect::RunAction(Action::NewTab)));
    let e = h.apply_command(&mut m, "alpha", PluginCommand::ConfigPatch { toml: "a = 1".to_string(), persist: None }, None);
    assert!(matches!(e, PluginEffect::ApplyConfigPatch { persist: false, .. }));
}

#[test]
fn prompts_record_their_owner() {
    let mut h = PluginHost::new();
    let mut m = manager();
    let e = h.apply_command(
        &mut m,
        "alpha",
        PluginCommand::Pick {
            id: "p1".to_string(),
            title: "Pick".to_string(),
            message: None,
            items: vec!["a".to_string(), "b".to_string()],
            selected: Some(5),
        },
        None,
    );
    match e {
        PluginEffect::OpenPrompt(p) => {
            assert_eq!(p.kind, PromptKind::Pick);
            assert_eq!(p.selected, 1);
            assert_eq!(p.id, "p1");
        }
        _ => panic!("expected a prompt"),
    }
    assert_eq!(h.prompt_owners.take("p1").as_deref(), Some("alpha"));
    let e = h.apply_command(&mut m, "alpha", PluginCommand::RequestState { id: "s1".to_string() }, None);
    assert!(matches!(e, PluginEffect::SendState(ref id) if id == "s1"));
    assert_eq!(h.state_owners.take("s1").as_deref(), Some("alpha"));
    let e = h.apply_command(&mut m, "alpha", PluginCommand::ClipboardRead { id: "c1".to_string() }, None);
    assert!(matches!(e, PluginEffect::SendClipboard(_)));
    assert_eq!(h.clipboard_owners.take("c1").as_deref(), Some("alpha"));
}

#[test]
fn subscribe_updates_the_manager() {
    let mut h = PluginHost::new();
    let mut m = manager();
    assert!(!m.should_deliver("alpha", "tab_created"));
    let e = h.apply_command(&mut m, "alpha", PluginCommand::Subscribe { events: vec!["Tab_Created".to_string()] }, None);
    assert!(matches!(e, PluginEffect::Nothing));
    assert!(m.should_deliver("alpha", "tab_created"));
}
