use std::path::{Path, PathBuf};
use std::time::{SystemTime, UNIX_EPOCH};

use yatmux::plugins::{cwd_url_to_path, resolve_path, sanitize_plugin_name, should_deliver_event, validate_plugin_root, Subscriptions};

fn missing_path() -> PathBuf {
    let nanos = SystemTime::now().duration_since(UNIX_EPOCH).unwrap_or_default().as_nanos();
    PathBuf::from(format!("/tmp/yatmux-test-missing-{nanos}"))
}

fn check_root(path: &Path) -> bool {
    validate_plugin_root(path.to_str().unwrap(), path.exists())
}

fn resolve(base: &Path, input: &str) -> PathBuf {
    let home = dirs::home_dir();
    let home_str = home.as_ref().map(|h| h.to_str().unwrap());
    PathBuf::from(resolve_path(base.to_str().unwrap(), input, home_str))
}

#[test]
fn plugins_sanitize_plugin_name_strips_invalid_chars() {
    let name = "my plugin!@#_name-1";
    let sanitized = sanitize_plugin_name(name);
    assert_eq!(sanitized, "myplugin_name-1");
}

#[test]
fn plugins_validate_plugin_root_requires_absolute_and_exists() {
    let absolute = PathBuf::from("/tmp");
    assert!(check_root(&absolute));

    let relative = PathBuf::from("relative-plugin");
    assert!(!check_root(&relative));

    let missing = missing_path().join("missing");
    assert!(!check_root(&missing));
}

#[test]
fn plugins_subscriptions_filter_events() {
    let mut subscriptions = Subscriptions::new();
    subscriptions.insert("alpha".to_string(), vec!["action".to_string()]);

    assert!(should_deliver_event(&subscriptions, "alpha", "ACTION"));
    assert!(!should_deliver_event(&subscriptions, "alpha", "plugin_command"));
    assert!(should_deliver_event(&subscriptions, "beta", "startup"));
    assert!(should_deliver_event(&subscriptions, "beta", "shutdown"));
}

#[test]
fn plugins_resolve_path_expands_relative_and_home() {
    let base = missing_path().join("base");

    let rel = resolve(&base, "plugins");
    assert_eq!(rel, base.join("plugins"));

    let expanded = resolve(&base, "~/plug");
    if let Some(home) = dirs::home_dir() {
        assert_eq!(expanded, home.join("plug"));
    } else {
        assert_eq!(expanded, base.join("~/plug"));
    }
}

#[test]
fn plugins_cwd_url_to_path_strips_host() {
    let path = cwd_url_to_path("file://example.com/tmp/testing").unwrap();
    assert_eq!(PathBuf::from(path), PathBuf::from("/tmp/testing"));
    let path = cwd_url_to_path("file:///tmp/testing").unwrap();
    assert_eq!(PathBuf::from(path), PathBuf::from("/tmp/testing"));
}

#[test]
fn tests_sanitize_plugin_name_strips_invalid_chars() {
    let name = "my plugin!@#_name-1";
    let sanitized = sanitize_plugin_name(name);
    assert_eq!(sanitized, "myplugin_name-1");
}

#[test]
fn tests_validate_plugin_root_requires_absolute_and_exists() {
    let absolute = PathBuf::from("/tmp");
    assert!(check_root(&absolute));

    let relative = PathBuf::from("relative-plugin");
    assert!(!check_root(&relative));

    let missing = missing_path().join("missing");
    assert!(!check_root(&missing));
}

#[test]
fn tests_subscriptions_filter_events() {
    let mut subscriptions = Subscriptions::new();
    subscriptions.insert("alpha".to_string(), vec!["action".to_string()]);

    assert!(should_deliver_event(&subscriptions, "alpha", "ACTION"));
    assert!(!should_deliver_event(&subscriptions, "alpha", "plugin_command"));
    assert!(should_deliver_event(&subscriptions, "beta", "startup"));
    assert!(should_deliver_event(&subscriptions, "beta", "shutdown"));
}

#[test]
fn tests_resolve_path_expands_relative_and_home() {
    let base = missing_path().join("base");

    let rel = resolve(&base, "plugins");
    assert_eq!(rel, base.join("plugins"));

    let expanded = resolve(&base, "~/plug");
    if let Some(home) = dirs::home_dir() {
        assert_eq!(expanded, home.join("plug"));
    } else {
        assert_eq!(expanded, base.join("~/plug"));
    }
}

#[test]
fn tests_cwd_url_to_path_strips_host() {
    let path = cwd_url_to_path("file://example.com/tmp/testing").unwrap();
    assert_eq!(PathBuf::from(path), PathBuf::from("/tmp/testing"));
    let path = cwd_url_to_path("file:///tmp/testing").unwrap();
    assert_eq!(PathBuf::from(path), PathBuf::from("/tmp/testing"));
}

use yatmux::plugins::{collect_plugins, resolve_configured_path, escape_shell_single_quotes, frame_plugin_output, ActionSource, Plugin, PluginManager, PluginOutput};

fn plugin(name: &str) -> Plugin {
    Plugin { name: name.to_string(), root: format!("/p/{name}"), script: format!("/p/{name}/plugin.sh") }
}

#[test]
fn escaping_single_quotes() {
    assert_eq!(escape_shell_single_quotes("it's"), "it'\\''s");
    assert_eq!(escape_shell_single_quotes("plain"), "plain");
    assert_eq!(escape_shell_single_quotes("''"), "'\\'''\\''");
}

#[test]
fn sanitizing_keeps_unicode_letters() {
    assert_eq!(sanitize_plugin_name("héllo wörld"), "héllowörld");
    assert_eq!(sanitize_plugin_name("a.b/c"), "abc");
    assert!(sanitize_plugin_name("x y").len() <= "x y".len());
    let once = sanitize_plugin_name("we!rd n@me_2");
    assert_eq!(sanitize_plugin_name(&once), once);
}

#[test]
fn cwd_urls_without_path() {
    assert_eq!(cwd_url_to_path("file://host"), None);
    assert_eq!(cwd_url_to_path("  /tmp/a?x=1#frag  ").as_deref(), Some("/tmp/a"));
    assert_eq!(cwd_url_to_path("file:////tmp").as_deref(), Some("/tmp"));
    assert_eq!(cwd_url_to_path(""), None);
}

#[test]
fn resolve_with_explicit_home() {
    assert_eq!(resolve_path("/base", "  rel/x ", Some("/home/u")), "/base/rel/x");
    assert_eq!(resolve_path("/base/", "rel", None), "/base/rel");
    assert_eq!(resolve_path("/base", "/abs", Some("/home/u")), "/abs");
    assert_eq!(resolve_path("/base", "~", Some("/home/u")), "/home/u");
    assert_eq!(resolve_path("/base", "~/p", Some("/home/u")), "/home/u/p");
    assert_eq!(resolve_path("/base", "~/p", None), "/base/~/p");
}

#[test]
fn validate_root_needs_leading_slash() {
    assert!(validate_plugin_root("/x", true));
    assert!(!validate_plugin_root("/x", false));
    assert!(!validate_plugin_root("x", true));
    assert!(!validate_plugin_root("", true));
}

#[test]
fn framing_plugin_output() {
    assert!(matches!(frame_plugin_output("  \n\t"), PluginOutput::Empty));
    match frame_plugin_output("  [{\"command\":\"toast\"}]\n") {
        PluginOutput::Array(a) => assert_eq!(a, "[{\"command\":\"toast\"}]"),
        _ => panic!("expected an array"),
    }
    match frame_plugin_output("{\"a\":1}\n\n  {\"b\":2}  \n") {
        PluginOutput::Lines(lines) => assert_eq!(lines, vec!["{\"a\":1}".to_string(), "{\"b\":2}".to_string()]),
        _ => panic!("expected lines"),
    }
}

#[test]
fn manager_delivery() {
    let mut m = PluginManager::new(vec![plugin("alpha"), plugin("beta")], Some("/cfg/config.toml".to_string()));
    assert_eq!(m.plugins().len(), 2);
    assert_eq!(m.config_path_ref().as_deref(), Some("/cfg/config.toml"));
    assert!(!m.should_deliver("alpha", "action"));
    assert!(m.should_deliver("alpha", "startup"));
    m.set_subscription("alpha", vec![" Action ".to_string(), "".to_string()]);
    assert!(m.should_deliver("alpha", "action"));
    assert!(m.should_deliver("alpha", "ACTION"));
    assert!(!m.should_deliver("beta", "action"));
    assert_eq!(m.delivery_targets("action", None), vec![0]);
    assert_eq!(m.delivery_targets("shutdown", None), vec![0, 1]);
    assert_eq!(m.delivery_targets("action", Some("beta")), vec![1]);
    m.set_subscription("beta", vec!["all".to_string()]);
    assert_eq!(m.delivery_targets("anything", None), vec![1]);
}

#[test]
fn action_sources() {
    assert_eq!(ActionSource::User.as_str(), "user");
    assert_eq!(ActionSource::Plugin.as_str(), "plugin");
}

#[test]
fn collecting_plugins_dedupes_scripts() {
    let c = vec![
        ("/a/foo".to_string(), "/a/foo/plugin.sh".to_string()),
        ("/b/bar/".to_string(), "/b/bar/plugin.sh".to_string()),
        ("/a/foo".to_string(), "/a/foo/plugin.sh".to_string()),
        ("/".to_string(), "/plugin.sh".to_string()),
    ];
    let plugins = collect_plugins(&c);
    let names: Vec<&str> = plugins.iter().map(|p| p.name.as_str()).collect();
    assert_eq!(names, vec!["foo", "bar", "plugin"]);
    assert_eq!(plugins[1].script, "/b/bar/plugin.sh");
}

#[test]
fn configured_paths_resolve_like_resolve_path() {
    assert_eq!(resolve_configured_path("/base", " rel "), "/base/rel");
    assert_eq!(resolve_configured_path("/base", "/abs"), "/abs");
    let home = dirs::home_dir();
    let expected = resolve_path("/base", "~/p", home.as_ref().and_then(|h| h.to_str()));
    assert_eq!(resolve_configured_path("/base", "~/p"), expected);
}

#[test]
fn cd_commands_quote_the_directory() {
    assert_eq!(yatmux::plugins::cd_command("/tmp/a b"), "cd -- '/tmp/a b'\n");
    assert_eq!(yatmux::plugins::cd_command("it's"), "cd -- 'it'\\''s'\n");
}
