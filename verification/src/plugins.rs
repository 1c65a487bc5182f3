//! Plugin plumbing that does not touch processes or files: names, shell
//! quoting, working-directory URLs, plugin paths, event subscriptions and
//! the framing of plugin output.

use vstd::prelude::*;

use crate::keys::{lowercase, to_lowercase};
use crate::text::{
    alphanumeric, chars_of, chars_start_with, is_alphanumeric, starts_with, string_from_chars,
    str_eq, string_push, string_push_str, trim_chars, trimmed, utf8_len, lemma_utf8_concat, lemma_utf8_single,
};

verus! {

broadcast use vstd::seq_lib::group_seq_properties;

/// Timeout for plugin execution in seconds.
pub const PLUGIN_TIMEOUT_SECS: u64 = 30;

/// Where an action came from.
#[derive(Debug, Clone, Copy, PartialEq, Eq, Structural)]
pub enum ActionSource {
    User,
    Plugin,
}

impl ActionSource {
    /// The name sent to plugins.
    pub fn as_str(&self) -> (r: &'static str)
        ensures
            r@ == match self {
                ActionSource::User => "user"@,
                ActionSource::Plugin => "plugin"@,
            },
    {
        match self {
            ActionSource::User => "user",
            ActionSource::Plugin => "plugin",
        }
    }
}

/// A discovered plugin: its name, its directory and its `plugin.sh`.
#[derive(Debug, Clone)]
pub struct Plugin {
    pub name: String,
    pub root: String,
    pub script: String,
}

/// A character allowed in a plugin name passed through the environment.
pub open spec fn name_char_allowed(c: char) -> bool {
    alphanumeric(c) || c == '_' || c == '-'
}

/// The allowed characters of `name`, in order.
pub open spec fn sanitized(name: Seq<char>) -> Seq<char> {
    name.filter(|c: char| name_char_allowed(c))
}

/// Sanitize plugin name for use in environment variables.
/// Only allows alphanumeric characters, underscores, and hyphens.
pub fn sanitize_plugin_name(name: &str) -> (r: String)
    ensures
        r@ == sanitized(name@),
{
    let chars = chars_of(name);
    let ghost pred = |c: char| name_char_allowed(c);
    let mut out = String::new();
    let mut i: usize = 0;
    while i < chars.len()
        invariant
            i <= chars@.len(),
            chars@ == name@,
            pred == (|c: char| name_char_allowed(c)),
            out@ == chars@.take(i as int).filter(pred),
        decreases chars@.len() - i,
    {
        proof {
            reveal_with_fuel(Seq::filter, 1);
            assert(chars@.take(i + 1).drop_last() =~= chars@.take(i as int));
        }
        let c = chars[i];
        if is_alphanumeric(c) || c == '_' || c == '-' {
            string_push(&mut out, c);
        }
        i = i + 1;
    }
    proof {
        assert(chars@.take(chars@.len() as int) =~= chars@);
    }
    out
}

/// The characters that stand for one single quote inside a single-quoted
/// shell word: close the quote, an escaped quote, reopen.
pub open spec fn quote_escape() -> Seq<char> {
    seq!['\'', '\\', '\'', '\'']
}

/// `s` with every single quote replaced by `quote_escape()`.
pub open spec fn escaped_quotes(s: Seq<char>) -> Seq<char>
    decreases s.len(),
{
    if s.len() == 0 {
        s
    } else {
        escaped_quotes(s.drop_last()) + if s.last() == '\'' {
            quote_escape()
        } else {
            seq![s.last()]
        }
    }
}

/// Escapes single quotes so that the text can stand inside `'...'` in a shell command.
pub fn escape_shell_single_quotes(input: &str) -> (r: String)
    ensures
        r@ == escaped_quotes(input@),
{
    let chars = chars_of(input);
    let mut out = String::new();
    let mut i: usize = 0;
    while i < chars.len()
        invariant
            i <= chars@.len(),
            chars@ == input@,
            out@ == escaped_quotes(chars@.take(i as int)),
        decreases chars@.len() - i,
    {
        proof {
            assert(chars@.take(i + 1).drop_last() =~= chars@.take(i as int));
        }
        let c = chars[i];
        if c == '\'' {
            string_push(&mut out, '\'');
            string_push(&mut out, '\\');
            string_push(&mut out, '\'');
            string_push(&mut out, '\'');
            proof {
                assert(out@ =~= escaped_quotes(chars@.take(i as int)) + quote_escape());
            }
        } else {
            string_push(&mut out, c);
        }
        i = i + 1;
    }
    proof {
        assert(chars@.take(chars@.len() as int) =~= chars@);
    }
    out
}

/// The shell command that changes to directory `cwd`: `cd -- '<cwd>'` and a
/// newline, with the single quotes in `cwd` escaped.
pub fn cd_command(cwd: &str) -> (r: String)
    ensures
        r@ == "cd -- '"@ + escaped_quotes(cwd@) + "'\n"@,
{
    let mut s = String::new();
    string_push_str(&mut s, "cd -- '");
    let escaped = escape_shell_single_quotes(cwd);
    string_push_str(&mut s, escaped.as_str());
    string_push_str(&mut s, "'\n");
    s
}

/// Index of the first character of `s` that is `a` or `b`, or the length of `s`.
pub open spec fn first_of(s: Seq<char>, a: char, b: char) -> int
    decreases s.len(),
{
    if s.len() == 0 {
        0
    } else if s[0] == a || s[0] == b {
        0
    } else {
        1 + first_of(s.drop_first(), a, b)
    }
}

/// The scheme prefix of a file URL.
pub open spec fn file_scheme() -> Seq<char> {
    seq!['f', 'i', 'l', 'e', ':', '/', '/']
}

/// `s` without its leading slashes but one.
pub open spec fn collapse_leading_slashes(s: Seq<char>) -> Seq<char>
    decreases s.len(),
{
    if s.len() >= 2 && s[0] == '/' && s[1] == '/' {
        collapse_leading_slashes(s.drop_first())
    } else {
        s
    }
}

/// The path named by a working-directory URL such as `file://host/path`:
/// the text is trimmed, the `file://` scheme and any host are dropped, the
/// query and fragment are cut off and repeated leading slashes collapsed.
/// Only an absolute path is accepted.
pub open spec fn spec_cwd_url_to_path(url: Seq<char>) -> Option<Seq<char>> {
    let s0 = trimmed(url);
    let s1 = if starts_with(s0, file_scheme()) {
        s0.skip(7)
    } else {
        s0
    };
    let s2 = if s1.len() > 0 && s1[0] == '/' {
        s1
    } else if first_of(s1, '/', '/') < s1.len() {
        s1.skip(first_of(s1, '/', '/'))
    } else {
        s1
    };
    let s3 = s2.take(first_of(s2, '?', '#'));
    let s4 = collapse_leading_slashes(s3);
    if s4.len() > 0 && s4[0] == '/' {
        Some(s4)
    } else {
        None
    }
}

fn find_first_of(s: &Vec<char>, a: char, b: char) -> (r: usize)
    ensures
        r == first_of(s@, a, b),
        r <= s@.len(),
{
    let mut i: usize = 0;
    while i < s.len()
        invariant
            i <= s@.len(),
            forall|j: int| 0 <= j < i ==> s@[j] != a && s@[j] != b,
            first_of(s@, a, b) == i + first_of(s@.skip(i as int), a, b),
        decreases s@.len() - i,
    {
        proof {
            assert(s@.skip(i as int)[0] == s@[i as int]);
            assert(s@.skip(i as int).drop_first() =~= s@.skip(i + 1));
        }
        if s[i] == a || s[i] == b {
            return i;
        }
        i = i + 1;
    }
    proof {
        assert(s@.skip(i as int).len() == 0);
    }
    i
}

fn skip_chars(s: &Vec<char>, n: usize) -> (r: Vec<char>)
    requires
        n <= s@.len(),
    ensures
        r@ == s@.skip(n as int),
{
    let mut out: Vec<char> = Vec::new();
    let mut i = n;
    while i < s.len()
        invariant
            n <= i <= s@.len(),
            out@ == s@.subrange(n as int, i as int),
        decreases s@.len() - i,
    {
        out.push(s[i]);
        proof {
            assert(s@.subrange(n as int, i + 1) =~= s@.subrange(n as int, i as int).push(s@[i as int]));
        }
        i = i + 1;
    }
    proof {
        assert(out@ =~= s@.skip(n as int));
    }
    out
}

fn take_chars(s: &Vec<char>, n: usize) -> (r: Vec<char>)
    requires
        n <= s@.len(),
    ensures
        r@ == s@.take(n as int),
{
    let mut out: Vec<char> = Vec::new();
    let mut i: usize = 0;
    while i < n
        invariant
            i <= n <= s@.len(),
            out@ == s@.take(i as int),
        decreases n - i,
    {
        out.push(s[i]);
        proof {
            assert(s@.take(i + 1) =~= s@.take(i as int).push(s@[i as int]));
        }
        i = i + 1;
    }
    out
}

/// Converts a working-directory URL reported by the shell into a path.
pub fn cwd_url_to_path(cwd_url: &str) -> (r: Option<String>)
    ensures
        match r {
            Some(p) => spec_cwd_url_to_path(cwd_url@) == Some(p@),
            None => spec_cwd_url_to_path(cwd_url@) is None,
        },
{
    let raw = chars_of(cwd_url);
    let s0 = trim_chars(&raw);
    let scheme: Vec<char> = vec!['f', 'i', 'l', 'e', ':', '/', '/'];
    proof {
        assert(scheme@ =~= file_scheme());
    }
    let s1 = if chars_start_with(&s0, &scheme) {
        skip_chars(&s0, 7)
    } else {
        s0
    };
    let s2 = if s1.len() > 0 && s1[0] == '/' {
        s1
    } else {
        let idx = find_first_of(&s1, '/', '/');
        if idx < s1.len() {
            skip_chars(&s1, idx)
        } else {
            s1
        }
    };
    let cut = find_first_of(&s2, '?', '#');
    let mut s = take_chars(&s2, cut);
    while s.len() >= 2 && s[0] == '/' && s[1] == '/'
        invariant
            collapse_leading_slashes(s@) == collapse_leading_slashes(s2@.take(first_of(s2@, '?', '#'))),
        decreases s@.len(),
    {
        let ghost prev = s@;
        s = skip_chars(&s, 1);
        proof {
            assert(s@ =~= prev.drop_first());
        }
    }
    if s.len() > 0 && s[0] == '/' {
        Some(string_from_chars(&s))
    } else {
        None
    }
}

/// `child` joined onto `base` as `Path::join` does on Unix: an absolute
/// `child` replaces `base`; otherwise a separator is added unless `base` is
/// empty or already ends with one.
pub open spec fn joined(base: Seq<char>, child: Seq<char>) -> Seq<char> {
    if child.len() > 0 && child[0] == '/' {
        child
    } else if base.len() > 0 && base.last() != '/' {
        base + seq!['/'] + child
    } else {
        base + child
    }
}

fn join_chars(base: &Vec<char>, child: &Vec<char>) -> (r: Vec<char>)
    ensures
        r@ == joined(base@, child@),
{
    if child.len() > 0 && child[0] == '/' {
        return child.clone();
    }
    let mut out = base.clone();
    if base.len() > 0 && base[base.len() - 1] != '/' {
        out.push('/');
    }
    let mut i: usize = 0;
    let ghost start = out@;
    while i < child.len()
        invariant
            i <= child@.len(),
            out@ == start + child@.take(i as int),
        decreases child@.len() - i,
    {
        out.push(child[i]);
        proof {
            assert(child@.take(i + 1) =~= child@.take(i as int).push(child@[i as int]));
        }
        i = i + 1;
    }
    proof {
        assert(child@.take(child@.len() as int) =~= child@);
        assert(out@ =~= joined(base@, child@));
    }
    out
}

/// A configured plugin path resolved against the configuration directory:
/// `~` and `~/...` expand to the home directory when it is known, absolute
/// paths stay as they are, and relative paths are joined onto `base_dir`.
pub open spec fn spec_resolve_path(base_dir: Seq<char>, input: Seq<char>, home: Option<Seq<char>>) -> Seq<char> {
    let s = trimmed(input);
    let tilde = s == seq!['~'] || starts_with(s, seq!['~', '/']);
    if tilde && home is Some {
        if s == seq!['~'] {
            home->0
        } else {
            joined(home->0, s.skip(2))
        }
    } else if s.len() > 0 && s[0] == '/' {
        s
    } else {
        joined(base_dir, s)
    }
}

/// Resolves a configured plugin path; `home` is the user's home directory, if known.
pub fn resolve_path(base_dir: &str, input: &str, home: Option<&str>) -> (r: String)
    ensures
        r@ == spec_resolve_path(base_dir@, input@, match home {
            Some(h) => Some(h@),
            None => None,
        }),
{
    let raw = chars_of(input);
    let s = trim_chars(&raw);
    let tilde_slash: Vec<char> = vec!['~', '/'];
    let is_tilde = s.len() == 1 && s[0] == '~';
    proof {
        assert(is_tilde == (s@ == seq!['~'])) by {
            if s@.len() == 1 && s@[0] == '~' {
                assert(s@ =~= seq!['~']);
            }
        }
        assert(tilde_slash@ =~= seq!['~', '/']);
    }
    if is_tilde || chars_start_with(&s, &tilde_slash) {
        if let Some(home) = home {
            if is_tilde {
                return home.to_owned();
            }
            let home_chars = chars_of(home);
            let rest = skip_chars(&s, 2);
            let joined_chars = join_chars(&home_chars, &rest);
            return string_from_chars(&joined_chars);
        }
    }
    if s.len() > 0 && s[0] == '/' {
        return string_from_chars(&s);
    }
    let base = chars_of(base_dir);
    let joined_chars = join_chars(&base, &s);
    string_from_chars(&joined_chars)
}

/// Calls `dirs::home_dir`: the user's home directory, when it can be
/// determined and is valid UTF-8. It depends on the environment, so nothing
/// is stated of it.
#[verifier::external_body]
fn home_dir() -> Option<String> {
    dirs::home_dir().and_then(|p| p.into_os_string().into_string().ok())
}

/// Resolves a configured plugin path against the configuration directory,
/// expanding `~` to the user's home directory when it is known.
pub fn resolve_configured_path(base_dir: &str, input: &str) -> (r: String)
    ensures
        exists|home: Option<Seq<char>>| r@ == spec_resolve_path(base_dir@, input@, home),
{
    let home = home_dir();
    let r = match &home {
        Some(h) => resolve_path(base_dir, input, Some(h.as_str())),
        None => resolve_path(base_dir, input, None),
    };
    proof {
        let h = match home {
            Some(h) => Some(h@),
            None => None,
        };
        assert(r@ == spec_resolve_path(base_dir@, input@, h));
    }
    r
}

/// What `Path::file_name` gives for `path`, as text: its last component,
/// or `None` when there is none (the path ends in `..` or is a root).
pub uninterp spec fn path_file_name(path: Seq<char>) -> Option<Seq<char>>;

/// Calls `Path::file_name` on `path`; the result is named by
/// `path_file_name`.
#[verifier::external_body]
fn file_name(path: &str) -> (r: Option<String>)
    ensures
        match r {
            Some(n) => path_file_name(path@) == Some(n@),
            None => path_file_name(path@) is None,
        },
{
    std::path::Path::new(path).file_name().and_then(|s| s.to_str()).map(|s| s.to_string())
}

/// The name a plugin found at `root` gets: the last component of its
/// directory, or `plugin` when the directory has none.
pub open spec fn plugin_name_for(root: Seq<char>) -> Seq<char> {
    match path_file_name(root) {
        Some(n) => n,
        None => "plugin"@,
    }
}

/// The plugins made of candidate `(root, script)` pairs, in order, skipping
/// a candidate whose script an earlier candidate already has.
pub open spec fn collected_plugins(c: Seq<(String, String)>) -> Seq<(Seq<char>, Seq<char>, Seq<char>)>
    decreases c.len(),
{
    if c.len() == 0 {
        seq![]
    } else {
        let rest = collected_plugins(c.drop_last());
        let (root, script) = c.last();
        if exists|j: int| 0 <= j < c.len() - 1 && #[trigger] c[j].1@ == script@ {
            rest
        } else {
            rest.push((plugin_name_for(root@), root@, script@))
        }
    }
}

/// A plugin as plain values: name, root, script.
pub open spec fn plugin_view(p: Plugin) -> (Seq<char>, Seq<char>, Seq<char>) {
    (p.name@, p.root@, p.script@)
}

/// Builds the plugin list from the `(root, script)` pairs found on disk, in
/// the order found: each script once, named after its directory.
pub fn collect_plugins(candidates: &Vec<(String, String)>) -> (r: Vec<Plugin>)
    ensures
        r@.map_values(|p: Plugin| plugin_view(p)) == collected_plugins(candidates@),
{
    let ghost f = |p: Plugin| plugin_view(p);
    let mut out: Vec<Plugin> = Vec::new();
    let mut i: usize = 0;
    while i < candidates.len()
        invariant
            i <= candidates@.len(),
            f == (|p: Plugin| plugin_view(p)),
            out@.map_values(f) == collected_plugins(candidates@.take(i as int)),
        decreases candidates@.len() - i,
    {
        let ghost pre = candidates@.take(i as int);
        let ghost now = candidates@.take(i + 1);
        proof {
            assert(now.drop_last() =~= pre);
            assert(now.last() == candidates@[i as int]);
        }
        let script = candidates[i].1.as_str();
        let mut seen = false;
        let mut j: usize = 0;
        while j < i
            invariant
                j <= i < candidates@.len(),
                script@ == candidates@[i as int].1@,
                seen == exists|k: int| 0 <= k < j && #[trigger] candidates@[k].1@ == script@,
            decreases i - j,
        {
            if str_eq(candidates[j].1.as_str(), script) {
                seen = true;
            }
            j = j + 1;
        }
        proof {
            assert(seen == exists|k: int| 0 <= k < now.len() - 1 && #[trigger] now[k].1@ == now.last().1@) by {
                if seen {
                    let k = choose|k: int| 0 <= k < i && #[trigger] candidates@[k].1@ == script@;
                    assert(now[k] == candidates@[k]);
                }
                if exists|k: int| 0 <= k < now.len() - 1 && #[trigger] now[k].1@ == now.last().1@ {
                    let k = choose|k: int| 0 <= k < now.len() - 1 && #[trigger] now[k].1@ == now.last().1@;
                    assert(now[k] == candidates@[k]);
                }
            }
        }
        if !seen {
            let root = &candidates[i].0;
            let name = match file_name(root.as_str()) {
                Some(n) => n,
                None => "plugin".to_string(),
            };
            let ghost before = out@;
            out.push(Plugin { name, root: root.clone(), script: candidates[i].1.clone() });
            proof {
                assert(out@.map_values(f) =~= before.map_values(f).push(plugin_view(out@.last())));
            }
        }
        i = i + 1;
    }
    proof {
        assert(candidates@.take(candidates@.len() as int) =~= candidates@);
    }
    out
}

/// Event subscriptions of the plugins, by plugin name.
pub struct Subscriptions {
    /// One entry per plugin: its name and the (lowercase) events it wants.
    entries: Vec<(String, Vec<String>)>,
}

/// The events a subscription request keeps: each trimmed and lowercased,
/// empty ones dropped.
pub open spec fn normalized_events(events: Seq<Seq<char>>) -> Set<Seq<char>> {
    Set::new(|e: Seq<char>| exists|i: int| 0 <= i < events.len() && e == lowercase(trimmed(#[trigger] events[i])) && e.len() > 0)
}

impl Subscriptions {
    /// The subscriptions as a map from plugin name to the set of events.
    pub closed spec fn view(&self) -> Map<Seq<char>, Set<Seq<char>>> {
        Map::new(
            |name: Seq<char>| exists|i: int| 0 <= i < self.entries@.len() && self.entries@[i].0@ == name,
            |name: Seq<char>| {
                let i = choose|i: int| 0 <= i < self.entries@.len() && self.entries@[i].0@ == name;
                Set::new(|e: Seq<char>| exists|j: int| 0 <= j < self.entries@[i].1@.len() && #[trigger] self.entries@[i].1@[j]@ == e)
            },
        )
    }

    /// No plugin name appears twice.
    pub closed spec fn wf(&self) -> bool {
        forall|i: int, j: int|
            0 <= i < j < self.entries@.len() ==> #[trigger] self.entries@[i].0@ != #[trigger] self.entries@[j].0@
    }

    /// No subscription.
    pub fn new() -> (s: Subscriptions)
        ensures
            s.wf(),
            s@ == Map::<Seq<char>, Set<Seq<char>>>::empty(),
    {
        let s = Subscriptions { entries: Vec::new() };
        proof {
            assert(s@ =~= Map::<Seq<char>, Set<Seq<char>>>::empty());
        }
        s
    }

    fn find(&self, name: &str) -> (r: Option<usize>)
        requires
            self.wf(),
        ensures
            match r {
                Some(i) => i < self.entries@.len() && self.entries@[i as int].0@ == name@,
                None => !self@.contains_key(name@),
            },
    {
        let mut i: usize = 0;
        while i < self.entries.len()
            invariant
                i <= self.entries@.len(),
                forall|j: int| 0 <= j < i ==> self.entries@[j].0@ != name@,
            decreases self.entries@.len() - i,
        {
            if self.entries[i].0.as_str().len() == name.len() && str_eq(self.entries[i].0.as_str(), name) {
                return Some(i);
            }
            i = i + 1;
        }
        None
    }

    /// The events `plugin` subscribed to, if it has an entry.
    pub fn get(&self, plugin: &str) -> (r: Option<&Vec<String>>)
        requires
            self.wf(),
        ensures
            match r {
                Some(v) => self@.contains_key(plugin@) && self@[plugin@] == Set::new(
                    |e: Seq<char>| exists|j: int| 0 <= j < v@.len() && #[trigger] v@[j]@ == e,
                ),
                None => !self@.contains_key(plugin@),
            },
    {
        match self.find(plugin) {
            Some(i) => {
                proof {
                    let e = self.entries@;
                    assert(exists|k: int| 0 <= k < e.len() && e[k].0@ == plugin@);
                    let c = choose|k: int| 0 <= k < e.len() && e[k].0@ == plugin@;
                    if c != i {
                        if c < i {
                            assert(e[c].0@ != e[i as int].0@);
                        } else {
                            assert(e[i as int].0@ != e[c].0@);
                        }
                    }
                }
                Some(&self.entries[i].1)
            },
            None => None,
        }
    }

    /// Records the events `plugin` wants, replacing what it wanted before.
    pub fn insert(&mut self, plugin: String, events: Vec<String>)
        requires
            old(self).wf(),
        ensures
            final(self).wf(),
            final(self)@ == old(self)@.insert(
                plugin@,
                Set::new(|e: Seq<char>| exists|j: int| 0 <= j < events@.len() && #[trigger] events@[j]@ == e),
            ),
    {
        let ghost old_entries = self.entries@;
        let ghost set = Set::new(|e: Seq<char>| exists|j: int| 0 <= j < events@.len() && #[trigger] events@[j]@ == e);
        match self.find(plugin.as_str()) {
            Some(i) => {
                let ghost name = plugin@;
                self.entries.set(i, (plugin, events));
                proof {
                    let e = self.entries@;
                    assert forall|a: int, b: int| 0 <= a < b < e.len() implies #[trigger] e[a].0@ != #[trigger] e[b].0@ by {
                        if a != i && b != i {
                            assert(old_entries[a].0@ != old_entries[b].0@);
                        } else if a == i {
                            assert(old_entries[i as int].0@ != old_entries[b].0@);
                        } else {
                            assert(old_entries[a].0@ != old_entries[i as int].0@);
                        }
                    }
                    assert forall|n: Seq<char>| #[trigger] self@.contains_key(n) == old(self)@.insert(name, set).contains_key(n) by {
                        if n == name {
                            assert(e[i as int].0@ == n);
                        } else if old(self)@.contains_key(n) {
                            let k = choose|k: int| 0 <= k < old_entries.len() && old_entries[k].0@ == n;
                            assert(e[k].0@ == n);
                        } else if self@.contains_key(n) {
                            let k = choose|k: int| 0 <= k < e.len() && e[k].0@ == n;
                            assert(old_entries[k].0@ == n);
                        }
                    }
                    assert forall|n: Seq<char>| #[trigger] self@.contains_key(n) implies self@[n] == old(self)@.insert(name, set)[n] by {
                        let k = choose|k: int| 0 <= k < e.len() && e[k].0@ == n;
                        if n == name {
                            if k != i {
                                if k < i {
                                    assert(e[k].0@ != e[i as int].0@);
                                } else {
                                    assert(e[i as int].0@ != e[k].0@);
                                }
                            }
                            assert(self@[n] =~= set);
                        } else {
                            let k2 = choose|k2: int| 0 <= k2 < old_entries.len() && old_entries[k2].0@ == n;
                            assert(k != i);
                            if k2 != k {
                                if k2 < k {
                                    assert(old_entries[k2].0@ != old_entries[k].0@);
                                } else {
                                    assert(old_entries[k].0@ != old_entries[k2].0@);
                                }
                            }
                        }
                    }
                    assert(self@ =~= old(self)@.insert(name, set));
                }
            },
            None => {
                let ghost name = plugin@;
                self.entries.push((plugin, events));
                proof {
                    let e = self.entries@;
                    let last = old_entries.len() as int;
                    assert forall|a: int, b: int| 0 <= a < b < e.len() implies #[trigger] e[a].0@ != #[trigger] e[b].0@ by {
                        if b == last {
                            assert(old_entries[a].0@ != name) by {
                                if old_entries[a].0@ == name {
                                    assert(old(self)@.contains_key(name));
                                }
                            }
                        } else {
                            assert(old_entries[a].0@ != old_entries[b].0@);
                        }
                    }
                    assert forall|n: Seq<char>| #[trigger] self@.contains_key(n) == old(self)@.insert(name, set).contains_key(n) by {
                        if n == name {
                            assert(e[last].0@ == n);
                        } else if old(self)@.contains_key(n) {
                            let k = choose|k: int| 0 <= k < old_entries.len() && old_entries[k].0@ == n;
                            assert(e[k].0@ == n);
                        } else if self@.contains_key(n) {
                            let k = choose|k: int| 0 <= k < e.len() && e[k].0@ == n;
                            assert(old_entries[k].0@ == n);
                        }
                    }
                    assert forall|n: Seq<char>| #[trigger] self@.contains_key(n) implies self@[n] == old(self)@.insert(name, set)[n] by {
                        let k = choose|k: int| 0 <= k < e.len() && e[k].0@ == n;
                        if n == name {
                            if k != last {
                                assert(old_entries[k].0@ == name);
                                assert(old(self)@.contains_key(name));
                            }
                            assert(self@[n] =~= set);
                        } else {
                            let k2 = choose|k2: int| 0 <= k2 < old_entries.len() && old_entries[k2].0@ == n;
                            assert(k != last);
                            if k2 != k {
                                if k2 < k {
                                    assert(old_entries[k2].0@ != old_entries[k].0@);
                                } else {
                                    assert(old_entries[k].0@ != old_entries[k2].0@);
                                }
                            }
                        }
                    }
                    assert(self@ =~= old(self)@.insert(name, set));
                }
            },
        }
    }
}

/// Some string of `v` has the characters `e`.
pub open spec fn strs_contain(v: Seq<String>, e: Seq<char>) -> bool {
    exists|j: int| 0 <= j < v.len() && #[trigger] v[j]@ == e
}

/// One of the first `n` event names, trimmed and lowercased, is the non-empty `e`.
pub open spec fn normalized_prefix_contains(ev: Seq<Seq<char>>, n: int, e: Seq<char>) -> bool {
    exists|k: int| 0 <= k < n && e == lowercase(trimmed(#[trigger] ev[k])) && e.len() > 0
}

/// Events every plugin receives, whatever it subscribed to.
pub open spec fn is_lifecycle_event(event: Seq<char>) -> bool {
    event == "startup"@ || event == "shutdown"@
}

/// Whether `plugin` receives `event`: lifecycle events always; others only
/// when the plugin subscribed to them (compared in lowercase) or to `all`.
pub open spec fn spec_should_deliver(subs: Map<Seq<char>, Set<Seq<char>>>, plugin: Seq<char>, event: Seq<char>) -> bool {
    if is_lifecycle_event(event) {
        true
    } else if !subs.contains_key(plugin) {
        false
    } else {
        subs[plugin].contains("all"@) || subs[plugin].contains(lowercase(event))
    }
}

fn vec_has(v: &Vec<String>, s: &str) -> (r: bool)
    ensures
        r == exists|j: int| 0 <= j < v@.len() && #[trigger] v@[j]@ == s@,
{
    let mut i: usize = 0;
    while i < v.len()
        invariant
            i <= v@.len(),
            forall|j: int| 0 <= j < i ==> #[trigger] v@[j]@ != s@,
        decreases v@.len() - i,
    {
        if str_eq(v[i].as_str(), s) {
            return true;
        }
        i = i + 1;
    }
    false
}

/// Decides whether a plugin should receive an event.
pub fn should_deliver_event(subscriptions: &Subscriptions, plugin: &str, event: &str) -> (r: bool)
    requires
        subscriptions.wf(),
    ensures
        r == spec_should_deliver(subscriptions@, plugin@, event@),
{
    if str_eq(event, "startup") || str_eq(event, "shutdown") {
        return true;
    }
    let set = match subscriptions.get(plugin) {
        Some(set) => set,
        None => return false,
    };
    if set.len() == 0 {
        proof {
            assert(!subscriptions@[plugin@].contains("all"@));
            assert(!subscriptions@[plugin@].contains(lowercase(event@)));
        }
        return false;
    }
    let lower = to_lowercase(event);
    vec_has(set, "all") || vec_has(set, lower.as_str())
}

/// Plugins known to the application and what they subscribed to.
pub struct PluginManager {
    plugins: Vec<Plugin>,
    config_path: Option<String>,
    subscriptions: Subscriptions,
}

impl PluginManager {
    /// The plugins, in discovery order.
    pub closed spec fn plugin_list(&self) -> Seq<Plugin> {
        self.plugins@
    }

    /// The subscriptions by plugin name.
    pub closed spec fn subscription_map(&self) -> Map<Seq<char>, Set<Seq<char>>> {
        self.subscriptions@
    }

    pub closed spec fn wf(&self) -> bool {
        self.subscriptions.wf()
    }

    /// A manager for the discovered `plugins`; every plugin starts with an
    /// empty subscription.
    pub fn new(plugins: Vec<Plugin>, config_path: Option<String>) -> (m: PluginManager)
        ensures
            m.wf(),
            m.plugin_list() == plugins@,
            m.config_path() == config_path,
            m.subscription_map() == Map::new(
                |name: Seq<char>| exists|i: int| 0 <= i < plugins@.len() && #[trigger] plugins@[i].name@ == name,
                |name: Seq<char>| Set::<Seq<char>>::empty(),
            ),
    {
        let mut subscriptions = Subscriptions::new();
        let mut i: usize = 0;
        while i < plugins.len()
            invariant
                i <= plugins@.len(),
                subscriptions.wf(),
                subscriptions@ == Map::new(
                    |name: Seq<char>| exists|k: int| 0 <= k < i && #[trigger] plugins@[k].name@ == name,
                    |name: Seq<char>| Set::<Seq<char>>::empty(),
                ),
            decreases plugins@.len() - i,
        {
            let ghost before = subscriptions@;
            subscriptions.insert(plugins[i].name.clone(), Vec::new());
            proof {
                let empty_set = Set::new(|e: Seq<char>| exists|j: int| 0 <= j < Seq::<String>::empty().len() && #[trigger] Seq::<String>::empty()[j]@ == e);
                assert(empty_set =~= Set::<Seq<char>>::empty());
                assert(subscriptions@ =~= Map::new(
                    |name: Seq<char>| exists|k: int| 0 <= k < i + 1 && #[trigger] plugins@[k].name@ == name,
                    |name: Seq<char>| Set::<Seq<char>>::empty(),
                )) by {
                    assert forall|name: Seq<char>| (exists|k: int| 0 <= k < i + 1 && #[trigger] plugins@[k].name@ == name)
                        == (before.contains_key(name) || name == plugins@[i as int].name@) by {
                        if exists|k: int| 0 <= k < i + 1 && #[trigger] plugins@[k].name@ == name {
                            let k = choose|k: int| 0 <= k < i + 1 && #[trigger] plugins@[k].name@ == name;
                            if k < i {
                                assert(before.contains_key(name));
                            }
                        }
                    }
                }
            }
            i = i + 1;
        }
        PluginManager { plugins, config_path, subscriptions }
    }

    /// Path of the configuration file handed to plugins, if known.
    pub closed spec fn config_path(&self) -> Option<String> {
        self.config_path
    }

    /// The plugins, in discovery order.
    pub fn plugins(&self) -> (r: &Vec<Plugin>)
        ensures
            r@ == self.plugin_list(),
    {
        &self.plugins
    }

    /// Path of the configuration file handed to plugins, if known.
    pub fn config_path_ref(&self) -> (r: &Option<String>)
        ensures
            *r == self.config_path(),
    {
        &self.config_path
    }

    /// Replaces the events `plugin` subscribes to. Each event name is trimmed
    /// and lowercased; empty names are dropped.
    pub fn set_subscription(&mut self, plugin: &str, events: Vec<String>)
        requires
            old(self).wf(),
        ensures
            final(self).wf(),
            final(self).plugin_list() == old(self).plugin_list(),
            final(self).config_path() == old(self).config_path(),
            final(self).subscription_map() == old(self).subscription_map().insert(
                plugin@,
                normalized_events(events@.map_values(|e: String| e@)),
            ),
    {
        let ghost ev = events@.map_values(|e: String| e@);
        let mut set: Vec<String> = Vec::new();
        let mut i: usize = 0;
        while i < events.len()
            invariant
                i <= events@.len(),
                ev == events@.map_values(|e: String| e@),
                forall|e: Seq<char>| #[trigger] strs_contain(set@, e) == normalized_prefix_contains(ev, i as int, e),
            decreases events@.len() - i,
        {
            let raw = chars_of(events[i].as_str());
            let t = trim_chars(&raw);
            let ts = string_from_chars(&t);
            let lower = to_lowercase(ts.as_str());
            proof {
                assert(ev[i as int] == events@[i as int]@);
            }
            let ghost before = set@;
            let ghost low = lower@;
            proof {
                assert(forall|e: Seq<char>| #[trigger] strs_contain(before, e) == normalized_prefix_contains(ev, i as int, e));
            }
            let nonempty = !lower.as_str().is_empty();
            proof {
                assert(low == lowercase(trimmed(ev[i as int])));
            }
            if nonempty {
                set.push(lower);
                proof {
                    assert(set@ == before.push(lower));
                }
            }
            proof {
                assert forall|e: Seq<char>| #[trigger] strs_contain(set@, e) == normalized_prefix_contains(ev, i + 1, e) by {
                    if strs_contain(set@, e) {
                        let j = choose|j: int| 0 <= j < set@.len() && #[trigger] set@[j]@ == e;
                        if j < before.len() {
                            assert(before[j]@ == e);
                            assert(strs_contain(before, e));
                        } else {
                            assert(nonempty);
                            assert(e == low);
                        }
                    }
                    if normalized_prefix_contains(ev, i + 1, e) {
                        let k = choose|k: int| 0 <= k < i + 1 && e == lowercase(trimmed(#[trigger] ev[k])) && e.len() > 0;
                        if k < i {
                            assert(normalized_prefix_contains(ev, i as int, e));
                            assert(strs_contain(before, e));
                            let j = choose|j: int| 0 <= j < before.len() && #[trigger] before[j]@ == e;
                            if nonempty {
                                assert(set@[j] == before[j]);
                            }
                        } else {
                            assert(nonempty);
                            assert(set@[before.len() as int]@ == e);
                        }
                    }
                    if strs_contain(before, e) {
                        assert(normalized_prefix_contains(ev, i as int, e));
                        let k = choose|k: int| 0 <= k < i && e == lowercase(trimmed(#[trigger] ev[k])) && e.len() > 0;
                        assert(0 <= k < i + 1);
                    }
                }
            }
            i = i + 1;
        }
        let name = plugin.to_owned();
        let ghost set_view = set@;
        self.subscriptions.insert(name, set);
        proof {
            assert forall|e: Seq<char>| Set::new(|e: Seq<char>| exists|j: int| 0 <= j < set_view.len() && #[trigger] set_view[j]@ == e).contains(e)
                == #[trigger] normalized_events(ev).contains(e) by {
                assert(strs_contain(set_view, e) == normalized_prefix_contains(ev, ev.len() as int, e));
            }
            assert(Set::new(|e: Seq<char>| exists|j: int| 0 <= j < set_view.len() && #[trigger] set_view[j]@ == e)
                =~= normalized_events(ev));
        }
    }

    /// Whether `plugin` receives `event` under the current subscriptions.
    pub fn should_deliver(&self, plugin: &str, event: &str) -> (r: bool)
        requires
            self.wf(),
        ensures
            r == spec_should_deliver(self.subscription_map(), plugin@, event@),
    {
        should_deliver_event(&self.subscriptions, plugin, event)
    }

    /// Indices of the plugins that receive `event`: only the plugin named
    /// `target` when one is given, otherwise every plugin that should
    /// receive it, in discovery order.
    pub fn delivery_targets(&self, event: &str, target: Option<&str>) -> (r: Vec<usize>)
        requires
            self.wf(),
        ensures
            r@ == Seq::new(self.plugin_list().len(), |i: int| i as usize).filter(|i: usize| match target {
                Some(t) => self.plugin_list()[i as int].name@ == t@,
                None => spec_should_deliver(self.subscription_map(), self.plugin_list()[i as int].name@, event@),
            }),
    {
        let ghost pred = |i: usize| match target {
            Some(t) => self.plugin_list()[i as int].name@ == t@,
            None => spec_should_deliver(self.subscription_map(), self.plugin_list()[i as int].name@, event@),
        };
        let ghost all = Seq::new(self.plugin_list().len(), |i: int| i as usize);
        let mut out: Vec<usize> = Vec::new();
        let mut i: usize = 0;
        while i < self.plugins.len()
            invariant
                i <= self.plugins@.len(),
                self.wf(),
                all == Seq::new(self.plugin_list().len(), |i: int| i as usize),
                pred == (|i: usize| match target {
                    Some(t) => self.plugin_list()[i as int].name@ == t@,
                    None => spec_should_deliver(self.subscription_map(), self.plugin_list()[i as int].name@, event@),
                }),
                out@ == all.take(i as int).filter(pred),
            decreases self.plugins@.len() - i,
        {
            proof {
                reveal_with_fuel(Seq::filter, 1);
                assert(all.take(i + 1).drop_last() =~= all.take(i as int));
                assert(all.take(i + 1).last() == i);
            }
            let name = self.plugins[i].name.as_str();
            let wanted = match target {
                Some(t) => str_eq(name, t),
                None => should_deliver_event(&self.subscriptions, name, event),
            };
            if wanted {
                out.push(i);
            }
            i = i + 1;
        }
        proof {
            assert(all.take(i as int) =~= all);
        }
        out
    }
}

/// How the output of a plugin is split into JSON commands.
#[derive(Debug, Clone)]
pub enum PluginOutput {
    /// Nothing but white space.
    Empty,
    /// One JSON array of commands (the trimmed output starts with `[`).
    Array(String),
    /// One JSON command per non-blank line, trimmed.
    Lines(Vec<String>),
}

/// The lines of `s`, split at each newline; the text after the last newline
/// is the last line (possibly empty).
pub open spec fn split_lines(s: Seq<char>) -> Seq<Seq<char>>
    decreases s.len(),
{
    if s.len() == 0 {
        seq![Seq::<char>::empty()]
    } else {
        let rest = split_lines(s.drop_last());
        if s.last() == '\n' {
            rest.push(Seq::<char>::empty())
        } else {
            rest.update(rest.len() - 1, rest.last().push(s.last()))
        }
    }
}

proof fn lemma_split_lines_nonempty(s: Seq<char>)
    ensures
        split_lines(s).len() > 0,
    decreases s.len(),
{
    if s.len() > 0 {
        lemma_split_lines_nonempty(s.drop_last());
    }
}

/// The non-blank lines of `s`, each trimmed.
pub open spec fn command_lines(s: Seq<char>) -> Seq<Seq<char>> {
    split_lines(s).map_values(|l: Seq<char>| trimmed(l)).filter(|l: Seq<char>| l.len() > 0)
}

/// The framing of a plugin's output.
pub open spec fn spec_frame(stdout: Seq<char>) -> (Option<Seq<char>>, Seq<Seq<char>>) {
    let t = trimmed(stdout);
    if t.len() == 0 {
        (None, seq![])
    } else if t[0] == '[' {
        (Some(t), seq![])
    } else {
        (None, command_lines(stdout))
    }
}

/// Splits a plugin's output into the JSON texts to parse: the whole trimmed
/// output when it is an array, otherwise each non-blank trimmed line.
pub fn frame_plugin_output(stdout: &str) -> (r: PluginOutput)
    ensures
        match r {
            PluginOutput::Empty => trimmed(stdout@).len() == 0,
            PluginOutput::Array(a) => trimmed(stdout@).len() > 0 && trimmed(stdout@)[0] == '[' && a@ == trimmed(stdout@),
            PluginOutput::Lines(lines) => trimmed(stdout@).len() > 0 && trimmed(stdout@)[0] != '['
                && lines@.map_values(|l: String| l@) == command_lines(stdout@),
        },
{
    let chars = chars_of(stdout);
    let t = trim_chars(&chars);
    if t.len() == 0 {
        return PluginOutput::Empty;
    }
    if t[0] == '[' {
        return PluginOutput::Array(string_from_chars(&t));
    }
    // Collect the lines, trimming each and dropping blank ones.
    let ghost keep = |l: Seq<char>| l.len() > 0;
    let ghost tr = |l: Seq<char>| trimmed(l);
    let mut lines: Vec<String> = Vec::new();
    let mut current: Vec<char> = Vec::new();
    let mut i: usize = 0;
    proof {
        assert(chars@.take(0) =~= Seq::<char>::empty());
        assert(split_lines(Seq::<char>::empty()) =~= seq![Seq::<char>::empty()]);
    }
    while i < chars.len()
        invariant
            i <= chars@.len(),
            chars@ == stdout@,
            keep == (|l: Seq<char>| l.len() > 0),
            tr == (|l: Seq<char>| trimmed(l)),
            split_lines(chars@.take(i as int)).len() > 0,
            current@ == split_lines(chars@.take(i as int)).last(),
            lines@.map_values(|l: String| l@) == split_lines(chars@.take(i as int)).drop_last().map_values(tr).filter(keep),
        decreases chars@.len() - i,
    {
        let c = chars[i];
        let ghost prefix = chars@.take(i as int);
        proof {
            assert(chars@.take(i + 1).drop_last() =~= prefix);
            assert(chars@.take(i + 1).last() == c);
            lemma_split_lines_nonempty(prefix);
        }
        if c == '\n' {
            let tl = trim_chars(&current);
            let ghost before = lines@.map_values(|l: String| l@);
            if tl.len() > 0 {
                lines.push(string_from_chars(&tl));
            }
            current = Vec::new();
            proof {
                let sl = split_lines(prefix);
                let nsl = split_lines(chars@.take(i + 1));
                assert(nsl == sl.push(Seq::<char>::empty()));
                assert(nsl.drop_last() =~= sl);
                assert(sl =~= sl.drop_last().push(sl.last()));
                reveal_with_fuel(Seq::filter, 1);
                assert(sl.map_values(tr) =~= sl.drop_last().map_values(tr).push(tr(sl.last())));
                assert(sl.map_values(tr).drop_last() =~= sl.drop_last().map_values(tr));
                assert(lines@.map_values(|l: String| l@) =~= sl.map_values(tr).filter(keep));
            }
        } else {
            current.push(c);
            proof {
                let sl = split_lines(prefix);
                let nsl = split_lines(chars@.take(i + 1));
                assert(nsl == sl.update(sl.len() - 1, sl.last().push(c)));
                assert(nsl.drop_last() =~= sl.drop_last());
            }
        }
        i = i + 1;
    }
    let tl = trim_chars(&current);
    let ghost before = lines@.map_values(|l: String| l@);
    if tl.len() > 0 {
        lines.push(string_from_chars(&tl));
    }
    proof {
        assert(chars@.take(chars@.len() as int) =~= chars@);
        let sl = split_lines(chars@);
        assert(sl =~= sl.drop_last().push(sl.last()));
        reveal_with_fuel(Seq::filter, 1);
        assert(sl.map_values(tr) =~= sl.drop_last().map_values(tr).push(tr(sl.last())));
        assert(sl.map_values(tr).drop_last() =~= sl.drop_last().map_values(tr));
        assert(lines@.map_values(|l: String| l@) =~= sl.map_values(tr).filter(keep));
    }
    PluginOutput::Lines(lines)
}

/// Filtering a name whose characters are all allowed keeps it as it is.
proof fn lemma_allowed_kept(name: Seq<char>)
    requires
        forall|i: int| 0 <= i < name.len() ==> name_char_allowed(#[trigger] name[i]),
    ensures
        sanitized(name) == name,
    decreases name.len(),
{
    if name.len() > 0 {
        let init = name.drop_last();
        assert forall|i: int| 0 <= i < init.len() implies name_char_allowed(#[trigger] init[i]) by {
            assert(init[i] == name[i]);
        }
        lemma_allowed_kept(init);
        reveal_with_fuel(Seq::filter, 1);
        assert(name_char_allowed(name[name.len() - 1]));
        assert(name =~= init.push(name.last()));
    } else {
        reveal_with_fuel(Seq::filter, 1);
        assert(sanitized(name) =~= name);
    }
}

/// A sanitized plugin name holds only allowed characters, is never longer
/// than the name it came from (in characters and in UTF-8 bytes), and
/// sanitizing it again changes nothing.
pub proof fn lemma_sanitized_name(name: Seq<char>)
    ensures
        forall|i: int| 0 <= i < sanitized(name).len() ==> name_char_allowed(#[trigger] sanitized(name)[i]),
        sanitized(name).len() <= name.len(),
        utf8_len(sanitized(name)) <= utf8_len(name),
        sanitized(sanitized(name)) == sanitized(name),
    decreases name.len(),
{
    let pred = |c: char| name_char_allowed(c);
    assert forall|i: int| 0 <= i < name.filter(pred).len() implies name_char_allowed(#[trigger] name.filter(pred)[i]) by {
        name.lemma_filter_pred(pred, i);
    }
    if name.len() > 0 {
        let init = name.drop_last();
        lemma_sanitized_name(init);
        reveal_with_fuel(Seq::filter, 1);
        assert(name =~= init + seq![name.last()]);
        lemma_utf8_concat(init, seq![name.last()]);
        lemma_utf8_single(name.last());
        if pred(name.last()) {
            assert(init.filter(pred).push(name.last()) =~= init.filter(pred) + seq![name.last()]);
            lemma_utf8_concat(init.filter(pred), seq![name.last()]);
        }
    }
    lemma_allowed_kept(sanitized(name));
}

/// After `set_subscription(plugin, events)` the plugin receives exactly the
/// lifecycle events and the events it just named (or every event when it
/// named `all`); what other plugins receive does not change.
pub proof fn lemma_subscription_read_after_write(
    subs: Map<Seq<char>, Set<Seq<char>>>,
    plugin: Seq<char>,
    events: Seq<Seq<char>>,
    other: Seq<char>,
    event: Seq<char>,
)
    ensures
        ({
            let n = normalized_events(events);
            spec_should_deliver(subs.insert(plugin, n), plugin, event) == (is_lifecycle_event(event) || n.contains(
                "all"@,
            ) || n.contains(lowercase(event)))
        }),
        other != plugin ==> spec_should_deliver(subs.insert(plugin, normalized_events(events)), other, event)
            == spec_should_deliver(subs, other, event),
{
}

/// A plugin root is usable when it is an absolute path (it starts with `/`)
/// and `exists`, which tells whether the directory is there.
pub fn validate_plugin_root(root: &str, exists: bool) -> (r: bool)
    ensures
        r == (root@.len() > 0 && root@[0] == '/' && exists),
{
    let chars = chars_of(root);
    chars.len() > 0 && chars[0] == '/' && exists
}

} // verus!
