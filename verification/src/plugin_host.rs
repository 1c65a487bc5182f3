//! The application's side of the plugin protocol: which plugin asked for a
//! response, how deep plugin-triggered dispatch may nest, and what each
//! command a plugin sends back asks the application to do.

use vstd::prelude::*;

use crate::actions::Action;
use crate::plugins::PluginManager;
use crate::prompt::{is_confirm_prompt, is_input_prompt, is_pick_prompt, PromptState};
use crate::text::str_eq;

verus! {

/// Which plugin is waiting for the response to each request id.
pub struct Owners {
    entries: Vec<(String, String)>,
}

impl Owners {
    /// The owners as a map from request id to plugin name.
    pub closed spec fn view(&self) -> Map<Seq<char>, Seq<char>> {
        Map::new(
            |id: Seq<char>| exists|i: int| 0 <= i < self.entries@.len() && self.entries@[i].0@ == id,
            |id: Seq<char>| {
                let i = choose|i: int| 0 <= i < self.entries@.len() && self.entries@[i].0@ == id;
                self.entries@[i].1@
            },
        )
    }

    /// No request id appears twice.
    pub closed spec fn wf(&self) -> bool {
        forall|i: int, j: int|
            0 <= i < j < self.entries@.len() ==> #[trigger] self.entries@[i].0@ != #[trigger] self.entries@[j].0@
    }

    proof fn lemma_unique(&self, a: int, b: int)
        requires
            self.wf(),
            0 <= a < self.entries@.len(),
            0 <= b < self.entries@.len(),
            self.entries@[a].0@ == self.entries@[b].0@,
        ensures
            a == b,
    {
        if a < b {
            assert(self.entries@[a].0@ != self.entries@[b].0@);
        } else if b < a {
            assert(self.entries@[b].0@ != self.entries@[a].0@);
        }
    }

    proof fn lemma_value_at(&self, i: int)
        requires
            self.wf(),
            0 <= i < self.entries@.len(),
        ensures
            self@.contains_key(self.entries@[i].0@),
            self@[self.entries@[i].0@] == self.entries@[i].1@,
    {
        let id = self.entries@[i].0@;
        assert(self@.contains_key(id));
        let c = choose|c: int| 0 <= c < self.entries@.len() && self.entries@[c].0@ == id;
        self.lemma_unique(c, i);
    }

    /// Nobody is waiting.
    pub fn new() -> (o: Owners)
        ensures
            o.wf(),
            o@ == Map::<Seq<char>, Seq<char>>::empty(),
    {
        let o = Owners { entries: Vec::new() };
        proof {
            assert(o@ =~= Map::<Seq<char>, Seq<char>>::empty());
        }
        o
    }

    fn find(&self, id: &str) -> (r: Option<usize>)
        requires
            self.wf(),
        ensures
            match r {
                Some(i) => i < self.entries@.len() && self.entries@[i as int].0@ == id@,
                None => !self@.contains_key(id@),
            },
    {
        let mut i: usize = 0;
        while i < self.entries.len()
            invariant
                i <= self.entries@.len(),
                forall|j: int| 0 <= j < i ==> self.entries@[j].0@ != id@,
            decreases self.entries@.len() - i,
        {
            if str_eq(self.entries[i].0.as_str(), id) {
                return Some(i);
            }
            i = i + 1;
        }
        None
    }

    /// Records that `plugin` waits for the response to request `id`,
    /// replacing an earlier owner of the same id.
    pub fn insert(&mut self, id: String, plugin: String)
        requires
            old(self).wf(),
        ensures
            final(self).wf(),
            final(self)@ == old(self)@.insert(id@, plugin@),
    {
        let ghost key = id@;
        let ghost val = plugin@;
        let ghost before = *self;
        match self.find(id.as_str()) {
            Some(i) => {
                self.entries.set(i, (id, plugin));
                proof {
                    let e = self.entries@;
                    let o = before.entries@;
                    assert forall|a: int, b: int| 0 <= a < b < e.len() implies #[trigger] e[a].0@ != #[trigger] e[b].0@ by {
                        assert(e[a].0@ == o[a].0@ && e[b].0@ == o[b].0@);
                    }
                    assert forall|n: Seq<char>| #[trigger] self@.contains_key(n) == before@.insert(key, val).contains_key(n) by {
                        if before@.contains_key(n) {
                            let k = choose|k: int| 0 <= k < o.len() && o[k].0@ == n;
                            assert(e[k].0@ == n);
                        }
                        if self@.contains_key(n) {
                            let k = choose|k: int| 0 <= k < e.len() && e[k].0@ == n;
                            assert(o[k].0@ == n);
                        }
                    }
                    assert forall|n: Seq<char>| #[trigger] self@.contains_key(n) implies self@[n] == before@.insert(key, val)[n] by {
                        let k = choose|k: int| 0 <= k < e.len() && e[k].0@ == n;
                        self.lemma_value_at(k);
                        if n != key {
                            assert(k != i);
                            before.lemma_value_at(k);
                        }
                    }
                    assert(self@ =~= before@.insert(key, val));
                }
            },
            None => {
                self.entries.push((id, plugin));
                proof {
                    let e = self.entries@;
                    let o = before.entries@;
                    let last = o.len() as int;
                    assert forall|a: int, b: int| 0 <= a < b < e.len() implies #[trigger] e[a].0@ != #[trigger] e[b].0@ by {
                        if b == last {
                            if o[a].0@ == key {
                                assert(before@.contains_key(key));
                            }
                        } else {
                            assert(o[a].0@ != o[b].0@);
                        }
                    }
                    assert forall|n: Seq<char>| #[trigger] self@.contains_key(n) == before@.insert(key, val).contains_key(n) by {
                        if n == key {
                            assert(e[last].0@ == n);
                        } else if before@.contains_key(n) {
                            let k = choose|k: int| 0 <= k < o.len() && o[k].0@ == n;
                            assert(e[k].0@ == n);
                        } else if self@.contains_key(n) {
                            let k = choose|k: int| 0 <= k < e.len() && e[k].0@ == n;
                            assert(o[k].0@ == n);
                        }
                    }
                    assert forall|n: Seq<char>| #[trigger] self@.contains_key(n) implies self@[n] == before@.insert(key, val)[n] by {
                        let k = choose|k: int| 0 <= k < e.len() && e[k].0@ == n;
                        self.lemma_value_at(k);
                        if n != key {
                            assert(k != last);
                            before.lemma_value_at(k);
                        }
                    }
                    assert(self@ =~= before@.insert(key, val));
                }
            },
        }
    }

    /// Removes and returns the plugin waiting for request `id`, if any.
    pub fn take(&mut self, id: &str) -> (r: Option<String>)
        requires
            old(self).wf(),
        ensures
            final(self).wf(),
            final(self)@ == old(self)@.remove(id@),
            match r {
                Some(p) => old(self)@.contains_key(id@) && p@ == old(self)@[id@],
                None => !old(self)@.contains_key(id@),
            },
    {
        let ghost before = *self;
        match self.find(id) {
            Some(i) => {
                proof {
                    before.lemma_value_at(i as int);
                }
                let (_, plugin) = self.entries.remove(i);
                proof {
                    let e = self.entries@;
                    let o = before.entries@;
                    assert forall|k: int| 0 <= k < e.len() implies #[trigger] e[k] == if k < i {
                        o[k]
                    } else {
                        o[k + 1]
                    } by {}
                    assert forall|a: int, b: int| 0 <= a < b < e.len() implies #[trigger] e[a].0@ != #[trigger] e[b].0@ by {
                        let oa = if a < i { a } else { a + 1 };
                        let ob = if b < i { b } else { b + 1 };
                        assert(o[oa].0@ != o[ob].0@);
                    }
                    assert forall|n: Seq<char>| #[trigger] self@.contains_key(n) == before@.remove(id@).contains_key(n) by {
                        if self@.contains_key(n) {
                            let k = choose|k: int| 0 <= k < e.len() && e[k].0@ == n;
                            let ok = if k < i { k } else { k + 1 };
                            assert(o[ok].0@ == n);
                            if n == id@ {
                                before.lemma_unique(ok, i as int);
                            }
                        }
                        if before@.remove(id@).contains_key(n) {
                            let k = choose|k: int| 0 <= k < o.len() && o[k].0@ == n;
                            assert(k != i);
                            let nk = if k < i { k } else { k - 1 };
                            assert(e[nk].0@ == n);
                        }
                    }
                    assert forall|n: Seq<char>| #[trigger] self@.contains_key(n) implies self@[n] == before@.remove(id@)[n] by {
                        let k = choose|k: int| 0 <= k < e.len() && e[k].0@ == n;
                        self.lemma_value_at(k);
                        let ok = if k < i { k } else { k + 1 };
                        before.lemma_value_at(ok);
                    }
                    assert(self@ =~= before@.remove(id@));
                }
                Some(plugin)
            },
            None => {
                proof {
                    assert(self@ =~= before@.remove(id@));
                }
                None
            },
        }
    }
}

/// A response is delivered to the plugin that asked for it, once: after
/// `insert(id, plugin)`, `take(id)` gives `plugin` back and forgets the
/// request, while the owners of other requests stay as they were.
pub proof fn lemma_owner_read_after_write(owners: Map<Seq<char>, Seq<char>>, id: Seq<char>, plugin: Seq<char>, other: Seq<char>)
    ensures
        owners.insert(id, plugin).contains_key(id),
        owners.insert(id, plugin)[id] == plugin,
        !owners.insert(id, plugin).remove(id).contains_key(id),
        other != id ==> owners.insert(id, plugin).remove(id).contains_key(other) == owners.contains_key(other),
        other != id && owners.contains_key(other) ==> owners.insert(id, plugin).remove(id)[other] == owners[other],
{
}

/// How deep events caused by plugin commands may nest before the
/// application stops forwarding them to plugins.
pub const MAX_PLUGIN_DISPATCH_DEPTH: usize = 2;

/// The application's plugin bookkeeping.
pub struct PluginHost {
    pub prompt_owners: Owners,
    pub state_owners: Owners,
    pub clipboard_owners: Owners,
    /// How many batches of plugin commands are being handled, one inside another.
    pub dispatch_depth: usize,
}

impl PluginHost {
    pub open spec fn wf(&self) -> bool {
        self.prompt_owners.wf() && self.state_owners.wf() && self.clipboard_owners.wf()
    }

    /// Nobody waiting, not inside any batch.
    pub fn new() -> (h: PluginHost)
        ensures
            h.wf(),
            h.prompt_owners@ == Map::<Seq<char>, Seq<char>>::empty(),
            h.state_owners@ == Map::<Seq<char>, Seq<char>>::empty(),
            h.clipboard_owners@ == Map::<Seq<char>, Seq<char>>::empty(),
            h.dispatch_depth == 0,
    {
        PluginHost {
            prompt_owners: Owners::new(),
            state_owners: Owners::new(),
            clipboard_owners: Owners::new(),
            dispatch_depth: 0,
        }
    }

    /// Whether an event may be sent to plugins now: not when it was caused,
    /// through too many nested batches, by plugin commands.
    pub fn may_dispatch(&self) -> (r: bool)
        ensures
            r == (self.dispatch_depth < MAX_PLUGIN_DISPATCH_DEPTH),
    {
        self.dispatch_depth < MAX_PLUGIN_DISPATCH_DEPTH
    }

    /// Enters a batch of commands from a plugin.
    pub fn begin_commands(&mut self)
        ensures
            final(self).dispatch_depth == if old(self).dispatch_depth < usize::MAX {
                old(self).dispatch_depth + 1
            } else {
                usize::MAX as int
            },
            final(self).prompt_owners == old(self).prompt_owners,
            final(self).state_owners == old(self).state_owners,
            final(self).clipboard_owners == old(self).clipboard_owners,
    {
        self.dispatch_depth = self.dispatch_depth.saturating_add(1);
    }

    /// Leaves a batch of commands from a plugin.
    pub fn end_commands(&mut self)
        ensures
            final(self).dispatch_depth == if old(self).dispatch_depth > 0 {
                old(self).dispatch_depth - 1
            } else {
                0
            },
            final(self).prompt_owners == old(self).prompt_owners,
            final(self).state_owners == old(self).state_owners,
            final(self).clipboard_owners == old(self).clipboard_owners,
    {
        self.dispatch_depth = self.dispatch_depth.saturating_sub(1);
    }
}

/// A command a plugin sends back. Free-form JSON values (the arguments of
/// a plugin command, the action of a keybinding) are kept as JSON text.
pub enum PluginCommand {
    Action { action: Action },
    Toast { message: String },
    SetTabTitle { title: String, tab_id: Option<u64> },
    SetWindowTitle { title: String },
    NewTab { cwd: String, title: Option<String> },
    SetTabCwd { cwd: String, tab_id: Option<u64> },
    SetPaneCwd { cwd: String, tab_id: Option<u64>, pane_id: Option<u64> },
    SetPaneProfile { profile: String, tab_id: Option<u64>, pane_id: Option<u64> },
    Prompt { id: String, title: String, message: Option<String>, default: Option<String> },
    Confirm {
        id: String,
        title: String,
        message: Option<String>,
        ok_label: Option<String>,
        cancel_label: Option<String>,
    },
    Pick { id: String, title: String, message: Option<String>, items: Vec<String>, selected: Option<usize> },
    RequestState { id: String },
    ClipboardRead { id: String },
    ClipboardWrite { text: String },
    SendText { text: String, tab_id: Option<u64>, pane_id: Option<u64> },
    FocusTab { tab_id: u64 },
    CloseTab { tab_id: u64 },
    ClosePane { tab_id: u64, pane_id: u64 },
    Subscribe { events: Vec<String> },
    ConfigPatch { toml: String, persist: Option<bool> },
    ReloadConfig,
    PluginCommand { name: String, args: Option<String> },
    RegisterKeybind { key: String, action: String, persist: Option<bool> },
}

/// What the application does for one plugin command.
pub enum PluginEffect {
    /// Run the action as if a plugin had pressed its key.
    RunAction(Action),
    ShowToast(String),
    /// Retitle the tab with this id, or the active tab when `None`.
    SetTabTitle { tab_id: Option<u64>, title: String },
    SetWindowTitle(String),
    NewTab { cwd: String, title: Option<String> },
    SetTabCwd { tab_id: u64, cwd: String },
    SetPaneCwd { tab_id: u64, pane_id: Option<u64>, cwd: String },
    SetPaneProfile { tab_id: u64, pane_id: Option<u64>, profile: String },
    OpenPrompt(PromptState),
    /// Send the state of the tabs to the plugin waiting for request `id`.
    SendState(String),
    /// Read the clipboard and send it to the plugin waiting for request `id`.
    SendClipboard(String),
    WriteClipboard(String),
    SendText { tab_id: u64, pane_id: Option<u64>, text: String },
    FocusTab(u64),
    CloseTab(u64),
    ClosePane { tab_id: u64, pane_id: u64 },
    ApplyConfigPatch { toml: String, persist: bool },
    ReloadConfig,
    /// Forward a plugin command event to the plugins.
    ForwardCommand { name: String, args: Option<String> },
    RegisterKeybind { key: String, action: String, persist: bool },
    /// Nothing is left to do.
    Nothing,
}

/// The tab a command addresses: the one it names, else the active tab.
pub open spec fn target_tab(tab_id: Option<u64>, active_tab: Option<u64>) -> Option<u64> {
    match tab_id {
        Some(t) => Some(t),
        None => active_tab,
    }
}

/// An optional flag, false when absent.
pub open spec fn flag(b: Option<bool>) -> bool {
    match b {
        Some(v) => v,
        None => false,
    }
}

/// What handling `command` from `plugin` does, besides recording request
/// owners and subscriptions: `e` is the effect left for the application
/// when the active tab has id `active_tab`.
pub open spec fn command_effect(command: PluginCommand, active_tab: Option<u64>, e: PluginEffect) -> bool {
    match command {
        PluginCommand::Action { action } => e == PluginEffect::RunAction(action),
        PluginCommand::Toast { message } => e == PluginEffect::ShowToast(message),
        PluginCommand::SetTabTitle { title, tab_id } => e == PluginEffect::SetTabTitle { tab_id, title },
        PluginCommand::SetWindowTitle { title } => e == PluginEffect::SetWindowTitle(title),
        PluginCommand::NewTab { cwd, title } => e == PluginEffect::NewTab { cwd, title },
        PluginCommand::SetTabCwd { cwd, tab_id } => match target_tab(tab_id, active_tab) {
            Some(t) => e == PluginEffect::SetTabCwd { tab_id: t, cwd },
            None => e == PluginEffect::Nothing,
        },
        PluginCommand::SetPaneCwd { cwd, tab_id, pane_id } => match target_tab(tab_id, active_tab) {
            Some(t) => e == PluginEffect::SetPaneCwd { tab_id: t, pane_id, cwd },
            None => e == PluginEffect::Nothing,
        },
        PluginCommand::SetPaneProfile { profile, tab_id, pane_id } => match target_tab(tab_id, active_tab) {
            Some(t) => e == PluginEffect::SetPaneProfile { tab_id: t, pane_id, profile },
            None => e == PluginEffect::Nothing,
        },
        PluginCommand::Prompt { id, title, message, default } => e matches PluginEffect::OpenPrompt(p)
            && is_input_prompt(p, id, title, message, default),
        PluginCommand::Confirm { id, title, message, ok_label, cancel_label } => e matches PluginEffect::OpenPrompt(p)
            && is_confirm_prompt(p, id, title, message, ok_label, cancel_label),
        PluginCommand::Pick { id, title, message, items, selected } => e matches PluginEffect::OpenPrompt(p)
            && is_pick_prompt(p, id, title, message, items@, selected),
        PluginCommand::RequestState { id } => e == PluginEffect::SendState(id),
        PluginCommand::ClipboardRead { id } => e == PluginEffect::SendClipboard(id),
        PluginCommand::ClipboardWrite { text } => e == PluginEffect::WriteClipboard(text),
        PluginCommand::SendText { text, tab_id, pane_id } => match target_tab(tab_id, active_tab) {
            Some(t) => e == PluginEffect::SendText { tab_id: t, pane_id, text },
            None => e == PluginEffect::Nothing,
        },
        PluginCommand::FocusTab { tab_id } => e == PluginEffect::FocusTab(tab_id),
        PluginCommand::CloseTab { tab_id } => e == PluginEffect::CloseTab(tab_id),
        PluginCommand::ClosePane { tab_id, pane_id } => e == PluginEffect::ClosePane { tab_id, pane_id },
        PluginCommand::Subscribe { .. } => e == PluginEffect::Nothing,
        PluginCommand::ConfigPatch { toml, persist } => e == PluginEffect::ApplyConfigPatch { toml, persist: flag(persist) },
        PluginCommand::ReloadConfig => e == PluginEffect::ReloadConfig,
        PluginCommand::PluginCommand { name, args } => e == PluginEffect::ForwardCommand { name, args },
        PluginCommand::RegisterKeybind { key, action, persist } => e == PluginEffect::RegisterKeybind {
            key,
            action,
            persist: flag(persist),
        },
    }
}

/// The kinds of request a plugin waits on a response for.
#[derive(Clone, Copy, Debug, PartialEq, Eq, Structural)]
pub enum RequestKind {
    Prompt,
    State,
    Clipboard,
}

/// The request a command opens, with its id: the plugin that sent the
/// command is recorded as waiting for the response.
pub open spec fn owned_request(command: PluginCommand) -> Option<(RequestKind, Seq<char>)> {
    match command {
        PluginCommand::Prompt { id, .. } => Some((RequestKind::Prompt, id@)),
        PluginCommand::Confirm { id, .. } => Some((RequestKind::Prompt, id@)),
        PluginCommand::Pick { id, .. } => Some((RequestKind::Prompt, id@)),
        PluginCommand::RequestState { id } => Some((RequestKind::State, id@)),
        PluginCommand::ClipboardRead { id } => Some((RequestKind::Clipboard, id@)),
        _ => None,
    }
}

fn target_tab_of(tab_id: Option<u64>, active_tab: Option<u64>) -> (r: Option<u64>)
    ensures
        r == target_tab(tab_id, active_tab),
{
    match tab_id {
        Some(t) => Some(t),
        None => active_tab,
    }
}

fn flag_of(b: Option<bool>) -> (r: bool)
    ensures
        r == flag(b),
{
    match b {
        Some(v) => v,
        None => false,
    }
}

impl PluginHost {
    /// Handles one command from `plugin`: records the plugin as the owner of
    /// the request a prompt, state request or clipboard read opens, records
    /// a subscription, and returns what is left for the application to do.
    pub fn apply_command(
        &mut self,
        manager: &mut PluginManager,
        plugin: &str,
        command: PluginCommand,
        active_tab: Option<u64>,
    ) -> (e: PluginEffect)
        requires
            old(self).wf(),
            old(manager).wf(),
        ensures
            final(self).wf(),
            final(manager).wf(),
            final(self).dispatch_depth == old(self).dispatch_depth,
            command_effect(command, active_tab, e),
            final(self).prompt_owners@ == match owned_request(command) {
                Some((RequestKind::Prompt, id)) => old(self).prompt_owners@.insert(id, plugin@),
                _ => old(self).prompt_owners@,
            },
            final(self).state_owners@ == match owned_request(command) {
                Some((RequestKind::State, id)) => old(self).state_owners@.insert(id, plugin@),
                _ => old(self).state_owners@,
            },
            final(self).clipboard_owners@ == match owned_request(command) {
                Some((RequestKind::Clipboard, id)) => old(self).clipboard_owners@.insert(id, plugin@),
                _ => old(self).clipboard_owners@,
            },
            final(manager).plugin_list() == old(manager).plugin_list(),
            final(manager).config_path() == old(manager).config_path(),
            final(manager).subscription_map() == match command {
                PluginCommand::Subscribe { events } => old(manager).subscription_map().insert(
                    plugin@,
                    crate::plugins::normalized_events(events@.map_values(|e: String| e@)),
                ),
                _ => old(manager).subscription_map(),
            },
    {
        match command {
            PluginCommand::Action { action } => PluginEffect::RunAction(action),
            PluginCommand::Toast { message } => PluginEffect::ShowToast(message),
            PluginCommand::SetTabTitle { title, tab_id } => PluginEffect::SetTabTitle { tab_id, title },
            PluginCommand::SetWindowTitle { title } => PluginEffect::SetWindowTitle(title),
            PluginCommand::NewTab { cwd, title } => PluginEffect::NewTab { cwd, title },
            PluginCommand::SetTabCwd { cwd, tab_id } => match target_tab_of(tab_id, active_tab) {
                Some(t) => PluginEffect::SetTabCwd { tab_id: t, cwd },
                None => PluginEffect::Nothing,
            },
            PluginCommand::SetPaneCwd { cwd, tab_id, pane_id } => match target_tab_of(tab_id, active_tab) {
                Some(t) => PluginEffect::SetPaneCwd { tab_id: t, pane_id, cwd },
                None => PluginEffect::Nothing,
            },
            PluginCommand::SetPaneProfile { profile, tab_id, pane_id } => match target_tab_of(tab_id, active_tab) {
                Some(t) => PluginEffect::SetPaneProfile { tab_id: t, pane_id, profile },
                None => PluginEffect::Nothing,
            },
            PluginCommand::Prompt { id, title, message, default } => {
                self.prompt_owners.insert(id.clone(), plugin.to_string());
                PluginEffect::OpenPrompt(PromptState::input(id, title, message, default))
            },
            PluginCommand::Confirm { id, title, message, ok_label, cancel_label } => {
                self.prompt_owners.insert(id.clone(), plugin.to_string());
                PluginEffect::OpenPrompt(PromptState::confirm(id, title, message, ok_label, cancel_label))
            },
            PluginCommand::Pick { id, title, message, items, selected } => {
                self.prompt_owners.insert(id.clone(), plugin.to_string());
                PluginEffect::OpenPrompt(PromptState::pick(id, title, message, items, selected))
            },
            PluginCommand::RequestState { id } => {
                self.state_owners.insert(id.clone(), plugin.to_string());
                PluginEffect::SendState(id)
            },
            PluginCommand::ClipboardRead { id } => {
                self.clipboard_owners.insert(id.clone(), plugin.to_string());
                PluginEffect::SendClipboard(id)
            },
            PluginCommand::ClipboardWrite { text } => PluginEffect::WriteClipboard(text),
            PluginCommand::SendText { text, tab_id, pane_id } => match target_tab_of(tab_id, active_tab) {
                Some(t) => PluginEffect::SendText { tab_id: t, pane_id, text },
                None => PluginEffect::Nothing,
            },
            PluginCommand::FocusTab { tab_id } => PluginEffect::FocusTab(tab_id),
            PluginCommand::CloseTab { tab_id } => PluginEffect::CloseTab(tab_id),
            PluginCommand::ClosePane { tab_id, pane_id } => PluginEffect::ClosePane { tab_id, pane_id },
            PluginCommand::Subscribe { events } => {
                manager.set_subscription(plugin, events);
                PluginEffect::Nothing
            },
            PluginCommand::ConfigPatch { toml, persist } => PluginEffect::ApplyConfigPatch {
                toml,
                persist: flag_of(persist),
            },
            PluginCommand::ReloadConfig => PluginEffect::ReloadConfig,
            PluginCommand::PluginCommand { name, args } => PluginEffect::ForwardCommand { name, args },
            PluginCommand::RegisterKeybind { key, action, persist } => PluginEffect::RegisterKeybind {
                key,
                action,
                persist: flag_of(persist),
            },
        }
    }
}

} // verus!
