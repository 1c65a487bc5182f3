//! Decisions of the keyboard handler: where a key press goes, the keys of
//! the help overlay, the shadow prompt's editing keys, and jumps between
//! shell prompts in the scrollback.

use vstd::prelude::*;

use crate::actions::{is_always_handled_action, spec_is_always_handled, Action};
use crate::help_filter::HelpFilterState;
use crate::keys::{LogicalKey, Modifiers, NamedKey};
use crate::pane::ShadowPrompt;
use crate::prompt::without_controls;
use crate::text::{chars_of, is_control, spec_is_control, str_eq, utf8_len};

verus! {

/// Where a key press goes.
#[derive(Clone, Copy, Debug, PartialEq, Eq, Structural)]
pub enum KeyRoute {
    /// To the open plugin prompt.
    Prompt,
    /// The help overlay consumed it.
    HelpOverlay,
    /// It triggers a plugin keybinding.
    PluginKeybind,
    /// It triggers an action.
    Execute(Action),
    /// There is no focused pane to receive it.
    Ignore,
    /// To the search box of the focused pane.
    Search,
    /// To the shadow prompt (a command is running); keys it does not handle go to the terminal.
    ShadowPrompt,
    /// To the terminal; `send_text` when the key's text is written as is.
    Terminal { send_text: bool },
}

/// What the key handler knows when a key is pressed.
#[derive(Clone, Copy, Debug, PartialEq, Eq, Structural)]
pub struct KeyContext {
    pub prompt_open: bool,
    /// The help overlay handled the key.
    pub help_consumed: bool,
    pub plugin_binding: bool,
    /// The bound action, unless it is one that only applies while searching.
    pub non_search_action: Option<Action>,
    pub has_focused_pane: bool,
    pub search_active: bool,
    /// Shadow prompt mode is not off in the configuration.
    pub shadow_mode_on: bool,
    /// The focused pane has the shadow prompt enabled.
    pub shadow_enabled: bool,
    /// The focused pane is running a command.
    pub command_running: bool,
    /// The focused pane shows the alternate screen (a full-screen program).
    pub alt_screen: bool,
    pub ctrl: bool,
    pub alt: bool,
    /// The key produced non-empty text.
    pub has_text: bool,
}

/// The route of a key press, in the order the handler checks: an open
/// prompt, the help overlay, plugin keybindings, actions that always run,
/// the focused pane's search box, other actions, the shadow prompt while a
/// command runs (never in full-screen programs), then the terminal.
pub open spec fn spec_route(c: KeyContext) -> KeyRoute {
    if c.prompt_open {
        KeyRoute::Prompt
    } else if c.help_consumed {
        KeyRoute::HelpOverlay
    } else if c.plugin_binding {
        KeyRoute::PluginKeybind
    } else if c.non_search_action matches Some(a) && spec_is_always_handled(a) {
        KeyRoute::Execute(c.non_search_action->0)
    } else if !c.has_focused_pane {
        KeyRoute::Ignore
    } else if c.search_active {
        KeyRoute::Search
    } else if c.non_search_action is Some {
        KeyRoute::Execute(c.non_search_action->0)
    } else if c.shadow_mode_on && c.shadow_enabled && c.command_running && !c.alt_screen {
        KeyRoute::ShadowPrompt
    } else {
        KeyRoute::Terminal { send_text: !c.ctrl && !c.alt && c.has_text }
    }
}

/// Decides where a key press goes.
pub fn route_key(c: &KeyContext) -> (r: KeyRoute)
    ensures
        r == spec_route(*c),
{
    if c.prompt_open {
        return KeyRoute::Prompt;
    }
    if c.help_consumed {
        return KeyRoute::HelpOverlay;
    }
    if c.plugin_binding {
        return KeyRoute::PluginKeybind;
    }
    if let Some(action) = c.non_search_action {
        if is_always_handled_action(action) {
            return KeyRoute::Execute(action);
        }
    }
    if !c.has_focused_pane {
        return KeyRoute::Ignore;
    }
    if c.search_active {
        return KeyRoute::Search;
    }
    if let Some(action) = c.non_search_action {
        return KeyRoute::Execute(action);
    }
    if c.shadow_mode_on && c.shadow_enabled && c.command_running && !c.alt_screen {
        return KeyRoute::ShadowPrompt;
    }
    KeyRoute::Terminal { send_text: !c.ctrl && !c.alt && c.has_text }
}

/// Rows scrolled by PageUp and PageDown in the help overlay.
pub const HELP_PAGE: usize = 10;

/// State of the help overlay.
pub struct HelpOverlay {
    pub show_help: bool,
    pub help_scroll: usize,
    pub help_max_scroll: usize,
    pub shell_warning_dismissed: bool,
    pub help_filter: HelpFilterState,
}

/// `key` is the key name `name`.
pub open spec fn key_is(key: Option<&str>, name: Seq<char>) -> bool {
    key matches Some(k) && k@ == name
}

fn key_eq(key: Option<&str>, name: &str) -> (r: bool)
    ensures
        r == key_is(key, name@),
{
    match key {
        Some(k) => str_eq(k, name),
        None => false,
    }
}

/// What a key does in the help overlay, in the order the handler checks.
#[derive(Clone, Copy, Debug, PartialEq, Eq, Structural)]
pub enum HelpKey {
    /// Escape with an active filter: clear and close the filter.
    ClearFilter,
    /// Backspace with an active filter: drop the filter's last character.
    EraseFilter,
    Up,
    Down,
    PageUp,
    PageDown,
    Home,
    End,
    /// `d` without Ctrl, Alt or an active filter: dismiss the shell warning.
    DismissWarning,
    /// Other text without Ctrl or Alt: typed into the filter.
    Type,
    /// Not handled by the overlay.
    Other,
}

/// How the help overlay reads a key.
pub open spec fn spec_help_key(key: Option<&str>, text: Option<&str>, modifiers: Modifiers, active: bool) -> HelpKey {
    let plain = !modifiers.control && !modifiers.alt;
    if key_is(key, "escape"@) && active {
        HelpKey::ClearFilter
    } else if key_is(key, "backspace"@) && active {
        HelpKey::EraseFilter
    } else if key_is(key, "up"@) {
        HelpKey::Up
    } else if key_is(key, "down"@) {
        HelpKey::Down
    } else if key_is(key, "pageup"@) {
        HelpKey::PageUp
    } else if key_is(key, "pagedown"@) {
        HelpKey::PageDown
    } else if key_is(key, "home"@) {
        HelpKey::Home
    } else if key_is(key, "end"@) {
        HelpKey::End
    } else if key_is(key, "d"@) && plain && !active {
        HelpKey::DismissWarning
    } else if text matches Some(t) && t@.len() > 0 && plain {
        HelpKey::Type
    } else {
        HelpKey::Other
    }
}

impl HelpOverlay {
    /// A hidden overlay with an inactive filter.
    pub fn new() -> (h: HelpOverlay)
        ensures
            !h.show_help,
            h.help_scroll == 0,
            h.help_max_scroll == 0,
            !h.shell_warning_dismissed,
            !h.help_filter.active_view(),
            h.help_filter.query_view() == Seq::<char>::empty(),
    {
        HelpOverlay {
            show_help: false,
            help_scroll: 0,
            help_max_scroll: 0,
            shell_warning_dismissed: false,
            help_filter: HelpFilterState::new(),
        }
    }

    /// Scrolls the shown overlay by `lines` wheel lines: up (toward 0) when
    /// positive, down (at most to `help_max_scroll`) when negative.
    pub fn scroll_lines(&mut self, lines: isize)
        ensures
            final(self).help_scroll == if lines > 0 {
                if old(self).help_scroll >= lines { old(self).help_scroll - lines } else { 0 }
            } else if old(self).help_scroll - lines <= old(self).help_max_scroll {
                old(self).help_scroll - lines
            } else {
                old(self).help_max_scroll as int
            },
            final(self).help_max_scroll == old(self).help_max_scroll,
            final(self).show_help == old(self).show_help,
            final(self).shell_warning_dismissed == old(self).shell_warning_dismissed,
            final(self).help_filter.query_view() == old(self).help_filter.query_view(),
            final(self).help_filter.active_view() == old(self).help_filter.active_view(),
    {
        if lines > 0 {
            let n = lines as usize;
            self.help_scroll = if self.help_scroll >= n { self.help_scroll - n } else { 0 };
        } else {
            let n = (0i128 - (lines as i128)) as usize;
            self.help_scroll = if self.help_scroll <= self.help_max_scroll && self.help_max_scroll - self.help_scroll >= n {
                self.help_scroll + n
            } else {
                self.help_max_scroll
            };
        }
    }

    /// Shows or hides the overlay: showing it starts at the top; hiding it
    /// clears and closes the filter.
    pub fn toggle(&mut self)
        ensures
            final(self).show_help == !old(self).show_help,
            final(self).shell_warning_dismissed == old(self).shell_warning_dismissed,
            final(self).show_help ==> final(self).help_scroll == 0 && final(self).help_max_scroll == 0
                && final(self).help_filter.query_view() == old(self).help_filter.query_view()
                && final(self).help_filter.active_view() == old(self).help_filter.active_view(),
            !final(self).show_help ==> final(self).help_scroll == old(self).help_scroll
                && final(self).help_max_scroll == old(self).help_max_scroll
                && !final(self).help_filter.active_view()
                && final(self).help_filter.query_view() == Seq::<char>::empty(),
    {
        self.show_help = !self.show_help;
        if self.show_help {
            self.help_scroll = 0;
            self.help_max_scroll = 0;
        } else {
            self.help_filter.deactivate();
        }
    }

    /// Handles a key while the help overlay may be shown; returns whether the
    /// overlay consumed it.
    ///
    /// Escape and Backspace edit an active filter (and reset the scroll);
    /// the arrow keys, PageUp/PageDown, Home and End scroll within
    /// `0..=help_max_scroll`; `d` (no Ctrl/Alt, no active filter) dismisses
    /// the shell-integration warning; any other key producing text, without
    /// Ctrl or Alt, adds its non-control characters to the filter, activating
    /// it, and resets the scroll.
    pub fn handle_input(&mut self, key_str: Option<&str>, text: Option<&str>, modifiers: Modifiers) -> (r: bool)
        ensures
            final(self).show_help == old(self).show_help,
            final(self).help_max_scroll == old(self).help_max_scroll,
            ({
                let o = *old(self);
                let f = *final(self);
                let q = o.help_filter.query_view();
                let unchanged_filter = f.help_filter.query_view() == q
                    && f.help_filter.active_view() == o.help_filter.active_view();
                if !o.show_help {
                    !r && f.help_scroll == o.help_scroll && unchanged_filter
                        && f.shell_warning_dismissed == o.shell_warning_dismissed
                } else {
                    match spec_help_key(key_str, text, modifiers, o.help_filter.active_view()) {
                        HelpKey::ClearFilter => r && f.help_scroll == 0 && !f.help_filter.active_view()
                            && f.help_filter.query_view().len() == 0
                            && f.shell_warning_dismissed == o.shell_warning_dismissed,
                        HelpKey::EraseFilter => r && f.help_scroll == 0 && f.help_filter.active_view()
                            == (f.help_filter.query_view().len() > 0)
                            && f.help_filter.query_view() == (if q.len() == 0 { q } else { q.drop_last() })
                            && f.shell_warning_dismissed == o.shell_warning_dismissed,
                        HelpKey::Up => r && unchanged_filter && f.shell_warning_dismissed == o.shell_warning_dismissed
                            && f.help_scroll == (if o.help_scroll >= 1 { o.help_scroll - 1 } else { 0 }),
                        HelpKey::Down => r && unchanged_filter && f.shell_warning_dismissed == o.shell_warning_dismissed
                            && f.help_scroll == (if o.help_scroll + 1 <= o.help_max_scroll {
                                o.help_scroll + 1
                            } else {
                                o.help_max_scroll as int
                            }),
                        HelpKey::PageUp => r && unchanged_filter && f.shell_warning_dismissed == o.shell_warning_dismissed
                            && f.help_scroll == (if o.help_scroll >= HELP_PAGE { o.help_scroll - HELP_PAGE } else { 0 }),
                        HelpKey::PageDown => r && unchanged_filter && f.shell_warning_dismissed == o.shell_warning_dismissed
                            && f.help_scroll == (if o.help_scroll + HELP_PAGE <= o.help_max_scroll {
                                o.help_scroll + HELP_PAGE
                            } else {
                                o.help_max_scroll as int
                            }),
                        HelpKey::Home => r && unchanged_filter && f.shell_warning_dismissed == o.shell_warning_dismissed
                            && f.help_scroll == 0,
                        HelpKey::End => r && unchanged_filter && f.shell_warning_dismissed == o.shell_warning_dismissed
                            && f.help_scroll == o.help_max_scroll,
                        HelpKey::DismissWarning => r && unchanged_filter && f.help_scroll == o.help_scroll
                            && f.shell_warning_dismissed,
                        HelpKey::Type => r && f.help_scroll == 0
                            && f.help_filter.query_view() == q + without_controls(text->0@)
                            && f.help_filter.active_view() == (o.help_filter.active_view()
                                || without_controls(text->0@).len() > 0)
                            && f.shell_warning_dismissed == o.shell_warning_dismissed,
                        HelpKey::Other => !r && f.help_scroll == o.help_scroll && unchanged_filter
                            && f.shell_warning_dismissed == o.shell_warning_dismissed,
                    }
                }
            }),
    {
        if !self.show_help {
            return false;
        }
        let ctrl = modifiers.control_key();
        let alt = modifiers.alt_key();
        let active = self.help_filter.is_active();
        if key_eq(key_str, "escape") && active {
            self.help_filter.deactivate();
            self.help_scroll = 0;
            return true;
        }
        if key_eq(key_str, "backspace") && active {
            self.help_filter.pop_char();
            self.help_scroll = 0;
            return true;
        }
        if key_eq(key_str, "up") {
            self.help_scroll = if self.help_scroll >= 1 { self.help_scroll - 1 } else { 0 };
            return true;
        }
        if key_eq(key_str, "down") {
            self.help_scroll = if self.help_scroll < self.help_max_scroll {
                self.help_scroll + 1
            } else {
                self.help_max_scroll
            };
            return true;
        }
        if key_eq(key_str, "pageup") {
            self.help_scroll = if self.help_scroll >= HELP_PAGE { self.help_scroll - HELP_PAGE } else { 0 };
            return true;
        }
        if key_eq(key_str, "pagedown") {
            self.help_scroll = if self.help_scroll <= self.help_max_scroll && self.help_max_scroll
                - self.help_scroll >= HELP_PAGE {
                self.help_scroll + HELP_PAGE
            } else {
                self.help_max_scroll
            };
            return true;
        }
        if key_eq(key_str, "home") {
            self.help_scroll = 0;
            return true;
        }
        if key_eq(key_str, "end") {
            self.help_scroll = self.help_max_scroll;
            return true;
        }
        if key_eq(key_str, "d") && !ctrl && !alt && !active {
            self.shell_warning_dismissed = true;
            return true;
        }
        if let Some(t) = text {
            if !t.is_empty() && !ctrl && !alt {
                let chars = chars_of(t);
                let ghost start_q = self.help_filter.query_view();
                let ghost start_active = self.help_filter.active_view();
                let ghost pred = |c: char| !spec_is_control(c);
                let mut i: usize = 0;
                while i < chars.len()
                    invariant
                        i <= chars@.len(),
                        chars@ == t@,
                        pred == (|c: char| !spec_is_control(c)),
                        self.help_filter.query_view() == start_q + chars@.take(i as int).filter(pred),
                        self.help_filter.active_view() == (start_active || chars@.take(i as int).filter(pred).len() > 0),
                        self.show_help == old(self).show_help,
                        self.help_max_scroll == old(self).help_max_scroll,
                        self.shell_warning_dismissed == old(self).shell_warning_dismissed,
                    decreases chars@.len() - i,
                {
                    proof {
                        reveal_with_fuel(Seq::filter, 1);
                        assert(chars@.take(i + 1).drop_last() =~= chars@.take(i as int));
                    }
                    let ch = chars[i];
                    if !is_control(ch) {
                        self.help_filter.activate();
                        self.help_filter.push_char(ch);
                    }
                    i = i + 1;
                }
                proof {
                    assert(chars@.take(chars@.len() as int) =~= chars@);
                }
                self.help_scroll = 0;
                return true;
            }
        }
        false
    }
}

/// The shadow prompt can grow by `extra` bytes.
pub open spec fn shadow_room(p: ShadowPrompt, extra: int) -> bool {
    utf8_len(p.buffer@) + extra <= usize::MAX
}

/// Routes an editing key to the shadow prompt; returns whether it was
/// handled. Keys it does not handle (such as Ctrl+C) go to the terminal.
pub fn handle_shadow_prompt_input(prompt: &mut ShadowPrompt, key: &LogicalKey, modifiers: Modifiers) -> (r: bool)
    requires
        old(prompt).wf(),
        shadow_room(*old(prompt), 4),
        key matches LogicalKey::Character(s) ==> shadow_room(*old(prompt), utf8_len(s@) as int),
    ensures
        final(prompt).wf(),
        r == match key {
            LogicalKey::Named(NamedKey::Backspace) | LogicalKey::Named(NamedKey::Delete)
            | LogicalKey::Named(NamedKey::ArrowLeft) | LogicalKey::Named(NamedKey::ArrowRight)
            | LogicalKey::Named(NamedKey::Home) | LogicalKey::Named(NamedKey::End)
            | LogicalKey::Named(NamedKey::Escape) | LogicalKey::Named(NamedKey::Enter) => true,
            LogicalKey::Named(NamedKey::Space) | LogicalKey::Character(_) => !modifiers.control
                && !modifiers.alt,
            _ => false,
        },
        key matches LogicalKey::Named(NamedKey::Enter) ==> final(prompt).buffer@ == old(prompt).buffer@.insert(
            old(prompt).cursor_index(),
            '\n',
        ) && final(prompt).cursor == old(prompt).cursor + 1
            && final(prompt).cursor_index() == old(prompt).cursor_index() + 1,
        key matches LogicalKey::Named(NamedKey::Space) && r ==> final(prompt).buffer@ == old(prompt).buffer@.insert(
            old(prompt).cursor_index(),
            ' ',
        ) && final(prompt).cursor == old(prompt).cursor + 1
            && final(prompt).cursor_index() == old(prompt).cursor_index() + 1,
        key matches LogicalKey::Character(s) ==> (r ==> final(prompt).buffer@ == old(prompt).buffer@.take(
            old(prompt).cursor_index(),
        ) + s@ + old(prompt).buffer@.skip(old(prompt).cursor_index())
            && final(prompt).cursor == old(prompt).cursor + utf8_len(s@)
            && final(prompt).cursor_index() == old(prompt).cursor_index() + s@.len()),
        key matches LogicalKey::Named(NamedKey::Escape) ==> final(prompt).buffer@.len() == 0 && !final(prompt).visible,
        key matches LogicalKey::Named(NamedKey::Backspace) ==> if old(prompt).cursor > 0 {
            final(prompt).buffer@ == old(prompt).buffer@.remove(old(prompt).cursor_index() - 1)
                && final(prompt).cursor_index() == old(prompt).cursor_index() - 1
        } else {
            final(prompt).buffer@ == old(prompt).buffer@ && final(prompt).cursor == 0
        },
        key matches LogicalKey::Named(NamedKey::Delete) ==> final(prompt).cursor == old(prompt).cursor
            && final(prompt).buffer@ == if old(prompt).cursor_index() < old(prompt).buffer@.len() {
            old(prompt).buffer@.remove(old(prompt).cursor_index())
        } else {
            old(prompt).buffer@
        },
        key matches LogicalKey::Named(NamedKey::ArrowLeft) ==> final(prompt).buffer@ == old(prompt).buffer@
            && final(prompt).cursor_index() == if old(prompt).cursor > 0 {
            old(prompt).cursor_index() - 1
        } else {
            old(prompt).cursor_index()
        },
        key matches LogicalKey::Named(NamedKey::ArrowRight) ==> final(prompt).buffer@ == old(prompt).buffer@
            && final(prompt).cursor_index() == if old(prompt).cursor_index() < old(prompt).buffer@.len() {
            old(prompt).cursor_index() + 1
        } else {
            old(prompt).cursor_index()
        },
        key matches LogicalKey::Named(NamedKey::Home) ==> final(prompt).buffer@ == old(prompt).buffer@
            && final(prompt).cursor == 0,
        key matches LogicalKey::Named(NamedKey::End) ==> final(prompt).buffer@ == old(prompt).buffer@
            && final(prompt).cursor_index() == old(prompt).buffer@.len(),
        (key matches LogicalKey::Named(NamedKey::Backspace) || key matches LogicalKey::Named(NamedKey::Delete)
            || key matches LogicalKey::Named(NamedKey::ArrowLeft) || key matches LogicalKey::Named(NamedKey::ArrowRight)
            || key matches LogicalKey::Named(NamedKey::Home) || key matches LogicalKey::Named(NamedKey::End))
            ==> final(prompt).visible == old(prompt).visible,
        r && (key matches LogicalKey::Named(NamedKey::Enter) || key matches LogicalKey::Named(NamedKey::Space)
            || key is Character) ==> final(prompt).visible,
        !r ==> *final(prompt) == *old(prompt),
{
    let ctrl = modifiers.control_key();
    let alt = modifiers.alt_key();
    match key {
        LogicalKey::Named(NamedKey::Backspace) => {
            prompt.backspace();
            true
        },
        LogicalKey::Named(NamedKey::Delete) => {
            prompt.delete();
            true
        },
        LogicalKey::Named(NamedKey::ArrowLeft) => {
            prompt.move_left();
            true
        },
        LogicalKey::Named(NamedKey::ArrowRight) => {
            prompt.move_right();
            true
        },
        LogicalKey::Named(NamedKey::Home) => {
            prompt.move_home();
            true
        },
        LogicalKey::Named(NamedKey::End) => {
            prompt.move_end();
            true
        },
        LogicalKey::Named(NamedKey::Escape) => {
            prompt.clear();
            true
        },
        LogicalKey::Named(NamedKey::Enter) => {
            prompt.insert('\n');
            true
        },
        LogicalKey::Named(NamedKey::Space) => {
            if !ctrl && !alt {
                prompt.insert(' ');
                true
            } else {
                false
            }
        },
        LogicalKey::Character(s) => {
            if !ctrl && !alt {
                prompt.insert_str(s.as_str());
                true
            } else {
                false
            }
        },
        _ => false,
    }
}

/// The first prompt row after `top`, scanning `prompts` in order.
pub open spec fn next_prompt_after(prompts: Seq<usize>, top: int) -> Option<usize>
    decreases prompts.len(),
{
    if prompts.len() == 0 {
        None
    } else if prompts[0] > top {
        Some(prompts[0])
    } else {
        next_prompt_after(prompts.drop_first(), top)
    }
}

/// The last prompt row before `top`, scanning `prompts` from the end.
pub open spec fn prev_prompt_before(prompts: Seq<usize>, top: int) -> Option<usize>
    decreases prompts.len(),
{
    if prompts.len() == 0 {
        None
    } else if prompts.last() < top {
        Some(prompts.last())
    } else {
        prev_prompt_before(prompts.drop_last(), top)
    }
}

/// The scrollback offset that shows the next (or previous) shell prompt at
/// the top of the view, or `None` when there is no such prompt. The view
/// currently starts `current_offset` rows above row `visible_start`.
pub open spec fn spec_prompt_jump(prompts: Seq<usize>, visible_start: int, current_offset: int, forward: bool) -> Option<int> {
    let top = if visible_start >= current_offset { visible_start - current_offset } else { 0 };
    let target = if forward {
        next_prompt_after(prompts, top)
    } else {
        prev_prompt_before(prompts, top)
    };
    match target {
        Some(t) => Some(if visible_start >= t { visible_start - t } else { 0 }),
        None => None,
    }
}

fn first_after(prompts: &Vec<usize>, top: usize) -> (r: Option<usize>)
    ensures
        r == next_prompt_after(prompts@, top as int),
{
    let mut i: usize = 0;
    proof {
        assert(prompts@.skip(0) =~= prompts@);
    }
    while i < prompts.len()
        invariant
            i <= prompts@.len(),
            next_prompt_after(prompts@, top as int) == next_prompt_after(prompts@.skip(i as int), top as int),
        decreases prompts@.len() - i,
    {
        proof {
            assert(prompts@.skip(i as int)[0] == prompts@[i as int]);
            assert(prompts@.skip(i as int).drop_first() =~= prompts@.skip(i + 1));
        }
        if prompts[i] > top {
            return Some(prompts[i]);
        }
        i = i + 1;
    }
    proof {
        assert(prompts@.skip(i as int) =~= Seq::<usize>::empty());
    }
    None
}

fn last_before(prompts: &Vec<usize>, top: usize) -> (r: Option<usize>)
    ensures
        r == prev_prompt_before(prompts@, top as int),
{
    let mut i: usize = prompts.len();
    proof {
        assert(prompts@.take(prompts@.len() as int) =~= prompts@);
    }
    while i > 0
        invariant
            i <= prompts@.len(),
            prev_prompt_before(prompts@, top as int) == prev_prompt_before(prompts@.take(i as int), top as int),
        decreases i,
    {
        proof {
            assert(prompts@.take(i as int).last() == prompts@[i - 1]);
            assert(prompts@.take(i as int).drop_last() =~= prompts@.take(i - 1));
        }
        if prompts[i - 1] < top {
            return Some(prompts[i - 1]);
        }
        i = i - 1;
    }
    proof {
        assert(prompts@.take(0) =~= Seq::<usize>::empty());
    }
    None
}

/// Computes the scrollback offset for jumping to the previous or next prompt.
pub fn prompt_jump_offset(prompts: &Vec<usize>, visible_start: usize, current_offset: usize, forward: bool) -> (r: Option<usize>)
    ensures
        match r {
            Some(o) => spec_prompt_jump(prompts@, visible_start as int, current_offset as int, forward) == Some(o as int),
            None => spec_prompt_jump(prompts@, visible_start as int, current_offset as int, forward) is None,
        },
{
    let current_top = if visible_start >= current_offset { visible_start - current_offset } else { 0 };
    let target = if forward {
        first_after(prompts, current_top)
    } else {
        last_before(prompts, current_top)
    };
    match target {
        Some(t) => Some(if visible_start >= t { visible_start - t } else { 0 }),
        None => None,
    }
}

/// What a key does to the search box of the focused pane.
#[derive(Clone, Debug)]
pub enum SearchKey {
    Close,
    /// Confirm the search, moving to the next match when there is one.
    Confirm { advance: bool },
    Next,
    Prev,
    ToggleCase,
    ToggleRegex,
    /// Drop the last character of the query.
    PopChar,
    /// Append these characters to the query.
    Type(String),
    /// Not for the search box.
    Ignore,
}

/// Decides what a key does to the search box: the search actions bound to
/// it first, then Backspace, then typed text without Ctrl or Alt.
pub fn search_key(action: Option<Action>, key: &LogicalKey, modifiers: Modifiers, match_count: usize) -> (r: SearchKey)
    ensures
        match action {
            Some(Action::SearchClose) => r is Close,
            Some(Action::SearchConfirm) => r == SearchKey::Confirm { advance: match_count > 0 },
            Some(Action::SearchNext) => r is Next,
            Some(Action::SearchPrev) => r is Prev,
            Some(Action::SearchToggleCase) => r is ToggleCase,
            Some(Action::SearchToggleRegex) => r is ToggleRegex,
            _ => match key {
                LogicalKey::Named(NamedKey::Backspace) => r is PopChar,
                LogicalKey::Character(s) => if !modifiers.control && !modifiers.alt {
                    r matches SearchKey::Type(t) && t@ == s@
                } else {
                    r is Ignore
                },
                _ => r is Ignore,
            },
        },
{
    match action {
        Some(Action::SearchClose) => return SearchKey::Close,
        Some(Action::SearchConfirm) => return SearchKey::Confirm { advance: match_count > 0 },
        Some(Action::SearchNext) => return SearchKey::Next,
        Some(Action::SearchPrev) => return SearchKey::Prev,
        Some(Action::SearchToggleCase) => return SearchKey::ToggleCase,
        Some(Action::SearchToggleRegex) => return SearchKey::ToggleRegex,
        _ => {},
    }
    match key {
        LogicalKey::Named(NamedKey::Backspace) => SearchKey::PopChar,
        LogicalKey::Character(s) => if !modifiers.control_key() && !modifiers.alt_key() {
            SearchKey::Type(s.clone())
        } else {
            SearchKey::Ignore
        },
        _ => SearchKey::Ignore,
    }
}

/// A key that reaches the terminal has its text written as is exactly when
/// it has text and neither Ctrl nor Alt is held; a key with Ctrl or Alt is
/// always encoded with its modifiers instead. Keys that produce text and
/// are not claimed by a prompt, the overlay, a binding, the search box or
/// the shadow prompt do reach the terminal.
pub proof fn lemma_terminal_keeps_modifiers(c: KeyContext)
    ensures
        spec_route(c) matches KeyRoute::Terminal { send_text } ==> (send_text <==> (c.has_text && !c.ctrl
            && !c.alt)),
        (c.ctrl || c.alt) ==> !(spec_route(c) matches KeyRoute::Terminal { send_text: true }),
        (!c.prompt_open && !c.help_consumed && !c.plugin_binding && c.non_search_action is None
            && c.has_focused_pane && !c.search_active && !(c.shadow_mode_on && c.shadow_enabled
            && c.command_running && !c.alt_screen)) ==> spec_route(c) is Terminal,
{
}

proof fn lemma_next_prompt_after(prompts: Seq<usize>, top: int)
    ensures
        match next_prompt_after(prompts, top) {
            Some(t) => exists|i: int|
                0 <= i < prompts.len() && prompts[i] == t && t > top && forall|j: int|
                    0 <= j < i ==> prompts[j] <= top,
            None => forall|j: int| 0 <= j < prompts.len() ==> prompts[j] <= top,
        },
    decreases prompts.len(),
{
    if prompts.len() > 0 {
        let rest = prompts.drop_first();
        lemma_next_prompt_after(rest, top);
        if prompts[0] > top {
            assert(forall|j: int| 0 <= j < 0 ==> prompts[j] <= top);
        } else {
            match next_prompt_after(rest, top) {
                Some(t) => {
                    let i = choose|i: int|
                        0 <= i < rest.len() && rest[i] == t && t > top && forall|j: int| 0 <= j < i ==> rest[j] <= top;
                    assert(prompts[i + 1] == t);
                    assert forall|j: int| 0 <= j < i + 1 implies prompts[j] <= top by {
                        if j > 0 {
                            assert(prompts[j] == rest[j - 1]);
                        }
                    }
                },
                None => {
                    assert forall|j: int| 0 <= j < prompts.len() implies prompts[j] <= top by {
                        if j > 0 {
                            assert(prompts[j] == rest[j - 1]);
                        }
                    }
                },
            }
        }
    }
}

proof fn lemma_prev_prompt_before(prompts: Seq<usize>, top: int)
    ensures
        match prev_prompt_before(prompts, top) {
            Some(t) => exists|i: int|
                0 <= i < prompts.len() && prompts[i] == t && t < top && forall|j: int|
                    i < j < prompts.len() ==> prompts[j] >= top,
            None => forall|j: int| 0 <= j < prompts.len() ==> prompts[j] >= top,
        },
    decreases prompts.len(),
{
    if prompts.len() > 0 {
        let rest = prompts.drop_last();
        lemma_prev_prompt_before(rest, top);
        let n = prompts.len() - 1;
        if prompts.last() < top {
            assert(prompts[n] == prompts.last());
        } else {
            match prev_prompt_before(rest, top) {
                Some(t) => {
                    let i = choose|i: int|
                        0 <= i < rest.len() && rest[i] == t && t < top && forall|j: int| i < j < rest.len() ==> rest[j] >= top;
                    assert(prompts[i] == t);
                    assert forall|j: int| i < j < prompts.len() implies prompts[j] >= top by {
                        if j < n {
                            assert(prompts[j] == rest[j]);
                        }
                    }
                },
                None => {
                    assert forall|j: int| 0 <= j < prompts.len() implies prompts[j] >= top by {
                        if j < n {
                            assert(prompts[j] == rest[j]);
                        }
                    }
                },
            }
        }
    }
}

/// The top row of the view: `current_offset` rows above `visible_start`.
pub open spec fn view_top(visible_start: int, current_offset: int) -> int {
    if visible_start >= current_offset { visible_start - current_offset } else { 0 }
}

/// The offset that puts row `row` at the top of the view.
pub open spec fn offset_showing(visible_start: int, row: int) -> int {
    if visible_start >= row { visible_start - row } else { 0 }
}

/// Prompt rows in ascending order, as the terminal records them.
pub open spec fn ascending(prompts: Seq<usize>) -> bool {
    forall|i: int, j: int| 0 <= i < j < prompts.len() ==> prompts[i] <= prompts[j]
}

/// Jumping forward shows the first prompt row below the top of the view
/// (the least such row when the rows are in order), and finds none only
/// when every prompt is at or above the top. Jumping back shows the last
/// prompt row above the top (the greatest such row when the rows are in
/// order), and finds none only when no prompt is above the top.
pub proof fn lemma_prompt_jump_target(prompts: Seq<usize>, visible_start: int, current_offset: int)
    ensures
        ({
            let top = view_top(visible_start, current_offset);
            match spec_prompt_jump(prompts, visible_start, current_offset, true) {
                Some(o) => exists|i: int|
                    0 <= i < prompts.len() && prompts[i] > top && o == offset_showing(visible_start, prompts[i] as int)
                        && (forall|j: int| 0 <= j < i ==> prompts[j] <= top) && (ascending(prompts) ==> forall|j: int|
                        0 <= j < prompts.len() && prompts[j] > top ==> prompts[i] <= prompts[j]),
                None => forall|j: int| 0 <= j < prompts.len() ==> prompts[j] <= top,
            }
        }),
        ({
            let top = view_top(visible_start, current_offset);
            match spec_prompt_jump(prompts, visible_start, current_offset, false) {
                Some(o) => exists|i: int|
                    0 <= i < prompts.len() && prompts[i] < top && o == offset_showing(visible_start, prompts[i] as int)
                        && (forall|j: int| i < j < prompts.len() ==> prompts[j] >= top) && (ascending(prompts) ==> forall|j: int|
                        0 <= j < prompts.len() && prompts[j] < top ==> prompts[j] <= prompts[i]),
                None => forall|j: int| 0 <= j < prompts.len() ==> prompts[j] >= top,
            }
        }),
{
    let top = view_top(visible_start, current_offset);
    lemma_next_prompt_after(prompts, top);
    lemma_prev_prompt_before(prompts, top);
    match next_prompt_after(prompts, top) {
        Some(t) => {
            let i = choose|i: int|
                0 <= i < prompts.len() && prompts[i] == t && t > top && forall|j: int| 0 <= j < i ==> prompts[j] <= top;
            assert(ascending(prompts) ==> forall|j: int|
                0 <= j < prompts.len() && prompts[j] > top ==> prompts[i] <= prompts[j]) by {
                if ascending(prompts) {
                    assert forall|j: int| 0 <= j < prompts.len() && prompts[j] > top implies prompts[i] <= prompts[j] by {
                        if j < i {
                            assert(prompts[j] <= top);
                        } else if i < j {
                            assert(prompts[i] <= prompts[j]);
                        }
                    }
                }
            }
        },
        None => {},
    }
    match prev_prompt_before(prompts, top) {
        Some(t) => {
            let i = choose|i: int|
                0 <= i < prompts.len() && prompts[i] == t && t < top && forall|j: int| i < j < prompts.len() ==> prompts[j] >= top;
            assert(ascending(prompts) ==> forall|j: int|
                0 <= j < prompts.len() && prompts[j] < top ==> prompts[j] <= prompts[i]) by {
                if ascending(prompts) {
                    assert forall|j: int| 0 <= j < prompts.len() && prompts[j] < top implies prompts[j] <= prompts[i] by {
                        if j > i {
                            assert(prompts[j] >= top);
                        } else if j < i {
                            assert(prompts[j] <= prompts[i]);
                        }
                    }
                }
            }
        },
        None => {},
    }
}

} // verus!
