//! Plugin prompts (text input, confirmation, pick list) and their key handling.

use vstd::prelude::*;

use crate::keys::{KeyEvent, LogicalKey, Modifiers, NamedKey};
use crate::text::{chars_of, is_control, spec_is_control, string_pop, string_push};

verus! {

#[derive(Debug, Clone, Copy, PartialEq, Eq, Structural)]
pub enum PromptKind {
    Input,
    Confirm,
    Pick,
}

#[derive(Debug, Clone)]
pub struct PromptState {
    pub id: String,
    pub title: String,
    pub message: Option<String>,
    pub kind: PromptKind,
    pub input: String,
    pub default_value: Option<String>,
    pub items: Vec<String>,
    pub selected: usize,
    pub ok_label: String,
    pub cancel_label: String,
}

pub struct PromptResolution {
    pub ok: bool,
    pub value: Option<String>,
    pub index: Option<usize>,
    pub reason: Option<String>,
}

pub struct PromptUpdate {
    pub resolution: Option<PromptResolution>,
    pub needs_redraw: bool,
}

impl Default for PromptUpdate {
    fn default() -> (r: PromptUpdate)
        ensures
            r.resolution is None,
            !r.needs_redraw,
    {
        PromptUpdate { resolution: None, needs_redraw: false }
    }
}

impl PromptResolution {
    pub fn submit(ok: bool, value: Option<String>, index: Option<usize>) -> (r: Self)
        ensures
            r.ok == ok,
            r.value == value,
            r.index == index,
            r.reason is None,
    {
        Self { ok, value, index, reason: None }
    }

    pub fn cancel() -> (r: Self)
        ensures
            !r.ok,
            r.value is None,
            r.index is None,
            r.reason is None,
    {
        Self { ok: false, value: None, index: None, reason: None }
    }
}

/// The last valid position of a pick list of `len` items (0 when empty).
pub open spec fn last_index(len: int) -> int {
    if len > 0 {
        len - 1
    } else {
        0
    }
}

/// `s` with its control characters removed.
pub open spec fn without_controls(s: Seq<char>) -> Seq<char> {
    s.filter(|c: char| !spec_is_control(c))
}

/// `p` is a fresh text-input prompt: empty input, OK and Cancel buttons.
pub open spec fn is_input_prompt(
    p: PromptState,
    id: String,
    title: String,
    message: Option<String>,
    default_value: Option<String>,
) -> bool {
    &&& p.id == id
    &&& p.title == title
    &&& p.message == message
    &&& p.kind == PromptKind::Input
    &&& p.input@ == Seq::<char>::empty()
    &&& p.default_value == default_value
    &&& p.items@ == Seq::<String>::empty()
    &&& p.selected == 0
    &&& p.ok_label@ == "OK"@
    &&& p.cancel_label@ == "Cancel"@
}

/// `p` is a fresh confirmation with the given button labels (OK and Cancel
/// when none is given), its first button selected.
pub open spec fn is_confirm_prompt(
    p: PromptState,
    id: String,
    title: String,
    message: Option<String>,
    ok_label: Option<String>,
    cancel_label: Option<String>,
) -> bool {
    &&& p.id == id
    &&& p.title == title
    &&& p.message == message
    &&& p.kind == PromptKind::Confirm
    &&& p.input@ == Seq::<char>::empty()
    &&& p.default_value is None
    &&& p.items@ == Seq::<String>::empty()
    &&& p.selected == 0
    &&& p.ok_label@ == match ok_label {
        Some(l) => l@,
        None => "OK"@,
    }
    &&& p.cancel_label@ == match cancel_label {
        Some(l) => l@,
        None => "Cancel"@,
    }
}

/// `p` is a fresh pick list over `items`, with the requested item (the
/// first by default, the last when out of range) selected.
pub open spec fn is_pick_prompt(
    p: PromptState,
    id: String,
    title: String,
    message: Option<String>,
    items: Seq<String>,
    selected: Option<usize>,
) -> bool {
    let want = match selected {
        Some(s) => s as int,
        None => 0,
    };
    &&& p.id == id
    &&& p.title == title
    &&& p.message == message
    &&& p.kind == PromptKind::Pick
    &&& p.input@ == Seq::<char>::empty()
    &&& p.default_value is None
    &&& p.items@ == items
    &&& p.selected == if want <= last_index(items.len() as int) {
        want
    } else {
        last_index(items.len() as int)
    }
    &&& p.ok_label@ == "Select"@
    &&& p.cancel_label@ == "Cancel"@
}

impl PromptState {
    pub fn input(
        id: String,
        title: String,
        message: Option<String>,
        default_value: Option<String>,
    ) -> (r: Self)
        ensures
            is_input_prompt(r, id, title, message, default_value),
    {
        Self {
            id,
            title,
            message,
            kind: PromptKind::Input,
            input: String::new(),
            default_value,
            items: Vec::new(),
            selected: 0,
            ok_label: "OK".to_owned(),
            cancel_label: "Cancel".to_owned(),
        }
    }

    pub fn confirm(
        id: String,
        title: String,
        message: Option<String>,
        ok_label: Option<String>,
        cancel_label: Option<String>,
    ) -> (r: Self)
        ensures
            is_confirm_prompt(r, id, title, message, ok_label, cancel_label),
    {
        let ok_label = match ok_label {
            Some(l) => l,
            None => "OK".to_owned(),
        };
        let cancel_label = match cancel_label {
            Some(l) => l,
            None => "Cancel".to_owned(),
        };
        Self {
            id,
            title,
            message,
            kind: PromptKind::Confirm,
            input: String::new(),
            default_value: None,
            items: Vec::new(),
            selected: 0,
            ok_label,
            cancel_label,
        }
    }

    pub fn pick(
        id: String,
        title: String,
        message: Option<String>,
        items: Vec<String>,
        selected: Option<usize>,
    ) -> (r: Self)
        ensures
            is_pick_prompt(r, id, title, message, items@, selected),
    {
        let want = match selected {
            Some(s) => s,
            None => 0,
        };
        let last = if items.len() > 0 { items.len() - 1 } else { 0 };
        let selected = if want <= last { want } else { last };
        Self {
            id,
            title,
            message,
            kind: PromptKind::Pick,
            input: String::new(),
            default_value: None,
            items,
            selected,
            ok_label: "Select".to_owned(),
            cancel_label: "Cancel".to_owned(),
        }
    }

    pub fn kind_label(&self) -> (r: &'static str)
        ensures
            r@ == match self.kind {
                PromptKind::Input => "input"@,
                PromptKind::Confirm => "confirm"@,
                PromptKind::Pick => "pick"@,
            },
    {
        match self.kind {
            PromptKind::Input => "input",
            PromptKind::Confirm => "confirm",
            PromptKind::Pick => "pick",
        }
    }
}

/// The event's logical key is the named key `k`.
pub open spec fn is_named(event: KeyEvent, k: NamedKey) -> bool {
    event.logical_key == LogicalKey::Named(k)
}

/// A prompt update asking for a redraw and resolving nothing.
pub open spec fn redraw_only(u: PromptUpdate) -> bool {
    u.resolution is None && u.needs_redraw
}

/// A prompt update that does nothing.
pub open spec fn no_update(u: PromptUpdate) -> bool {
    u.resolution is None && !u.needs_redraw
}

/// A prompt update that cancels the prompt.
pub open spec fn cancels(u: PromptUpdate) -> bool {
    &&& !u.needs_redraw
    &&& u.resolution matches Some(r)
    &&& !r.ok && r.value is None && r.index is None && r.reason is None
}

/// The fields other than the ones a key handler may change are unchanged.
pub open spec fn same_prompt_except_input_selected(a: PromptState, b: PromptState) -> bool {
    &&& a.id == b.id
    &&& a.title == b.title
    &&& a.message == b.message
    &&& a.kind == b.kind
    &&& a.default_value == b.default_value
    &&& a.items == b.items
    &&& a.ok_label == b.ok_label
    &&& a.cancel_label == b.cancel_label
}

/// One key handled by a text-input prompt, from `o` to `f` with update `u`:
/// Escape cancels; Enter submits the input, or the default when the input
/// is empty; Backspace drops the last character; Tab fills an empty input
/// with the default; typed text without Ctrl or Alt is appended without its
/// control characters; anything else changes nothing.
pub open spec fn input_step(o: PromptState, event: KeyEvent, modifiers: Modifiers, f: PromptState, u: PromptUpdate) -> bool {
    &&& same_prompt_except_input_selected(o, f)
    &&& f.selected == o.selected
    &&& match event.logical_key {
        LogicalKey::Named(NamedKey::Escape) => cancels(u) && f.input@ == o.input@,
        LogicalKey::Named(NamedKey::Enter) => {
            &&& !u.needs_redraw
            &&& f.input@ == o.input@
            &&& u.resolution matches Some(r)
            &&& r.ok && r.index is None && r.reason is None
            &&& r.value matches Some(v)
            &&& v@ == if o.input@.len() == 0 {
                match o.default_value {
                    Some(d) => d@,
                    None => Seq::<char>::empty(),
                }
            } else {
                o.input@
            }
        },
        LogicalKey::Named(NamedKey::Backspace) => redraw_only(u) && f.input@ == (if o.input@.len() == 0 {
            o.input@
        } else {
            o.input@.drop_last()
        }),
        LogicalKey::Named(NamedKey::Tab) => if o.default_value is Some && o.input@.len() == 0 {
            redraw_only(u) && f.input@ == o.default_value->0@
        } else {
            no_update(u) && f.input@ == o.input@
        },
        LogicalKey::Character(s) => if !modifiers.control && !modifiers.alt {
            redraw_only(u) && f.input@ == o.input@ + without_controls(s@)
        } else {
            no_update(u) && f.input@ == o.input@
        },
        _ => no_update(u) && f.input@ == o.input@,
    }
}

/// Cancel (0) and OK (1) swap places.
pub open spec fn toggled(selected: usize) -> usize {
    if selected == 0 {
        1
    } else {
        0
    }
}

/// One key handled by a confirmation prompt, from `o` to `f` with update `u`:
/// Escape cancels; Enter answers, OK when the first button is selected; the
/// left and right arrows and Tab switch the selected button; anything else
/// changes nothing.
pub open spec fn confirm_step(o: PromptState, event: KeyEvent, f: PromptState, u: PromptUpdate) -> bool {
    &&& same_prompt_except_input_selected(o, f)
    &&& f.input == o.input
    &&& match event.logical_key {
        LogicalKey::Named(NamedKey::Escape) => cancels(u) && f.selected == o.selected,
        LogicalKey::Named(NamedKey::Enter) => {
            &&& !u.needs_redraw
            &&& f.selected == o.selected
            &&& u.resolution matches Some(r)
            &&& r.ok == (o.selected == 0)
            &&& r.value is None && r.index is None && r.reason is None
        },
        LogicalKey::Named(NamedKey::ArrowLeft) | LogicalKey::Named(NamedKey::ArrowRight) | LogicalKey::Named(
            NamedKey::Tab,
        ) => redraw_only(u) && f.selected == toggled(o.selected),
        _ => no_update(u) && f.selected == o.selected,
    }
}

/// One key handled by a pick-list prompt, from `o` to `f` with update `u`:
/// Escape cancels; Enter picks the selected item; the arrows move the
/// selection by one within the list; PageUp and PageDown move it by five,
/// stopping at the first and last items; anything else changes nothing.
pub open spec fn pick_step(o: PromptState, event: KeyEvent, f: PromptState, u: PromptUpdate) -> bool {
    let last = last_index(o.items@.len() as int);
    &&& same_prompt_except_input_selected(o, f)
    &&& f.input == o.input
    &&& match event.logical_key {
        LogicalKey::Named(NamedKey::Escape) => cancels(u) && f.selected == o.selected,
        LogicalKey::Named(NamedKey::Enter) => {
            &&& !u.needs_redraw
            &&& f.selected == o.selected
            &&& u.resolution matches Some(r)
            &&& r.ok && r.index == Some(o.selected) && r.reason is None
            &&& r.value == if o.selected < o.items@.len() {
                Some(o.items@[o.selected as int])
            } else {
                None
            }
        },
        LogicalKey::Named(NamedKey::ArrowUp) => if o.selected > 0 {
            redraw_only(u) && f.selected == o.selected - 1
        } else {
            no_update(u) && f.selected == o.selected
        },
        LogicalKey::Named(NamedKey::ArrowDown) => if o.selected + 1 < o.items@.len() {
            redraw_only(u) && f.selected == o.selected + 1
        } else {
            no_update(u) && f.selected == o.selected
        },
        LogicalKey::Named(NamedKey::PageUp) => redraw_only(u) && f.selected == (if o.selected >= 5 {
            o.selected - 5
        } else {
            0
        }),
        LogicalKey::Named(NamedKey::PageDown) => redraw_only(u) && f.selected == (if o.selected + 5 <= last {
            o.selected + 5
        } else {
            last
        }),
        _ => no_update(u) && f.selected == o.selected,
    }
}

fn redraw() -> (u: PromptUpdate)
    ensures
        redraw_only(u),
{
    PromptUpdate { resolution: None, needs_redraw: true }
}

fn cancelled() -> (u: PromptUpdate)
    ensures
        cancels(u),
{
    PromptUpdate { resolution: Some(PromptResolution::cancel()), needs_redraw: false }
}

fn named_key(event: &KeyEvent) -> (r: Option<NamedKey>)
    ensures
        match r {
            Some(k) => event.logical_key == LogicalKey::Named(k),
            None => !(event.logical_key is Named),
        },
{
    match &event.logical_key {
        LogicalKey::Named(k) => Some(*k),
        _ => None,
    }
}

/// Handles a key pressed in a text-input prompt.
///
/// Escape cancels; Enter submits the typed text, or the default value when
/// nothing was typed; Backspace drops the last character; Tab fills in the
/// default when nothing was typed; a character key without Ctrl or Alt
/// appends its non-control characters.
pub fn handle_input_prompt(prompt: &mut PromptState, event: &KeyEvent, modifiers: Modifiers) -> (u: PromptUpdate)
    ensures
        input_step(*old(prompt), *event, modifiers, *final(prompt), u),
{
    match &event.logical_key {
        LogicalKey::Named(NamedKey::Escape) => {
            return cancelled();
        },
        LogicalKey::Named(NamedKey::Enter) => {
            let value = if prompt.input.as_str().is_empty() {
                match &prompt.default_value {
                    Some(d) => d.clone(),
                    None => String::new(),
                }
            } else {
                prompt.input.clone()
            };
            return PromptUpdate {
                resolution: Some(PromptResolution::submit(true, Some(value), None)),
                needs_redraw: false,
            };
        },
        LogicalKey::Named(NamedKey::Backspace) => {
            let _ = string_pop(&mut prompt.input);
            return redraw();
        },
        LogicalKey::Named(NamedKey::Tab) => {
            if let Some(default) = &prompt.default_value {
                if prompt.input.as_str().is_empty() {
                    prompt.input = default.clone();
                    return redraw();
                }
            }
        },
        LogicalKey::Character(s) => {
            if !modifiers.control_key() && !modifiers.alt_key() {
                let chars = chars_of(s.as_str());
                let ghost start = prompt.input@;
                let ghost pred = |c: char| !spec_is_control(c);
                let mut i: usize = 0;
                while i < chars.len()
                    invariant
                        i <= chars@.len(),
                        chars@ == s@,
                        pred == (|c: char| !spec_is_control(c)),
                        prompt.input@ == start + chars@.take(i as int).filter(pred),
                        same_prompt_except_input_selected(*old(prompt), *prompt),
                        prompt.selected == old(prompt).selected,
                    decreases chars@.len() - i,
                {
                    proof {
                        reveal_with_fuel(Seq::filter, 1);
                        assert(chars@.take(i + 1).drop_last() =~= chars@.take(i as int));
                    }
                    let ch = chars[i];
                    if !is_control(ch) {
                        string_push(&mut prompt.input, ch);
                    }
                    i = i + 1;
                }
                proof {
                    assert(chars@.take(chars@.len() as int) =~= chars@);
                }
                return redraw();
            }
        },
        _ => {},
    }
    PromptUpdate::default()
}

/// Handles a key pressed in a confirmation prompt.
///
/// Escape cancels; Enter answers yes when the first button (OK) is selected;
/// the arrow keys and Tab move the selection to the other button.
pub fn handle_confirm_prompt(prompt: &mut PromptState, event: &KeyEvent) -> (u: PromptUpdate)
    ensures
        confirm_step(*old(prompt), *event, *final(prompt), u),
{
    match named_key(event) {
        Some(NamedKey::Escape) => {
            return cancelled();
        },
        Some(NamedKey::Enter) => {
            let ok = prompt.selected == 0;
            return PromptUpdate {
                resolution: Some(PromptResolution::submit(ok, None, None)),
                needs_redraw: false,
            };
        },
        Some(NamedKey::ArrowLeft) | Some(NamedKey::ArrowRight) => {
            prompt.selected = if prompt.selected == 0 { 1 } else { 0 };
            return redraw();
        },
        Some(NamedKey::Tab) => {
            prompt.selected = if prompt.selected == 0 { 1 } else { 0 };
            return redraw();
        },
        _ => {},
    }
    PromptUpdate::default()
}

/// Handles a key pressed in a pick-list prompt.
///
/// Escape cancels; Enter picks the selected item; the arrow keys move the
/// selection by one within the list; PageUp and PageDown move it by five,
/// stopping at the first and last items.
pub fn handle_pick_prompt(prompt: &mut PromptState, event: &KeyEvent) -> (u: PromptUpdate)
    ensures
        pick_step(*old(prompt), *event, *final(prompt), u),
{
    match named_key(event) {
        Some(NamedKey::Escape) => {
            return cancelled();
        },
        Some(NamedKey::Enter) => {
            let value = if prompt.selected < prompt.items.len() {
                Some(prompt.items[prompt.selected].clone())
            } else {
                None
            };
            return PromptUpdate {
                resolution: Some(PromptResolution::submit(true, value, Some(prompt.selected))),
                needs_redraw: false,
            };
        },
        Some(NamedKey::ArrowUp) => {
            if prompt.selected > 0 {
                prompt.selected = prompt.selected - 1;
                return redraw();
            }
        },
        Some(NamedKey::ArrowDown) => {
            if prompt.selected < prompt.items.len() && prompt.items.len() - prompt.selected > 1 {
                prompt.selected = prompt.selected + 1;
                return redraw();
            }
        },
        Some(NamedKey::PageUp) => {
            prompt.selected = if prompt.selected >= 5 { prompt.selected - 5 } else { 0 };
            return redraw();
        },
        Some(NamedKey::PageDown) => {
            let last = if prompt.items.len() > 0 { prompt.items.len() - 1 } else { 0 };
            prompt.selected = if prompt.selected <= last && last - prompt.selected >= 5 {
                prompt.selected + 5
            } else {
                last
            };
            return redraw();
        },
        _ => {},
    }
    PromptUpdate::default()
}

/// Handles a key event for the open prompt; key releases are ignored.
pub fn handle_prompt_input(prompt: &mut PromptState, event: &KeyEvent, modifiers: Modifiers) -> (u: PromptUpdate)
    ensures
        !event.pressed ==> no_update(u) && *final(prompt) == *old(prompt),
        event.pressed ==> match old(prompt).kind {
            PromptKind::Input => input_step(*old(prompt), *event, modifiers, *final(prompt), u),
            PromptKind::Confirm => confirm_step(*old(prompt), *event, *final(prompt), u),
            PromptKind::Pick => pick_step(*old(prompt), *event, *final(prompt), u),
        },
{
    if !event.pressed {
        return PromptUpdate::default();
    }
    match prompt.kind {
        PromptKind::Input => handle_input_prompt(prompt, event, modifiers),
        PromptKind::Confirm => handle_confirm_prompt(prompt, event),
        PromptKind::Pick => handle_pick_prompt(prompt, event),
    }
}

/// Switching the selected button of a confirmation twice returns to the
/// button first selected.
pub proof fn lemma_confirm_switch_twice(
    p: PromptState,
    e1: KeyEvent,
    q: PromptState,
    u1: PromptUpdate,
    e2: KeyEvent,
    r: PromptState,
    u2: PromptUpdate,
)
    requires
        p.selected <= 1,
        confirm_step(p, e1, q, u1),
        confirm_step(q, e2, r, u2),
        u1.needs_redraw,
        u2.needs_redraw,
    ensures
        r.selected == p.selected,
        r.ok_label == p.ok_label,
        r.cancel_label == p.cancel_label,
{
}

/// A pick list's selection stays on an item (or at 0 for an empty list):
/// `pick` starts it there and every key keeps it there.
pub proof fn lemma_pick_selection_in_range(o: PromptState, event: KeyEvent, f: PromptState, u: PromptUpdate)
    requires
        o.selected <= last_index(o.items@.len() as int),
        pick_step(o, event, f, u),
    ensures
        f.items == o.items,
        f.selected <= last_index(f.items@.len() as int),
        f.items@.len() > 0 ==> f.selected < f.items@.len(),
{
}

} // verus!
