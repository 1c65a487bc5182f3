//! The actions a keybinding can trigger, and which of them the key handler
//! treats specially.

use vstd::prelude::*;

use crate::layout::SplitDir;

verus! {

/// An action bound to a key.
#[derive(Clone, Copy, Debug, PartialEq, Eq, Structural)]
pub enum Action {
    /// The disabled action (`none` in the configuration): does nothing.
    Disabled,
    NewTab,
    CloseTab,
    NextTab,
    PrevTab,
    Tab1,
    Tab2,
    Tab3,
    Tab4,
    Tab5,
    Tab6,
    Tab7,
    Tab8,
    Tab9,
    SplitVertical,
    SplitHorizontal,
    FocusLeft,
    FocusRight,
    FocusUp,
    FocusDown,
    ResizeLeft,
    ResizeRight,
    ResizeUp,
    ResizeDown,
    ClosePane,
    Copy,
    Paste,
    ZoomIn,
    ZoomOut,
    ZoomReset,
    ScrollLineUp,
    ScrollLineDown,
    ScrollPageUp,
    ScrollPageDown,
    ScrollToTop,
    ScrollToBottom,
    ClearScrollback,
    Reset,
    CopyLastOutput,
    JumpToPrevPrompt,
    JumpToNextPrompt,
    SearchFind,
    SearchClose,
    SearchConfirm,
    SearchNext,
    SearchPrev,
    SearchToggleCase,
    SearchToggleRegex,
    ToggleHelp,
    ToggleTestPattern,
    ToggleShadowPrompt,
    ReloadConfig,
    CycleProfile,
    CycleProfileReverse,
    SwitchToProfile1,
    SwitchToProfile2,
    SwitchToProfile3,
    SwitchToProfile4,
    SwitchToProfile5,
    SwitchToProfile6,
    SwitchToProfile7,
    SwitchToProfile8,
    SwitchToProfile9,
}

/// Core actions reserved to the global keybindings, so that a profile
/// cannot trap the user.
pub open spec fn spec_is_global_only(action: Action) -> bool {
    matches!(
        action,
        Action::NewTab | Action::CloseTab | Action::NextTab | Action::PrevTab | Action::Tab1
            | Action::Tab2 | Action::Tab3 | Action::Tab4 | Action::Tab5 | Action::Tab6
            | Action::Tab7 | Action::Tab8 | Action::Tab9 | Action::ToggleHelp
            | Action::ReloadConfig | Action::CycleProfile | Action::CycleProfileReverse
            | Action::SwitchToProfile1 | Action::SwitchToProfile2 | Action::SwitchToProfile3
            | Action::SwitchToProfile4 | Action::SwitchToProfile5 | Action::SwitchToProfile6
            | Action::SwitchToProfile7 | Action::SwitchToProfile8 | Action::SwitchToProfile9
    )
}

/// Keybind resolution is profile-aware, but some core app actions are
/// reserved to the global `[keybinds]` section to avoid trapping the user
/// inside a profile.
pub fn is_global_only_action(action: Action) -> (r: bool)
    ensures
        r == spec_is_global_only(action),
{
    matches!(
        action,
        Action::NewTab | Action::CloseTab | Action::NextTab | Action::PrevTab | Action::Tab1
            | Action::Tab2 | Action::Tab3 | Action::Tab4 | Action::Tab5 | Action::Tab6
            | Action::Tab7 | Action::Tab8 | Action::Tab9 | Action::ToggleHelp
            | Action::ReloadConfig | Action::CycleProfile | Action::CycleProfileReverse
            | Action::SwitchToProfile1 | Action::SwitchToProfile2 | Action::SwitchToProfile3
            | Action::SwitchToProfile4 | Action::SwitchToProfile5 | Action::SwitchToProfile6
            | Action::SwitchToProfile7 | Action::SwitchToProfile8 | Action::SwitchToProfile9
    )
}

/// Tab, pane and application actions that run even while a pane is searching.
pub open spec fn spec_is_always_handled(action: Action) -> bool {
    matches!(
        action,
        Action::NewTab | Action::CloseTab | Action::NextTab | Action::PrevTab | Action::Tab1
            | Action::Tab2 | Action::Tab3 | Action::Tab4 | Action::Tab5 | Action::Tab6
            | Action::Tab7 | Action::Tab8 | Action::Tab9 | Action::SplitVertical
            | Action::SplitHorizontal | Action::FocusLeft | Action::FocusRight | Action::FocusUp
            | Action::FocusDown | Action::ResizeLeft | Action::ResizeRight | Action::ResizeUp
            | Action::ResizeDown | Action::ClosePane | Action::ToggleHelp
            | Action::CopyLastOutput | Action::JumpToPrevPrompt | Action::JumpToNextPrompt
            | Action::ToggleShadowPrompt | Action::CycleProfile | Action::CycleProfileReverse
            | Action::SwitchToProfile1 | Action::SwitchToProfile2 | Action::SwitchToProfile3
            | Action::SwitchToProfile4 | Action::SwitchToProfile5 | Action::SwitchToProfile6
            | Action::SwitchToProfile7 | Action::SwitchToProfile8 | Action::SwitchToProfile9
            | Action::ReloadConfig
    )
}

/// Whether the action runs even while a pane is searching.
pub fn is_always_handled_action(action: Action) -> (r: bool)
    ensures
        r == spec_is_always_handled(action),
{
    matches!(
        action,
        Action::NewTab | Action::CloseTab | Action::NextTab | Action::PrevTab | Action::Tab1
            | Action::Tab2 | Action::Tab3 | Action::Tab4 | Action::Tab5 | Action::Tab6
            | Action::Tab7 | Action::Tab8 | Action::Tab9 | Action::SplitVertical
            | Action::SplitHorizontal | Action::FocusLeft | Action::FocusRight | Action::FocusUp
            | Action::FocusDown | Action::ResizeLeft | Action::ResizeRight | Action::ResizeUp
            | Action::ResizeDown | Action::ClosePane | Action::ToggleHelp
            | Action::CopyLastOutput | Action::JumpToPrevPrompt | Action::JumpToNextPrompt
            | Action::ToggleShadowPrompt | Action::CycleProfile | Action::CycleProfileReverse
            | Action::SwitchToProfile1 | Action::SwitchToProfile2 | Action::SwitchToProfile3
            | Action::SwitchToProfile4 | Action::SwitchToProfile5 | Action::SwitchToProfile6
            | Action::SwitchToProfile7 | Action::SwitchToProfile8 | Action::SwitchToProfile9
            | Action::ReloadConfig
    )
}

/// What running an action asks of the application.
#[derive(Clone, Copy, Debug, PartialEq, Eq, Structural)]
pub enum ActionPlan {
    /// Nothing: the disabled action, and the search-box actions, which only
    /// the search box handles.
    Nothing,
    NewTab,
    CloseTab,
    NextTab,
    PrevTab,
    /// Switch to the tab at this index.
    GotoTab(usize),
    Split(SplitDir),
    /// Move focus along `dir`, toward larger coordinates when `positive`.
    FocusMove { dir: SplitDir, positive: bool },
    /// Resize the focused pane along `dir`, growing the split's first part when `grow`.
    Resize { dir: SplitDir, grow: bool },
    ClosePane,
    ToggleHelp,
    /// Change the focused pane's zoom by this many steps.
    ZoomBy(i32),
    ZoomReset,
    Copy,
    Paste,
    /// Scroll the focused pane by this many rows, upward when positive.
    Scroll(i32),
    ScrollToTop,
    ScrollToBottom,
    ClearScrollback,
    Reset,
    OpenSearch,
    ReloadConfig,
    CopyLastOutput,
    JumpToPrompt { forward: bool },
    ToggleShadowPrompt,
    CycleProfile { reverse: bool },
    /// Switch the focused pane to the profile with this number (from 1).
    SwitchToProfile(usize),
}

/// What each action asks of the application.
pub open spec fn spec_plan(action: Action) -> ActionPlan {
    match action {
        Action::Disabled => ActionPlan::Nothing,
        Action::NewTab => ActionPlan::NewTab,
        Action::CloseTab => ActionPlan::CloseTab,
        Action::NextTab => ActionPlan::NextTab,
        Action::PrevTab => ActionPlan::PrevTab,
        Action::Tab1 => ActionPlan::GotoTab(0),
        Action::Tab2 => ActionPlan::GotoTab(1),
        Action::Tab3 => ActionPlan::GotoTab(2),
        Action::Tab4 => ActionPlan::GotoTab(3),
        Action::Tab5 => ActionPlan::GotoTab(4),
        Action::Tab6 => ActionPlan::GotoTab(5),
        Action::Tab7 => ActionPlan::GotoTab(6),
        Action::Tab8 => ActionPlan::GotoTab(7),
        Action::Tab9 => ActionPlan::GotoTab(8),
        Action::SplitVertical => ActionPlan::Split(SplitDir::Vertical),
        Action::SplitHorizontal => ActionPlan::Split(SplitDir::Horizontal),
        Action::FocusLeft => ActionPlan::FocusMove { dir: SplitDir::Vertical, positive: false },
        Action::FocusRight => ActionPlan::FocusMove { dir: SplitDir::Vertical, positive: true },
        Action::FocusUp => ActionPlan::FocusMove { dir: SplitDir::Horizontal, positive: false },
        Action::FocusDown => ActionPlan::FocusMove { dir: SplitDir::Horizontal, positive: true },
        Action::ResizeLeft => ActionPlan::Resize { dir: SplitDir::Vertical, grow: false },
        Action::ResizeRight => ActionPlan::Resize { dir: SplitDir::Vertical, grow: true },
        Action::ResizeUp => ActionPlan::Resize { dir: SplitDir::Horizontal, grow: false },
        Action::ResizeDown => ActionPlan::Resize { dir: SplitDir::Horizontal, grow: true },
        Action::ClosePane => ActionPlan::ClosePane,
        Action::ToggleHelp => ActionPlan::ToggleHelp,
        Action::ZoomIn => ActionPlan::ZoomBy(1i32),
        Action::ZoomOut => ActionPlan::ZoomBy(-1i32),
        Action::ZoomReset => ActionPlan::ZoomReset,
        Action::Copy => ActionPlan::Copy,
        Action::Paste => ActionPlan::Paste,
        Action::ScrollPageUp => ActionPlan::Scroll(24i32),
        Action::ScrollPageDown => ActionPlan::Scroll(-24i32),
        Action::ScrollLineUp => ActionPlan::Scroll(1i32),
        Action::ScrollLineDown => ActionPlan::Scroll(-1i32),
        Action::ScrollToTop => ActionPlan::ScrollToTop,
        Action::ScrollToBottom => ActionPlan::ScrollToBottom,
        Action::ClearScrollback => ActionPlan::ClearScrollback,
        Action::Reset => ActionPlan::Reset,
        Action::SearchFind => ActionPlan::OpenSearch,
        Action::SearchClose | Action::SearchNext | Action::SearchPrev | Action::SearchToggleCase
        | Action::SearchToggleRegex | Action::SearchConfirm => ActionPlan::Nothing,
        Action::ToggleTestPattern => ActionPlan::Nothing,
        Action::ReloadConfig => ActionPlan::ReloadConfig,
        Action::CopyLastOutput => ActionPlan::CopyLastOutput,
        Action::JumpToPrevPrompt => ActionPlan::JumpToPrompt { forward: false },
        Action::JumpToNextPrompt => ActionPlan::JumpToPrompt { forward: true },
        Action::ToggleShadowPrompt => ActionPlan::ToggleShadowPrompt,
        Action::CycleProfile => ActionPlan::CycleProfile { reverse: false },
        Action::CycleProfileReverse => ActionPlan::CycleProfile { reverse: true },
        Action::SwitchToProfile1 => ActionPlan::SwitchToProfile(1),
        Action::SwitchToProfile2 => ActionPlan::SwitchToProfile(2),
        Action::SwitchToProfile3 => ActionPlan::SwitchToProfile(3),
        Action::SwitchToProfile4 => ActionPlan::SwitchToProfile(4),
        Action::SwitchToProfile5 => ActionPlan::SwitchToProfile(5),
        Action::SwitchToProfile6 => ActionPlan::SwitchToProfile(6),
        Action::SwitchToProfile7 => ActionPlan::SwitchToProfile(7),
        Action::SwitchToProfile8 => ActionPlan::SwitchToProfile(8),
        Action::SwitchToProfile9 => ActionPlan::SwitchToProfile(9),
    }
}

/// Decides what running `action` asks of the application.
pub fn plan_action(action: Action) -> (r: ActionPlan)
    ensures
        r == spec_plan(action),
{
    match action {
        Action::Disabled => ActionPlan::Nothing,
        Action::NewTab => ActionPlan::NewTab,
        Action::CloseTab => ActionPlan::CloseTab,
        Action::NextTab => ActionPlan::NextTab,
        Action::PrevTab => ActionPlan::PrevTab,
        Action::Tab1 => ActionPlan::GotoTab(0),
        Action::Tab2 => ActionPlan::GotoTab(1),
        Action::Tab3 => ActionPlan::GotoTab(2),
        Action::Tab4 => ActionPlan::GotoTab(3),
        Action::Tab5 => ActionPlan::GotoTab(4),
        Action::Tab6 => ActionPlan::GotoTab(5),
        Action::Tab7 => ActionPlan::GotoTab(6),
        Action::Tab8 => ActionPlan::GotoTab(7),
        Action::Tab9 => ActionPlan::GotoTab(8),
        Action::SplitVertical => ActionPlan::Split(SplitDir::Vertical),
        Action::SplitHorizontal => ActionPlan::Split(SplitDir::Horizontal),
        Action::FocusLeft => ActionPlan::FocusMove { dir: SplitDir::Vertical, positive: false },
        Action::FocusRight => ActionPlan::FocusMove { dir: SplitDir::Vertical, positive: true },
        Action::FocusUp => ActionPlan::FocusMove { dir: SplitDir::Horizontal, positive: false },
        Action::FocusDown => ActionPlan::FocusMove { dir: SplitDir::Horizontal, positive: true },
        Action::ResizeLeft => ActionPlan::Resize { dir: SplitDir::Vertical, grow: false },
        Action::ResizeRight => ActionPlan::Resize { dir: SplitDir::Vertical, grow: true },
        Action::ResizeUp => ActionPlan::Resize { dir: SplitDir::Horizontal, grow: false },
        Action::ResizeDown => ActionPlan::Resize { dir: SplitDir::Horizontal, grow: true },
        Action::ClosePane => ActionPlan::ClosePane,
        Action::ToggleHelp => ActionPlan::ToggleHelp,
        Action::ZoomIn => ActionPlan::ZoomBy(1i32),
        Action::ZoomOut => ActionPlan::ZoomBy(-1i32),
        Action::ZoomReset => ActionPlan::ZoomReset,
        Action::Copy => ActionPlan::Copy,
        Action::Paste => ActionPlan::Paste,
        Action::ScrollPageUp => ActionPlan::Scroll(24i32),
        Action::ScrollPageDown => ActionPlan::Scroll(-24i32),
        Action::ScrollLineUp => ActionPlan::Scroll(1i32),
        Action::ScrollLineDown => ActionPlan::Scroll(-1i32),
        Action::ScrollToTop => ActionPlan::ScrollToTop,
        Action::ScrollToBottom => ActionPlan::ScrollToBottom,
        Action::ClearScrollback => ActionPlan::ClearScrollback,
        Action::Reset => ActionPlan::Reset,
        Action::SearchFind => ActionPlan::OpenSearch,
        Action::SearchClose | Action::SearchNext | Action::SearchPrev | Action::SearchToggleCase
        | Action::SearchToggleRegex | Action::SearchConfirm => ActionPlan::Nothing,
        Action::ToggleTestPattern => ActionPlan::Nothing,
        Action::ReloadConfig => ActionPlan::ReloadConfig,
        Action::CopyLastOutput => ActionPlan::CopyLastOutput,
        Action::JumpToPrevPrompt => ActionPlan::JumpToPrompt { forward: false },
        Action::JumpToNextPrompt => ActionPlan::JumpToPrompt { forward: true },
        Action::ToggleShadowPrompt => ActionPlan::ToggleShadowPrompt,
        Action::CycleProfile => ActionPlan::CycleProfile { reverse: false },
        Action::CycleProfileReverse => ActionPlan::CycleProfile { reverse: true },
        Action::SwitchToProfile1 => ActionPlan::SwitchToProfile(1),
        Action::SwitchToProfile2 => ActionPlan::SwitchToProfile(2),
        Action::SwitchToProfile3 => ActionPlan::SwitchToProfile(3),
        Action::SwitchToProfile4 => ActionPlan::SwitchToProfile(4),
        Action::SwitchToProfile5 => ActionPlan::SwitchToProfile(5),
        Action::SwitchToProfile6 => ActionPlan::SwitchToProfile(6),
        Action::SwitchToProfile7 => ActionPlan::SwitchToProfile(7),
        Action::SwitchToProfile8 => ActionPlan::SwitchToProfile(8),
        Action::SwitchToProfile9 => ActionPlan::SwitchToProfile(9),
    }
}

/// The binding a key resolves to: a binding of the global keybindings
/// whose action is reserved to them wins; otherwise the binding found with
/// the focused pane's profile taken into account.
pub fn prefer_global_binding<T>(global: Option<T>, global_action: Option<Action>, with_profile: Option<T>) -> (r: Option<T>)
    ensures
        r == if global_action matches Some(a) && spec_is_global_only(a) {
            global
        } else {
            with_profile
        },
{
    match global_action {
        Some(a) => if is_global_only_action(a) {
            global
        } else {
            with_profile
        },
        None => with_profile,
    }
}

/// Index of the tab after `active` among `count` tabs, wrapping around to
/// the first.
pub fn next_tab_index(active: usize, count: usize) -> (r: usize)
    requires
        active < count,
    ensures
        r == (active + 1) % (count as int),
{
    proof {
        if active + 1 < count {
            vstd::arithmetic::div_mod::lemma_small_mod((active + 1) as nat, count as nat);
        } else {
            vstd::arithmetic::div_mod::lemma_mod_self_0(count as int);
        }
    }
    if active + 1 < count {
        active + 1
    } else {
        0
    }
}

/// Index of the tab before `active` among `count` tabs, wrapping around to
/// the last.
pub fn prev_tab_index(active: usize, count: usize) -> (r: usize)
    requires
        active < count,
    ensures
        r == (active + count - 1) % (count as int),
{
    proof {
        if active > 0 {
            vstd::arithmetic::div_mod::lemma_mod_add_multiples_vanish((active - 1) as int, count as int);
            vstd::arithmetic::div_mod::lemma_small_mod((active - 1) as nat, count as nat);
        } else {
            vstd::arithmetic::div_mod::lemma_small_mod((count - 1) as nat, count as nat);
        }
    }
    if active > 0 {
        active - 1
    } else {
        count - 1
    }
}

/// Actions that only the search box handles.
pub open spec fn spec_is_search_mode_only(action: Action) -> bool {
    matches!(
        action,
        Action::SearchClose | Action::SearchConfirm | Action::SearchNext | Action::SearchPrev
            | Action::SearchToggleCase | Action::SearchToggleRegex
    )
}

/// Whether only the search box handles the action.
pub fn is_search_mode_only_action(action: Action) -> (r: bool)
    ensures
        r == spec_is_search_mode_only(action),
{
    matches!(
        action,
        Action::SearchClose | Action::SearchConfirm | Action::SearchNext | Action::SearchPrev
            | Action::SearchToggleCase | Action::SearchToggleRegex
    )
}

/// Distinct actions that do something ask for distinct things: no two
/// bindings that act at all can be told apart only by their names.
pub proof fn lemma_plans_distinct(a: Action, b: Action)
    ensures
        a != b && spec_plan(a) != ActionPlan::Nothing ==> spec_plan(a) != spec_plan(b),
{
}

} // verus!
