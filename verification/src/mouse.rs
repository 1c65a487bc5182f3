//! Decisions of the mouse button handlers: what a click does, given where
//! it lands and what is open.

use vstd::prelude::*;

use crate::context_menu::ContextMenuAction;
use crate::layout::PaneId;
use crate::tab_bar::{DragRelease, TabDragState};

verus! {

/// What the handlers know when the left button changes state.
#[derive(Clone, Copy, Debug, PartialEq, Eq, Structural)]
pub struct LeftClickContext {
    pub pressed: bool,
    pub menu_open: bool,
    /// The menu item under the cursor, when the menu is open.
    pub menu_item: Option<ContextMenuAction>,
    /// The window has no pixels yet.
    pub buffer_empty: bool,
    /// The tab being dragged, if any.
    pub drag: Option<TabDragState>,
    /// The cursor is over the tab bar, as the release of a drag checks it.
    pub release_in_tab_bar: bool,
    /// The cursor is over the tab bar, as a press checks it.
    pub press_in_tab_bar: bool,
    pub tab_count: usize,
    pub tab_under_cursor: Option<usize>,
    /// Cursor x in whole pixels.
    pub cursor_x: isize,
    pub pane_under_cursor: Option<PaneId>,
}

/// What a left button change does.
#[derive(Clone, Copy, Debug, PartialEq, Eq, Structural)]
pub enum LeftClick {
    /// A press while the context menu is open: run the item under the
    /// cursor, if any, and close the menu.
    MenuPress(Option<ContextMenuAction>),
    /// Ignored.
    Nothing,
    /// The release that ends a tab drag.
    EndDrag(DragRelease),
    /// A press on a tab, with several tabs: a drag may start.
    StartDrag(TabDragState),
    /// Focus the pane under the cursor and pass the click on to it.
    Pane(PaneId),
}

/// The decision, in the handler's order: the open menu takes presses (and
/// swallows releases); nothing happens before the window has pixels; a
/// release ends a drag; the tab bar takes clicks (a press may start a drag
/// when there are several tabs); otherwise the pane under the cursor.
pub open spec fn spec_left_click(c: LeftClickContext) -> LeftClick {
    if c.menu_open {
        if c.pressed {
            LeftClick::MenuPress(c.menu_item)
        } else {
            LeftClick::Nothing
        }
    } else if c.buffer_empty {
        LeftClick::Nothing
    } else if !c.pressed && c.drag is Some {
        LeftClick::EndDrag(c.drag->0.released(c.release_in_tab_bar))
    } else if c.press_in_tab_bar {
        if c.pressed && c.tab_count > 1 && c.tab_under_cursor is Some {
            LeftClick::StartDrag(
                TabDragState { tab_index: c.tab_under_cursor->0, start_x: c.cursor_x, committed: false, last_drop_idx: None },
            )
        } else {
            LeftClick::Nothing
        }
    } else {
        match c.pane_under_cursor {
            Some(p) => LeftClick::Pane(p),
            None => LeftClick::Nothing,
        }
    }
}

/// Decides what a left button change does.
pub fn left_click(c: &LeftClickContext) -> (r: LeftClick)
    ensures
        r == spec_left_click(*c),
{
    if c.menu_open {
        if c.pressed {
            return LeftClick::MenuPress(c.menu_item);
        }
        return LeftClick::Nothing;
    }
    if c.buffer_empty {
        return LeftClick::Nothing;
    }
    if !c.pressed {
        if let Some(drag) = c.drag {
            return LeftClick::EndDrag(drag.on_release(c.release_in_tab_bar));
        }
    }
    if c.press_in_tab_bar {
        if c.pressed && c.tab_count > 1 {
            if let Some(idx) = c.tab_under_cursor {
                return LeftClick::StartDrag(TabDragState::start(idx, c.cursor_x));
            }
        }
        return LeftClick::Nothing;
    }
    match c.pane_under_cursor {
        Some(p) => LeftClick::Pane(p),
        None => LeftClick::Nothing,
    }
}

/// What a right or middle button press does.
#[derive(Clone, Copy, Debug, PartialEq, Eq, Structural)]
pub enum OtherClick {
    Nothing,
    /// Close the open context menu, and nothing else.
    CloseMenu,
    /// Right button over the tab bar: open the tab menu.
    TabBarMenu,
    /// Right button elsewhere: open the pane menu.
    PaneMenu,
    /// Middle button: paste the clipboard.
    Paste,
}

/// Decides what a right (`right`) or middle button change does: releases
/// are ignored and a press closes an open menu; otherwise the right button
/// opens a context menu and the middle button pastes.
pub fn other_click(right: bool, pressed: bool, menu_open: bool, in_tab_bar: bool) -> (r: OtherClick)
    ensures
        r == if !pressed {
            OtherClick::Nothing
        } else if menu_open {
            OtherClick::CloseMenu
        } else if !right {
            OtherClick::Paste
        } else if in_tab_bar {
            OtherClick::TabBarMenu
        } else {
            OtherClick::PaneMenu
        },
{
    if !pressed {
        OtherClick::Nothing
    } else if menu_open {
        OtherClick::CloseMenu
    } else if !right {
        OtherClick::Paste
    } else if in_tab_bar {
        OtherClick::TabBarMenu
    } else {
        OtherClick::PaneMenu
    }
}

} // verus!
