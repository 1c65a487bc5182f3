//! Context menus: their items, placement on screen and hit testing.

use vstd::prelude::*;

use crate::actions::{spec_plan, Action, ActionPlan};
use crate::text::utf8_len;

verus! {

/// Actions that can be triggered from the context menu.
#[derive(Clone, Copy, Debug, PartialEq, Eq, Structural)]
pub enum ContextMenuAction {
    Copy,
    Paste,
    SelectAll,
    Search,
    OpenUrl,
    ClearScrollback,
    Reset,
    ScrollToTop,
    ScrollToBottom,
    CopyLastOutput,
    JumpToPrevPrompt,
    JumpToNextPrompt,
    NewTab,
    CloseTab,
    MoveTabLeft,
    MoveTabRight,
    MoveTabToStart,
    MoveTabToEnd,
    NextTab,
    PrevTab,
    CloseOtherTabs,
    CloseTabsToRight,
}

/// Context menu state.
#[derive(Clone)]
pub struct ContextMenu {
    /// Menu items (label, action identifier)
    pub items: Vec<(&'static str, ContextMenuAction)>,
    /// Screen position where menu was opened (for reference/debugging)
    pub click_x: usize,
    /// Screen position where menu was opened (for reference/debugging)
    pub click_y: usize,
    /// Actual rendered position (adjusted for screen boundaries)
    pub rendered_x: usize,
    pub rendered_y: usize,
    /// Currently hovered item index
    pub hovered: Option<usize>,
}

/// Vertical padding added to the cell height for each menu item.
pub const ITEM_PADDING: usize = 8;

/// Label length used for the width of a menu without items.
pub const EMPTY_MENU_LABEL_LEN: usize = 8;

/// The longest label, in bytes; `EMPTY_MENU_LABEL_LEN` when there is none.
pub open spec fn max_label_len(items: Seq<(&'static str, ContextMenuAction)>) -> int
    decreases items.len(),
{
    if items.len() == 0 {
        EMPTY_MENU_LABEL_LEN as int
    } else if items.len() == 1 {
        utf8_len(items[0].0@) as int
    } else {
        let rest = max_label_len(items.drop_last());
        let last = utf8_len(items.last().0@) as int;
        if last > rest {
            last
        } else {
            rest
        }
    }
}

/// Width of a menu: the longest label in cells plus one cell of padding on each side.
pub open spec fn menu_width(items: Seq<(&'static str, ContextMenuAction)>, cell_w: int) -> int {
    max_label_len(items) * cell_w + cell_w * 2
}

/// Height of one menu item.
pub open spec fn item_height(cell_h: int) -> int {
    cell_h + ITEM_PADDING
}

/// Every label's byte length fits in `usize` (as it does for any string in memory).
pub open spec fn labels_fit(items: Seq<(&'static str, ContextMenuAction)>) -> bool {
    forall|i: int| 0 <= i < items.len() ==> utf8_len(#[trigger] items[i].0@) <= usize::MAX
}

/// The menu metrics fit in `usize`.
pub open spec fn metrics_fit(items: Seq<(&'static str, ContextMenuAction)>, cell_w: int, cell_h: int) -> bool {
    &&& labels_fit(items)
    &&& 0 <= menu_width(items, cell_w) <= usize::MAX
    &&& item_height(cell_h) <= usize::MAX
    &&& items.len() * item_height(cell_h) <= usize::MAX
}

proof fn lemma_max_label_bounds(items: Seq<(&'static str, ContextMenuAction)>)
    ensures
        max_label_len(items) >= 0,
    decreases items.len(),
{
    if items.len() > 1 {
        lemma_max_label_bounds(items.drop_last());
    }
}

impl ContextMenu {
    /// Calculate the rendered position for a context menu based on click position and screen boundaries
    pub fn calculate_rendered_position(
        click_x: usize,
        click_y: usize,
        menu_width: usize,
        menu_height: usize,
        buffer_width: usize,
        buffer_height: usize,
    ) -> (r: (usize, usize))
        ensures
            r.0 == if click_x + menu_width <= buffer_width {
                click_x as int
            } else if menu_width <= buffer_width {
                buffer_width - menu_width
            } else {
                0
            },
            r.1 == if click_y + menu_height <= buffer_height {
                click_y as int
            } else if menu_height <= buffer_height {
                buffer_height - menu_height
            } else {
                0
            },
            menu_width <= buffer_width ==> r.0 + menu_width <= buffer_width,
            menu_height <= buffer_height ==> r.1 + menu_height <= buffer_height,
    {
        let max_x = if menu_width <= buffer_width { buffer_width - menu_width } else { 0 };
        let max_y = if menu_height <= buffer_height { buffer_height - menu_height } else { 0 };
        let rendered_x = if click_x <= max_x { click_x } else { max_x };
        let rendered_y = if click_y <= max_y { click_y } else { max_y };
        (rendered_x, rendered_y)
    }

    /// The longest label of `items`, in bytes.
    fn longest_label(items: &Vec<(&'static str, ContextMenuAction)>) -> (r: usize)
        requires
            labels_fit(items@),
        ensures
            r == max_label_len(items@),
    {
        if items.len() == 0 {
            return EMPTY_MENU_LABEL_LEN;
        }
        let mut best = items[0].0.len();
        let mut i: usize = 1;
        proof {
            assert(utf8_len(items@[0].0@) <= usize::MAX);
            assert(items@.take(1).drop_last() =~= Seq::<(&'static str, ContextMenuAction)>::empty());
            assert(items@.take(1)[0] == items@[0]);
        }
        while i < items.len()
            invariant
                1 <= i <= items@.len(),
                labels_fit(items@),
                best == max_label_len(items@.take(i as int)),
            decreases items@.len() - i,
        {
            let len = items[i].0.len();
            proof {
                assert(utf8_len(items@[i as int].0@) <= usize::MAX);
                assert(items@.take(i + 1).drop_last() =~= items@.take(i as int));
                assert(items@.take(i + 1).last() == items@[i as int]);
            }
            if len > best {
                best = len;
            }
            i = i + 1;
        }
        proof {
            assert(items@.take(items@.len() as int) =~= items@);
        }
        best
    }

    /// Whether the metrics of a menu holding `items` fit in `usize`, so that
    /// it can be opened and hit-tested with these cell sizes.
    pub fn metrics_fit_for(items: &Vec<(&'static str, ContextMenuAction)>, cell_w: usize, cell_h: usize) -> (r: bool)
        ensures
            r == metrics_fit(items@, cell_w as int, cell_h as int),
    {
        let mut i: usize = 0;
        while i < items.len()
            invariant
                i <= items@.len(),
                forall|j: int| 0 <= j < i ==> utf8_len(#[trigger] items@[j].0@) <= usize::MAX,
            decreases items@.len() - i,
        {
            let _ = items[i].0.as_bytes().len();
            i = i + 1;
        }
        let longest = Self::longest_label(items) as u128;
        proof {
            lemma_max_label_bounds(items@);
            assert(longest * cell_w <= 0xffff_ffff_ffff_ffffu128 * 0xffff_ffff_ffff_ffffu128) by (nonlinear_arith)
                requires longest <= 0xffff_ffff_ffff_ffffu128, cell_w <= 0xffff_ffff_ffff_ffffu128;
        }
        let width = longest * (cell_w as u128) + (cell_w as u128) * 2;
        let height = cell_h as u128 + ITEM_PADDING as u128;
        if width > usize::MAX as u128 || height > usize::MAX as u128 {
            return false;
        }
        let n = items.len() as u128;
        proof {
            assert(n * height <= 0xffff_ffff_ffff_ffffu128 * 0xffff_ffff_ffff_ffffu128) by (nonlinear_arith)
                requires n <= 0xffff_ffff_ffff_ffffu128, height <= 0xffff_ffff_ffff_ffffu128;
        }
        n * height <= usize::MAX as u128
    }

    /// Width and height of a menu holding `items`.
    pub fn menu_size(items: &Vec<(&'static str, ContextMenuAction)>, cell_w: usize, cell_h: usize) -> (r: (
        usize,
        usize,
    ))
        requires
            metrics_fit(items@, cell_w as int, cell_h as int),
        ensures
            r.0 == menu_width(items@, cell_w as int),
            r.1 == items@.len() * item_height(cell_h as int),
    {
        let longest = Self::longest_label(items);
        proof {
            lemma_max_label_bounds(items@);
            vstd::arithmetic::mul::lemma_mul_nonnegative(longest as int, cell_w as int);
        }
        let width = longest * cell_w + cell_w * 2;
        let height = items.len() * (cell_h + ITEM_PADDING);
        (width, height)
    }

    /// A menu of `items` opened at the click position, kept on screen, with
    /// its first item hovered.
    pub fn open(
        items: Vec<(&'static str, ContextMenuAction)>,
        x: usize,
        y: usize,
        cell_w: usize,
        cell_h: usize,
        buffer_width: usize,
        buffer_height: usize,
    ) -> (m: ContextMenu)
        requires
            metrics_fit(items@, cell_w as int, cell_h as int),
        ensures
            m.items@ == items@,
            m.click_x == x,
            m.click_y == y,
            (m.rendered_x, m.rendered_y) == ({
                let w = menu_width(items@, cell_w as int);
                let h = items@.len() * item_height(cell_h as int);
                (
                    (if x + w <= buffer_width { x as int } else if w <= buffer_width { buffer_width - w } else { 0 }) as usize,
                    (if y + h <= buffer_height { y as int } else if h <= buffer_height { buffer_height - h } else { 0 }) as usize,
                )
            }),
            m.hovered == Some(0usize),
    {
        let (menu_width, menu_height) = Self::menu_size(&items, cell_w, cell_h);
        let (rendered_x, rendered_y) = Self::calculate_rendered_position(
            x,
            y,
            menu_width,
            menu_height,
            buffer_width,
            buffer_height,
        );
        ContextMenu { items, click_x: x, click_y: y, rendered_x, rendered_y, hovered: Some(0) }
    }

    /// Index of the menu row under the point: the point is right of the
    /// menu's left edge, left of its right edge and below its top edge. The
    /// row may lie past the last item.
    pub open spec fn spec_row_at(&self, x: int, y: int, cell_w: int, cell_h: int) -> Option<int> {
        if self.rendered_x <= x < self.rendered_x + menu_width(self.items@, cell_w) && y
            >= self.rendered_y {
            Some((y - self.rendered_y) / item_height(cell_h))
        } else {
            None
        }
    }

    fn row_at(&self, x: usize, y: usize, cell_w: usize, cell_h: usize) -> (r: Option<usize>)
        requires
            metrics_fit(self.items@, cell_w as int, cell_h as int),
        ensures
            match r {
                Some(i) => self.spec_row_at(x as int, y as int, cell_w as int, cell_h as int) == Some(i as int),
                None => self.spec_row_at(x as int, y as int, cell_w as int, cell_h as int) is None,
            },
    {
        let (width, _) = Self::menu_size(&self.items, cell_w, cell_h);
        if x < self.rendered_x || x - self.rendered_x >= width {
            return None;
        }
        if y < self.rendered_y {
            return None;
        }
        let item_height = cell_h + ITEM_PADDING;
        Some((y - self.rendered_y) / item_height)
    }

    /// The action of the item under the point, if any.
    pub fn item_at(&self, x: usize, y: usize, cell_w: usize, cell_h: usize) -> (r: Option<ContextMenuAction>)
        requires
            metrics_fit(self.items@, cell_w as int, cell_h as int),
        ensures
            r == match self.spec_row_at(x as int, y as int, cell_w as int, cell_h as int) {
                Some(i) => if i < self.items@.len() {
                    Some(self.items@[i].1)
                } else {
                    None
                },
                None => None,
            },
    {
        match self.row_at(x, y, cell_w, cell_h) {
            Some(i) => if i < self.items.len() {
                Some(self.items[i].1)
            } else {
                None
            },
            None => None,
        }
    }

    /// Hovers the item under the point, or nothing when the point is off the items.
    pub fn update_hover(&mut self, x: usize, y: usize, cell_w: usize, cell_h: usize)
        requires
            metrics_fit(old(self).items@, cell_w as int, cell_h as int),
        ensures
            final(self).items@ == old(self).items@,
            final(self).rendered_x == old(self).rendered_x,
            final(self).rendered_y == old(self).rendered_y,
            final(self).click_x == old(self).click_x,
            final(self).click_y == old(self).click_y,
            final(self).hovered == match old(self).spec_row_at(x as int, y as int, cell_w as int, cell_h as int) {
                Some(i) => if i < old(self).items@.len() {
                    Some(i as usize)
                } else {
                    None
                },
                None => None,
            },
    {
        self.hovered = match self.row_at(x, y, cell_w, cell_h) {
            Some(i) => if i < self.items.len() {
                Some(i)
            } else {
                None
            },
            None => None,
        };
    }
}

/// The label under which each action is offered in a menu.
pub open spec fn action_label(action: ContextMenuAction) -> &'static str {
    match action {
        ContextMenuAction::Copy => "Copy",
        ContextMenuAction::Paste => "Paste",
        ContextMenuAction::SelectAll => "Select All",
        ContextMenuAction::Search => "Search",
        ContextMenuAction::OpenUrl => "Open URL",
        ContextMenuAction::ClearScrollback => "Clear Scrollback",
        ContextMenuAction::Reset => "Reset Terminal",
        ContextMenuAction::ScrollToTop => "Scroll to Top",
        ContextMenuAction::ScrollToBottom => "Scroll to Bottom",
        ContextMenuAction::CopyLastOutput => "Copy Last Output",
        ContextMenuAction::JumpToPrevPrompt => "Jump to Previous Prompt",
        ContextMenuAction::JumpToNextPrompt => "Jump to Next Prompt",
        ContextMenuAction::NewTab => "New Tab",
        ContextMenuAction::CloseTab => "Close Tab",
        ContextMenuAction::MoveTabLeft => "Move Tab Left",
        ContextMenuAction::MoveTabRight => "Move Tab Right",
        ContextMenuAction::MoveTabToStart => "Move Tab to Start",
        ContextMenuAction::MoveTabToEnd => "Move Tab to End",
        ContextMenuAction::NextTab => "Next Tab",
        ContextMenuAction::PrevTab => "Previous Tab",
        ContextMenuAction::CloseOtherTabs => "Close Other Tabs",
        ContextMenuAction::CloseTabsToRight => "Close Tabs to the Right",
    }
}

/// Every item carries the label of its action.
pub open spec fn labelled(items: Seq<(&'static str, ContextMenuAction)>) -> bool {
    forall|i: int| 0 <= i < items.len() ==> #[trigger] items[i].0 == action_label(items[i].1)
}

/// Items of the menu opened on the tab bar, for the tab at `active_tab` among `tab_count`.
pub fn tab_bar_menu_items(active_tab: usize, tab_count: usize) -> (items: Vec<(&'static str, ContextMenuAction)>)
    ensures
        items@.map_values(|it: (&'static str, ContextMenuAction)| it.1) == seq![
            ContextMenuAction::NewTab,
            ContextMenuAction::CloseTab,
        ] + (if active_tab > 0 {
            seq![ContextMenuAction::MoveTabLeft, ContextMenuAction::MoveTabToStart]
        } else {
            seq![]
        }) + (if active_tab + 1 < tab_count {
            seq![ContextMenuAction::MoveTabRight, ContextMenuAction::MoveTabToEnd]
        } else {
            seq![]
        }) + (if tab_count > 1 {
            seq![ContextMenuAction::NextTab, ContextMenuAction::PrevTab, ContextMenuAction::CloseOtherTabs]
        } else {
            seq![]
        }) + (if active_tab + 1 < tab_count {
            seq![ContextMenuAction::CloseTabsToRight]
        } else {
            seq![]
        }),
        labelled(items@),
{
    let mut items: Vec<(&'static str, ContextMenuAction)> = Vec::new();
    items.push(("New Tab", ContextMenuAction::NewTab));
    items.push(("Close Tab", ContextMenuAction::CloseTab));
    if active_tab > 0 {
        items.push(("Move Tab Left", ContextMenuAction::MoveTabLeft));
        items.push(("Move Tab to Start", ContextMenuAction::MoveTabToStart));
    }
    let has_right = active_tab < tab_count && tab_count - active_tab > 1;
    if has_right {
        items.push(("Move Tab Right", ContextMenuAction::MoveTabRight));
        items.push(("Move Tab to End", ContextMenuAction::MoveTabToEnd));
    }
    if tab_count > 1 {
        items.push(("Next Tab", ContextMenuAction::NextTab));
        items.push(("Previous Tab", ContextMenuAction::PrevTab));
        items.push(("Close Other Tabs", ContextMenuAction::CloseOtherTabs));
    }
    if has_right {
        items.push(("Close Tabs to the Right", ContextMenuAction::CloseTabsToRight));
    }
    proof {
        let f = |it: (&'static str, ContextMenuAction)| it.1;
        assert(items@.map_values(f) =~= seq![
            ContextMenuAction::NewTab,
            ContextMenuAction::CloseTab,
        ] + (if active_tab > 0 {
            seq![ContextMenuAction::MoveTabLeft, ContextMenuAction::MoveTabToStart]
        } else {
            seq![]
        }) + (if active_tab + 1 < tab_count {
            seq![ContextMenuAction::MoveTabRight, ContextMenuAction::MoveTabToEnd]
        } else {
            seq![]
        }) + (if tab_count > 1 {
            seq![ContextMenuAction::NextTab, ContextMenuAction::PrevTab, ContextMenuAction::CloseOtherTabs]
        } else {
            seq![]
        }) + (if active_tab + 1 < tab_count {
            seq![ContextMenuAction::CloseTabsToRight]
        } else {
            seq![]
        }));
    }
    items
}

/// Items of the menu opened on a pane.
pub fn pane_menu_items(
    has_selection: bool,
    has_url: bool,
    has_last_output: bool,
    has_prompts: bool,
) -> (items: Vec<(&'static str, ContextMenuAction)>)
    ensures
        items@.map_values(|it: (&'static str, ContextMenuAction)| it.1) == (if has_selection {
            seq![ContextMenuAction::Copy]
        } else {
            seq![]
        }) + seq![ContextMenuAction::Paste, ContextMenuAction::SelectAll, ContextMenuAction::Search]
            + (if has_url {
            seq![ContextMenuAction::OpenUrl]
        } else {
            seq![]
        }) + seq![
            ContextMenuAction::ScrollToTop,
            ContextMenuAction::ScrollToBottom,
            ContextMenuAction::ClearScrollback,
            ContextMenuAction::Reset,
        ] + (if has_last_output {
            seq![ContextMenuAction::CopyLastOutput]
        } else {
            seq![]
        }) + (if has_prompts {
            seq![ContextMenuAction::JumpToPrevPrompt, ContextMenuAction::JumpToNextPrompt]
        } else {
            seq![]
        }),
        labelled(items@),
{
    let mut items: Vec<(&'static str, ContextMenuAction)> = Vec::new();
    if has_selection {
        items.push(("Copy", ContextMenuAction::Copy));
    }
    items.push(("Paste", ContextMenuAction::Paste));
    items.push(("Select All", ContextMenuAction::SelectAll));
    items.push(("Search", ContextMenuAction::Search));
    if has_url {
        items.push(("Open URL", ContextMenuAction::OpenUrl));
    }
    items.push(("Scroll to Top", ContextMenuAction::ScrollToTop));
    items.push(("Scroll to Bottom", ContextMenuAction::ScrollToBottom));
    items.push(("Clear Scrollback", ContextMenuAction::ClearScrollback));
    items.push(("Reset Terminal", ContextMenuAction::Reset));
    if has_last_output {
        items.push(("Copy Last Output", ContextMenuAction::CopyLastOutput));
    }
    if has_prompts {
        items.push(("Jump to Previous Prompt", ContextMenuAction::JumpToPrevPrompt));
        items.push(("Jump to Next Prompt", ContextMenuAction::JumpToNextPrompt));
    }
    proof {
        let f = |it: (&'static str, ContextMenuAction)| it.1;
        assert(items@.map_values(f) =~= (if has_selection {
            seq![ContextMenuAction::Copy]
        } else {
            seq![]
        }) + seq![ContextMenuAction::Paste, ContextMenuAction::SelectAll, ContextMenuAction::Search]
            + (if has_url {
            seq![ContextMenuAction::OpenUrl]
        } else {
            seq![]
        }) + seq![
            ContextMenuAction::ScrollToTop,
            ContextMenuAction::ScrollToBottom,
            ContextMenuAction::ClearScrollback,
            ContextMenuAction::Reset,
        ] + (if has_last_output {
            seq![ContextMenuAction::CopyLastOutput]
        } else {
            seq![]
        }) + (if has_prompts {
            seq![ContextMenuAction::JumpToPrevPrompt, ContextMenuAction::JumpToNextPrompt]
        } else {
            seq![]
        }));
    }
    items
}

/// What choosing a menu item asks of the application.
#[derive(Clone, Copy, Debug, PartialEq, Eq, Structural)]
pub enum MenuCommand {
    /// Run this action, as a keybinding would.
    Run(Action),
    /// Select the whole content of the focused pane.
    SelectAll,
    /// Open the URL under the mouse cursor.
    OpenUrl,
}

/// The command each menu item stands for. The items that reorder or close
/// several tabs stand for none.
pub open spec fn spec_menu_command(action: ContextMenuAction) -> Option<MenuCommand> {
    match action {
        ContextMenuAction::Copy => Some(MenuCommand::Run(Action::Copy)),
        ContextMenuAction::Paste => Some(MenuCommand::Run(Action::Paste)),
        ContextMenuAction::SelectAll => Some(MenuCommand::SelectAll),
        ContextMenuAction::Search => Some(MenuCommand::Run(Action::SearchFind)),
        ContextMenuAction::OpenUrl => Some(MenuCommand::OpenUrl),
        ContextMenuAction::ClearScrollback => Some(MenuCommand::Run(Action::ClearScrollback)),
        ContextMenuAction::Reset => Some(MenuCommand::Run(Action::Reset)),
        ContextMenuAction::ScrollToTop => Some(MenuCommand::Run(Action::ScrollToTop)),
        ContextMenuAction::ScrollToBottom => Some(MenuCommand::Run(Action::ScrollToBottom)),
        ContextMenuAction::CopyLastOutput => Some(MenuCommand::Run(Action::CopyLastOutput)),
        ContextMenuAction::JumpToPrevPrompt => Some(MenuCommand::Run(Action::JumpToPrevPrompt)),
        ContextMenuAction::JumpToNextPrompt => Some(MenuCommand::Run(Action::JumpToNextPrompt)),
        ContextMenuAction::NewTab => Some(MenuCommand::Run(Action::NewTab)),
        ContextMenuAction::CloseTab => Some(MenuCommand::Run(Action::CloseTab)),
        ContextMenuAction::NextTab => Some(MenuCommand::Run(Action::NextTab)),
        ContextMenuAction::PrevTab => Some(MenuCommand::Run(Action::PrevTab)),
        ContextMenuAction::MoveTabLeft | ContextMenuAction::MoveTabRight
        | ContextMenuAction::MoveTabToStart | ContextMenuAction::MoveTabToEnd
        | ContextMenuAction::CloseOtherTabs | ContextMenuAction::CloseTabsToRight => None,
    }
}

/// Decides what choosing the menu item `action` asks of the application.
pub fn menu_command(action: ContextMenuAction) -> (r: Option<MenuCommand>)
    ensures
        r == spec_menu_command(action),
{
    match action {
        ContextMenuAction::Copy => Some(MenuCommand::Run(Action::Copy)),
        ContextMenuAction::Paste => Some(MenuCommand::Run(Action::Paste)),
        ContextMenuAction::SelectAll => Some(MenuCommand::SelectAll),
        ContextMenuAction::Search => Some(MenuCommand::Run(Action::SearchFind)),
        ContextMenuAction::OpenUrl => Some(MenuCommand::OpenUrl),
        ContextMenuAction::ClearScrollback => Some(MenuCommand::Run(Action::ClearScrollback)),
        ContextMenuAction::Reset => Some(MenuCommand::Run(Action::Reset)),
        ContextMenuAction::ScrollToTop => Some(MenuCommand::Run(Action::ScrollToTop)),
        ContextMenuAction::ScrollToBottom => Some(MenuCommand::Run(Action::ScrollToBottom)),
        ContextMenuAction::CopyLastOutput => Some(MenuCommand::Run(Action::CopyLastOutput)),
        ContextMenuAction::JumpToPrevPrompt => Some(MenuCommand::Run(Action::JumpToPrevPrompt)),
        ContextMenuAction::JumpToNextPrompt => Some(MenuCommand::Run(Action::JumpToNextPrompt)),
        ContextMenuAction::NewTab => Some(MenuCommand::Run(Action::NewTab)),
        ContextMenuAction::CloseTab => Some(MenuCommand::Run(Action::CloseTab)),
        ContextMenuAction::NextTab => Some(MenuCommand::Run(Action::NextTab)),
        ContextMenuAction::PrevTab => Some(MenuCommand::Run(Action::PrevTab)),
        ContextMenuAction::MoveTabLeft | ContextMenuAction::MoveTabRight
        | ContextMenuAction::MoveTabToStart | ContextMenuAction::MoveTabToEnd
        | ContextMenuAction::CloseOtherTabs | ContextMenuAction::CloseTabsToRight => None,
    }
}

/// What choosing a menu item is meant to do, in the terms of the plan of an
/// action: `None` for the items that are not actions (select all, open the
/// URL) and for those that reorder or close several tabs.
pub open spec fn item_purpose(action: ContextMenuAction) -> Option<ActionPlan> {
    match action {
        ContextMenuAction::Copy => Some(ActionPlan::Copy),
        ContextMenuAction::Paste => Some(ActionPlan::Paste),
        ContextMenuAction::Search => Some(ActionPlan::OpenSearch),
        ContextMenuAction::ClearScrollback => Some(ActionPlan::ClearScrollback),
        ContextMenuAction::Reset => Some(ActionPlan::Reset),
        ContextMenuAction::ScrollToTop => Some(ActionPlan::ScrollToTop),
        ContextMenuAction::ScrollToBottom => Some(ActionPlan::ScrollToBottom),
        ContextMenuAction::CopyLastOutput => Some(ActionPlan::CopyLastOutput),
        ContextMenuAction::JumpToPrevPrompt => Some(ActionPlan::JumpToPrompt { forward: false }),
        ContextMenuAction::JumpToNextPrompt => Some(ActionPlan::JumpToPrompt { forward: true }),
        ContextMenuAction::NewTab => Some(ActionPlan::NewTab),
        ContextMenuAction::CloseTab => Some(ActionPlan::CloseTab),
        ContextMenuAction::NextTab => Some(ActionPlan::NextTab),
        ContextMenuAction::PrevTab => Some(ActionPlan::PrevTab),
        _ => None,
    }
}

/// Each menu item runs an action that does what the item is for: when its
/// command is to run an action, that action's plan is the item's purpose,
/// and every item with such a purpose runs an action. Select All and Open
/// URL are commands of their own, and distinct items never run the same
/// action.
pub proof fn lemma_menu_item_runs_its_action(a: ContextMenuAction, b: ContextMenuAction)
    ensures
        spec_menu_command(a) matches Some(MenuCommand::Run(x)) ==> item_purpose(a) == Some(spec_plan(x)),
        item_purpose(a) matches Some(p) ==> (spec_menu_command(a) matches Some(MenuCommand::Run(x)) && spec_plan(x)
            == p),
        a == ContextMenuAction::SelectAll <==> spec_menu_command(a) == Some(MenuCommand::SelectAll),
        a == ContextMenuAction::OpenUrl <==> spec_menu_command(a) == Some(MenuCommand::OpenUrl),
        a != b && spec_menu_command(a) is Some ==> spec_menu_command(a) != spec_menu_command(b),
{
}

} // verus!
