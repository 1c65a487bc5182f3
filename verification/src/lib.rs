//! Verified core of the yatmux terminal: pane layout, focus management,
//! prompts, key handling decisions, help filtering and plugin plumbing.

pub mod layout;
pub mod tab;
pub mod keys;
pub mod text;
pub mod pane;
pub mod prompt;
pub mod context_menu;
pub mod plugins;
pub mod plugin_host;
pub mod help;
pub mod help_filter;
pub mod tab_bar;
pub mod actions;
pub mod keyboard;
pub mod mouse;
pub mod profiles;
pub mod tabs;
pub mod toast;
