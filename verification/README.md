# yatmux

The verified core of yatmux, a small terminal emulator with tabs, splits and
plugins, written in Verus.

- `src/` is the library. Its functions are verified against their
  contracts: the pane layout and its geometry (`layout`), a tab's panes and
  focus (`tab`), the window's tab list (`tabs`), the tab bar and tab
  dragging (`tab_bar`), key handling decisions (`keys`, `keyboard`,
  `actions`), mouse decisions (`mouse`), context menus (`context_menu`), the
  shadow prompt (`pane`), plugin prompts (`prompt`), the shortcut overlay and
  its fuzzy filter (`help`, `help_filter`), profiles (`profiles`), toasts
  (`toast`) and the plugin protocol (`plugins`, `plugin_host`). Laws that
  relate several operations are public proof functions, mostly in
  `layout/laws.rs` and `tab/laws.rs`.
- A few small functions in `src/` are trusted rather than verified: each is
  marked `#[verifier::external_body]`, wraps a call into std or an outside
  crate (`nucleo-matcher`, `dirs`), and carries a contract that states what
  that call's documentation and source promise. They are the `String` and
  `char` helpers in `text.rs`, `to_lowercase` in `keys.rs`, `home_dir` and
  `file_name` in `plugins.rs`, and `new_matcher` and `query_score` in
  `help_filter.rs`.
- `tests/` runs the library on concrete values.
- `app/` is the program around it: the winit window and event loop, the
  conversion of winit's input types, the plugin processes and their JSON
  wire format.
