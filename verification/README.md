# Kova windows

The window layer of the Kova terminal, verified with Verus.

A window holds tabs, a tab holds panes in columns. Keys, clicks, menus, clients
and the clock change them. The library decides what happens and states it in the
contracts of its functions; it never touches the system. What a window needs to
know (the time, a title, the text of a grid, a freshly spawned pane) arrives as
a plain value, and what it wants done (a write to a program, a resize, a redraw)
is appended to the list of effects in `KovaView::effects`.

| where | what |
|---|---|
| `src/view.rs`, `src/pane.rs` | the window, its tabs and panes, the effects |
| `src/tabs.rs`, `src/nav.rs`, `src/jump.rs`, `src/attention.rs` | opening, closing, moving and finding tabs and panes |
| `src/keys.rs`, `src/actions.rs`, `src/mouse.rs`, `src/ipc.rs` | what comes in from the keyboard, the mouse and clients |
| `src/overlays.rs`, `src/search.rs`, `src/recent.rs`, `src/switcher.rs` | the overlays |
| `src/sidebar*.rs`, `src/feather.rs` | the sidebar |
| `src/tick.rs`, `src/render.rs`, `src/resize.rs`, `src/reap.rs`, `src/restore.rs`, `src/memory.rs` | what happens frame by frame |
| `src/text.rs`, `src/paths.rs` | strings and quoting |
| `app/` | frames, the mouse and searches around a window; pixels, colours, JSON records, logging and AppKit |
| `tests/` | the behaviour on concrete values |

What holds of the library as a whole stands as public proof functions beside the
functions it is about: for example `keys::overlays_keep_keys_from_panes`,
`paths::a_paste_cannot_break_out`, `resize::a_burst_fires_once_after_it_ends`,
`tabs::a_split_starts_where_the_focus_is` or `reap::reaping_spares_the_running`. The only contracts taken on trust are those
of `String::push` and `String::pop`, in `src/text.rs`.
