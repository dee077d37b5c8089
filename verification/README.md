# pick_full_wm

A tiling X11 window manager that keeps one window in a large "main" area
and lays the others out in a side column.

- `src/` is the library, verified with Verus: the settings and key names,
  the layout strings, the state of monitors and workspaces, and every
  decision the window manager takes on an X event.  Decisions do not talk to
  the X server: they take a snapshot of which windows exist (`safety::World`)
  and append `actions::Action`s for the caller to carry out.  `laws.rs`
  states what holds across operations (swapping a window in and back,
  settling a workspace twice, ordering monitors, and so on).
- `app/` is the program: it connects to the server, reads
  `~/.config/pick-full-wm/settings.toml`, asks the server what the library
  needs, runs the library's decisions and carries out their actions.  Pixel
  arithmetic in floating point (percentages, slot heights, centering) lives
  there too.  The helper windows (help window, key hints, monitor box,
  close box) are the same program started under their names: at start-up
  it links `help_window`, `key_hint`, `monitor_box` and `close_box` beside
  itself, and draws them with core X requests.
- `tests/` exercises the library on concrete states.
