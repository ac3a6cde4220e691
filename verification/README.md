# zonewm

A tiling window manager for Windows that snaps windows into the zones of configurable
layouts, with nine workspaces per monitor, keyboard focus/move/swap between zones and
drag-to-zone with a live overlay.

- `src/` is the library, written in Verus and verified: the per-monitor state
  (workspaces, zones, floating windows), the actions bound to keys, the geometry of
  zones and directional focus, the configuration readers (key bindings, colours, layout
  slots) and the hook logic that turns window events into state changes. What the
  library wants done to windows (snap, restore, cloak, raise) it queues as `SysCall`s
  on the monitor states, and the application carries them out in order. Where a
  decision rests on what the system reports (a window's rect, the windows on a monitor),
  a function taking that report as an argument (`capture_windows`,
  `move_window_to_workspace_with`, `drop_outside_with`) states exactly what it does and
  queues; the function that asks the system calls it with the answer. Laws that relate several functions are public
  proof functions (`lemma_*`).
- `app/` is the program around it: Win32 hooks, the message loop, overlays, the tray
  icon, and reading/writing the TOML configuration and saved state.
- `tests/` runs the library on concrete values.
