# cornice

A Wayland status bar with a freedesktop notification daemon, built as a verified library and a
thin program around it.

- `src/` is the library, verified with Verus: geometry and colours, the software rasteriser, the
  bar's section layout and modules, configuration checks with `line:column` errors, the
  notification queue, the card column (layout, motion state, the sync that drives the surfaces,
  hit testing) and the event loop's timing.
- `app/` is the program: the Wayland connection and surfaces, the D-Bus service, reading and
  decoding the TOML file, the exec modules' child processes, and everything that works in
  floating point (text shaping and measuring, spring curves, fades).
- `tests/` holds the library's tests.

Times in the library are milliseconds on one monotonic clock; the program converts its
`Instant`s.
