# r_tools

Small desktop tools for a Wayland/PipeWire session: audio sink cycling and
volume bars, push-to-talk and dictation with a level-meter pill, an overlay
drawing server, a screen-cast viewer, a clipboard-history menu for rofi, a
secrets-to-environment helper, a codebase-to-Markdown dumper and two
connectivity monitors.

- `src/` is the library, verified with Verus: the decisions and text of every
  tool (sink selection and link plans, `pw-link` listings, WAV headers and
  level peaks, the overlay canvas, colour text, secrets files and `export`
  lines, clipboard-history classification, dump formatting, status tracking,
  pixel packing and the viewer's event handling), each with its contract, and
  the laws that tie them together as public proof functions.
- `tests/` runs the library on concrete values.
- `app/` is the program around it: processes, sockets, files, threads, the
  Wayland and window-system plumbing, and the floating-point drawing and
  geometry. `r_tools <tool> [args...]` runs one tool.
