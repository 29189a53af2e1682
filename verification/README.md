# rustybar

A status line for swaybar and i3bar: tiles (battery, memory, load, hostname,
time, and a wireless tile for iwd) each produce blocks of the i3bar protocol,
and the output writes the bar anew whenever a tile sends a block.

- `src/` is the library, with its proofs: the text handling the tiles rely
  on (`text`), the blocks (`tile`), each tile's logic (`tiles`, with the time
  tile's formatting through chrono), the
  configuration (`config`) and the output's state (`output`).
- `app/` is the program around it: command line, files, D-Bus, reading the clock, the
  tokio runtime, and JSON/TOML through serde.
- `tests/` runs the library on concrete inputs.
