# bpond — koi, alive in your terminal

A living pond drawn in the terminal with braille sub-pixels. This crate
is split in two:

* `src/` — the verified library, checked by Verus:
  * `canvas` — the braille canvas (2×4 sub-pixels per terminal cell),
    its drawing primitives, and how a canvas renders into a terminal
    buffer: which braille character each cell shows and the average
    colour of its lit sub-pixels.
  * `buffer` — the `ratatui` terminal buffer, seen as a map from
    positions to cells (symbol, foreground, background), with the
    contracts of the cell writes the library makes.
  * `color_arg` — the `--bg <hex>` / `--bg=<hex>` option.
  * `ghost_anim` — a full-screen ghost animation drawn from JSON text
    frames with `<c>…</c>` aura tags.
  * `frog` — the colour morphs of the frogs; `sdf` — a shading ramp;
    `text` — characters of a string.
* `app/` — the program around it: the event loop and terminal I/O, and
  the koi, frog, lily-pad, rain, ripple and bubble simulations, which
  move in floating point.

`tests/` runs the library against the real `ratatui` and `serde_json`.
