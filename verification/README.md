# herdr-hop

Hop to any visible Herdr pane by label. The `jump` action labels the panes of the current
tab in reading order and opens a small picker popup; the `pick` popup paints each label as a
pane graphics overlay, reads one keystroke and focuses the chosen pane.

## Layout

- `src/` is the library, verified with Verus:
  - `model`: panes, rectangles, reading order and label assignment;
  - `cellsize`: the terminal cell-size query and the parser for its report;
  - `picker`: the keystroke state machine and the cell-size fallback;
  - `render`: label placement, glyph drawing, PNG encoding and the overlay request;
  - `codec`: CRC-32, zlib and Base64, through `flate2` and `base64`;
  - `herdr`: the JSON-RPC requests and responses, framing, and the plugin context;
  - `action`, `cli`: the popup request and the entrypoints.
- `app/` is the program around it: argument parsing, environment, the Unix socket, raw
  terminal mode, the input thread and the timed loops that feed bytes to the library.
- `tests/` runs the library on concrete values.
