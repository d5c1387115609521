# termite_core

The core of a terminal emulator, verified with Verus: the character grid
with its damage tracking and scrollback, the decisions of the escape-sequence
parser and the terminal state machine that applies them, reflow on resize,
key and mouse encoding, selection, the frame schedule, and the pure parts of
the renderer and its plugin host.

## Layout

- `src/` is the verified library. Each module states its behaviour in
  `requires` / `ensures` over spec functions, and the laws that span several
  operations as public proof functions (`lemma_*`).
  - `grid`, `row`, `reflow`, `damage`: the grid of cells, wide characters,
    scrolling, erasing, resizing with and without reflow, damage regions.
  - `parser`, `terminal`, `identity`, `event`, `clipboard`: parser actions,
    the terminal state machine, scrollback, modes, replies, and the text
    that clipboard requests (OSC 52) write.
  - `input`, `interaction`, `selection`, `frame_schedule`, `pty_batch`:
    key, mouse and paste encoding; the window's decisions on input;
    selection text; when frames are drawn; how output of the child process
    is gathered into batches before the terminal takes it.
  - `renderer`, `render_damage`, `plugins_api`, `plugins_host`,
    `plugin_sdk`, `terminal_app`: frame policy and draw order, plugin
    descriptions, the frame cache's
    bookkeeping and texture uploads, the plugin host.
  - `metrics`, `theme`, `glyphs`, `fonts`, `paint`, `width`: cell metrics
    and zoom, colours, built-in glyphs, font choice and the pixel painting
    of special cells.
- `tests/` runs the library on concrete inputs.
- `app/` hosts the terminal inside another terminal: it spawns a shell on a
  pseudo-terminal, feeds its output through the library and draws the grid
  with crossterm.
