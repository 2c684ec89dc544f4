# koma

A tiling terminal emulator. Panes split a single window so several shells are
visible at once; each pane owns its own pty and screen.

The library under `src/` is the terminal's logic, verified with Verus. The
program under `app/` puts it on screen: the winit event loop, the wgpu
renderer, fonts, ptys and the clipboard, and the arithmetic on pixels.

## The library

| Module | What is in it |
| --- | --- |
| `cell`, `rows`, `model`, `grid` | the cell grid, its scrollback and its mathematical model |
| `sequences`, `performer`, `vt` | control functions, and the byte stream they are found in |
| `laws`, `bounds` | what holds of every terminal, whatever it is sent |
| `base64`, `text`, `width` | OSC 52 payloads, text, columns |
| `input`, `shortcut`, `mouse` | keys and mouse events as bytes or commands |
| `viewport`, `paste` | scrolling and the wheel; encoding the clipboard |
| `selection`, `pointer`, `preedit`, `caret` | selecting, pressing and dragging, composing text |
| `pane`, `tiling` | the split tree, and dividing an area by it |
| `theme`, `paint` | colours, and what a pane shows |
| `font`, `charmap`, `atlas`, `frame` | faces and glyphs, the glyph atlas, frames |
| `shell`, `session` | the shell and its terminal; feeding and focusing panes |

Each function states what it does over the model; `laws` and the `law_...`
functions of the other modules relate several of them.

Sizes, weights and pixels are floating point, so the library leaves them to
its callers: the split tree takes functions that divide an area, rebalance and
merge weights, and `paint` speaks of cells.

## What is taken on trust

- `vte` finds the control functions in a byte stream (`vt`).
- `unicode-width` says how wide a character is (`width`).
- `swash` says which glyph a font has for a character (`charmap`).
- A few functions of the standard library on text (`text`).
