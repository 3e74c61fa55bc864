# inksy

A drawing program for an endless canvas of ink strokes and pasted images,
with tools to select, move, rotate, resize and recolour what is drawn, an
undo/redo history, a colour picker and a small file format.

The library (`src/`) holds the program's logic, verified with Verus:

- `canvas`: the canvas with its undo/redo history (`perform_operation`,
  `undo`, `redo`), the save point, selection and dirty tracking;
  `canvas_laws` proves how these operations relate.
- `file`: the canvas file format, encoded and decoded byte by byte, with the
  proof that decoding gives back what was encoded.
- `geometry`: the triangles of a stroke; `buffer`: sizes of graphics buffers.
- `input`, `keymap`, `actions`: key sets, the input monitor, key bindings and
  which actions a round of input sets off.
- `tools`, `multicanvas`: the tool stack and what the primary button does.
- `pixel`: generic vectors; `color`, `watched`, `render`, `clipboard`,
  `config`: colours, change tracking, render batches and the stroke upload
  plan, paste decisions and settings (read with the `png` and `kdl` crates).

`app/` is the window, the graphics card, files and the clipboard around the
library, and the floating-point geometry. `tests/` runs the library.
