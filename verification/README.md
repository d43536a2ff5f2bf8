# waywarp

Keyboard-driven pointer positioning for Wayland compositors: a grid of
labelled hints is drawn over every monitor, typing a label warps the
pointer there, and optional refinement passes zoom into the chosen cell.

## Layout

- `src/` is the library, written in Verus and verified: hint labels and
  grids (`hint`), the INI configuration and callback commands (`config`),
  monitor descriptions, key bindings and the hint-mode state machine
  (`render`), the decisions of the headless agent commands (`agent`), JSON
  documents (`json`), text helpers (`text`), and the scanner's grid
  (`scanner`).  Contracts are stated over `Seq`, `int` and views; laws of
  the library (prefix-free labels, labels inside their grid, refinements
  inside the matched cell, configuration ranges, the last assignment of a
  key winning, the default file reading back as the defaults, ...) are
  public proof functions.
- `app/` is the program around it: argument handling, the Wayland
  connection, drawing with cairo, shared memory, processes and files.
- `tests/` exercises the library on concrete values.
