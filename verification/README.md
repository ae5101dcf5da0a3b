# lfv

A viewer for large files in the terminal (`lfv`) and a line editor for them in a window (`lfv-gui`),
with the logic of both verified by Verus.

The file is mapped into memory, a compact index of line starts is built once, and only the visible
lines are laid out. Options of the viewer:

- `--csv` aligns delimited values into columns, `--csv-separator` names the separator;
- `--xml` and `--json` colour the two syntaxes, `--format` pretty-prints either;
- `--tab-width N` sets the width of a tab, four columns by default.

Keys: `q` quits, the arrows, `PageUp`, `PageDown`, `Home` and `End` move, `g` goes to a line, `f` finds a
text, `n` and `p` walk its matches. The mouse scrolls and selects, with control held a block;
`Ctrl+C` or the right button copies.

In the editor a double click edits a line, `Enter` applies the edit, and `Save` writes an edited copy.

## Layout

- `src/` is the verified library. It takes the bytes of a file and plain events, and gives back
  screens, texts and what is to be done next. It reads and writes nothing itself.
- `tests/` runs the library.
- `app/` is the program around it: arguments, the mapping of the file, the terminal, the clipboard
  and the window.

Columns and widths stop at the largest `usize` instead of overflowing.
