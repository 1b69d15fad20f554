# notes

A terminal notebook of eleven rooms. Each room has a note file, `1.txt` to
`11.txt`, whose first line is the room's name. The room list opens a room's
note for editing (Ctrl+L), renames a room (Ctrl+R), exports every note into one
file (Ctrl+E) and quits (Ctrl+Q); in a note, characters, Backspace, Enter and
the arrow keys edit it and Esc saves it.

- `src/` is the verified library: key events (`keys`), byte positions in
  a line (`bytes`), cursor movement
  (`cursor`), the number and text prompts (`prompt`), the notebook's screen
  logic (`notebook`), the export (`export`), text formats (`text`), residents
  (`resident`) and a plain single-text editor (`draft`).
- `app/` is the terminal program: it turns terminal events into the library's
  events, draws what the library asks for and reads and writes the files.
- `tests/` runs the library on concrete values.

Columns count bytes of a line's UTF-8 encoding, as Rust strings do; an edit
that would cut a character in two is refused, and the program stops there.
