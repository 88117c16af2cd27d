# vimlite

A small modal text editor for the terminal, with its editing logic
verified by Verus.

The library (`src/`) holds everything the editor decides:

- `location`: positions in a buffer and their order.
- `text`: character classes, line splitting, trimming and number parsing.
- `small`: the short fixed-capacity vectors of `tinyvec` the editor uses.
- `buffer`: lines, the cursor, scrolling, drawing of lines, and edits.
- `motion`: the word motions `w`, `W`, `b`, `B`.
- `trie`: the prefix tree that key sequences are looked up in.
- `input`: key presses.
- `get_input`: decoding terminal bytes (escape sequences, UTF-8) into keys.
- `vim`: modes, registers, commands, the built-in actions and the editor
  that runs key presses through the keymaps.
- `bindings`: the built-in key tables of each mode.
- `screen`: the status message and the bytes of a screen redraw.

Commands that need the outside world (`:w` writes a file, `:!` runs a
shell command) leave that work as `Effect`s, which the program in `app/`
carries out. `app/` also holds the terminal set-up, reading keys from
standard input and writing the screen.
