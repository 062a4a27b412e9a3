# text_buffer

The text buffer of a terminal editor, with its behaviour stated in contracts that
Verus proves.

- `src/` is the library. `buffer` holds the type itself; `cursor`, `edit`, `event`,
  `scroll`, `task` and `save` are what is done with it; `draw` and `status` tell what
  has to be drawn of it. `laws` and `draw_laws` state what holds across operations.
- `rope`, `grapheme`, `geometry`, `status`, `save`, `utf8` and `buffer` hold what is
  taken from other crates and from the standard library without proof.
- `app/` connects a buffer to files, to the screen, to background work and to a
  syntax tree. The screen, the scheduler and the syntax tree are traits there, for
  the editor to implement.
- `tests/` runs the library on given texts.

## What a buffer promises

A buffer is `valid` when its texts can be held in memory and its cursor is within
its text; every operation keeps it so. Each operation's contract gives the buffer
after it as a function of the buffer before it. A change is reported to a parser
with its place counted in characters, so it is exact where the text up to the end of
the change is made of one-byte characters.
