# drawbridge

A terminal rendering engine for programs in any language: drawbridge runs a
program, reads drawing commands from its standard output (`Draw(...)`,
`Clear()`, `Flush()`, `QuerySize()`, one per line), renders them on the
terminal, and writes key presses and resizes to the program's standard input
(`Key|<code>|<modifiers>`, `Resize|<width>|<height>`).

Layout:

- `src/` is the library, verified with Verus: the lexer and parser of command
  lines, the double-buffered display model and the operations each frame
  sends to the terminal, the event and reply messages, and the handling of
  the program's own arguments. Each function states what it returns as a
  contract over specification functions, and the laws of the library (for
  instance, that the operations of a frame make the terminal show the drawn
  canvas) are proof functions.
- `app/` is the program around it: the terminal (raw mode, alternate screen,
  writing the operations with crossterm), the child process, the event
  thread, and the text of error messages.
- `tests/` runs the library on concrete lines, frames and messages.
