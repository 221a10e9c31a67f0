# ttail

A rolling tail of a stream of lines for the terminal: the last lines of
piped input (or of a command run in a pty) are redrawn in place, Tab opens a
scrollable view of every line, and colours set by lines that have scrolled
out of the window are kept.

- `src/` is the verified library: SGR parsing and the colour state
  (`sgr`), the line buffer (`buffer`), keys (`event`, `keys`), pty output
  lines (`lines`), the frames written to the terminal (`display`), the
  viewer's decisions (`session`) and the program's start-up decisions
  (`program`). Laws are public proof functions named `law_*`.
- `app/` is the program around it: terminal and pty I/O, threads, signals.
- `tests/` runs the library on concrete values.
