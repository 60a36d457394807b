# nx

Reading and writing the binary files of the Neversoft engine games (THPS4,
THUG, THUG2): compiled QB scripts and their syntax tree, skeletons, animations
and the standard key tables that compressed animations look their frames up in.

- `src/` is the library, verified with Verus. Each reader is specified by a
  function from bytes to values, each writer by the bytes it emits, and the
  round trips between them are proved (`law_*` proof functions). Floating-point
  values are held as their 32-bit patterns.
- `tests/` runs the library on concrete files built in memory.
- `app/` is the command-line tool: file input and output, the RON dumps, and
  the floating-point work (the boned form in floats and the conversion of THUG
  animations onto the THPS4 skeleton).
