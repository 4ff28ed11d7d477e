# pweq

A parametric equalizer for PipeWire with a terminal interface. The
library under `src/` holds the logic, with its contracts proved by Verus;
`app/` is the program around it (command line, PipeWire, terminal, HTTP,
files and the floating-point filter maths).

## Library modules

- `text`: characters, trimming, splitting, words, decimal integers, the
  floating-point literal grammar, joining and ordering of text.
- `apo`, `apo_write`: reading and writing Equalizer APO parametric files;
  a written file reads back as the configuration it was written from.
- `module`: filter-chain module configurations built from bands or from an
  APO file, and the bands read back from a configuration.
- `config_json`, `spa_json`, `spa_read`, `spa_round_trip`: the JSON form of
  a configuration, the SPA-JSON writer and reader, and the proof that what
  the writer writes reads back.
- `eq`, `editor`, `actions`, `keymap`, `command`: the editor state, its key
  bindings and configuration, help text and command line.
- `number`: parameter values compared by the decimal number they denote.
- `filter_id`, `describe`, `dump`, `routing`: parameter names of the loaded
  filters, reading them back from node properties, finding equalizer nodes
  in a PipeWire object dump, and routing application streams.
- `autoeq`: browsing the AutoEQ catalogue.

## Layout

- `src/`: the verified library.
- `tests/`: tests of the library.
- `app/`: the `pw-eq` program.
