# strum2midi

Converts strum charts — chord lines over strum-pattern lines — into Standard
MIDI Files, with plain close-position chords or guitar voicings (the built-in
`folk` and `rock` sets, plus custom voicing files).

The library in `src/` is written in Verus: each public function states what it
returns over a mathematical model of its inputs, and Verus proves the code
against those statements.

- `text` — characters, lines, words and decimal numbers
- `parser` — the chart format, to a `Song`
- `validate` — required metadata, supported meters and grids, bar shapes,
  known chords, and voicings for every chord when a voicing set applies
- `harmony`, `chord` — chord symbols, their intervals and close-position notes
- `voicing` — guitar shapes, the built-in sets, custom voicing files, and the
  choice of a voicing for a chord
- `timing` — ticks per slot, beat and bar
- `midi_writer` — strokes, markers, time order and the bytes of the file
- `cli` — command-line arguments

`app/main.rs` is the command itself: it reads and writes files and prints.
`tests/` runs the library on concrete charts.
