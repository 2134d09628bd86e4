# jianpu

A verified library for jianpu (numbered musical notation) scores. Every function in
`src/` is checked by Verus against its `requires`/`ensures` contract; calls into the
`midly` and `zip` crates go through a few trusted wrappers whose contracts are stated
in their doc comments.

## Layout

- `ast/` — the parsed and the grouped score.
- `desugar`, `grouping`, `grouper`, `combiner` — from parsed parts to measures:
  implicit ditto padding, beat grouping rules, measures per part, and the multi-part
  score with its lyrics.
- `compiler/` — measures into column elements (note heads, underlines, bar lines,
  lyrics, decorations) and tie/slur spans.
- `layout/`, `grid_layout/`, `compositor/` — row heights, column widths, beam
  underlines, tie/slur arcs, directive labels, and packing measures into systems.
- `midi` (with `midi/navigation` and `midi/balance`) — the MIDI track of a score,
  the playback positions of written measures, and the proof that every struck key
  is released.
- `note_spans`, `lyric_spans`, `selection_range/` — source byte ranges of selected
  notes and syllables, and range selections between clicked elements.
- `generator/` — the single-part score format: section splitting, metadata parsing,
  grouping into measures, laying measures out on pages of grid rows, and small
  rendering helpers.
- `scan`, `text` — line splitting, trimming, number parsing and string building.
- `archive` — zipping per-track PDFs.
- `lib.rs` — track filtering, lyric filtering, split-track names and file names.

`tests/` runs the library on concrete scores.
