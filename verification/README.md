# shogi_kifu_converter

Shogi game records (kifu) in the JSON Kifu Format (JKF), with their
conversions to and from the text formats players use, verified with Verus.

## Layout

- `src/jkf.rs` — the JKF types: a record's header, starting position and move
  tree, and the words each format has for an outcome.
- `src/handicap.rs` — the handicap table: names, removed pieces, boards, and
  whose turn each ply is.
- `src/position.rs` — a position as the normalizer replays it; `src/engine.rs`
  holds the calls into `shogi_core`, `shogi_legality_lite` and
  `shogi_official_kifu` that stand behind it.
- `src/normalizer.rs` — fills in what a record leaves out (origins, captures,
  promotion flags, `same`, relative words, running times), folds a spelled-out
  handicap start into its preset, and reports the first move that does not
  replay.
- `src/converter/` — writers for CSA, KIF, KI2 and USI.
- `src/parser.rs`, `src/parser/` — decoding bytes (UTF-8 or Shift-JIS), CSA
  reading through the `csa` crate, the lines KIF and KI2 share (the header
  block, the board diagram, the numbered move line, the shapes that tell
  where a line starts), and the two move-list readers: `parser/kif.rs`
  (numbered runs and `変化：` blocks hung by ply number) and `parser/ki2.rs`
  (moves with side marks, the `まで…` outcome line, `変化：N手` blocks hung
  along the branches last entered). `parser/tree.rs` holds the move tree
  the readers' contracts speak of. `parse_kif_str` and `parse_ki2_str` put
  a reader and the normalizer together and say where a text stops being
  readable.
- `src/properties.rs` — laws that relate several functions: outcome words
  per format, turns, promotion, hands, folding a position into its preset,
  normalized moves, ply numbering. `src/properties/header_block.rs` and
  `src/properties/move_line.rs` state what the KIF readers give back of what
  the KIF writer writes: board diagrams, hands, starting positions, handicap
  lines, header lines, comments and move lines. `src/properties/` also holds
  what normalizing and filling in relative words keep and change, that
  either comes to one result, and that a record read names each header key
  once.
- `app/` — file reading (with the extension choosing the encoding tried
  first), JSON (`serde`) and error display.

Each public function states its result in its `ensures`, over the spec
functions beside it; the calls into outside crates are the `external_body`
functions, each with a doc comment that says what is believed of it.
