# rsshogi

A shogi library of board coordinates, pieces, hands, moves, bitboards and
game outcomes, with readers and writers for game records (CSA, KIF, KI2,
USI, JKF names) and training-data formats (HCPE, PACK, SAZ self-play,
sbinpack deltas), written in Verus: each function carries a contract in
`requires` / `ensures`, and Verus proves the code against it.

## Layout

- `src/types/`: colors, files, ranks, squares, pieces, hands, moves (the
  16-bit, 32-bit and Apery layouts and their USI text), bitboards,
  evaluations, game results and KI2 notation.
- `src/records/`: game metadata, time controls, special moves and errors.
- `src/records/formats/`:
  - `csa.rs`, `csa_header.rs`: CSA lines, headers, metadata, markers, board
    lines and the initial SFEN they give.
  - `kif.rs`, `kif_header.rs`, `kif_notation.rs`: KIF and KI2 lines,
    headers, board diagrams and hands, metadata, move lines, times,
    summaries and terminal words.
  - `hcpe.rs`, `pack.rs`, `sazpack_selfplay.rs`, `sbinpack.rs`, `wire.rs`:
    the binary training formats and their byte-level helpers.
  - `usi.rs`, `jkf.rs`, `common.rs`: USI tokens, JKF names and presets, and
    the text encodings and SFEN pieces shared by the formats.
- `src/text.rs`: the character-level text helpers the formats share.
- `tests/`: tests of the library on concrete values.
- `app/`: the stream readers and writers, and copies of the error types
  that carry `Display` through `thiserror`.

Shift_JIS text is encoded and decoded by `encoding_rs`, behind the trusted
wrappers in `src/records/formats/common.rs`. Replaying the moves of a game
record needs a position (legality, applying moves), which this crate does
not hold; the record readers here stop at what the text alone decides.
