# riichi_tools_rs

A library of riichi mahjong tools, written in Verus: every function of the library
carries a contract that Verus proves.

- Tiles, their ids, notation and order; hands read from and written as text
  (`123m456p789s11z(p5z1)`), calls and closed kans.
- Shanten, the tiles that improve a hand (uke-ire) and the splits of a complete hand.
- Yaku, fu and the score of a complete hand; hand values from points.
- A game table and its state; the closed kans a player may make.
- Random hands, and the South 4 simulator (guess the hands that overtake the leader).
- The fast shanten and uke-ire calculator: its lookup tables, read from their texts, its
  classifiers (chiitoitsu, kokushi, suits, honors, arrangements) and the calculator that
  reads a hand, draws, discards, calls and kans; the tables themselves are data that the
  library is handed (app/ reads them from their files).

Layout:

- `src/riichi/` is the verified library, one module per subject; `laws.rs` states and
  proves properties that relate its functions.
- `tests/` runs the library on concrete hands and tables.
- `app/` is the WebAssembly face of the library: JSON in and out, the table's parameters
  read from JSON, and the tile safety estimates, which work in floating point.
