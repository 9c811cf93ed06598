# quire_ui

The screen logic of the Quire e-reader, written in Verus: every function in `src/`
carries a contract, and the library verifies against it.

- `src/keys.rs`, `src/ui.rs` — key events, the screen stack and where a key goes.
- `src/cursor.rs` — the word cursor on a reading page.
- `src/reader.rs` — page counts, page numbers, chapter jumps and the progress strip.
- `src/dict/` — the card (StarDict) and built-in dictionaries, with stemmed lookup.
- `src/bookshop/` — the catalog, its fixed-record file (writer, reader and the laws
  between them) and the starter shelf.
- `src/games/` — Sudoku, 2048, Minesweeper, chess and Wordle.
- `src/screens/` — the state of the other screens and the text they show.
- `src/textutil.rs`, `src/qr.rs` — text helpers and the QR size, the few places where
  the library relies on std or an outside crate through a stated contract.
- `tests/` — tests on concrete values.
- `app/` — file storage, serialisation and the rest that needs I/O or floating point.
