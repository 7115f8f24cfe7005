# chess_engine

A bitboard chess move generator with a verified core.

The library in `src/` is checked by Verus: every public function states what
it computes over a mathematical model of the board (`BoardModel`). Reading a
FEN record, generating moves, playing and taking them back and counting perft
leaves each have exact contracts; boards stay consistent under the conditions
the laws in `board`, `fen` and `consistency` state (a FEN whose ranks fit on
the board, moves that fit the board they are played on), and `perft` is shown
to run from any sane board up to five moves deep.

- `piece`, `squares`, `bitboard`: piece codes, square names, bitboard helpers.
- `moves`: the 16-bit packed `Move`, the move list and the undo stack.
- `board`: the board (bitboards plus a mailbox), `do_move` and `undo_move`,
  with the law that undoing a move gives the board back.
- `move_generator`: attack sets, pseudo-legal and legal move generation,
  check detection and `perft`, which remembers the leaf counts of positions
  it has already counted.
- `attack_tables`: magic-indexed rook and bishop attack tables.
- `king_safety`: why most moves need no check test at the leaves.
- `consistency`: the laws that keep boards playable: the moves listed for a
  sane board fit it, and playing one leaves the board sane.
- `fen`: reading a position in Forsyth-Edwards notation, with a check of
  whether a record can be read at all.
- `game`: the state of a game in the user interface: selection, promotion,
  taking moves back.

`app/` holds the desktop interface (eframe and egui) around the library. It
plays locally only: play against a peer over the network needs a networking
crate that is not part of this project, so the interface offers no online
game. The library keeps the game's peer side (`OnlineGame`), which refuses
moves of the other side's pieces.
`tests/` runs the perft suite and the library's own scenarios.
