# checkers

A terminal checkers game with four rule variants (Russian, English, Brazilian, Turkish),
split into a verified library and a thin terminal front end.

- `src/piece.rs` — variants, pieces and squares.
- `src/rules.rs` — the moves of one piece as mathematical sequences, the code that lists
  them, and proofs that every move lands on an empty square and captures an enemy piece.
- `src/game.rs` — the game state, its mathematical view, and the operations of a turn.
- `src/side_moves.rs` — the moves a whole side may play, with mandatory capture.
- `src/turns.rs` — the state transitions: selecting, moving, handing the turn over, the bot.
- `src/counts.rs` — piece counts and how a move changes them.
- `src/input.rs`, `src/display.rs` — keys, the variant menu and how squares are painted.
- `src/distinct.rs` — proofs that moves go along the variant's lines, that no move is listed
  twice, and that a side's moves come square by square in reading order.
- `src/laws.rs` — properties that span operations, such as the counts matching the board.
- `app/main.rs` — reading keys and drawing with crossterm.
