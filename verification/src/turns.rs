use vstd::prelude::*;
use crate::game::{FullMove, GameView, Status};
use crate::input::Key;
use crate::piece::{Piece, Pos, Variant};
use crate::rules::{board_wf, cell, lemma_captures_of, lemma_piece_moves_ok, move_ok, piece_captures, piece_moves, Move};
use crate::side_moves::{all_valid_moves, any_capture};

verus! {

/// The index of a square in the board sequence.
pub open spec fn sq_index(p: Pos) -> int {
    p.row as int * 8 + p.col as int
}

/// One less, but not below zero.
pub open spec fn sat_dec(x: u8) -> u8 {
    if x == 0 {
        0
    } else {
        (x - 1) as u8
    }
}

/// A man reaching the far row becomes a king.
pub open spec fn promoted(piece: Piece, dest: Pos) -> Piece {
    if piece == Piece::White && dest.row == 0 {
        Piece::WhiteKing
    } else if piece == Piece::Black && dest.row == 7 {
        Piece::BlackKing
    } else {
        piece
    }
}

/// The board after the piece on `from` moves to `dest`, capturing what stands on `captured`.
pub open spec fn board_after(b: Seq<Piece>, from: Pos, dest: Pos, captured: Option<Pos>) -> Seq<
    Piece,
> {
    let piece = cell(b, from.row as int, from.col as int);
    let b1 = b.update(sq_index(from), Piece::Empty);
    let b2 = match captured {
        Some(cp) => b1.update(sq_index(cp), Piece::Empty),
        None => b1,
    };
    b2.update(sq_index(dest), promoted(piece, dest))
}

/// The state after playing a move, and whether the turn is over. A capture lowers the
/// opponent's count; a side whose count reaches zero loses; after a capture the same piece
/// goes on if it can capture again.
pub open spec fn execute_move_spec(g: GameView, from: Pos, dest: Pos, captured: Option<Pos>) -> (
    GameView,
    bool,
) {
    let b = board_after(g.board, from, dest, captured);
    let wc = if captured is Some && !g.white_turn {
        sat_dec(g.white_count)
    } else {
        g.white_count
    };
    let bc = if captured is Some && g.white_turn {
        sat_dec(g.black_count)
    } else {
        g.black_count
    };
    let g1 = GameView { board: b, white_count: wc, black_count: bc, ..g };
    if wc == 0 {
        (
            GameView {
                status: Status::BlackWins,
                game_over: true,
                selected: None,
                valid_moves: seq![],
                ..g1
            },
            true,
        )
    } else if bc == 0 {
        (
            GameView {
                status: Status::WhiteWins,
                game_over: true,
                selected: None,
                valid_moves: seq![],
                ..g1
            },
            true,
        )
    } else if captured is Some && piece_captures(b, g.variant, dest).len() > 0 {
        (
            GameView {
                selected: Some(dest),
                valid_moves: piece_captures(b, g.variant, dest),
                must_continue: Some(dest),
                status: if g.white_turn {
                    Status::ContinueJumping
                } else {
                    g.status
                },
                ..g1
            },
            false,
        )
    } else {
        (g1, true)
    }
}

/// The state after handing the turn to the other side, which loses at once if it cannot move.
pub open spec fn end_turn_spec(g: GameView) -> GameView {
    let g1 = GameView {
        must_continue: None,
        selected: None,
        valid_moves: seq![],
        white_turn: !g.white_turn,
        ..g
    };
    if all_valid_moves(g1.board, g1.variant, g1.white_turn).len() == 0 {
        GameView {
            status: Status::NoMovesLeft { white_to_move: g1.white_turn },
            game_over: true,
            ..g1
        }
    } else if g1.white_turn {
        GameView { status: Status::YourTurn, ..g1 }
    } else {
        GameView { status: Status::BotThinking, bot_thinking: true, ..g1 }
    }
}

/// The state after selecting the piece on `pos`: refused unless it is a piece of the side to
/// move that has a move, and, when some piece of that side can capture, a capture.
pub open spec fn select_spec(g: GameView, pos: Pos) -> GameView {
    let piece = cell(g.board, pos.row as int, pos.col as int);
    let must = any_capture(g.board, g.variant, g.white_turn);
    let moves = if must {
        piece_captures(g.board, g.variant, pos)
    } else {
        piece_moves(g.board, g.variant, pos)
    };
    if piece == Piece::Empty || !piece.belongs_to(g.white_turn) {
        GameView { status: Status::SelectOwnPiece, ..g }
    } else if must && moves.len() == 0 {
        GameView { status: Status::MustCapture, ..g }
    } else if moves.len() == 0 {
        GameView { status: Status::PieceHasNoMoves, ..g }
    } else {
        GameView {
            selected: Some(pos),
            valid_moves: moves,
            status: Status::MoveSelected,
            ..g
        }
    }
}

/// The first move of `s`, from index `i` on, that lands on `to`.
pub open spec fn first_to(s: Seq<Move>, to: Pos, i: int) -> Option<Move>
    decreases s.len() - i,
{
    if i < 0 || i >= s.len() {
        None
    } else if s[i].0 == to {
        Some(s[i])
    } else {
        first_to(s, to, i + 1)
    }
}

pub(crate) proof fn lemma_first_to(s: Seq<Move>, to: Pos, i: int)
    ensures
        first_to(s, to, i) matches Some(m) ==> m.0 == to && exists|j: int|
            0 <= j < s.len() && #[trigger] s[j] == m,
    decreases s.len() - i,
{
    if 0 <= i < s.len() && s[i].0 != to {
        lemma_first_to(s, to, i + 1);
    }
}

/// The state after playing a move and, when the turn is over and the game is not, handing
/// the turn over.
pub open spec fn play_spec(g: GameView, from: Pos, dest: Pos, captured: Option<Pos>) -> GameView {
    let (g1, ended) = execute_move_spec(g, from, dest, captured);
    if ended && !g1.game_over {
        end_turn_spec(g1)
    } else {
        g1
    }
}

/// The state after the player asks to move the selected piece to `to`.
pub open spec fn try_move_spec(g: GameView, to: Pos) -> GameView {
    match first_to(g.valid_moves, to, 0) {
        Some(m) => play_spec(g, g.selected.unwrap(), m.0, m.1),
        None => GameView { status: Status::InvalidMove, ..g },
    }
}


/// How far the landing column is from the two centre columns.
pub open spec fn center_dist(c: int) -> int {
    let a = if c - 3 < 0 {
        3 - c
    } else {
        c - 3
    };
    let d = if c - 4 < 0 {
        4 - c
    } else {
        c - 4
    };
    if a <= d {
        a
    } else {
        d
    }
}

/// How much the bot likes a move: captures most, then moves of kings, then advancing down
/// the board, then landing near the centre.
pub open spec fn bot_score(b: Seq<Piece>, m: FullMove) -> int {
    (if m.2 is Some {
        1000int
    } else {
        0int
    }) + (if cell(b, m.0.row as int, m.0.col as int).is_king() {
        100int
    } else {
        0int
    }) + m.1.row as int * 10 - center_dist(m.1.col as int) * 2
}

/// The index of the best-scoring move among the first `n` of `ms`; the last one on ties.
pub open spec fn best_index(b: Seq<Piece>, ms: Seq<FullMove>, n: int) -> int
    decreases n,
{
    if n <= 1 {
        0
    } else {
        let k = best_index(b, ms, n - 1);
        if bot_score(b, ms[n - 1]) >= bot_score(b, ms[k]) {
            n - 1
        } else {
            k
        }
    }
}

/// The number of occupied squares.
pub open spec fn occupied(b: Seq<Piece>) -> nat
    decreases b.len(),
{
    if b.len() == 0 {
        0
    } else {
        occupied(b.drop_last()) + if b.last() != Piece::Empty {
            1nat
        } else {
            0nat
        }
    }
}

/// The bot's continuation of a jump: while the game goes on and the piece on
/// `must_continue` can capture, it plays its first capture; `fuel` bounds the number of jumps.
pub open spec fn jump_chain(g: GameView, fuel: nat) -> GameView
    decreases fuel,
{
    if fuel == 0 || !(g.must_continue is Some) || g.game_over {
        g
    } else {
        let pos = g.must_continue.unwrap();
        let caps = piece_captures(g.board, g.variant, pos);
        if caps.len() == 0 {
            g
        } else {
            let (g1, ended) = execute_move_spec(g, pos, caps[0].0, caps[0].1);
            if ended {
                if !g1.game_over {
                    end_turn_spec(g1)
                } else {
                    g1
                }
            } else {
                jump_chain(g1, (fuel - 1) as nat)
            }
        }
    }
}

/// The bot's turn: it plays its best-scoring move, then hands the turn over or goes on
/// jumping.
pub open spec fn bot_move_spec(g: GameView) -> GameView {
    let g0 = GameView { bot_thinking: false, ..g };
    let ms = all_valid_moves(g.board, g.variant, false);
    if ms.len() == 0 {
        g0
    } else {
        let m = ms[best_index(g.board, ms, ms.len() as int)];
        let (g1, ended) = execute_move_spec(g0, m.0, m.1, m.2);
        if ended && !g1.game_over {
            end_turn_spec(g1)
        } else if !ended && !g1.game_over {
            jump_chain(g1, occupied(g1.board))
        } else {
            g1
        }
    }
}

pub(crate) proof fn lemma_occupied_update(b: Seq<Piece>, i: int, p: Piece)
    requires
        0 <= i < b.len(),
    ensures
        occupied(b.update(i, p)) + (if b[i] != Piece::Empty {
            1int
        } else {
            0int
        }) == occupied(b) + (if p != Piece::Empty {
            1int
        } else {
            0int
        }),
    decreases b.len(),
{
    let u = b.update(i, p);
    if i == b.len() - 1 {
        assert(u.drop_last() =~= b.drop_last());
    } else {
        assert(u.drop_last() =~= b.drop_last().update(i, p));
        lemma_occupied_update(b.drop_last(), i, p);
    }
}

/// A plain move keeps the number of pieces on the board; a capture removes exactly one.
pub proof fn law_move_removes_captured_piece(b: Seq<Piece>, v: Variant, pos: Pos, k: int)
    requires
        board_wf(b),
        pos.on_board(),
        0 <= k < piece_moves(b, v, pos).len(),
    ensures
        ({
            let m = piece_moves(b, v, pos)[k];
            occupied(board_after(b, pos, m.0, m.1)) + (if m.1 is Some {
                1int
            } else {
                0int
            }) == occupied(b)
        }),
{
    let m = piece_moves(b, v, pos)[k];
    let piece = cell(b, pos.row as int, pos.col as int);
    lemma_piece_moves_ok(b, v, pos);
    assert(move_ok(b, piece, m));
    let b1 = b.update(sq_index(pos), Piece::Empty);
    let b2 = match m.1 {
        Some(cp) => b1.update(sq_index(cp), Piece::Empty),
        None => b1,
    };
    lemma_occupied_update(b, sq_index(pos), Piece::Empty);
    if let Some(cp) = m.1 {
        assert(b1[sq_index(cp)] != Piece::Empty);
        lemma_occupied_update(b1, sq_index(cp), Piece::Empty);
    }
    assert(b2[sq_index(m.0)] == Piece::Empty);
    lemma_occupied_update(b2, sq_index(m.0), promoted(piece, m.0));
}

/// A capture removes exactly one piece from the board.
pub proof fn lemma_capture_removes_one(b: Seq<Piece>, v: Variant, pos: Pos, k: int)
    requires
        board_wf(b),
        pos.on_board(),
        0 <= k < piece_captures(b, v, pos).len(),
    ensures
        occupied(board_after(b, pos, piece_captures(b, v, pos)[k].0, piece_captures(b, v, pos)[k].1))
            + 1 == occupied(b),
{
    let pm = piece_moves(b, v, pos);
    lemma_captures_of(b, cell(b, pos.row as int, pos.col as int), pm);
    let m = piece_captures(b, v, pos)[k];
    let j = choose|j: int| 0 <= j < pm.len() && pm[j] == m;
    law_move_removes_captured_piece(b, v, pos, j);
}

/// Whether key `key` starts the game over: R (either case) when the game is over or while it
/// is the player's turn.
pub open spec fn restarts(g: GameView, key: Key) -> bool {
    (key == Key::Char('r') || key == Key::Char('R')) && (g.game_over || g.white_turn)
}

/// Dropping the selection, unless a piece has to go on jumping.
pub open spec fn deselect_spec(g: GameView) -> GameView {
    if g.must_continue is None {
        GameView { selected: None, valid_moves: seq![], status: Status::YourTurn, ..g }
    } else {
        g
    }
}

/// The player's answer to a key other than a restart: nothing once the game is over or while
/// the bot plays; arrows move the cursor within the board; Enter or space selects the piece
/// under the cursor, drops the selection when the cursor is on the selected piece, or moves
/// the selected piece there; Esc drops the selection.
pub open spec fn handle_key_spec(g: GameView, key: Key) -> GameView {
    if g.game_over || !g.white_turn {
        g
    } else {
        match key {
            Key::Up => if g.cursor.row > 0 {
                GameView { cursor: Pos { row: (g.cursor.row - 1) as usize, ..g.cursor }, ..g }
            } else {
                g
            },
            Key::Down => if g.cursor.row < 7 {
                GameView { cursor: Pos { row: (g.cursor.row + 1) as usize, ..g.cursor }, ..g }
            } else {
                g
            },
            Key::Left => if g.cursor.col > 0 {
                GameView { cursor: Pos { col: (g.cursor.col - 1) as usize, ..g.cursor }, ..g }
            } else {
                g
            },
            Key::Right => if g.cursor.col < 7 {
                GameView { cursor: Pos { col: (g.cursor.col + 1) as usize, ..g.cursor }, ..g }
            } else {
                g
            },
            Key::Enter => activate_spec(g),
            Key::Char(ch) => if ch == ' ' {
                activate_spec(g)
            } else {
                g
            },
            Key::Esc => deselect_spec(g),
            Key::Other => g,
        }
    }
}

/// Enter or space on the square under the cursor.
pub open spec fn activate_spec(g: GameView) -> GameView {
    let pos = g.cursor;
    match g.selected {
        Some(sel) => if pos == sel {
            deselect_spec(g)
        } else {
            try_move_spec(g, pos)
        },
        None => select_spec(g, pos),
    }
}


} // verus!
