use vstd::prelude::*;
use crate::game::FullMove;
use crate::piece::{Piece, Pos, Variant};
use crate::rules::{
    all_ok, board_wf, cell, in_bounds, lemma_captures_of, lemma_piece_moves_ok, move_ok,
    piece_captures, piece_moves, sq, Move,
};
use crate::game::moves_on_board;

verus! {

/// A piece of side `white` stands on (r, c) and can capture.
pub open spec fn has_capture_at(b: Seq<Piece>, v: Variant, white: bool, r: int, c: int) -> bool {
    let p = cell(b, r, c);
    p != Piece::Empty && p.belongs_to(white) && piece_captures(b, v, sq(r, c)).len() > 0
}

/// Some piece of side `white` can capture.
pub open spec fn any_capture(b: Seq<Piece>, v: Variant, white: bool) -> bool {
    exists|r: int, c: int| in_bounds(r, c) && #[trigger] has_capture_at(b, v, white, r, c)
}

/// The moves `s` of the piece on `from`, each with its starting square.
pub open spec fn with_from(from: Pos, s: Seq<Move>) -> Seq<FullMove> {
    Seq::new(s.len(), |i: int| (from, s[i].0, s[i].1))
}

/// The moves of the piece of side `white` on (r, c): only its captures when `must`.
pub open spec fn square_moves(b: Seq<Piece>, v: Variant, white: bool, must: bool, r: int, c: int) -> Seq<
    FullMove,
> {
    let p = cell(b, r, c);
    if p != Piece::Empty && p.belongs_to(white) {
        with_from(
            sq(r, c),
            if must {
                piece_captures(b, v, sq(r, c))
            } else {
                piece_moves(b, v, sq(r, c))
            },
        )
    } else {
        seq![]
    }
}

/// The moves of the first `n` squares of row `r`, left to right.
pub open spec fn row_moves(b: Seq<Piece>, v: Variant, white: bool, must: bool, r: int, n: int) -> Seq<
    FullMove,
>
    decreases n,
{
    if n <= 0 {
        seq![]
    } else {
        row_moves(b, v, white, must, r, n - 1) + square_moves(b, v, white, must, r, n - 1)
    }
}

/// The moves of the first `n` rows, top to bottom.
pub open spec fn rows_moves(b: Seq<Piece>, v: Variant, white: bool, must: bool, n: int) -> Seq<
    FullMove,
>
    decreases n,
{
    if n <= 0 {
        seq![]
    } else {
        rows_moves(b, v, white, must, n - 1) + row_moves(b, v, white, must, n - 1, 8)
    }
}

/// Every move side `white` may play, square by square: only captures when one is possible.
pub open spec fn all_valid_moves(b: Seq<Piece>, v: Variant, white: bool) -> Seq<FullMove> {
    rows_moves(b, v, white, any_capture(b, v, white), 8)
}


/// The moves and captures of any square lie on the board.
pub proof fn lemma_moves_on_board(b: Seq<Piece>, v: Variant, pos: Pos)
    requires
        board_wf(b),
    ensures
        moves_on_board(piece_moves(b, v, pos)),
        moves_on_board(piece_captures(b, v, pos)),
        all_ok(b, cell(b, pos.row as int, pos.col as int), piece_captures(b, v, pos)),
{
    let piece = cell(b, pos.row as int, pos.col as int);
    lemma_piece_moves_ok(b, v, pos);
    lemma_captures_of(b, piece, piece_moves(b, v, pos));
    let s = piece_moves(b, v, pos);
    let t = piece_captures(b, v, pos);
    assert forall|i: int| 0 <= i < s.len() implies (#[trigger] s[i]).0.on_board() && (s[i].1 matches Some(cp) ==> cp.on_board()) by {
        assert(move_ok(b, piece, s[i]));
    }
    assert forall|i: int| 0 <= i < t.len() implies (#[trigger] t[i]).0.on_board() && (t[i].1 matches Some(cp) ==> cp.on_board()) by {
        assert(move_ok(b, piece, t[i]));
    }
}


pub open spec fn full_moves_on_board(s: Seq<FullMove>) -> bool {
    forall|i: int|
        0 <= i < s.len() ==> (#[trigger] s[i]).0.on_board() && s[i].1.on_board() && (s[i].2 matches Some(
            cp,
        ) ==> cp.on_board())
}

proof fn lemma_square_moves_on_board(b: Seq<Piece>, v: Variant, white: bool, must: bool, r: int, c: int)
    requires
        board_wf(b),
        in_bounds(r, c),
    ensures
        full_moves_on_board(square_moves(b, v, white, must, r, c)),
{
    lemma_moves_on_board(b, v, sq(r, c));
}

proof fn lemma_row_moves_on_board(b: Seq<Piece>, v: Variant, white: bool, must: bool, r: int, n: int)
    requires
        board_wf(b),
        0 <= r < 8,
        n <= 8,
    ensures
        full_moves_on_board(row_moves(b, v, white, must, r, n)),
    decreases n,
{
    if n > 0 {
        lemma_row_moves_on_board(b, v, white, must, r, n - 1);
        lemma_square_moves_on_board(b, v, white, must, r, n - 1);
        let s = row_moves(b, v, white, must, r, n - 1);
        let t = square_moves(b, v, white, must, r, n - 1);
        assert forall|i: int| 0 <= i < (s + t).len() implies (#[trigger] (s + t)[i]).0.on_board()
            && (s + t)[i].1.on_board() && ((s + t)[i].2 matches Some(cp) ==> cp.on_board()) by {
            if i < s.len() {
                assert((s + t)[i] == s[i]);
            } else {
                assert((s + t)[i] == t[i - s.len()]);
            }
        }
    }
}

proof fn lemma_rows_moves_on_board(b: Seq<Piece>, v: Variant, white: bool, must: bool, n: int)
    requires
        board_wf(b),
        n <= 8,
    ensures
        full_moves_on_board(rows_moves(b, v, white, must, n)),
    decreases n,
{
    if n > 0 {
        lemma_rows_moves_on_board(b, v, white, must, n - 1);
        lemma_row_moves_on_board(b, v, white, must, n - 1, 8);
        let s = rows_moves(b, v, white, must, n - 1);
        let t = row_moves(b, v, white, must, n - 1, 8);
        assert forall|i: int| 0 <= i < (s + t).len() implies (#[trigger] (s + t)[i]).0.on_board()
            && (s + t)[i].1.on_board() && ((s + t)[i].2 matches Some(cp) ==> cp.on_board()) by {
            if i < s.len() {
                assert((s + t)[i] == s[i]);
            } else {
                assert((s + t)[i] == t[i - s.len()]);
            }
        }
    }
}

/// Every move the rules let a side play starts, lands and captures on the board.
pub proof fn lemma_all_valid_moves_on_board(b: Seq<Piece>, v: Variant, white: bool)
    requires
        board_wf(b),
    ensures
        full_moves_on_board(all_valid_moves(b, v, white)),
{
    lemma_rows_moves_on_board(b, v, white, any_capture(b, v, white), 8);
}


} // verus!
