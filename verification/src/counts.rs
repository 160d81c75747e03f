use vstd::prelude::*;
use crate::game::{initial_cell, initial_count, is_new_game, GameView};
use crate::turns::sq_index;
use crate::piece::Variant;
use crate::piece::{Piece, Pos};
use crate::rules::{board_wf, cell, in_bounds};

verus! {

/// 1 when `p` is a piece of side `white`, else 0.
pub open spec fn side_at(p: Piece, white: bool) -> int {
    if p.belongs_to(white) {
        1
    } else {
        0
    }
}

/// The pieces of side `white` on the first `n` squares of row `r`.
pub open spec fn count_row(b: Seq<Piece>, white: bool, r: int, n: int) -> int
    decreases n,
{
    if n <= 0 {
        0
    } else {
        count_row(b, white, r, n - 1) + side_at(cell(b, r, n - 1), white)
    }
}

/// The pieces of side `white` on the first `n` rows.
pub open spec fn count_rows(b: Seq<Piece>, white: bool, n: int) -> int
    decreases n,
{
    if n <= 0 {
        0
    } else {
        count_rows(b, white, n - 1) + count_row(b, white, n - 1, 8)
    }
}

/// The number of pieces of side `white` on the board.
pub open spec fn count_side(b: Seq<Piece>, white: bool) -> int {
    count_rows(b, white, 8)
}

proof fn lemma_count_row_update(b: Seq<Piece>, white: bool, p: Pos, x: Piece, r: int, n: int)
    requires
        board_wf(b),
        p.on_board(),
        0 <= r < 8,
        n <= 8,
    ensures
        count_row(b.update(sq_index(p), x), white, r, n) == count_row(b, white, r, n) + (if r
            == p.row && p.col < n {
            side_at(x, white) - side_at(cell(b, r, p.col as int), white)
        } else {
            0
        }),
    decreases n,
{
    if n > 0 {
        lemma_count_row_update(b, white, p, x, r, n - 1);
        let i = r * 8 + (n - 1);
        if r == p.row && p.col == n - 1 {
            assert(i == sq_index(p));
        } else {
            assert(i != sq_index(p));
        }
    }
}

proof fn lemma_count_rows_update(b: Seq<Piece>, white: bool, p: Pos, x: Piece, n: int)
    requires
        board_wf(b),
        p.on_board(),
        n <= 8,
    ensures
        count_rows(b.update(sq_index(p), x), white, n) == count_rows(b, white, n) + (if p.row < n {
            side_at(x, white) - side_at(cell(b, p.row as int, p.col as int), white)
        } else {
            0
        }),
    decreases n,
{
    if n > 0 {
        lemma_count_rows_update(b, white, p, x, n - 1);
        lemma_count_row_update(b, white, p, x, n - 1, 8);
    }
}

/// Putting `x` on square `p` changes the count of a side by what leaves and what arrives.
pub proof fn lemma_count_update(b: Seq<Piece>, white: bool, p: Pos, x: Piece)
    requires
        board_wf(b),
        p.on_board(),
    ensures
        count_side(b.update(sq_index(p), x), white) == count_side(b, white) + side_at(x, white)
            - side_at(cell(b, p.row as int, p.col as int), white),
{
    lemma_count_rows_update(b, white, p, x, 8);
}

/// The pieces of side `white` on row `r` at the start of a game.
pub open spec fn initial_row_count(v: Variant, white: bool, r: int) -> int {
    if v.orthogonal() {
        if (white && 5 <= r < 7) || (!white && 1 <= r < 3) {
            8
        } else {
            0
        }
    } else {
        if (white && 5 <= r < 8) || (!white && 0 <= r < 3) {
            4
        } else {
            0
        }
    }
}

proof fn lemma_initial_row(b: Seq<Piece>, v: Variant, white: bool, r: int)
    requires
        board_wf(b),
        0 <= r < 8,
        forall|rr: int, cc: int|
            in_bounds(rr, cc) ==> #[trigger] cell(b, rr, cc) == initial_cell(v, rr, cc),
    ensures
        count_row(b, white, r, 8) == initial_row_count(v, white, r),
{
    reveal_with_fuel(count_row, 9);
    assert(cell(b, r, 0) == initial_cell(v, r, 0));
    assert(cell(b, r, 1) == initial_cell(v, r, 1));
    assert(cell(b, r, 2) == initial_cell(v, r, 2));
    assert(cell(b, r, 3) == initial_cell(v, r, 3));
    assert(cell(b, r, 4) == initial_cell(v, r, 4));
    assert(cell(b, r, 5) == initial_cell(v, r, 5));
    assert(cell(b, r, 6) == initial_cell(v, r, 6));
    assert(cell(b, r, 7) == initial_cell(v, r, 7));
    if r == 0 {
    } else if r == 1 {
    } else if r == 2 {
    } else if r == 3 {
    } else if r == 4 {
    } else if r == 5 {
    } else if r == 6 {
    } else {
    }
}

/// A new game places as many pieces a side as its counts say: twelve, sixteen in the
/// orthogonal variant.
pub proof fn law_new_game_pieces(g: GameView, v: Variant)
    requires
        is_new_game(g, v),
    ensures
        count_side(g.board, true) == initial_count(v) as int,
        count_side(g.board, false) == initial_count(v) as int,
{
    reveal_with_fuel(count_rows, 9);
    lemma_initial_row(g.board, v, true, 0);
    lemma_initial_row(g.board, v, true, 1);
    lemma_initial_row(g.board, v, true, 2);
    lemma_initial_row(g.board, v, true, 3);
    lemma_initial_row(g.board, v, true, 4);
    lemma_initial_row(g.board, v, true, 5);
    lemma_initial_row(g.board, v, true, 6);
    lemma_initial_row(g.board, v, true, 7);
    lemma_initial_row(g.board, v, false, 0);
    lemma_initial_row(g.board, v, false, 1);
    lemma_initial_row(g.board, v, false, 2);
    lemma_initial_row(g.board, v, false, 3);
    lemma_initial_row(g.board, v, false, 4);
    lemma_initial_row(g.board, v, false, 5);
    lemma_initial_row(g.board, v, false, 6);
    lemma_initial_row(g.board, v, false, 7);
}

proof fn lemma_count_row_nonneg(b: Seq<Piece>, white: bool, r: int, n: int)
    ensures
        count_row(b, white, r, n) >= 0,
    decreases n,
{
    if n > 0 {
        lemma_count_row_nonneg(b, white, r, n - 1);
    }
}

proof fn lemma_count_rows_nonneg(b: Seq<Piece>, white: bool, n: int)
    ensures
        count_rows(b, white, n) >= 0,
    decreases n,
{
    if n > 0 {
        lemma_count_rows_nonneg(b, white, n - 1);
        lemma_count_row_nonneg(b, white, n - 1, 8);
    }
}

/// No side has fewer than no pieces.
pub proof fn lemma_count_nonneg(b: Seq<Piece>, white: bool)
    ensures
        count_side(b, white) >= 0,
{
    lemma_count_rows_nonneg(b, white, 8);
}

} // verus!
