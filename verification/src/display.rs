use vstd::prelude::*;
use crate::game::{is_new_game, Game, GameView};
use crate::piece::{Piece, Pos, Variant};
use crate::rules::{cell, in_bounds, Move};

verus! {

/// How a square of the board is painted.
#[derive(Clone, Copy, PartialEq, Eq, Structural, Debug)]
pub enum Shade {
    Cursor,
    Selected,
    Target,
    Dark,
    Light,
}

/// Some move of `s` lands on `pos`.
pub open spec fn lands_on(s: Seq<Move>, pos: Pos) -> bool {
    exists|i: int| 0 <= i < s.len() && (#[trigger] s[i]).0 == pos
}

/// The cursor shows only on the player's turn and wins over the selection, which wins over
/// the highlighted targets; other squares alternate dark and light.
pub open spec fn shade_spec(g: GameView, pos: Pos) -> Shade {
    if g.white_turn && g.cursor == pos {
        Shade::Cursor
    } else if g.selected == Some(pos) {
        Shade::Selected
    } else if lands_on(g.valid_moves, pos) {
        Shade::Target
    } else if (pos.row + pos.col) % 2 == 1 {
        Shade::Dark
    } else {
        Shade::Light
    }
}

/// Whether some move of the selected piece lands on `pos`.
pub fn is_target(game: &Game, pos: Pos) -> (res: bool)
    ensures
        res == lands_on(game.valid_moves@, pos),
{
    let mut i: usize = 0;
    while i < game.valid_moves.len()
        invariant
            i <= game.valid_moves@.len(),
            forall|j: int| 0 <= j < i ==> (#[trigger] game.valid_moves@[j]).0 != pos,
        decreases game.valid_moves.len() - i,
    {
        if game.valid_moves[i].0 == pos {
            return true;
        }
        i = i + 1;
    }
    false
}

/// How the square `pos` is painted.
pub fn shade(game: &Game, pos: Pos) -> (s: Shade)
    requires
        pos.on_board(),
    ensures
        s == shade_spec(game@, pos),
{
    if game.white_turn && game.cursor == pos {
        Shade::Cursor
    } else if game.selected == Some(pos) {
        Shade::Selected
    } else if is_target(game, pos) {
        Shade::Target
    } else if (pos.row + pos.col) % 2 == 1 {
        Shade::Dark
    } else {
        Shade::Light
    }
}

pub open spec fn symbol_spec(p: Piece) -> Seq<char> {
    match p {
        Piece::Empty => ""@,
        Piece::White | Piece::Black => "( )"@,
        Piece::WhiteKing | Piece::BlackKing => "(K)"@,
    }
}

/// The text drawn for a piece: kings are marked with a K; an empty square shows nothing.
pub fn piece_symbol(p: Piece) -> (s: &'static str)
    ensures
        s@ == symbol_spec(p),
{
    match p {
        Piece::Empty => "",
        Piece::White | Piece::Black => "( )",
        Piece::WhiteKing | Piece::BlackKing => "(K)",
    }
}

/// The colour of the status line.
#[derive(Clone, Copy, PartialEq, Eq, Structural, Debug)]
pub enum Tone {
    Finished,
    Waiting,
    Active,
}

pub open spec fn tone_spec(g: GameView) -> Tone {
    if g.game_over {
        Tone::Finished
    } else if g.bot_thinking || !g.white_turn {
        Tone::Waiting
    } else {
        Tone::Active
    }
}

/// The status line is marked when the game is over, dimmed while the bot plays.
pub fn status_tone(game: &Game) -> (t: Tone)
    ensures
        t == tone_spec(game@),
{
    if game.game_over {
        Tone::Finished
    } else if game.bot_thinking || !game.white_turn {
        Tone::Waiting
    } else {
        Tone::Active
    }
}

/// An empty square that a move of the selected piece lands on carries a dot.
pub fn shows_dot(game: &Game, pos: Pos) -> (res: bool)
    requires
        game@.wf(),
        pos.on_board(),
    ensures
        res == (lands_on(game.valid_moves@, pos) && game.board@[pos.row * 8 + pos.col]
            == Piece::Empty),
{
    is_target(game, pos) && game.board[pos.row * 8 + pos.col] == Piece::Empty
}

/// A square that is neither the cursor shown, the selection nor a target is painted plain.
pub open spec fn plain_square(g: GameView, pos: Pos) -> bool {
    !(g.white_turn && g.cursor == pos) && g.selected != Some(pos) && !lands_on(g.valid_moves, pos)
}

/// Plain squares alternate dark and light: two plain squares side by side in a row or a
/// column differ, and the top-left corner is light.
pub proof fn law_plain_squares_alternate(g: GameView, p: Pos, q: Pos)
    requires
        p.on_board(),
        q.on_board(),
        plain_square(g, p),
        plain_square(g, q),
        (p.row == q.row && p.col + 1 == q.col) || (p.col == q.col && p.row + 1 == q.row),
    ensures
        shade_spec(g, p) == Shade::Dark || shade_spec(g, p) == Shade::Light,
        shade_spec(g, q) == Shade::Dark || shade_spec(g, q) == Shade::Light,
        shade_spec(g, p) != shade_spec(g, q),
        plain_square(g, Pos { row: 0, col: 0 }) ==> shade_spec(g, Pos { row: 0, col: 0 })
            == Shade::Light,
{
}

/// In the diagonal variants a new game places its pieces on dark squares only.
pub proof fn law_pieces_start_on_dark_squares(g: GameView, v: Variant, pos: Pos)
    requires
        !v.orthogonal(),
        is_new_game(g, v),
        pos.on_board(),
        pos != g.cursor,
        cell(g.board, pos.row as int, pos.col as int) != Piece::Empty,
    ensures
        shade_spec(g, pos) == Shade::Dark,
{
    assert(in_bounds(pos.row as int, pos.col as int));
}

/// A king is drawn with a K, a man without; an empty square shows nothing, and both sides'
/// pieces of one kind look the same.
pub proof fn law_symbol_marks_kings(p: Piece)
    ensures
        (symbol_spec(p).len() == 0) == (p == Piece::Empty),
        p != Piece::Empty ==> symbol_spec(p).len() == 3 && (symbol_spec(p)[1] == 'K') == p.is_king(),
        symbol_spec(Piece::White) == symbol_spec(Piece::Black),
        symbol_spec(Piece::WhiteKing) == symbol_spec(Piece::BlackKing),
{
    reveal_strlit("");
    reveal_strlit("( )");
    reveal_strlit("(K)");
}

} // verus!
