use vstd::prelude::*;
use crate::counts::{count_side, lemma_count_nonneg, lemma_count_update, law_new_game_pieces};
use crate::game::{is_new_game, FullMove, GameView, Status};
use crate::side_moves::{
    all_valid_moves, any_capture, has_capture_at, lemma_moves_on_board, row_moves, rows_moves,
    square_moves, with_from,
};
use crate::turns::{
    best_index, board_after, bot_move_spec, bot_score, end_turn_spec, execute_move_spec, first_to,
    handle_key_spec, jump_chain, lemma_capture_removes_one, occupied, play_spec, promoted, restarts, select_spec, sq_index,
    try_move_spec,
};
use crate::input::Key;
use crate::piece::{Piece, Pos, Variant};
use crate::rules::{
    board_wf, captures_of, cell, in_bounds, lemma_captures_of, lemma_piece_moves_ok,
    move_ok, piece_captures, piece_moves, sq, Move,
};

verus! {

/// Move `m` of side `white` starts from a piece of that side, is one of that piece's moves,
/// and is a capture exactly when `must` says so.
pub open spec fn side_move_ok(b: Seq<Piece>, v: Variant, white: bool, must: bool, m: FullMove) -> bool {
    &&& m.0.on_board()
    &&& cell(b, m.0.row as int, m.0.col as int).belongs_to(white)
    &&& piece_moves(b, v, m.0).contains((m.1, m.2))
    &&& (m.2 is Some <==> must)
}

pub open spec fn all_side_moves_ok(b: Seq<Piece>, v: Variant, white: bool, must: bool, s: Seq<FullMove>) -> bool {
    forall|i: int| 0 <= i < s.len() ==> side_move_ok(b, v, white, must, #[trigger] s[i])
}

proof fn lemma_side_ok_add(
    b: Seq<Piece>,
    v: Variant,
    white: bool,
    must: bool,
    s: Seq<FullMove>,
    t: Seq<FullMove>,
)
    requires
        all_side_moves_ok(b, v, white, must, s),
        all_side_moves_ok(b, v, white, must, t),
    ensures
        all_side_moves_ok(b, v, white, must, s + t),
{
    assert forall|i: int| 0 <= i < (s + t).len() implies side_move_ok(b, v, white, must, #[trigger] (s + t)[i]) by {
        if i < s.len() {
            assert((s + t)[i] == s[i]);
        } else {
            assert((s + t)[i] == t[i - s.len()]);
        }
    }
}

proof fn lemma_square_side_ok(b: Seq<Piece>, v: Variant, white: bool, r: int, c: int)
    requires
        board_wf(b),
        in_bounds(r, c),
    ensures
        all_side_moves_ok(
            b,
            v,
            white,
            any_capture(b, v, white),
            square_moves(b, v, white, any_capture(b, v, white), r, c),
        ),
{
    let must = any_capture(b, v, white);
    let p = sq(r, c);
    let piece = cell(b, r, c);
    let ms = piece_moves(b, v, p);
    lemma_captures_of(b, piece, ms);
    let s = square_moves(b, v, white, must, r, c);
    if piece != Piece::Empty && piece.belongs_to(white) {
        let inner = if must {
            piece_captures(b, v, p)
        } else {
            ms
        };
        assert(s == with_from(p, inner));
        if !must {
            assert(!has_capture_at(b, v, white, r, c));
        }
        assert forall|i: int| 0 <= i < s.len() implies side_move_ok(b, v, white, must, #[trigger] s[i]) by {
            assert(s[i] == (p, inner[i].0, inner[i].1));
            if must {
                assert(ms.contains(inner[i]));
            } else {
                assert(ms[i] == inner[i]);
            }
        }
    }
}

proof fn lemma_row_side_ok(b: Seq<Piece>, v: Variant, white: bool, r: int, n: int)
    requires
        board_wf(b),
        0 <= r < 8,
        n <= 8,
    ensures
        all_side_moves_ok(
            b,
            v,
            white,
            any_capture(b, v, white),
            row_moves(b, v, white, any_capture(b, v, white), r, n),
        ),
    decreases n,
{
    if n > 0 {
        let must = any_capture(b, v, white);
        lemma_row_side_ok(b, v, white, r, n - 1);
        lemma_square_side_ok(b, v, white, r, n - 1);
        lemma_side_ok_add(
            b,
            v,
            white,
            must,
            row_moves(b, v, white, must, r, n - 1),
            square_moves(b, v, white, must, r, n - 1),
        );
    }
}

proof fn lemma_rows_side_ok(b: Seq<Piece>, v: Variant, white: bool, n: int)
    requires
        board_wf(b),
        n <= 8,
    ensures
        all_side_moves_ok(
            b,
            v,
            white,
            any_capture(b, v, white),
            rows_moves(b, v, white, any_capture(b, v, white), n),
        ),
    decreases n,
{
    if n > 0 {
        let must = any_capture(b, v, white);
        lemma_rows_side_ok(b, v, white, n - 1);
        lemma_row_side_ok(b, v, white, n - 1, 8);
        lemma_side_ok_add(
            b,
            v,
            white,
            must,
            rows_moves(b, v, white, must, n - 1),
            row_moves(b, v, white, must, n - 1, 8),
        );
    }
}

proof fn lemma_row_len(b: Seq<Piece>, v: Variant, white: bool, must: bool, r: int, n: int, c: int)
    requires
        0 <= c < n,
    ensures
        row_moves(b, v, white, must, r, n).len() >= square_moves(b, v, white, must, r, c).len(),
    decreases n,
{
    if c < n - 1 {
        lemma_row_len(b, v, white, must, r, n - 1, c);
    }
}

proof fn lemma_rows_len(b: Seq<Piece>, v: Variant, white: bool, must: bool, n: int, r: int, c: int)
    requires
        0 <= r < n,
        0 <= c < 8,
    ensures
        rows_moves(b, v, white, must, n).len() >= square_moves(b, v, white, must, r, c).len(),
    decreases n,
{
    if r < n - 1 {
        lemma_rows_len(b, v, white, must, n - 1, r, c);
    } else {
        lemma_row_len(b, v, white, must, r, 8, c);
    }
}

/// Every move a side may play is a move of one of its own pieces; when some piece of that
/// side can capture, every one of them is a capture and there is at least one; otherwise
/// none of them is.
pub proof fn law_moves_of_side(b: Seq<Piece>, v: Variant, white: bool)
    requires
        board_wf(b),
    ensures
        forall|i: int|
            0 <= i < all_valid_moves(b, v, white).len() ==> {
                let m = #[trigger] all_valid_moves(b, v, white)[i];
                &&& m.0.on_board()
                &&& cell(b, m.0.row as int, m.0.col as int).belongs_to(white)
                &&& piece_moves(b, v, m.0).contains((m.1, m.2))
                &&& (m.2 is Some <==> any_capture(b, v, white))
            },
        any_capture(b, v, white) ==> all_valid_moves(b, v, white).len() > 0,
{
    let must = any_capture(b, v, white);
    lemma_rows_side_ok(b, v, white, 8);
    let s = all_valid_moves(b, v, white);
    assert forall|i: int| 0 <= i < s.len() implies {
        let m = #[trigger] s[i];
        &&& m.0.on_board()
        &&& cell(b, m.0.row as int, m.0.col as int).belongs_to(white)
        &&& piece_moves(b, v, m.0).contains((m.1, m.2))
        &&& (m.2 is Some <==> any_capture(b, v, white))
    } by {
        assert(side_move_ok(b, v, white, must, s[i]));
    }
    if must {
        let (r, c) = choose|r: int, c: int| in_bounds(r, c) && #[trigger] has_capture_at(b, v, white, r, c);
        lemma_rows_len(b, v, white, must, 8, r, c);
        assert(square_moves(b, v, white, must, r, c).len() > 0);
    }
}

proof fn lemma_captures_of_keeps(s: Seq<Move>, m: Move)
    requires
        s.contains(m),
        m.1 is Some,
    ensures
        captures_of(s).contains(m),
    decreases s.len(),
{
    let t = s.drop_last();
    if s.last() == m {
        assert(captures_of(s).last() == m);
    } else {
        let k = choose|k: int| 0 <= k < s.len() && s[k] == m;
        assert(t[k] == m);
        lemma_captures_of_keeps(t, m);
        let j = choose|j: int| 0 <= j < captures_of(t).len() && captures_of(t)[j] == m;
        if s.last().1 is Some {
            assert(captures_of(s)[j] == m);
        }
    }
}

proof fn lemma_row_contains(
    b: Seq<Piece>,
    v: Variant,
    white: bool,
    must: bool,
    r: int,
    n: int,
    c: int,
    x: FullMove,
)
    requires
        0 <= c < n,
        square_moves(b, v, white, must, r, c).contains(x),
    ensures
        row_moves(b, v, white, must, r, n).contains(x),
    decreases n,
{
    let s = row_moves(b, v, white, must, r, n - 1);
    let t = square_moves(b, v, white, must, r, n - 1);
    if c < n - 1 {
        lemma_row_contains(b, v, white, must, r, n - 1, c, x);
        let k = choose|k: int| 0 <= k < s.len() && s[k] == x;
        assert((s + t)[k] == x);
    } else {
        let k = choose|k: int| 0 <= k < t.len() && t[k] == x;
        assert((s + t)[s.len() + k] == x);
    }
}

proof fn lemma_rows_contains(
    b: Seq<Piece>,
    v: Variant,
    white: bool,
    must: bool,
    n: int,
    r: int,
    c: int,
    x: FullMove,
)
    requires
        0 <= r < n,
        0 <= c < 8,
        square_moves(b, v, white, must, r, c).contains(x),
    ensures
        rows_moves(b, v, white, must, n).contains(x),
    decreases n,
{
    let s = rows_moves(b, v, white, must, n - 1);
    let t = row_moves(b, v, white, must, n - 1, 8);
    if r < n - 1 {
        lemma_rows_contains(b, v, white, must, n - 1, r, c, x);
        let k = choose|k: int| 0 <= k < s.len() && s[k] == x;
        assert((s + t)[k] == x);
    } else {
        lemma_row_contains(b, v, white, must, r, 8, c, x);
        let k = choose|k: int| 0 <= k < t.len() && t[k] == x;
        assert((s + t)[s.len() + k] == x);
    }
}

/// Every move of a piece of the side to play is listed among the side's moves, unless it is
/// a plain move while some piece of that side can capture.
pub proof fn law_side_moves_complete(b: Seq<Piece>, v: Variant, white: bool, p: Pos, m: Move)
    requires
        board_wf(b),
        p.on_board(),
        cell(b, p.row as int, p.col as int).belongs_to(white),
        piece_moves(b, v, p).contains(m),
        m.1 is Some || !any_capture(b, v, white),
    ensures
        all_valid_moves(b, v, white).contains((p, m.0, m.1)),
{
    let must = any_capture(b, v, white);
    let r = p.row as int;
    let c = p.col as int;
    assert(sq(r, c) == p);
    let pm = piece_moves(b, v, p);
    let inner = if must {
        piece_captures(b, v, p)
    } else {
        pm
    };
    if must {
        lemma_captures_of_keeps(pm, m);
    }
    let k = choose|k: int| 0 <= k < inner.len() && inner[k] == m;
    let sm = square_moves(b, v, white, must, r, c);
    assert(sm == with_from(p, inner));
    assert(sm[k] == (p, m.0, m.1));
    lemma_rows_contains(b, v, white, must, 8, r, c, (p, m.0, m.1));
}

/// Every move of a piece lands on an empty square of the board, and every capture takes an
/// enemy piece on the board.
pub proof fn law_moves_land_on_empty_squares(b: Seq<Piece>, v: Variant, pos: Pos)
    requires
        board_wf(b),
        pos.on_board(),
    ensures
        forall|i: int|
            0 <= i < piece_moves(b, v, pos).len() ==> move_ok(
                b,
                cell(b, pos.row as int, pos.col as int),
                #[trigger] piece_moves(b, v, pos)[i],
            ),
{
    lemma_piece_moves_ok(b, v, pos);
}

/// The captures of a piece are exactly its moves that take a piece, in the same order: each
/// is one of its moves, and there are none exactly when no move of it captures.
pub proof fn law_captures_are_capturing_moves(b: Seq<Piece>, v: Variant, pos: Pos)
    requires
        board_wf(b),
    ensures
        piece_captures(b, v, pos) == captures_of(piece_moves(b, v, pos)),
        forall|i: int|
            0 <= i < piece_captures(b, v, pos).len() ==> (#[trigger] piece_captures(b, v, pos)[i]).1 is Some
                && piece_moves(b, v, pos).contains(piece_captures(b, v, pos)[i]),
        piece_captures(b, v, pos).len() == 0 <==> (forall|i: int|
            0 <= i < piece_moves(b, v, pos).len() ==> (#[trigger] piece_moves(b, v, pos)[i]).1 is None),
{
    lemma_captures_of(b, cell(b, pos.row as int, pos.col as int), piece_moves(b, v, pos));
}

/// The counts shown for each side are the numbers of its pieces on the board.
pub open spec fn counts_match(g: GameView) -> bool {
    &&& count_side(g.board, true) == g.white_count as int
    &&& count_side(g.board, false) == g.black_count as int
}

/// A state the game can be in between two operations: well formed; counts that match the
/// board; a selected piece of the side to move whose listed moves are moves of it; and a
/// piece that must go on jumping that belongs to the side to move.
pub open spec fn legal_state(g: GameView) -> bool {
    &&& g.wf()
    &&& counts_match(g)
    &&& (g.selected matches Some(s) ==> cell(g.board, s.row as int, s.col as int).belongs_to(
        g.white_turn,
    ) && forall|i: int|
        0 <= i < g.valid_moves.len() ==> piece_moves(g.board, g.variant, s).contains(
            #[trigger] g.valid_moves[i],
        ))
    &&& (!g.game_over && g.must_continue is Some ==> cell(
        g.board,
        g.must_continue.unwrap().row as int,
        g.must_continue.unwrap().col as int,
    ).belongs_to(g.white_turn))
}

proof fn lemma_end_turn_legal(g: GameView)
    requires
        g.wf(),
        counts_match(g),
    ensures
        legal_state(end_turn_spec(g)),
{
}

/// Playing a move of a piece of side `mover` keeps that side's number of pieces and takes one
/// piece of the other side exactly when the move captures.
pub proof fn law_move_changes_counts(b: Seq<Piece>, v: Variant, from: Pos, m: Move, mover: bool)
    requires
        board_wf(b),
        from.on_board(),
        cell(b, from.row as int, from.col as int).belongs_to(mover),
        piece_moves(b, v, from).contains(m),
    ensures
        count_side(board_after(b, from, m.0, m.1), mover) == count_side(b, mover),
        count_side(board_after(b, from, m.0, m.1), !mover) == count_side(b, !mover) - (if m.1 is Some {
            1int
        } else {
            0int
        }),
{
    let piece = cell(b, from.row as int, from.col as int);
    lemma_piece_moves_ok(b, v, from);
    let k = choose|k: int| 0 <= k < piece_moves(b, v, from).len() && piece_moves(b, v, from)[k] == m;
    assert(move_ok(b, piece, piece_moves(b, v, from)[k]));
    let dest = m.0;
    let b1 = b.update(sq_index(from), Piece::Empty);
    let b2 = match m.1 {
        Some(cp) => b1.update(sq_index(cp), Piece::Empty),
        None => b1,
    };
    let b3 = b2.update(sq_index(dest), promoted(piece, dest));
    assert(b3 == board_after(b, from, dest, m.1));
    lemma_count_update(b, true, from, Piece::Empty);
    lemma_count_update(b, false, from, Piece::Empty);
    if let Some(cp) = m.1 {
        assert(cell(b1, cp.row as int, cp.col as int) == cell(b, cp.row as int, cp.col as int));
        lemma_count_update(b1, true, cp, Piece::Empty);
        lemma_count_update(b1, false, cp, Piece::Empty);
    }
    assert(cell(b2, dest.row as int, dest.col as int) == Piece::Empty);
    lemma_count_update(b2, true, dest, promoted(piece, dest));
    lemma_count_update(b2, false, dest, promoted(piece, dest));
}

proof fn lemma_execute_move_wf(g: GameView, from: Pos, m: Move)
    requires
        !g.game_over,
        g.wf(),
        from.on_board(),
        cell(g.board, from.row as int, from.col as int).belongs_to(g.white_turn),
        piece_moves(g.board, g.variant, from).contains(m),
    ensures
        ({
            let (g1, ended) = execute_move_spec(g, from, m.0, m.1);
            &&& g1.wf()
            &&& g1.bot_thinking == g.bot_thinking
            &&& g1.white_turn == g.white_turn
            &&& (!ended ==> !g1.game_over && m.1 is Some && g1.must_continue == Some(m.0)
                && piece_captures(g1.board, g1.variant, m.0).len() > 0 && cell(
                g1.board,
                m.0.row as int,
                m.0.col as int,
            ).belongs_to(g.white_turn) && g1.selected == Some(m.0) && forall|i: int|
                0 <= i < g1.valid_moves.len() ==> piece_moves(g1.board, g1.variant, m.0).contains(
                    #[trigger] g1.valid_moves[i],
                ))
        }),
{
    let b = g.board;
    let piece = cell(b, from.row as int, from.col as int);
    let dest = m.0;
    lemma_piece_moves_ok(b, g.variant, from);
    let k = choose|k: int| 0 <= k < piece_moves(b, g.variant, from).len() && piece_moves(b, g.variant, from)[k] == m;
    assert(move_ok(b, piece, piece_moves(b, g.variant, from)[k]));
    let b3 = board_after(b, from, dest, m.1);
    let (g1, ended) = execute_move_spec(g, from, m.0, m.1);
    assert(g1.board == b3);
    assert(board_wf(b3));
    lemma_moves_on_board(b3, g.variant, dest);
    assert(g1.wf());
    if !ended {
        assert(sq_index(dest) != sq_index(from));
        assert(cell(b3, dest.row as int, dest.col as int) == promoted(piece, dest));
        let caps = piece_captures(b3, g.variant, dest);
        lemma_captures_of(b3, promoted(piece, dest), piece_moves(b3, g.variant, dest));
        assert forall|i: int| 0 <= i < g1.valid_moves.len() implies piece_moves(b3, g.variant, dest).contains(
            #[trigger] g1.valid_moves[i],
        ) by {
            assert(g1.valid_moves[i] == caps[i]);
        }
        assert(promoted(piece, dest).belongs_to(g.white_turn));
    }
}

proof fn lemma_execute_move_legal(g: GameView, from: Pos, m: Move)
    requires
        !g.game_over,
        g.wf(),
        counts_match(g),
        from.on_board(),
        cell(g.board, from.row as int, from.col as int).belongs_to(g.white_turn),
        piece_moves(g.board, g.variant, from).contains(m),
    ensures
        ({
            let (g1, ended) = execute_move_spec(g, from, m.0, m.1);
            &&& g1.wf()
            &&& counts_match(g1)
            &&& (!ended || g1.game_over ==> legal_state(g1))
        }),
{
    let b3 = board_after(g.board, from, m.0, m.1);
    law_move_changes_counts(g.board, g.variant, from, m, g.white_turn);
    lemma_execute_move_wf(g, from, m);
    lemma_count_nonneg(b3, true);
    lemma_count_nonneg(b3, false);
}

/// While the game goes on, playing one of the moves of a piece of the side to move keeps the
/// game legal, whether the turn goes on, passes or ends the game.
pub proof fn law_play_keeps_legal(g: GameView, from: Pos, m: Move)
    requires
        legal_state(g),
        !g.game_over,
        from.on_board(),
        cell(g.board, from.row as int, from.col as int).belongs_to(g.white_turn),
        piece_moves(g.board, g.variant, from).contains(m),
    ensures
        legal_state(play_spec(g, from, m.0, m.1)),
{
    lemma_execute_move_legal(g, from, m);
    let (g1, ended) = execute_move_spec(g, from, m.0, m.1);
    if ended && !g1.game_over {
        lemma_end_turn_legal(g1);
    }
}

/// Selecting a square keeps the game legal.
pub proof fn law_select_keeps_legal(g: GameView, pos: Pos)
    requires
        legal_state(g),
        pos.on_board(),
    ensures
        legal_state(select_spec(g, pos)),
{
    let g1 = select_spec(g, pos);
    lemma_moves_on_board(g.board, g.variant, pos);
    lemma_captures_of(g.board, cell(g.board, pos.row as int, pos.col as int), piece_moves(g.board, g.variant, pos));
    if g1.status == Status::MoveSelected {
        assert forall|i: int| 0 <= i < g1.valid_moves.len() implies piece_moves(g.board, g.variant, pos).contains(
            #[trigger] g1.valid_moves[i],
        ) by {
            if !any_capture(g.board, g.variant, g.white_turn) {
                assert(piece_moves(g.board, g.variant, pos)[i] == g1.valid_moves[i]);
            }
        }
    }
}

proof fn lemma_first_to_in(s: Seq<Move>, to: Pos, i: int)
    ensures
        first_to(s, to, i) matches Some(m) ==> s.contains(m),
    decreases s.len() - i,
{
    if 0 <= i < s.len() {
        if s[i].0 != to {
            lemma_first_to_in(s, to, i + 1);
        }
    }
}

/// While the game goes on, asking to move the selected piece keeps the game legal.
pub proof fn law_try_move_keeps_legal(g: GameView, to: Pos)
    requires
        legal_state(g),
        !g.game_over,
    ensures
        legal_state(try_move_spec(g, to)),
{
    lemma_first_to_in(g.valid_moves, to, 0);
    if let Some(m) = first_to(g.valid_moves, to, 0) {
        let s = g.selected.unwrap();
        let k = choose|k: int| 0 <= k < g.valid_moves.len() && g.valid_moves[k] == m;
        assert(piece_moves(g.board, g.variant, s).contains(g.valid_moves[k]));
        law_play_keeps_legal(g, s, m);
    }
}

/// A new game is legal: its counts match the pieces placed on the board.
pub proof fn law_new_game_legal(g: GameView, v: Variant)
    requires
        is_new_game(g, v),
    ensures
        legal_state(g),
{
    law_new_game_pieces(g, v);
}

/// A key of the player that does not restart the game keeps the game legal.
pub proof fn law_handle_key_keeps_legal(g: GameView, key: Key)
    requires
        legal_state(g),
        !restarts(g, key),
    ensures
        legal_state(handle_key_spec(g, key)),
{
    if !g.game_over && g.white_turn {
        match g.selected {
            Some(sel) => {
                if g.cursor != sel {
                    law_try_move_keeps_legal(g, g.cursor);
                }
            },
            None => {
                law_select_keeps_legal(g, g.cursor);
            },
        }
    }
}

proof fn lemma_jump_chain_legal(g: GameView, fuel: nat)
    requires
        legal_state(g),
    ensures
        legal_state(jump_chain(g, fuel)),
    decreases fuel,
{
    if fuel == 0 || !(g.must_continue is Some) || g.game_over {
    } else {
        let pos = g.must_continue.unwrap();
        let caps = piece_captures(g.board, g.variant, pos);
        if caps.len() > 0 {
            let piece = cell(g.board, pos.row as int, pos.col as int);
            lemma_captures_of(g.board, piece, piece_moves(g.board, g.variant, pos));
            assert(caps[0] == captures_of(piece_moves(g.board, g.variant, pos))[0]);
            lemma_execute_move_legal(g, pos, caps[0]);
            let (g1, ended) = execute_move_spec(g, pos, caps[0].0, caps[0].1);
            if ended {
                if !g1.game_over {
                    lemma_end_turn_legal(g1);
                }
            } else {
                lemma_jump_chain_legal(g1, (fuel - 1) as nat);
            }
        }
    }
}

proof fn lemma_best_index(b: Seq<Piece>, ms: Seq<FullMove>, n: int)
    requires
        1 <= n <= ms.len(),
    ensures
        0 <= best_index(b, ms, n) < n,
        forall|j: int| 0 <= j < n ==> bot_score(b, #[trigger] ms[j]) <= bot_score(b, ms[best_index(b, ms, n)]),
    decreases n,
{
    if n > 1 {
        lemma_best_index(b, ms, n - 1);
    }
}

/// The bot plays one of its legal moves with the highest score, the last such one in the
/// order the moves are listed.
pub proof fn law_bot_plays_best(b: Seq<Piece>, ms: Seq<FullMove>)
    requires
        ms.len() > 0,
    ensures
        0 <= best_index(b, ms, ms.len() as int) < ms.len(),
        forall|j: int| 0 <= j < ms.len() ==> bot_score(b, #[trigger] ms[j]) <= bot_score(b, ms[best_index(b, ms, ms.len() as int)]),
        forall|j: int| best_index(b, ms, ms.len() as int) < j < ms.len() ==> bot_score(b, #[trigger] ms[j]) < bot_score(b, ms[best_index(b, ms, ms.len() as int)]),
{
    lemma_best_index(b, ms, ms.len() as int);
    lemma_best_last(b, ms, ms.len() as int);
}

proof fn lemma_best_last(b: Seq<Piece>, ms: Seq<FullMove>, n: int)
    requires
        1 <= n <= ms.len(),
    ensures
        forall|j: int| best_index(b, ms, n) < j < n ==> bot_score(b, #[trigger] ms[j]) < bot_score(b, ms[best_index(b, ms, n)]),
    decreases n,
{
    if n > 1 {
        lemma_best_last(b, ms, n - 1);
        lemma_best_index(b, ms, n - 1);
    }
}

/// While the game goes on, the bot's turn keeps the game legal.
pub proof fn law_bot_move_keeps_legal(g: GameView)
    requires
        legal_state(g),
        !g.game_over,
        !g.white_turn,
    ensures
        legal_state(bot_move_spec(g)),
{
    let g0 = GameView { bot_thinking: false, ..g };
    let ms = all_valid_moves(g.board, g.variant, false);
    if ms.len() > 0 {
        law_moves_of_side(g.board, g.variant, false);
        lemma_best_index(g.board, ms, ms.len() as int);
        let m = ms[best_index(g.board, ms, ms.len() as int)];
        lemma_execute_move_legal(g0, m.0, (m.1, m.2));
        let (g1, ended) = execute_move_spec(g0, m.0, m.1, m.2);
        if ended && !g1.game_over {
            lemma_end_turn_legal(g1);
        } else if !ended && !g1.game_over {
            lemma_jump_chain_legal(g1, occupied(g1.board));
        }
    }
}

/// Handing the turn over passes it to the other side with nothing selected; the game ends
/// there exactly when that side has no move to play.
pub proof fn law_turn_passes(g: GameView)
    ensures
        end_turn_spec(g).white_turn == !g.white_turn,
        end_turn_spec(g).selected is None,
        end_turn_spec(g).must_continue is None,
        end_turn_spec(g).valid_moves.len() == 0,
        end_turn_spec(g).board == g.board,
        end_turn_spec(g).game_over == (g.game_over || all_valid_moves(
            g.board,
            g.variant,
            !g.white_turn,
        ).len() == 0),
{
}

/// A moved man that reaches the far row (row 0 for white, the last row for black) becomes a
/// king; any other piece lands unchanged. The square it leaves and the square it captures
/// are emptied.
pub proof fn law_promotion(b: Seq<Piece>, from: Pos, dest: Pos, captured: Option<Pos>)
    requires
        board_wf(b),
        from.on_board(),
        dest.on_board(),
        captured matches Some(cp) ==> cp.on_board() && cp != dest,
        from != dest,
    ensures
        ({
            let piece = cell(b, from.row as int, from.col as int);
            let after = board_after(b, from, dest, captured);
            &&& cell(after, dest.row as int, dest.col as int) == (if piece == Piece::White
                && dest.row == 0 {
                Piece::WhiteKing
            } else if piece == Piece::Black && dest.row == 7 {
                Piece::BlackKing
            } else {
                piece
            })
            &&& cell(after, from.row as int, from.col as int) == Piece::Empty
            &&& (captured matches Some(cp) ==> cell(after, cp.row as int, cp.col as int)
                == Piece::Empty)
        }),
{
    let after = board_after(b, from, dest, captured);
    assert(sq_index(from) != sq_index(dest));
    if let Some(cp) = captured {
        assert(sq_index(cp) != sq_index(dest));
    }
}

/// When the side to move can capture, a piece can be selected only if it can capture, and
/// then only its captures are offered.
pub proof fn law_select_enforces_capture(g: GameView, pos: Pos)
    requires
        board_wf(g.board),
        any_capture(g.board, g.variant, g.white_turn),
        select_spec(g, pos).status == Status::MoveSelected,
    ensures
        select_spec(g, pos).selected == Some(pos),
        select_spec(g, pos).valid_moves.len() > 0,
        forall|i: int|
            0 <= i < select_spec(g, pos).valid_moves.len() ==> (#[trigger] select_spec(
                g,
                pos,
            ).valid_moves[i]).1 is Some,
{
    lemma_captures_of(
        g.board,
        cell(g.board, pos.row as int, pos.col as int),
        piece_moves(g.board, g.variant, pos),
    );
}

/// The bot moves one of its own pieces, and captures whenever black can capture.
pub proof fn law_bot_captures_when_it_can(g: GameView)
    requires
        board_wf(g.board),
        all_valid_moves(g.board, g.variant, false).len() > 0,
    ensures
        ({
            let ms = all_valid_moves(g.board, g.variant, false);
            let m = ms[best_index(g.board, ms, ms.len() as int)];
            &&& cell(g.board, m.0.row as int, m.0.col as int).belongs_to(false)
            &&& piece_moves(g.board, g.variant, m.0).contains((m.1, m.2))
            &&& (m.2 is Some <==> any_capture(g.board, g.variant, false))
        }),
{
    let ms = all_valid_moves(g.board, g.variant, false);
    law_moves_of_side(g.board, g.variant, false);
    lemma_best_index(g.board, ms, ms.len() as int);
}

proof fn lemma_occupied_pos(b: Seq<Piece>, i: int)
    requires
        0 <= i < b.len(),
        b[i] != Piece::Empty,
    ensures
        occupied(b) > 0,
    decreases b.len(),
{
    if i < b.len() - 1 {
        assert(b.drop_last()[i] == b[i]);
        lemma_occupied_pos(b.drop_last(), i);
    }
}

proof fn lemma_bot_chain(g: GameView, fuel: nat)
    requires
        g.wf(),
        !g.game_over,
        !g.white_turn,
        g.must_continue is Some,
        cell(g.board, g.must_continue.unwrap().row as int, g.must_continue.unwrap().col as int).belongs_to(false),
        piece_captures(g.board, g.variant, g.must_continue.unwrap()).len() > 0,
        fuel == occupied(g.board),
    ensures
        ({
            let h = jump_chain(g, fuel);
            &&& h.game_over || (h.white_turn && h.must_continue is None && h.selected is None
                && h.valid_moves.len() == 0)
            &&& h.bot_thinking == g.bot_thinking
            &&& count_side(h.board, false) == count_side(g.board, false)
            &&& count_side(h.board, true) < count_side(g.board, true)
        }),
    decreases fuel,
{
    let pos = g.must_continue.unwrap();
    let b = g.board;
    let piece = cell(b, pos.row as int, pos.col as int);
    lemma_occupied_pos(b, sq_index(pos));
    let caps = piece_captures(b, g.variant, pos);
    lemma_captures_of(b, piece, piece_moves(b, g.variant, pos));
    assert(caps[0] == captures_of(piece_moves(b, g.variant, pos))[0]);
    let m = caps[0];
    law_move_changes_counts(b, g.variant, pos, m, false);
    lemma_execute_move_wf(g, pos, m);
    lemma_capture_removes_one(b, g.variant, pos, 0);
    let (g1, ended) = execute_move_spec(g, pos, m.0, m.1);
    if !ended {
        lemma_bot_chain(g1, (fuel - 1) as nat);
    }
}

/// The bot's turn, when black has a move: the bot stops thinking; the game ends or the turn
/// passes to white with nothing selected; black keeps all its pieces; white loses pieces
/// exactly when black could capture.
pub proof fn law_bot_turn_outcome(g: GameView)
    requires
        g.wf(),
        !g.white_turn,
        !g.game_over,
        all_valid_moves(g.board, g.variant, false).len() > 0,
    ensures
        ({
            let h = bot_move_spec(g);
            &&& !h.bot_thinking
            &&& h.game_over || (h.white_turn && h.must_continue is None && h.selected is None
                && h.valid_moves.len() == 0)
            &&& count_side(h.board, false) == count_side(g.board, false)
            &&& (count_side(h.board, true) < count_side(g.board, true)) == any_capture(
                g.board,
                g.variant,
                false,
            )
            &&& count_side(h.board, true) <= count_side(g.board, true)
        }),
{
    let g0 = GameView { bot_thinking: false, ..g };
    let ms = all_valid_moves(g.board, g.variant, false);
    law_bot_captures_when_it_can(g);
    law_moves_of_side(g.board, g.variant, false);
    lemma_best_index(g.board, ms, ms.len() as int);
    let m = ms[best_index(g.board, ms, ms.len() as int)];
    law_move_changes_counts(g.board, g.variant, m.0, (m.1, m.2), false);
    lemma_execute_move_wf(g0, m.0, (m.1, m.2));
    let (g1, ended) = execute_move_spec(g0, m.0, m.1, m.2);
    if !ended && !g1.game_over {
        lemma_bot_chain(g1, occupied(g1.board));
    }
}

/// A move of the piece on `pos` may be played now: it captures, or its side cannot capture.
pub open spec fn playable(g: GameView, m: Move) -> bool {
    m.1 is Some || !any_capture(g.board, g.variant, g.white_turn)
}

/// Selecting a square succeeds exactly when it holds a piece of the side to move that has a
/// move that may be played; then that piece is selected and the moves offered are exactly
/// its moves that may be played, with the board, the turn and any pending jump untouched.
pub proof fn law_select_offers_playable_moves(g: GameView, pos: Pos)
    requires
        board_wf(g.board),
        pos.on_board(),
    ensures
        ({
            let g1 = select_spec(g, pos);
            let piece = cell(g.board, pos.row as int, pos.col as int);
            let pm = piece_moves(g.board, g.variant, pos);
            &&& (g1.status == Status::MoveSelected) == (piece.belongs_to(g.white_turn) && exists|m: Move|
                #[trigger] pm.contains(m) && playable(g, m))
            &&& g1.board == g.board
            &&& g1.white_turn == g.white_turn
            &&& g1.must_continue == g.must_continue
            &&& g1.status == Status::MoveSelected ==> {
                &&& g1.selected == Some(pos)
                &&& forall|m: Move| #[trigger] pm.contains(m) && playable(g, m) ==> g1.valid_moves.contains(m)
                &&& forall|i: int|
                    0 <= i < g1.valid_moves.len() ==> pm.contains(#[trigger] g1.valid_moves[i])
                        && playable(g, g1.valid_moves[i])
            }
            &&& g1.status != Status::MoveSelected ==> g1.selected == g.selected && g1.valid_moves
                == g.valid_moves
        }),
{
    let b = g.board;
    let v = g.variant;
    let piece = cell(b, pos.row as int, pos.col as int);
    let pm = piece_moves(b, v, pos);
    let must = any_capture(b, v, g.white_turn);
    let caps = piece_captures(b, v, pos);
    lemma_captures_of(b, piece, pm);
    let g1 = select_spec(g, pos);
    let inner = if must {
        caps
    } else {
        pm
    };
    assert forall|m: Move| #[trigger] pm.contains(m) && playable(g, m) implies inner.contains(m) by {
        if must {
            lemma_captures_of_keeps(pm, m);
        }
    }
    assert forall|i: int| 0 <= i < inner.len() implies pm.contains(#[trigger] inner[i]) && playable(
        g,
        inner[i],
    ) by {
        if !must {
            assert(pm[i] == inner[i]);
        }
    }
    if piece.belongs_to(g.white_turn) && exists|m: Move| #[trigger] pm.contains(m) && playable(g, m) {
        let m = choose|m: Move| #[trigger] pm.contains(m) && playable(g, m);
        assert(inner.contains(m));
    }
    if inner.len() > 0 {
        assert(pm.contains(inner[0]) && playable(g, inner[0]));
    }
}

/// After a capture, when the game goes on and the capturing piece can capture again on the
/// new board, the turn stays, that piece is selected and has to go on, and the moves offered
/// are exactly its captures on the new board. The turn goes on exactly in that case.
pub proof fn law_continue_offers_all_captures(g: GameView, from: Pos, dest: Pos, captured: Option<Pos>)
    ensures
        ({
            let (g1, ended) = execute_move_spec(g, from, dest, captured);
            let pm = piece_moves(g1.board, g.variant, dest);
            &&& !ended == (captured is Some && g1.white_count != 0 && g1.black_count != 0
                && exists|m: Move| #[trigger] pm.contains(m) && m.1 is Some)
            &&& !ended ==> {
                &&& g1.selected == Some(dest)
                &&& g1.must_continue == Some(dest)
                &&& g1.white_turn == g.white_turn
                &&& forall|m: Move| #[trigger] pm.contains(m) && m.1 is Some ==> g1.valid_moves.contains(m)
                &&& forall|i: int|
                    0 <= i < g1.valid_moves.len() ==> pm.contains(#[trigger] g1.valid_moves[i])
                        && g1.valid_moves[i].1 is Some
            }
        }),
{
    let (g1, ended) = execute_move_spec(g, from, dest, captured);
    let pm = piece_moves(g1.board, g.variant, dest);
    let caps = captures_of(pm);
    lemma_captures_of(g1.board, Piece::Empty, pm);
    assert forall|m: Move| #[trigger] pm.contains(m) && m.1 is Some implies caps.contains(m) by {
        lemma_captures_of_keeps(pm, m);
    }
    if exists|m: Move| #[trigger] pm.contains(m) && m.1 is Some {
        let m = choose|m: Move| #[trigger] pm.contains(m) && m.1 is Some;
        assert(caps.contains(m));
    }
    if caps.len() > 0 {
        assert(pm.contains(caps[0]) && caps[0].1 is Some);
    }
}

/// The bot's score is symmetric about the middle of the board: two moves alike in capturing,
/// in moving a king or not, and in the row they land on, one landing in column `c` and the
/// other in column 7 - c, score the same.
pub proof fn law_bot_score_symmetric(b: Seq<Piece>, m1: FullMove, m2: FullMove)
    requires
        m1.1.col < 8,
        m1.1.col + m2.1.col == 7,
        m1.1.row == m2.1.row,
        (m1.2 is Some) == (m2.2 is Some),
        cell(b, m1.0.row as int, m1.0.col as int).is_king() == cell(
            b,
            m2.0.row as int,
            m2.0.col as int,
        ).is_king(),
    ensures
        bot_score(b, m1) == bot_score(b, m2),
{
}

/// The bot prefers, in this order: any capture to any plain move; then, among moves alike
/// in that and in the kind of piece, landing further down the board; then, on the same row,
/// landing nearer the centre, the two centre columns being best and equal.
pub proof fn law_bot_score_order(b: Seq<Piece>, m1: FullMove, m2: FullMove)
    requires
        m1.1.on_board(),
        m2.1.on_board(),
    ensures
        m1.2 is Some && m2.2 is None ==> bot_score(b, m1) > bot_score(b, m2),
        (m1.2 is Some) == (m2.2 is Some) && cell(b, m1.0.row as int, m1.0.col as int).is_king()
            == cell(b, m2.0.row as int, m2.0.col as int).is_king() ==> {
            &&& m1.1.row < m2.1.row ==> bot_score(b, m1) < bot_score(b, m2)
            &&& m1.1.row == m2.1.row && (m2.1.col == 3 || m2.1.col == 4) ==> bot_score(b, m1)
                <= bot_score(b, m2)
            &&& m1.1.row == m2.1.row && m1.1.col < m2.1.col <= 3 ==> bot_score(b, m1) < bot_score(
                b,
                m2,
            )
            &&& m1.1.row == m2.1.row && 4 <= m1.1.col < m2.1.col ==> bot_score(b, m1) > bot_score(
                b,
                m2,
            )
            &&& m1.1.row == m2.1.row && m1.1.col == 3 && m2.1.col == 4 ==> bot_score(b, m1)
                == bot_score(b, m2)
        },
{
}

/// Esc on the player's turn, while no piece has to go on jumping, leaves nothing selected and
/// no moves offered, and asks for a piece again; nothing else changes.
pub proof fn law_esc_drops_selection(g: GameView)
    requires
        !g.game_over,
        g.white_turn,
        g.must_continue is None,
    ensures
        handle_key_spec(g, Key::Esc).selected is None,
        handle_key_spec(g, Key::Esc).valid_moves.len() == 0,
        handle_key_spec(g, Key::Esc).status == Status::YourTurn,
        handle_key_spec(g, Key::Esc).board == g.board,
        handle_key_spec(g, Key::Esc).cursor == g.cursor,
        handle_key_spec(g, Key::Esc).white_turn,
        handle_key_spec(g, Key::Esc).must_continue is None,
{
}

/// While a piece has to go on jumping, Esc changes nothing.
pub proof fn law_esc_keeps_pending_jump(g: GameView)
    requires
        g.must_continue is Some,
    ensures
        handle_key_spec(g, Key::Esc) == g,
{
}

/// Once the game is over, or while the bot is to play, no key but a restart changes anything.
pub proof fn law_keys_ignored_off_turn(g: GameView, key: Key)
    requires
        g.game_over || !g.white_turn,
    ensures
        handle_key_spec(g, key) == g,
{
}

/// Enter and space do the same; with nothing selected they select the square under the
/// cursor; on the selected square they drop the selection unless a jump is pending; on
/// another square they try to move the selected piece there.
pub proof fn law_enter_acts_on_cursor(g: GameView)
    requires
        !g.game_over,
        g.white_turn,
    ensures
        handle_key_spec(g, Key::Enter) == handle_key_spec(g, Key::Char(' ')),
        g.selected is None ==> handle_key_spec(g, Key::Enter) == select_spec(g, g.cursor),
        g.selected == Some(g.cursor) && g.must_continue is None ==> handle_key_spec(
            g,
            Key::Enter,
        ).selected is None && handle_key_spec(g, Key::Enter).valid_moves.len() == 0,
        g.selected == Some(g.cursor) && g.must_continue is Some ==> handle_key_spec(g, Key::Enter)
            == g,
        g.selected is Some && g.selected != Some(g.cursor) ==> handle_key_spec(g, Key::Enter)
            == try_move_spec(g, g.cursor),
{
}

/// The arrows move the cursor one square in their direction, stopping at the edge of the
/// board, and change nothing else.
pub proof fn law_arrows_move_cursor(g: GameView)
    requires
        !g.game_over,
        g.white_turn,
        g.cursor.on_board(),
    ensures
        handle_key_spec(g, Key::Up) == (GameView {
            cursor: Pos { row: if g.cursor.row == 0 { 0 } else { (g.cursor.row - 1) as usize }, col: g.cursor.col },
            ..g
        }),
        handle_key_spec(g, Key::Down) == (GameView {
            cursor: Pos { row: if g.cursor.row == 7 { 7 } else { (g.cursor.row + 1) as usize }, col: g.cursor.col },
            ..g
        }),
        handle_key_spec(g, Key::Left) == (GameView {
            cursor: Pos { row: g.cursor.row, col: if g.cursor.col == 0 { 0 } else { (g.cursor.col - 1) as usize } },
            ..g
        }),
        handle_key_spec(g, Key::Right) == (GameView {
            cursor: Pos { row: g.cursor.row, col: if g.cursor.col == 7 { 7 } else { (g.cursor.col + 1) as usize } },
            ..g
        }),
{
}

/// Asking to move to `to` plays the first offered move that lands there, from the selected
/// square; when no offered move lands there, only the status changes.
pub proof fn law_try_move_plays_offered_move(g: GameView, to: Pos)
    ensures
        (forall|i: int| 0 <= i < g.valid_moves.len() ==> (#[trigger] g.valid_moves[i]).0 != to)
            ==> try_move_spec(g, to) == (GameView { status: Status::InvalidMove, ..g }),
        forall|i: int|
            0 <= i < g.valid_moves.len() && (#[trigger] g.valid_moves[i]).0 == to && (forall|j: int|
                0 <= j < i ==> g.valid_moves[j].0 != to) ==> try_move_spec(g, to) == play_spec(
                g,
                g.selected.unwrap(),
                to,
                g.valid_moves[i].1,
            ),
{
    lemma_first_to_none(g.valid_moves, to, 0);
    assert forall|i: int|
        0 <= i < g.valid_moves.len() && (#[trigger] g.valid_moves[i]).0 == to && (forall|j: int|
            0 <= j < i ==> g.valid_moves[j].0 != to) implies try_move_spec(g, to) == play_spec(
        g,
        g.selected.unwrap(),
        to,
        g.valid_moves[i].1,
    ) by {
        lemma_first_to_at(g.valid_moves, to, 0, i);
    }
}

proof fn lemma_first_to_none(s: Seq<Move>, to: Pos, i: int)
    requires
        0 <= i,
    ensures
        (forall|j: int| i <= j < s.len() ==> (#[trigger] s[j]).0 != to) ==> first_to(s, to, i)
            is None,
    decreases s.len() - i,
{
    if i < s.len() {
        lemma_first_to_none(s, to, i + 1);
    }
}

proof fn lemma_first_to_at(s: Seq<Move>, to: Pos, i: int, k: int)
    requires
        0 <= i <= k < s.len(),
        s[k].0 == to,
        forall|j: int| i <= j < k ==> s[j].0 != to,
    ensures
        first_to(s, to, i) == Some(s[k]),
    decreases k - i,
{
    if i < k {
        lemma_first_to_at(s, to, i + 1, k);
    }
}

/// Taking the opponent's last piece ends the game and the side that moved wins; a move that
/// leaves both sides pieces does not end the game, and a plain move changes neither count.
pub proof fn law_last_capture_wins(g: GameView, from: Pos, dest: Pos, captured: Option<Pos>)
    requires
        g.white_count > 0,
        g.black_count > 0,
    ensures
        ({
            let (g1, ended) = execute_move_spec(g, from, dest, captured);
            let theirs = if g.white_turn {
                g.black_count
            } else {
                g.white_count
            };
            &&& captured is Some && theirs == 1 ==> ended && g1.game_over && g1.status == (if g.white_turn {
                Status::WhiteWins
            } else {
                Status::BlackWins
            }) && g1.selected is None && g1.valid_moves.len() == 0
            &&& captured is None ==> ended && g1.white_count == g.white_count && g1.black_count
                == g.black_count && g1.game_over == g.game_over
            &&& captured is Some && theirs > 1 ==> g1.game_over == g.game_over
        }),
{
}

/// When the turn passes to a side that has no move, that side loses and the status says
/// so; otherwise the player is asked for a piece, or the bot starts thinking.
pub proof fn law_stuck_side_loses(g: GameView)
    ensures
        all_valid_moves(g.board, g.variant, !g.white_turn).len() == 0 ==> end_turn_spec(g).status
            == (Status::NoMovesLeft { white_to_move: !g.white_turn }) && end_turn_spec(g).game_over,
        all_valid_moves(g.board, g.variant, !g.white_turn).len() > 0 ==> end_turn_spec(g).status
            == (if g.white_turn {
            Status::BotThinking
        } else {
            Status::YourTurn
        }) && end_turn_spec(g).bot_thinking == (g.white_turn || g.bot_thinking),
{
}

/// Selecting a square that cannot be selected changes only the message, which tells why:
/// it holds no piece of the side to move; or that side must capture and this piece cannot;
/// or, with no capture owed, the piece has no move at all.
pub proof fn law_select_refusals(g: GameView, pos: Pos)
    ensures
        ({
            let piece = cell(g.board, pos.row as int, pos.col as int);
            let pm = piece_moves(g.board, g.variant, pos);
            let must = any_capture(g.board, g.variant, g.white_turn);
            &&& !piece.belongs_to(g.white_turn) ==> select_spec(g, pos) == (GameView {
                status: Status::SelectOwnPiece,
                ..g
            })
            &&& piece.belongs_to(g.white_turn) && must && (forall|i: int|
                0 <= i < pm.len() ==> (#[trigger] pm[i]).1 is None) ==> select_spec(g, pos) == (
            GameView { status: Status::MustCapture, ..g })
            &&& piece.belongs_to(g.white_turn) && !must && pm.len() == 0 ==> select_spec(g, pos) == (
            GameView { status: Status::PieceHasNoMoves, ..g })
        }),
{
    let piece = cell(g.board, pos.row as int, pos.col as int);
    lemma_captures_of(g.board, piece, piece_moves(g.board, g.variant, pos));
}

/// The bot's turn after it has chosen move `m`: the move is played, then the turn passes, or
/// the same piece goes on jumping, unless the game is over.
pub open spec fn bot_finish(g0: GameView, m: FullMove) -> GameView {
    let (g1, ended) = execute_move_spec(g0, m.0, m.1, m.2);
    if ended && !g1.game_over {
        end_turn_spec(g1)
    } else if !ended && !g1.game_over {
        jump_chain(g1, occupied(g1.board))
    } else {
        g1
    }
}

/// On its turn, when black has a move, the bot plays one of black's moves with the highest
/// score, and no move listed after it scores as high; with no move it only stops thinking.
pub proof fn law_bot_turn_plays_best_move(g: GameView)
    ensures
        ({
            let ms = all_valid_moves(g.board, g.variant, false);
            let g0 = GameView { bot_thinking: false, ..g };
            &&& ms.len() == 0 ==> bot_move_spec(g) == g0
            &&& ms.len() > 0 ==> exists|k: int|
                0 <= k < ms.len() && (forall|j: int|
                    0 <= j < ms.len() ==> bot_score(g.board, #[trigger] ms[j]) <= bot_score(
                        g.board,
                        ms[k],
                    )) && (forall|j: int|
                    k < j < ms.len() ==> bot_score(g.board, #[trigger] ms[j]) < bot_score(
                        g.board,
                        ms[k],
                    )) && bot_move_spec(g) == bot_finish(g0, #[trigger] ms[k])
        }),
{
    let ms = all_valid_moves(g.board, g.variant, false);
    if ms.len() > 0 {
        law_bot_plays_best(g.board, ms);
        let k = best_index(g.board, ms, ms.len() as int);
        let g0 = GameView { bot_thinking: false, ..g };
        assert(bot_move_spec(g) == bot_finish(g0, ms[k]));
    }
}

} // verus!
