use checkers::game::Game;
use checkers::piece::{Piece, Pos, Variant};

fn count(g: &Game, white: bool) -> usize {
    g.board.iter().filter(|p| p.belongs_to(white)).count()
}

fn occupied(g: &Game) -> usize {
    g.board.iter().filter(|p| **p != Piece::Empty).count()
}

fn check_side_moves(g: &Game, white: bool) {
    let must = g.any_capture_for(white);
    let all = g.all_valid_moves_for(white);
    if must {
        assert!(!all.is_empty());
    }
    for w in all.windows(2) {
        assert!(w[0].0.row * 8 + w[0].0.col <= w[1].0.row * 8 + w[1].0.col);
    }
    for (i, (from, to, cap)) in all.iter().enumerate() {
        let dr = to.row as i32 - from.row as i32;
        let dc = to.col as i32 - from.col as i32;
        if g.variant.orthogonal() {
            assert!((dr == 0) != (dc == 0));
        } else {
            assert!(dr != 0 && dr.abs() == dc.abs());
        }
        assert!(g.board[from.row * 8 + from.col].belongs_to(white));
        assert_eq!(cap.is_some(), must);
        assert!(g.get_moves(*from).contains(&(*to, *cap)));
        assert_eq!(g.board[to.row * 8 + to.col], Piece::Empty);
        assert!(!all[i + 1..].contains(&(*from, *to, *cap)));
    }
    for r in 0..8 {
        for c in 0..8 {
            if g.board[r * 8 + c].belongs_to(white) {
                for (to, cap) in g.get_moves(Pos::new(r, c)) {
                    if cap.is_some() || !must {
                        assert!(all.contains(&(Pos::new(r, c), to, cap)));
                    }
                }
            }
        }
    }
}

/// Plays the player's first legal move, jumping on while it has to.
fn player_turn(g: &mut Game) {
    let all = g.all_valid_moves_for(true);
    let (from, to, _) = all[0];
    g.select(from);
    assert_eq!(g.selected, Some(from));
    g.try_move(to);
    while g.must_continue.is_some() && g.white_turn && !g.game_over {
        let (next, _) = g.valid_moves[0];
        g.try_move(next);
    }
}

fn play_out(v: Variant) -> Game {
    let mut g = Game::new(v);
    for _ in 0..300 {
        if g.game_over {
            break;
        }
        check_side_moves(&g, g.white_turn);
        let before = occupied(&g);
        if g.white_turn {
            player_turn(&mut g);
        } else {
            let could_capture = g.any_capture_for(false);
            let has_moves = g.has_any_moves(false);
            let (w, b) = (count(&g, true), count(&g, false));
            g.bot_move();
            assert!(!g.bot_thinking);
            assert_eq!(count(&g, false), b);
            if has_moves {
                assert_eq!(count(&g, true) < w, could_capture);
                assert!(g.game_over || (g.white_turn && g.must_continue.is_none() && g.selected.is_none()));
            }
        }
        assert!(occupied(&g) <= before);
        assert_eq!(count(&g, true), g.white_count as usize);
        assert_eq!(count(&g, false), g.black_count as usize);
    }
    g
}

#[test]
fn counts_track_pieces_in_english() {
    play_out(Variant::English);
}

#[test]
fn counts_track_pieces_in_russian() {
    play_out(Variant::Russian);
}

#[test]
fn counts_track_pieces_in_brazilian() {
    play_out(Variant::Brazilian);
}

#[test]
fn counts_track_pieces_in_turkish() {
    let g = Game::new(Variant::Turkish);
    assert_eq!(count(&g, true), 16);
    assert_eq!(g.white_count, 16);
    play_out(Variant::Turkish);
}

#[test]
fn capture_removes_one_piece() {
    let mut g = Game::new(Variant::English);
    for i in 0..64 {
        g.board[i] = Piece::Empty;
    }
    g.board[4 * 8 + 4] = Piece::White;
    g.board[3 * 8 + 5] = Piece::Black;
    g.board[0 * 8 + 1] = Piece::Black;
    let before = occupied(&g);
    g.execute_move(Pos::new(4, 4), Pos::new(2, 6), Some(Pos::new(3, 5)));
    assert_eq!(occupied(&g), before - 1);
    let before = occupied(&g);
    g.execute_move(Pos::new(2, 6), Pos::new(1, 7), None);
    assert_eq!(occupied(&g), before);
}

#[test]
fn turn_passes_and_clears_selection() {
    let mut g = Game::new(Variant::Brazilian);
    g.select(Pos::new(5, 0));
    g.end_turn();
    assert!(!g.white_turn);
    assert!(g.selected.is_none());
    assert!(g.valid_moves.is_empty());
    assert!(!g.game_over);
}
