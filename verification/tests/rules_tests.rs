use checkers::game::Game;
use checkers::piece::{Piece, Pos, Variant};

fn empty_game(v: Variant) -> Game {
    let mut g = Game::new(v);
    for i in 0..64 {
        g.board[i] = Piece::Empty;
    }
    g
}

fn put(g: &mut Game, r: usize, c: usize, p: Piece) {
    g.board[r * 8 + c] = p;
}

fn p(r: usize, c: usize) -> Pos {
    Pos::new(r, c)
}

#[test]
fn variant_flags() {
    assert!(Variant::Russian.flying_king());
    assert!(Variant::Brazilian.flying_king());
    assert!(!Variant::English.flying_king());
    assert!(!Variant::Turkish.flying_king());
    assert!(Variant::Russian.backward_capture());
    assert!(!Variant::English.backward_capture());
    assert!(Variant::Turkish.orthogonal());
    assert!(!Variant::Russian.orthogonal());
}

#[test]
fn variant_texts() {
    assert_eq!(Variant::Russian.label(), "Russian");
    assert_eq!(Variant::English.label(), "English (Draughts)");
    assert_eq!(Variant::Brazilian.label(), "Brazilian");
    assert_eq!(Variant::Turkish.label(), "Turkish");
    assert_eq!(Variant::Russian.description(), "Flying kings  *  backward captures");
    assert_eq!(Variant::English.description(), "Short kings  *  forward captures only");
    assert_eq!(Variant::Turkish.description(), "Orthogonal moves  *  no diagonal");
}

#[test]
fn piece_sides() {
    assert!(Piece::White.is_white() && Piece::WhiteKing.is_white());
    assert!(Piece::Black.is_black() && Piece::BlackKing.is_black());
    assert!(!Piece::Empty.is_white() && !Piece::Empty.is_black());
    assert!(Piece::WhiteKing.is_king() && !Piece::White.is_king());
    assert!(Piece::White.belongs_to(true) && !Piece::White.belongs_to(false));
    assert!(Piece::BlackKing.belongs_to(false));
}

#[test]
fn new_diagonal_board() {
    let g = Game::new(Variant::English);
    let whites = g.board.iter().filter(|p| **p == Piece::White).count();
    let blacks = g.board.iter().filter(|p| **p == Piece::Black).count();
    assert_eq!(whites, 12);
    assert_eq!(blacks, 12);
    assert_eq!(g.board[0 * 8 + 1], Piece::Black);
    assert_eq!(g.board[0 * 8 + 0], Piece::Empty);
    assert_eq!(g.board[5 * 8 + 0], Piece::White);
    assert_eq!(g.board[3 * 8 + 0], Piece::Empty);
    assert_eq!(g.white_count, 12);
    assert_eq!(g.black_count, 12);
    assert!(g.white_turn);
    assert_eq!(g.cursor, p(5, 0));
    assert_eq!(g.status.text(), "Your turn (White) - select a piece");
}

#[test]
fn new_turkish_board() {
    let g = Game::new(Variant::Turkish);
    let whites = g.board.iter().filter(|p| **p == Piece::White).count();
    let blacks = g.board.iter().filter(|p| **p == Piece::Black).count();
    assert_eq!(whites, 16);
    assert_eq!(blacks, 16);
    for c in 0..8 {
        assert_eq!(g.board[1 * 8 + c], Piece::Black);
        assert_eq!(g.board[2 * 8 + c], Piece::Black);
        assert_eq!(g.board[5 * 8 + c], Piece::White);
        assert_eq!(g.board[6 * 8 + c], Piece::White);
        assert_eq!(g.board[0 * 8 + c], Piece::Empty);
        assert_eq!(g.board[7 * 8 + c], Piece::Empty);
    }
    assert_eq!(g.white_count, 16);
    assert_eq!(g.black_count, 16);
}

#[test]
fn man_moves_forward_only() {
    let g = Game::new(Variant::English);
    assert_eq!(g.get_moves(p(5, 0)), vec![(p(4, 1), None)]);
    assert_eq!(g.get_moves(p(5, 2)), vec![(p(4, 1), None), (p(4, 3), None)]);
    assert_eq!(g.get_moves(p(6, 1)), vec![]);
    assert_eq!(g.get_moves(p(4, 4)), vec![]);
    assert_eq!(g.get_moves(p(2, 1)), vec![(p(3, 0), None), (p(3, 2), None)]);
}

#[test]
fn man_captures_forward_in_english_backward_in_russian() {
    for v in [Variant::English, Variant::Russian] {
        let mut g = empty_game(v);
        put(&mut g, 4, 4, Piece::White);
        put(&mut g, 3, 3, Piece::Black);
        put(&mut g, 5, 5, Piece::Black);
        let moves = g.get_moves(p(4, 4));
        if v == Variant::English {
            assert_eq!(moves, vec![(p(3, 5), None), (p(2, 2), Some(p(3, 3)))]);
        } else {
            assert_eq!(
                moves,
                vec![(p(3, 5), None), (p(2, 2), Some(p(3, 3))), (p(6, 6), Some(p(5, 5)))]
            );
        }
        assert_eq!(g.get_captures(p(4, 4)).len(), if v == Variant::English { 1 } else { 2 });
    }
}

#[test]
fn flying_king_slides_and_lands_beyond() {
    let mut g = empty_game(Variant::Russian);
    put(&mut g, 7, 0, Piece::WhiteKing);
    put(&mut g, 4, 3, Piece::Black);
    let moves = g.get_moves(p(7, 0));
    assert_eq!(
        moves,
        vec![
            (p(6, 1), None),
            (p(5, 2), None),
            (p(3, 4), Some(p(4, 3))),
            (p(2, 5), Some(p(4, 3))),
            (p(1, 6), Some(p(4, 3))),
            (p(0, 7), Some(p(4, 3))),
        ]
    );
    assert_eq!(g.get_captures(p(7, 0)).len(), 4);
}

#[test]
fn short_king_steps_one_square() {
    let mut g = empty_game(Variant::English);
    put(&mut g, 4, 4, Piece::BlackKing);
    let moves = g.get_moves(p(4, 4));
    assert_eq!(
        moves,
        vec![(p(3, 3), None), (p(3, 5), None), (p(5, 3), None), (p(5, 5), None)]
    );
}

#[test]
fn turkish_men_move_orthogonally() {
    let mut g = empty_game(Variant::Turkish);
    put(&mut g, 4, 4, Piece::White);
    put(&mut g, 4, 5, Piece::Black);
    let moves = g.get_moves(p(4, 4));
    assert_eq!(
        moves,
        vec![(p(3, 4), None), (p(4, 3), None), (p(4, 6), Some(p(4, 5)))]
    );
}

#[test]
fn turkish_king_slides_orthogonally() {
    let mut g = empty_game(Variant::Turkish);
    put(&mut g, 0, 0, Piece::BlackKing);
    put(&mut g, 0, 2, Piece::White);
    put(&mut g, 0, 4, Piece::Black);
    let moves = g.get_moves(p(0, 0));
    let mut expected = vec![];
    for r in 1..8 {
        expected.push((p(r, 0), None));
    }
    expected.insert(0, (p(0, 3), Some(p(0, 2))));
    // the order follows the directions: up, down, left, right
    let down: Vec<_> = (1..8).map(|r| (p(r, 0), None)).collect();
    let right = vec![(p(0, 1), None), (p(0, 3), Some(p(0, 2)))];
    let mut want = down;
    want.extend(right);
    assert_eq!(moves, want);
    assert_eq!(expected.len(), 8);
}

#[test]
fn any_capture_and_mandatory_capture() {
    let mut g = empty_game(Variant::English);
    put(&mut g, 5, 0, Piece::White);
    put(&mut g, 5, 4, Piece::White);
    put(&mut g, 4, 5, Piece::Black);
    put(&mut g, 6, 3, Piece::White);
    assert!(g.any_capture_for(true));
    assert!(!g.any_capture_for(false));
    let all = g.all_valid_moves_for(true);
    assert_eq!(all, vec![(p(5, 4), p(3, 6), Some(p(4, 5)))]);
    assert!(g.has_any_moves(true));
    let black = g.all_valid_moves_for(false);
    assert_eq!(black, vec![(p(4, 5), p(5, 6), None)]);
}

#[test]
fn side_without_pieces_has_no_moves() {
    let mut g = empty_game(Variant::Russian);
    put(&mut g, 0, 1, Piece::Black);
    assert!(!g.has_any_moves(true));
    assert!(g.has_any_moves(false));
}

#[test]
fn turkish_men_do_not_capture_backwards() {
    let mut g = empty_game(Variant::Turkish);
    put(&mut g, 4, 4, Piece::White);
    put(&mut g, 5, 4, Piece::Black);
    let moves = g.get_moves(p(4, 4));
    assert_eq!(moves, vec![(p(3, 4), None), (p(4, 3), None), (p(4, 5), None)]);
    let mut g = empty_game(Variant::Turkish);
    put(&mut g, 3, 3, Piece::Black);
    put(&mut g, 2, 3, Piece::White);
    put(&mut g, 4, 3, Piece::White);
    assert_eq!(g.get_moves(p(3, 3)), vec![(p(3, 2), None), (p(3, 4), None), (p(5, 3), Some(p(4, 3)))]);
}

#[test]
fn turkish_king_captures_backwards() {
    let mut g = empty_game(Variant::Turkish);
    put(&mut g, 4, 4, Piece::WhiteKing);
    put(&mut g, 5, 4, Piece::Black);
    assert!(g.get_captures(p(4, 4)).contains(&(p(6, 4), Some(p(5, 4)))));
}

#[test]
fn descriptions_follow_flags() {
    for v in [Variant::Russian, Variant::English, Variant::Brazilian, Variant::Turkish] {
        let d = v.description();
        assert_eq!(d.starts_with("Flying kings"), v.flying_king());
        assert_eq!(d.ends_with("backward captures"), v.backward_capture());
        assert_eq!(d.starts_with("Orthogonal"), v.orthogonal());
        assert_eq!(d.contains("Flying kings"), v.flying_king());
        assert_eq!(d.contains("backward captures"), v.backward_capture());
        assert_eq!(d.contains("Orthogonal"), v.orthogonal());
    }
}
