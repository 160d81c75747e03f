use checkers::game::{Game, Status};
use checkers::input::Key;
use checkers::piece::{Piece, Pos, Variant};

fn empty_game(v: Variant) -> Game {
    let mut g = Game::new(v);
    for i in 0..64 {
        g.board[i] = Piece::Empty;
    }
    g
}

fn put(g: &mut Game, r: usize, c: usize, p: Piece) {
    g.board[r * 8 + c] = p;
}

fn at(g: &Game, r: usize, c: usize) -> Piece {
    g.board[r * 8 + c]
}

fn p(r: usize, c: usize) -> Pos {
    Pos::new(r, c)
}

#[test]
fn select_refuses_other_pieces() {
    let mut g = Game::new(Variant::English);
    g.select(p(2, 1));
    assert_eq!(g.status, Status::SelectOwnPiece);
    assert_eq!(g.status.text(), "Select your own piece!");
    assert!(g.selected.is_none());
    g.select(p(4, 4));
    assert_eq!(g.status, Status::SelectOwnPiece);
}

#[test]
fn select_piece_without_moves() {
    let mut g = Game::new(Variant::English);
    g.select(p(6, 1));
    assert_eq!(g.status, Status::PieceHasNoMoves);
    assert_eq!(g.status.text(), "This piece has no moves.");
}

#[test]
fn select_and_move() {
    let mut g = Game::new(Variant::English);
    g.select(p(5, 2));
    assert_eq!(g.selected, Some(p(5, 2)));
    assert_eq!(g.valid_moves, vec![(p(4, 1), None), (p(4, 3), None)]);
    assert_eq!(g.status.text(), "Move selected piece (arrows + enter)");
    g.try_move(p(3, 3));
    assert_eq!(g.status, Status::InvalidMove);
    assert_eq!(g.status.text(), "Invalid move - pick a highlighted square.");
    g.try_move(p(4, 3));
    assert_eq!(at(&g, 4, 3), Piece::White);
    assert_eq!(at(&g, 5, 2), Piece::Empty);
    assert!(!g.white_turn);
    assert!(g.bot_thinking);
    assert_eq!(g.status.text(), "Bot is thinking...");
    assert!(g.selected.is_none());
    assert!(g.valid_moves.is_empty());
}

#[test]
fn must_capture_when_possible() {
    let mut g = empty_game(Variant::English);
    put(&mut g, 5, 0, Piece::White);
    put(&mut g, 5, 4, Piece::White);
    put(&mut g, 4, 5, Piece::Black);
    put(&mut g, 0, 7, Piece::Black);
    g.select(p(5, 0));
    assert_eq!(g.status, Status::MustCapture);
    assert_eq!(g.status.text(), "Must capture! Pick a piece that can.");
    g.select(p(5, 4));
    assert_eq!(g.valid_moves, vec![(p(3, 6), Some(p(4, 5)))]);
}

#[test]
fn capture_counts_and_promotion() {
    let mut g = empty_game(Variant::English);
    put(&mut g, 2, 2, Piece::White);
    put(&mut g, 1, 3, Piece::Black);
    put(&mut g, 7, 0, Piece::Black);
    let ended = g.execute_move(p(2, 2), p(0, 4), Some(p(1, 3)));
    assert!(ended);
    assert_eq!(at(&g, 0, 4), Piece::WhiteKing);
    assert_eq!(at(&g, 1, 3), Piece::Empty);
    assert_eq!(at(&g, 2, 2), Piece::Empty);
    assert_eq!(g.black_count, 11);
    assert_eq!(g.white_count, 12);
}

#[test]
fn black_man_promotes_on_last_row() {
    let mut g = empty_game(Variant::English);
    g.white_turn = false;
    put(&mut g, 6, 1, Piece::Black);
    let ended = g.execute_move(p(6, 1), p(7, 0), None);
    assert!(ended);
    assert_eq!(at(&g, 7, 0), Piece::BlackKing);
}

#[test]
fn last_capture_wins() {
    let mut g = empty_game(Variant::English);
    g.black_count = 1;
    put(&mut g, 5, 2, Piece::White);
    put(&mut g, 4, 3, Piece::Black);
    let ended = g.execute_move(p(5, 2), p(3, 4), Some(p(4, 3)));
    assert!(ended);
    assert!(g.game_over);
    assert_eq!(g.black_count, 0);
    assert_eq!(g.status, Status::WhiteWins);
    assert_eq!(g.status.text(), "You win! Press R to restart.");
}

#[test]
fn counts_do_not_go_below_zero() {
    let mut g = empty_game(Variant::English);
    g.white_turn = false;
    g.white_count = 0;
    put(&mut g, 3, 2, Piece::Black);
    put(&mut g, 4, 3, Piece::White);
    let ended = g.execute_move(p(3, 2), p(5, 4), Some(p(4, 3)));
    assert!(ended);
    assert_eq!(g.white_count, 0);
    assert_eq!(g.status, Status::BlackWins);
    assert_eq!(g.status.text(), "Black (bot) wins! Press R to restart.");
}

#[test]
fn multi_jump_continues() {
    let mut g = empty_game(Variant::English);
    put(&mut g, 6, 1, Piece::White);
    put(&mut g, 5, 2, Piece::Black);
    put(&mut g, 3, 4, Piece::Black);
    put(&mut g, 0, 7, Piece::Black);
    g.select(p(6, 1));
    g.try_move(p(4, 3));
    assert!(g.white_turn);
    assert_eq!(g.must_continue, Some(p(4, 3)));
    assert_eq!(g.selected, Some(p(4, 3)));
    assert_eq!(g.valid_moves, vec![(p(2, 5), Some(p(3, 4)))]);
    assert_eq!(g.status, Status::ContinueJumping);
    assert_eq!(g.status.text(), "Continue jumping!");
    // Esc does not drop a piece that has to go on jumping
    g.handle_key(Key::Esc);
    assert_eq!(g.selected, Some(p(4, 3)));
    g.try_move(p(2, 5));
    assert!(!g.white_turn);
    assert_eq!(g.black_count, 10);
    assert!(g.must_continue.is_none());
}

#[test]
fn end_turn_without_moves_loses() {
    let mut g = empty_game(Variant::English);
    put(&mut g, 4, 4, Piece::White);
    g.end_turn();
    assert!(!g.white_turn);
    assert!(g.game_over);
    assert_eq!(g.status, Status::NoMovesLeft { white_to_move: false });
    assert_eq!(g.status.text(), "No moves left - You (White) wins! Press R to restart.");
    assert_eq!(
        Status::NoMovesLeft { white_to_move: true }.text(),
        "No moves left - Bot (Black) wins! Press R to restart."
    );
}

#[test]
fn bot_prefers_captures() {
    let mut g = empty_game(Variant::English);
    g.white_turn = false;
    put(&mut g, 2, 1, Piece::Black);
    put(&mut g, 2, 5, Piece::Black);
    put(&mut g, 3, 6, Piece::White);
    put(&mut g, 7, 0, Piece::White);
    g.bot_move();
    assert_eq!(at(&g, 4, 7), Piece::Black);
    assert_eq!(at(&g, 3, 6), Piece::Empty);
    assert_eq!(g.white_count, 11);
    assert!(g.white_turn);
    assert!(!g.bot_thinking);
}

#[test]
fn bot_score_values() {
    let mut g = empty_game(Variant::English);
    put(&mut g, 2, 1, Piece::BlackKing);
    assert_eq!(g.bot_score((p(2, 1), p(3, 2), None)), 100 + 30 - 2);
    assert_eq!(g.bot_score((p(2, 1), p(4, 3), Some(p(3, 2)))), 1000 + 100 + 40);
    put(&mut g, 0, 1, Piece::Black);
    assert_eq!(g.bot_score((p(0, 1), p(1, 0), None)), 10 - 6);
}

#[test]
fn bot_takes_last_of_equal_moves() {
    let mut g = empty_game(Variant::English);
    g.white_turn = false;
    put(&mut g, 0, 3, Piece::Black);
    put(&mut g, 7, 0, Piece::White);
    // (1,2) and (1,4) both score 10 - 2
    g.bot_move();
    assert_eq!(at(&g, 1, 4), Piece::Black);
}

#[test]
fn bot_continues_its_jump() {
    let mut g = empty_game(Variant::English);
    g.white_turn = false;
    put(&mut g, 1, 0, Piece::Black);
    put(&mut g, 2, 1, Piece::White);
    put(&mut g, 4, 3, Piece::White);
    put(&mut g, 7, 6, Piece::White);
    g.bot_move();
    assert_eq!(at(&g, 5, 4), Piece::Black);
    assert_eq!(at(&g, 2, 1), Piece::Empty);
    assert_eq!(at(&g, 4, 3), Piece::Empty);
    assert_eq!(g.white_count, 10);
    assert!(g.white_turn);
}

#[test]
fn bot_continue_jump_stops_without_captures() {
    let mut g = empty_game(Variant::English);
    g.white_turn = false;
    put(&mut g, 3, 3, Piece::Black);
    g.must_continue = Some(p(3, 3));
    g.bot_continue_jump();
    assert_eq!(g.must_continue, Some(p(3, 3)));
    assert_eq!(at(&g, 3, 3), Piece::Black);
}

#[test]
fn keys_move_cursor_within_board() {
    let mut g = Game::new(Variant::English);
    g.handle_key(Key::Left);
    assert_eq!(g.cursor, p(5, 0));
    g.handle_key(Key::Up);
    assert_eq!(g.cursor, p(4, 0));
    g.handle_key(Key::Right);
    assert_eq!(g.cursor, p(4, 1));
    for _ in 0..10 {
        g.handle_key(Key::Down);
    }
    assert_eq!(g.cursor, p(7, 1));
}

#[test]
fn enter_selects_then_moves() {
    let mut g = Game::new(Variant::English);
    g.handle_key(Key::Enter);
    assert_eq!(g.selected, Some(p(5, 0)));
    g.handle_key(Key::Enter);
    assert!(g.selected.is_none());
    assert_eq!(g.status, Status::YourTurn);
    g.handle_key(Key::Char(' '));
    assert_eq!(g.selected, Some(p(5, 0)));
    g.handle_key(Key::Up);
    g.handle_key(Key::Right);
    g.handle_key(Key::Enter);
    assert_eq!(at(&g, 4, 1), Piece::White);
    assert!(!g.white_turn);
    // keys are ignored while the bot plays
    g.handle_key(Key::Up);
    assert_eq!(g.cursor, p(4, 1));
}

#[test]
fn restart_key() {
    let mut g = Game::new(Variant::Russian);
    g.select(p(5, 0));
    g.try_move(p(4, 1));
    g.white_turn = true;
    g.handle_key(Key::Char('R'));
    assert_eq!(at(&g, 4, 1), Piece::Empty);
    assert_eq!(at(&g, 5, 0), Piece::White);
    assert_eq!(g.variant, Variant::Russian);
    g.game_over = true;
    g.handle_key(Key::Up);
    assert_eq!(g.cursor, p(5, 0));
    g.handle_key(Key::Char('r'));
    assert!(!g.game_over);
}
