use checkers::display::{piece_symbol, shade, shows_dot, status_tone, Shade, Tone};
use checkers::game::Game;
use checkers::input::{command_for, Command, menu_rows_to_redraw, menu_step, menu_variant_at, Key, MenuAction};
use checkers::piece::{Piece, Pos, Variant};

#[test]
fn menu_navigation() {
    assert_eq!(menu_step(0, Key::Up), MenuAction::Highlight(0));
    assert_eq!(menu_step(0, Key::Down), MenuAction::Highlight(1));
    assert_eq!(menu_step(3, Key::Down), MenuAction::Highlight(3));
    assert_eq!(menu_step(2, Key::Up), MenuAction::Highlight(1));
    assert_eq!(menu_step(1, Key::Enter), MenuAction::Start(Variant::English));
    assert_eq!(menu_step(3, Key::Char(' ')), MenuAction::Start(Variant::Turkish));
    assert_eq!(menu_step(2, Key::Char('q')), MenuAction::Quit);
    assert_eq!(menu_step(2, Key::Char('Q')), MenuAction::Quit);
    assert_eq!(menu_step(2, Key::Esc), MenuAction::Highlight(2));
    assert_eq!(menu_variant_at(0), Variant::Russian);
    assert_eq!(menu_variant_at(2), Variant::Brazilian);
}

#[test]
fn menu_redraw_rows() {
    assert_eq!(menu_rows_to_redraw(0, None), vec![0, 1, 2, 3]);
    assert_eq!(menu_rows_to_redraw(2, Some(1)), vec![1, 2]);
}

#[test]
fn square_shades() {
    let mut g = Game::new(Variant::English);
    assert_eq!(shade(&g, Pos::new(5, 0)), Shade::Cursor);
    assert_eq!(shade(&g, Pos::new(0, 1)), Shade::Dark);
    assert_eq!(shade(&g, Pos::new(0, 0)), Shade::Light);
    g.cursor = Pos::new(0, 0);
    g.select(Pos::new(5, 2));
    assert_eq!(shade(&g, Pos::new(5, 2)), Shade::Selected);
    assert_eq!(shade(&g, Pos::new(4, 1)), Shade::Target);
    assert!(shows_dot(&g, Pos::new(4, 3)));
    assert!(!shows_dot(&g, Pos::new(5, 2)));
    g.white_turn = false;
    assert_eq!(shade(&g, Pos::new(0, 0)), Shade::Light);
}

#[test]
fn symbols_and_tones() {
    assert_eq!(piece_symbol(Piece::White), "( )");
    assert_eq!(piece_symbol(Piece::BlackKing), "(K)");
    assert_eq!(piece_symbol(Piece::Empty), "");
    let mut g = Game::new(Variant::English);
    assert_eq!(status_tone(&g), Tone::Active);
    g.white_turn = false;
    assert_eq!(status_tone(&g), Tone::Waiting);
    g.game_over = true;
    assert_eq!(status_tone(&g), Tone::Finished);
}

#[test]
fn game_commands() {
    assert_eq!(command_for(Key::Char('q')), Command::Quit);
    assert_eq!(command_for(Key::Char('M')), Command::Menu);
    assert_eq!(command_for(Key::Char('r')), Command::Play(Key::Char('r')));
    assert_eq!(command_for(Key::Up), Command::Play(Key::Up));
    let mut g = Game::new(Variant::English);
    assert!(!g.bot_to_move());
    g.white_turn = false;
    assert!(g.bot_to_move());
    g.game_over = true;
    assert!(!g.bot_to_move());
}
