use vstd::prelude::*;
use crate::input::Key;
use crate::piece::{contains_text, lemma_missing_first_char, Piece, Pos, Variant};
use crate::rules::{
    board_wf, capture_dirs_exec, captures_of, cell, cell_at, in_bounds, move_dirs_exec, piece_captures,
    piece_moves, push_jumps_over, push_slides_over, push_steps_over, sq, Move,
};
use crate::side_moves::{
    all_valid_moves, any_capture, full_moves_on_board, has_capture_at, lemma_all_valid_moves_on_board,
    lemma_moves_on_board, row_moves, rows_moves, with_from,
};
use crate::turns::{
    activate_spec, best_index, board_after, bot_move_spec, bot_score, deselect_spec, end_turn_spec,
    execute_move_spec, first_to, handle_key_spec, jump_chain, lemma_capture_removes_one,
    lemma_first_to, occupied, restarts, select_spec, try_move_spec,
};

verus! {


/// A move of the side to play: the square it leaves, the square it lands on, and the square
/// of the piece it captures, if any.
pub type FullMove = (Pos, Pos, Option<Pos>);

/// The line of text under the board.
#[derive(Clone, Copy, PartialEq, Eq, Structural, Debug)]
pub enum Status {
    YourTurn,
    SelectOwnPiece,
    MustCapture,
    PieceHasNoMoves,
    MoveSelected,
    BlackWins,
    WhiteWins,
    ContinueJumping,
    NoMovesLeft { white_to_move: bool },
    BotThinking,
    InvalidMove,
}

impl Status {
    pub open spec fn text_spec(self) -> Seq<char> {
        match self {
            Status::YourTurn => "Your turn (White) - select a piece"@,
            Status::SelectOwnPiece => "Select your own piece!"@,
            Status::MustCapture => "Must capture! Pick a piece that can."@,
            Status::PieceHasNoMoves => "This piece has no moves."@,
            Status::MoveSelected => "Move selected piece (arrows + enter)"@,
            Status::BlackWins => "Black (bot) wins! Press R to restart."@,
            Status::WhiteWins => "You win! Press R to restart."@,
            Status::ContinueJumping => "Continue jumping!"@,
            Status::NoMovesLeft { white_to_move } => if white_to_move {
                "No moves left - Bot (Black) wins! Press R to restart."@
            } else {
                "No moves left - You (White) wins! Press R to restart."@
            },
            Status::BotThinking => "Bot is thinking..."@,
            Status::InvalidMove => "Invalid move - pick a highlighted square."@,
        }
    }

    /// The message shown for this status.
    pub fn text(&self) -> (s: &'static str)
        ensures
            s@ == self.text_spec(),
    {
        match self {
            Status::YourTurn => "Your turn (White) - select a piece",
            Status::SelectOwnPiece => "Select your own piece!",
            Status::MustCapture => "Must capture! Pick a piece that can.",
            Status::PieceHasNoMoves => "This piece has no moves.",
            Status::MoveSelected => "Move selected piece (arrows + enter)",
            Status::BlackWins => "Black (bot) wins! Press R to restart.",
            Status::WhiteWins => "You win! Press R to restart.",
            Status::ContinueJumping => "Continue jumping!",
            Status::NoMovesLeft { white_to_move } => if *white_to_move {
                "No moves left - Bot (Black) wins! Press R to restart."
            } else {
                "No moves left - You (White) wins! Press R to restart."
            },
            Status::BotThinking => "Bot is thinking...",
            Status::InvalidMove => "Invalid move - pick a highlighted square.",
        }
    }
}

/// When a side is left without moves, the message names the other side as the winner: the
/// bot when white is stuck, the player when black is.
pub proof fn law_stuck_message_names_winner(white_to_move: bool)
    ensures
        contains_text(Status::NoMovesLeft { white_to_move }.text_spec(), "Bot (Black) wins"@)
            == white_to_move,
        contains_text(Status::NoMovesLeft { white_to_move }.text_spec(), "You (White) wins"@)
            == !white_to_move,
{
    reveal_strlit("Bot (Black) wins");
    reveal_strlit("You (White) wins");
    reveal_strlit("No moves left - Bot (Black) wins! Press R to restart.");
    reveal_strlit("No moves left - You (White) wins! Press R to restart.");
    let t = Status::NoMovesLeft { white_to_move }.text_spec();
    if white_to_move {
        assert(t.subrange(16int, 16int + "Bot (Black) wins"@.len()) =~= "Bot (Black) wins"@);
        lemma_missing_first_char(t, "You (White) wins"@);
    } else {
        assert(t.subrange(16int, 16int + "You (White) wins"@.len()) =~= "You (White) wins"@);
        lemma_missing_first_char(t, "Bot (Black) wins"@);
    }
}

/// A game in progress. White is the human player, black the bot.
pub struct Game {
    /// The 64 squares, row by row; row 0 is black's home row.
    pub board: Vec<Piece>,
    pub cursor: Pos,
    pub selected: Option<Pos>,
    pub white_turn: bool,
    /// The moves of the selected piece that may be played.
    pub valid_moves: Vec<Move>,
    /// The square of the piece that has to go on jumping.
    pub must_continue: Option<Pos>,
    pub status: Status,
    pub white_count: u8,
    pub black_count: u8,
    pub game_over: bool,
    pub bot_thinking: bool,
    pub variant: Variant,
    pub needs_clear: bool,
}

/// The mathematical state of a game.
pub struct GameView {
    pub board: Seq<Piece>,
    pub cursor: Pos,
    pub selected: Option<Pos>,
    pub white_turn: bool,
    pub valid_moves: Seq<Move>,
    pub must_continue: Option<Pos>,
    pub status: Status,
    pub white_count: u8,
    pub black_count: u8,
    pub game_over: bool,
    pub bot_thinking: bool,
    pub variant: Variant,
    pub needs_clear: bool,
}

impl View for Game {
    type V = GameView;

    open spec fn view(&self) -> GameView {
        GameView {
            board: self.board@,
            cursor: self.cursor,
            selected: self.selected,
            white_turn: self.white_turn,
            valid_moves: self.valid_moves@,
            must_continue: self.must_continue,
            status: self.status,
            white_count: self.white_count,
            black_count: self.black_count,
            game_over: self.game_over,
            bot_thinking: self.bot_thinking,
            variant: self.variant,
            needs_clear: self.needs_clear,
        }
    }
}

pub open spec fn moves_on_board(s: Seq<Move>) -> bool {
    forall|i: int|
        0 <= i < s.len() ==> (#[trigger] s[i]).0.on_board() && (s[i].1 matches Some(cp)
            ==> cp.on_board())
}

impl GameView {
    /// The board has 64 squares, every square the game remembers lies on it, and there are
    /// moves to play only when a piece is selected.
    pub open spec fn wf(self) -> bool {
        &&& board_wf(self.board)
        &&& self.cursor.on_board()
        &&& (self.selected matches Some(p) ==> p.on_board())
        &&& (self.must_continue matches Some(p) ==> p.on_board())
        &&& moves_on_board(self.valid_moves)
        &&& (self.valid_moves.len() > 0 ==> self.selected is Some)
    }
}

/// The piece on a square at the start of a game.
pub open spec fn initial_cell(v: Variant, r: int, c: int) -> Piece {
    if v.orthogonal() {
        if 1 <= r < 3 {
            Piece::Black
        } else if 5 <= r < 7 {
            Piece::White
        } else {
            Piece::Empty
        }
    } else {
        if (r + c) % 2 == 1 && r < 3 {
            Piece::Black
        } else if (r + c) % 2 == 1 && r >= 5 {
            Piece::White
        } else {
            Piece::Empty
        }
    }
}

/// The number of pieces each side starts with: sixteen in the orthogonal variant, which
/// fills two whole rows a side, twelve otherwise.
pub open spec fn initial_count(v: Variant) -> u8 {
    if v.orthogonal() {
        16
    } else {
        12
    }
}

/// `g` is a game as it starts with variant `v`.
pub open spec fn is_new_game(g: GameView, v: Variant) -> bool {
    &&& board_wf(g.board)
    &&& forall|r: int, c: int|
        in_bounds(r, c) ==> #[trigger] cell(g.board, r, c) == initial_cell(v, r, c)
    &&& g.cursor == Pos { row: 5, col: 0 }
    &&& g.selected is None
    &&& g.white_turn
    &&& g.valid_moves.len() == 0
    &&& g.must_continue is None
    &&& g.status == Status::YourTurn
    &&& g.white_count == initial_count(v)
    &&& g.black_count == initial_count(v)
    &&& !g.game_over
    &&& !g.bot_thinking
    &&& g.variant == v
    &&& g.needs_clear
}

impl Game {
    /// A new game of `variant`, white to move. Each side's count starts at the number of
    /// pieces it has on the board: sixteen in the orthogonal variant, twelve otherwise.
    pub fn new(variant: Variant) -> (g: Self)
        ensures
            is_new_game(g@, variant),
            g@.wf(),
    {
        let mut board: Vec<Piece> = Vec::new();
        let orth = variant.orthogonal();
        let mut row: usize = 0;
        while row < 8
            invariant
                row <= 8,
                orth == variant.orthogonal(),
                board@.len() == row * 8,
                forall|r: int, c: int|
                    0 <= r < 8 && 0 <= c < 8 && r * 8 + c < board@.len() ==> #[trigger] board@[r
                        * 8 + c] == initial_cell(variant, r, c),
            decreases 8 - row,
        {
            let mut col: usize = 0;
            while col < 8
                invariant
                    row < 8,
                    col <= 8,
                    orth == variant.orthogonal(),
                    board@.len() == row * 8 + col,
                    forall|r: int, c: int|
                        0 <= r < 8 && 0 <= c < 8 && r * 8 + c < board@.len() ==> #[trigger] board@[r
                            * 8 + c] == initial_cell(variant, r, c),
                decreases 8 - col,
            {
                let p = if orth {
                    if row >= 1 && row < 3 {
                        Piece::Black
                    } else if row >= 5 && row < 7 {
                        Piece::White
                    } else {
                        Piece::Empty
                    }
                } else {
                    if (row + col) % 2 == 1 && row < 3 {
                        Piece::Black
                    } else if (row + col) % 2 == 1 && row >= 5 {
                        Piece::White
                    } else {
                        Piece::Empty
                    }
                };
                board.push(p);
                proof {
                    assert forall|r: int, c: int|
                        0 <= r < 8 && 0 <= c < 8 && r * 8 + c < board@.len() implies #[trigger] board@[r
                            * 8 + c] == initial_cell(variant, r, c) by {
                        if r * 8 + c == row * 8 + col {
                            assert(r == row && c == col);
                        }
                    }
                }
                col = col + 1;
            }
            row = row + 1;
        }
        let start_count: u8 = if orth {
            16
        } else {
            12
        };
        Game {
            board,
            cursor: Pos::new(5, 0),
            selected: None,
            white_turn: true,
            valid_moves: Vec::new(),
            must_continue: None,
            status: Status::YourTurn,
            white_count: start_count,
            black_count: start_count,
            game_over: false,
            bot_thinking: false,
            variant,
            needs_clear: true,
        }
    }

    /// Whether the bot is to play now: it is black's turn and the game goes on.
    pub fn bot_to_move(&self) -> (res: bool)
        ensures
            res == (!self.white_turn && !self.game_over),
    {
        !self.white_turn && !self.game_over
    }

    /// Every move of the piece on `pos`, plain moves and captures, in the order the rules
    /// list them; empty when the square is empty.
    pub fn get_moves(&self, pos: Pos) -> (moves: Vec<Move>)
        requires
            board_wf(self.board@),
            pos.on_board(),
        ensures
            moves@ == piece_moves(self.board@, self.variant, pos),
    {
        let piece = cell_at(&self.board, pos.row, pos.col);
        if piece == Piece::Empty {
            return Vec::new();
        }
        let mut moves: Vec<Move> = Vec::new();
        let r = pos.row as i32;
        let c = pos.col as i32;
        let mdirs = move_dirs_exec(self.variant, piece);
        if piece.is_king() && (self.variant.orthogonal() || self.variant.flying_king()) {
            push_slides_over(&self.board, piece, r, c, &mdirs, &mut moves);
        } else {
            push_steps_over(&self.board, r, c, &mdirs, &mut moves);
            let cdirs = capture_dirs_exec(self.variant, piece);
            push_jumps_over(&self.board, piece, r, c, &cdirs, &mut moves);
        }
        assert(moves@ =~= piece_moves(self.board@, self.variant, pos));
        moves
    }

    /// The captures among the moves of the piece on `pos`, in the same order.
    pub fn get_captures(&self, pos: Pos) -> (caps: Vec<Move>)
        requires
            board_wf(self.board@),
            pos.on_board(),
        ensures
            caps@ == piece_captures(self.board@, self.variant, pos),
    {
        let moves = self.get_moves(pos);
        let mut caps: Vec<Move> = Vec::new();
        let mut i: usize = 0;
        while i < moves.len()
            invariant
                i <= moves@.len(),
                caps@ == captures_of(moves@.take(i as int)),
            decreases moves.len() - i,
        {
            let m = moves[i];
            if m.1.is_some() {
                caps.push(m);
            }
            proof {
                assert(moves@.take(i + 1).drop_last() =~= moves@.take(i as int));
            }
            i = i + 1;
        }
        assert(moves@.take(moves@.len() as int) =~= moves@);
        caps
    }

    /// Whether some piece of side `white` can capture.
    pub fn any_capture_for(&self, white: bool) -> (res: bool)
        requires
            board_wf(self.board@),
        ensures
            res == any_capture(self.board@, self.variant, white),
    {
        let mut row: usize = 0;
        while row < 8
            invariant
                row <= 8,
                board_wf(self.board@),
                forall|r: int, c: int|
                    0 <= r < row && 0 <= c < 8 ==> !#[trigger] has_capture_at(
                        self.board@,
                        self.variant,
                        white,
                        r,
                        c,
                    ),
            decreases 8 - row,
        {
            let mut col: usize = 0;
            while col < 8
                invariant
                    row < 8,
                    col <= 8,
                    board_wf(self.board@),
                    forall|r: int, c: int|
                        (0 <= r < row && 0 <= c < 8) || (r == row && 0 <= c < col)
                            ==> !#[trigger] has_capture_at(self.board@, self.variant, white, r, c),
                decreases 8 - col,
            {
                let piece = cell_at(&self.board, row, col);
                if piece != Piece::Empty && piece.belongs_to(white) {
                    let caps = self.get_captures(Pos::new(row, col));
                    if caps.len() > 0 {
                        assert(has_capture_at(
                            self.board@,
                            self.variant,
                            white,
                            row as int,
                            col as int,
                        ));
                        return true;
                    }
                }
                col = col + 1;
            }
            row = row + 1;
        }
        false
    }

    /// Every move side `white` may play, square by square in reading order; when some piece
    /// can capture, only captures.
    pub fn all_valid_moves_for(&self, white: bool) -> (res: Vec<FullMove>)
        requires
            board_wf(self.board@),
        ensures
            res@ == all_valid_moves(self.board@, self.variant, white),
    {
        let must_capture = self.any_capture_for(white);
        let ghost b = self.board@;
        let ghost v = self.variant;
        let mut result: Vec<FullMove> = Vec::new();
        let mut row: usize = 0;
        while row < 8
            invariant
                row <= 8,
                board_wf(self.board@),
                b == self.board@,
                v == self.variant,
                result@ == rows_moves(b, v, white, must_capture, row as int),
            decreases 8 - row,
        {
            let mut col: usize = 0;
            while col < 8
                invariant
                    row < 8,
                    col <= 8,
                    board_wf(self.board@),
                    b == self.board@,
                    v == self.variant,
                    result@ == rows_moves(b, v, white, must_capture, row as int) + row_moves(
                        b,
                        v,
                        white,
                        must_capture,
                        row as int,
                        col as int,
                    ),
                decreases 8 - col,
            {
                let ghost before = result@;
                let piece = cell_at(&self.board, row, col);
                if piece != Piece::Empty && piece.belongs_to(white) {
                    let pos = Pos::new(row, col);
                    let moves = if must_capture {
                        self.get_captures(pos)
                    } else {
                        self.get_moves(pos)
                    };
                    let mut j: usize = 0;
                    while j < moves.len()
                        invariant
                            j <= moves@.len(),
                            result@ == before + with_from(pos, moves@.take(j as int)),
                        decreases moves.len() - j,
                    {
                        let (to, cap) = moves[j];
                        result.push((pos, to, cap));
                        proof {
                            assert(result@ =~= before + with_from(pos, moves@.take(j + 1)));
                        }
                        j = j + 1;
                    }
                    assert(moves@.take(moves@.len() as int) =~= moves@);
                    assert(pos == sq(row as int, col as int));
                }
                assert(result@ =~= rows_moves(b, v, white, must_capture, row as int) + row_moves(
                    b,
                    v,
                    white,
                    must_capture,
                    row as int,
                    col + 1,
                ));
                col = col + 1;
            }
            assert(result@ =~= rows_moves(b, v, white, must_capture, row + 1));
            row = row + 1;
        }
        result
    }

    /// Whether side `white` has any move to play.
    pub fn has_any_moves(&self, white: bool) -> (res: bool)
        requires
            board_wf(self.board@),
        ensures
            res == (all_valid_moves(self.board@, self.variant, white).len() > 0),
    {
        self.all_valid_moves_for(white).len() > 0
    }

    /// Selects the piece on `pos` for the side to move, with the moves it may play.
    pub fn select(&mut self, pos: Pos)
        requires
            old(self)@.wf(),
            pos.on_board(),
        ensures
            final(self)@ == select_spec(old(self)@, pos),
            final(self)@.wf(),
    {
        let piece = cell_at(&self.board, pos.row, pos.col);
        if piece == Piece::Empty || !piece.belongs_to(self.white_turn) {
            self.status = Status::SelectOwnPiece;
            return ;
        }
        let must_capture = self.any_capture_for(self.white_turn);
        let moves = if must_capture {
            let caps = self.get_captures(pos);
            if caps.len() == 0 {
                self.status = Status::MustCapture;
                return ;
            }
            caps
        } else {
            self.get_moves(pos)
        };
        if moves.len() == 0 {
            self.status = Status::PieceHasNoMoves;
            return ;
        }
        proof {
            lemma_moves_on_board(self.board@, self.variant, pos);
        }
        self.selected = Some(pos);
        self.valid_moves = moves;
        self.status = Status::MoveSelected;
    }

    /// Plays the piece on `from` to `dest`, capturing what stands on `captured`; returns
    /// whether the turn is over.
    pub fn execute_move(&mut self, from: Pos, dest: Pos, captured: Option<Pos>) -> (turn_over: bool)
        requires
            old(self)@.wf(),
            from.on_board(),
            dest.on_board(),
            captured matches Some(cp) ==> cp.on_board(),
        ensures
            (final(self)@, turn_over) == execute_move_spec(old(self)@, from, dest, captured),
            final(self)@.wf(),
    {
        let ghost g0 = self@;
        let mut piece = cell_at(&self.board, from.row, from.col);
        self.board.set(from.row * 8 + from.col, Piece::Empty);
        if let Some(cap_pos) = captured {
            self.board.set(cap_pos.row * 8 + cap_pos.col, Piece::Empty);
            if self.white_turn {
                self.black_count = self.black_count.saturating_sub(1);
            } else {
                self.white_count = self.white_count.saturating_sub(1);
            }
        }
        if piece == Piece::White && dest.row == 0 {
            piece = Piece::WhiteKing;
        } else if piece == Piece::Black && dest.row == 7 {
            piece = Piece::BlackKing;
        }
        self.board.set(dest.row * 8 + dest.col, piece);
        assert(self.board@ =~= board_after(g0.board, from, dest, captured));
        if self.white_count == 0 {
            self.status = Status::BlackWins;
            self.game_over = true;
            self.selected = None;
            self.valid_moves.clear();
            return true;
        }
        if self.black_count == 0 {
            self.status = Status::WhiteWins;
            self.game_over = true;
            self.selected = None;
            self.valid_moves.clear();
            return true;
        }
        if captured.is_some() {
            let further = self.get_captures(dest);
            if further.len() > 0 {
                proof {
                    lemma_moves_on_board(self.board@, self.variant, dest);
                }
                self.selected = Some(dest);
                self.valid_moves = further;
                self.must_continue = Some(dest);
                if self.white_turn {
                    self.status = Status::ContinueJumping;
                }
                return false;
            }
        }
        true
    }

    /// Hands the turn to the other side; the game ends when that side cannot move.
    pub fn end_turn(&mut self)
        requires
            old(self)@.wf(),
        ensures
            final(self)@ == end_turn_spec(old(self)@),
            final(self)@.wf(),
    {
        self.must_continue = None;
        self.selected = None;
        self.valid_moves.clear();
        self.white_turn = !self.white_turn;
        if !self.has_any_moves(self.white_turn) {
            self.status = Status::NoMovesLeft { white_to_move: self.white_turn };
            self.game_over = true;
            return ;
        }
        if self.white_turn {
            self.status = Status::YourTurn;
        } else {
            self.status = Status::BotThinking;
            self.bot_thinking = true;
        }
    }

    /// Plays the selected piece to `to` when that is one of its moves.
    pub fn try_move(&mut self, to: Pos)
        requires
            old(self)@.wf(),
        ensures
            final(self)@ == try_move_spec(old(self)@, to),
            final(self)@.wf(),
    {
        let mut found: Option<Move> = None;
        let mut i: usize = 0;
        while i < self.valid_moves.len()
            invariant_except_break
                found is None,
            invariant
                i <= self.valid_moves@.len(),
                first_to(self.valid_moves@, to, 0) == first_to(self.valid_moves@, to, i as int),
            ensures
                found == first_to(self.valid_moves@, to, 0),
            decreases self.valid_moves.len() - i,
        {
            if self.valid_moves[i].0 == to {
                found = Some(self.valid_moves[i]);
                break ;
            }
            i = i + 1;
        }
        proof {
            lemma_first_to(self.valid_moves@, to, 0);
        }
        if let Some((dest, captured)) = found {
            let from = self.selected.unwrap();
            let turn_ended = self.execute_move(from, dest, captured);
            if turn_ended && !self.game_over {
                self.end_turn();
            }
        } else {
            self.status = Status::InvalidMove;
        }
    }

    /// How much the bot likes move `m`.
    pub fn bot_score(&self, m: FullMove) -> (score: i32)
        requires
            board_wf(self.board@),
            m.0.on_board(),
            m.1.on_board(),
        ensures
            score == bot_score(self.board@, m),
    {
        let (from, to, cap) = m;
        let mut score: i32 = 0;
        if cap.is_some() {
            score = score + 1000;
        }
        let piece = cell_at(&self.board, from.row, from.col);
        if piece.is_king() {
            score = score + 100;
        }
        score = score + to.row as i32 * 10;
        let col = to.col as i32;
        let a = if col - 3 < 0 {
            3 - col
        } else {
            col - 3
        };
        let d = if col - 4 < 0 {
            4 - col
        } else {
            col - 4
        };
        let center = if a <= d {
            a
        } else {
            d
        };
        score = score - center * 2;
        score
    }

    /// The bot plays black: its best-scoring move (the last one on ties), then it hands the
    /// turn over or goes on jumping.
    pub fn bot_move(&mut self)
        requires
            old(self)@.wf(),
        ensures
            final(self)@ == bot_move_spec(old(self)@),
            final(self)@.wf(),
    {
        self.bot_thinking = false;
        let moves = self.all_valid_moves_for(false);
        if moves.len() == 0 {
            return ;
        }
        proof {
            lemma_all_valid_moves_on_board(self.board@, self.variant, false);
        }
        let ghost ms = moves@;
        let mut best: usize = 0;
        let mut best_score = self.bot_score(moves[0]);
        let mut i: usize = 1;
        while i < moves.len()
            invariant
                1 <= i <= moves@.len(),
                ms == moves@,
                board_wf(self.board@),
                full_moves_on_board(ms),
                best as int == best_index(self.board@, ms, i as int),
                0 <= best < i,
                best_score == bot_score(self.board@, ms[best as int]),
            decreases moves.len() - i,
        {
            let sc = self.bot_score(moves[i]);
            if sc >= best_score {
                best = i;
                best_score = sc;
            }
            i = i + 1;
        }
        let (from, dest, captured) = moves[best];
        let turn_ended = self.execute_move(from, dest, captured);
        if turn_ended && !self.game_over {
            self.end_turn();
        } else if !turn_ended && !self.game_over {
            self.bot_continue_jump();
        }
    }

    /// While the game goes on and the piece that must keep jumping can capture, the bot plays
    /// its first capture.
    pub fn bot_continue_jump(&mut self)
        requires
            old(self)@.wf(),
        ensures
            final(self)@ == jump_chain(old(self)@, occupied(old(self)@.board)),
            final(self)@.wf(),
    {
        let ghost target = jump_chain(self@, occupied(self@.board));
        loop
            invariant_except_break
                jump_chain(self@, occupied(self@.board)) == target,
            invariant
                self@.wf(),
            ensures
                self@ == target,
            decreases occupied(self.board@),
        {
            if !(self.must_continue.is_some() && !self.game_over) {
                break ;
            }
            let pos = self.must_continue.unwrap();
            let caps = self.get_captures(pos);
            if caps.len() == 0 {
                break ;
            }
            let (dest, captured) = caps[0];
            proof {
                lemma_moves_on_board(self.board@, self.variant, pos);
                lemma_capture_removes_one(self.board@, self.variant, pos, 0);
            }
            let ghost before = self@;
            let turn_ended = self.execute_move(pos, dest, captured);
            if turn_ended {
                if !self.game_over {
                    self.end_turn();
                }
                break ;
            }
            assert(occupied(self.board@) + 1 == occupied(before.board));
        }
    }

    fn deselect(&mut self)
        requires
            old(self)@.wf(),
        ensures
            final(self)@ == deselect_spec(old(self)@),
            final(self)@.wf(),
    {
        if self.must_continue.is_none() {
            self.selected = None;
            self.valid_moves.clear();
            self.status = Status::YourTurn;
        }
    }

    fn activate(&mut self)
        requires
            old(self)@.wf(),
        ensures
            final(self)@ == activate_spec(old(self)@),
            final(self)@.wf(),
    {
        let pos = self.cursor;
        if let Some(sel) = self.selected {
            if pos == sel {
                self.deselect();
            } else {
                self.try_move(pos);
            }
        } else {
            self.select(pos);
        }
    }

    /// The game's answer to a key of the player.
    pub fn handle_key(&mut self, key: Key)
        requires
            old(self)@.wf(),
        ensures
            restarts(old(self)@, key) ==> is_new_game(final(self)@, old(self)@.variant),
            !restarts(old(self)@, key) ==> final(self)@ == handle_key_spec(old(self)@, key),
            final(self)@.wf(),
    {
        let restart = match key {
            Key::Char(ch) => ch == 'r' || ch == 'R',
            _ => false,
        };
        if self.game_over {
            if restart {
                let v = self.variant;
                *self = Game::new(v);
            }
            return ;
        }
        if !self.white_turn {
            return ;
        }
        if restart {
            let v = self.variant;
            *self = Game::new(v);
            return ;
        }
        match key {
            Key::Up => {
                if self.cursor.row > 0 {
                    self.cursor.row = self.cursor.row - 1;
                }
            },
            Key::Down => {
                if self.cursor.row < 7 {
                    self.cursor.row = self.cursor.row + 1;
                }
            },
            Key::Left => {
                if self.cursor.col > 0 {
                    self.cursor.col = self.cursor.col - 1;
                }
            },
            Key::Right => {
                if self.cursor.col < 7 {
                    self.cursor.col = self.cursor.col + 1;
                }
            },
            Key::Enter => self.activate(),
            Key::Char(ch) => {
                if ch == ' ' {
                    self.activate();
                }
            },
            Key::Esc => self.deselect(),
            Key::Other => {},
        }
    }
}

} // verus!

