use vstd::prelude::*;

verus! {

/// Number of rows and of columns of the board.
pub const SIZE: usize = 8;

/// The rule variants the game can be played with.
#[derive(Clone, Copy, PartialEq, Eq, Structural, Debug)]
pub enum Variant {
    Russian,
    English,
    Brazilian,
    Turkish,
}

impl Variant {
    /// Kings slide any number of squares along a line.
    #[verifier::allow_in_spec]
    pub fn flying_king(&self) -> bool
        returns
            *self is Russian || *self is Brazilian,
    {
        match self {
            Variant::Russian | Variant::Brazilian => true,
            _ => false,
        }
    }

    /// Men may capture backwards. Where they may not, as in the orthogonal variant, a man
    /// captures only in the directions it moves in: forward, and sideways when orthogonal.
    #[verifier::allow_in_spec]
    pub fn backward_capture(&self) -> bool
        returns
            *self is Russian || *self is Brazilian,
    {
        match self {
            Variant::Russian | Variant::Brazilian => true,
            _ => false,
        }
    }

    /// Pieces move orthogonally instead of diagonally.
    #[verifier::allow_in_spec]
    pub fn orthogonal(&self) -> bool
        returns
            *self is Turkish,
    {
        match self {
            Variant::Turkish => true,
            _ => false,
        }
    }
}

impl Variant {
    /// The name shown for the variant.
    pub open spec fn label_text(self) -> Seq<char> {
        match self {
            Variant::Russian => "Russian"@,
            Variant::English => "English (Draughts)"@,
            Variant::Brazilian => "Brazilian"@,
            Variant::Turkish => "Turkish"@,
        }
    }

    /// The one-line description shown for the variant.
    pub open spec fn description_text(self) -> Seq<char> {
        match self {
            Variant::Russian => "Flying kings  *  backward captures"@,
            Variant::English => "Short kings  *  forward captures only"@,
            Variant::Brazilian => "Flying kings  *  backward captures"@,
            Variant::Turkish => "Orthogonal moves  *  no diagonal"@,
        }
    }

    pub fn label(&self) -> (s: &'static str)
        ensures
            s@ == self.label_text(),
    {
        match self {
            Variant::Russian => "Russian",
            Variant::English => "English (Draughts)",
            Variant::Brazilian => "Brazilian",
            Variant::Turkish => "Turkish",
        }
    }

    pub fn description(&self) -> (s: &'static str)
        ensures
            s@ == self.description_text(),
    {
        match self {
            Variant::Russian => "Flying kings  *  backward captures",
            Variant::English => "Short kings  *  forward captures only",
            Variant::Brazilian => "Flying kings  *  backward captures",
            Variant::Turkish => "Orthogonal moves  *  no diagonal",
        }
    }
}

/// The description a variant with these rule flags gets: the kind of king and the
/// direction of men's captures, or, for orthogonal play, the way pieces move.
pub open spec fn describe(flying: bool, backward: bool, orthogonal: bool) -> Seq<char> {
    if orthogonal {
        "Orthogonal moves"@ + "  *  "@ + "no diagonal"@
    } else {
        (if flying {
            "Flying kings"@
        } else {
            "Short kings"@
        }) + "  *  "@ + (if backward {
            "backward captures"@
        } else {
            "forward captures only"@
        })
    }
}

/// Each variant's description is the one its rule flags call for: it begins with
/// "Flying kings" exactly when kings fly, ends with "backward captures" exactly when men
/// capture backwards, and begins with "Orthogonal" exactly when pieces move orthogonally.
pub proof fn law_description_follows_flags(v: Variant)
    ensures
        v.description_text() == describe(v.flying_king(), v.backward_capture(), v.orthogonal()),
        (v.description_text().take(12) == "Flying kings"@) == v.flying_king(),
        (v.description_text().skip(v.description_text().len() - 17) == "backward captures"@)
            == v.backward_capture(),
        (v.description_text().take(10) == "Orthogonal"@) == v.orthogonal(),
{
    reveal_strlit("Orthogonal moves");
    reveal_strlit("  *  ");
    reveal_strlit("no diagonal");
    reveal_strlit("Flying kings");
    reveal_strlit("Short kings");
    reveal_strlit("backward captures");
    reveal_strlit("forward captures only");
    reveal_strlit("Orthogonal");
    reveal_strlit("Flying kings  *  backward captures");
    reveal_strlit("Short kings  *  forward captures only");
    reveal_strlit("Orthogonal moves  *  no diagonal");
    let d = v.description_text();
    assert(d =~= describe(v.flying_king(), v.backward_capture(), v.orthogonal()));
    if v.flying_king() {
        assert(d.take(12) =~= "Flying kings"@);
        assert(d.skip(d.len() - 17) =~= "backward captures"@);
    } else {
        assert(d.take(12)[0] != "Flying kings"@[0]);
        assert(d.skip(d.len() - 17)[16] != "backward captures"@[16]);
    }
    if v.orthogonal() {
        assert(d.take(10) =~= "Orthogonal"@);
    } else {
        assert(d.take(10)[0] != "Orthogonal"@[0]);
    }
}

/// Text `t` occurs somewhere in text `s`.
pub open spec fn contains_text(s: Seq<char>, t: Seq<char>) -> bool {
    exists|i: int| 0 <= i && i + t.len() <= s.len() && #[trigger] s.subrange(i, i + t.len()) == t
}

pub(crate) proof fn lemma_missing_first_char(s: Seq<char>, t: Seq<char>)
    requires
        t.len() > 0,
        forall|j: int| 0 <= j < s.len() ==> s[j] != t[0],
    ensures
        !contains_text(s, t),
{
    if contains_text(s, t) {
        let i = choose|i: int| 0 <= i && i + t.len() <= s.len() && #[trigger] s.subrange(i, i + t.len()) == t;
        assert(s.subrange(i, i + t.len())[0] == s[i]);
    }
}

/// Each variant's description names its rules: it contains "Flying kings" exactly when kings
/// fly, "backward captures" exactly when men capture backwards, and "Orthogonal" exactly
/// when pieces move orthogonally.
pub proof fn law_description_names_flags(v: Variant)
    ensures
        contains_text(v.description_text(), "Flying kings"@) == v.flying_king(),
        contains_text(v.description_text(), "backward captures"@) == v.backward_capture(),
        contains_text(v.description_text(), "Orthogonal"@) == v.orthogonal(),
{
    reveal_strlit("Flying kings");
    reveal_strlit("backward captures");
    reveal_strlit("Orthogonal");
    reveal_strlit("Flying kings  *  backward captures");
    reveal_strlit("Short kings  *  forward captures only");
    reveal_strlit("Orthogonal moves  *  no diagonal");
    let d = v.description_text();
    if v.flying_king() {
        assert(d.subrange(0int, 0int + "Flying kings"@.len()) =~= "Flying kings"@);
        assert(d.subrange(17int, 17int + "backward captures"@.len()) =~= "backward captures"@);
        lemma_missing_first_char(d, "Orthogonal"@);
    } else if v.orthogonal() {
        assert(d.subrange(0int, 0int + "Orthogonal"@.len()) =~= "Orthogonal"@);
        lemma_missing_first_char(d, "Flying kings"@);
        lemma_missing_first_char(d, "backward captures"@);
    } else {
        lemma_missing_first_char(d, "Flying kings"@);
        lemma_missing_first_char(d, "backward captures"@);
        lemma_missing_first_char(d, "Orthogonal"@);
    }
}

/// What a square of the board holds.
#[derive(Clone, Copy, PartialEq, Eq, Structural, Debug)]
pub enum Piece {
    Empty,
    White,
    Black,
    WhiteKing,
    BlackKing,
}

impl Piece {
    #[verifier::allow_in_spec]
    pub fn is_white(&self) -> bool
        returns
            *self is White || *self is WhiteKing,
    {
        match self {
            Piece::White | Piece::WhiteKing => true,
            _ => false,
        }
    }

    #[verifier::allow_in_spec]
    pub fn is_black(&self) -> bool
        returns
            *self is Black || *self is BlackKing,
    {
        match self {
            Piece::Black | Piece::BlackKing => true,
            _ => false,
        }
    }

    #[verifier::allow_in_spec]
    pub fn is_king(&self) -> bool
        returns
            *self is WhiteKing || *self is BlackKing,
    {
        match self {
            Piece::WhiteKing | Piece::BlackKing => true,
            _ => false,
        }
    }

    /// Whether the piece is one of the side to move: white when `white_turn`, else black.
    #[verifier::allow_in_spec]
    pub fn belongs_to(&self, white_turn: bool) -> bool
        returns
            if white_turn { self.is_white() } else { self.is_black() },
    {
        if white_turn {
            self.is_white()
        } else {
            self.is_black()
        }
    }
}

/// A square of the board, by row (0 at the top, black's home side) and column.
#[derive(Clone, Copy, PartialEq, Eq, Structural, Debug)]
pub struct Pos {
    pub row: usize,
    pub col: usize,
}

impl Pos {
    pub fn new(row: usize, col: usize) -> (p: Self)
        ensures
            p.row == row,
            p.col == col,
    {
        Self { row, col }
    }

    /// The square lies on the board.
    pub open spec fn on_board(self) -> bool {
        self.row < SIZE && self.col < SIZE
    }
}

} // verus!
