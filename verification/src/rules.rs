use vstd::prelude::*;
use crate::piece::{Piece, Pos, Variant};

verus! {

/// A move of a piece: the square it lands on, and the square of the piece it captures, if any.
pub type Move = (Pos, Option<Pos>);

/// The board holds 64 squares, row by row.
pub open spec fn board_wf(b: Seq<Piece>) -> bool {
    b.len() == 64
}

pub open spec fn in_bounds(r: int, c: int) -> bool {
    0 <= r < 8 && 0 <= c < 8
}

/// The piece on row `r`, column `c`.
pub open spec fn cell(b: Seq<Piece>, r: int, c: int) -> Piece {
    b[r * 8 + c]
}

pub open spec fn sq(r: int, c: int) -> Pos {
    Pos { row: r as usize, col: c as usize }
}

/// `target` is a piece of the other colour than `piece`.
#[verifier::allow_in_spec]
pub fn is_enemy(piece: Piece, target: Piece) -> bool
    returns
        if piece.is_white() { target.is_black() } else { target.is_white() },
{
    if piece.is_white() {
        target.is_black()
    } else {
        target.is_white()
    }
}

/// A direction of one step along a row, a column or a diagonal.
pub open spec fn unit_dir(d: (i32, i32)) -> bool {
    -1 <= d.0 <= 1 && -1 <= d.1 <= 1 && (d.0 != 0 || d.1 != 0)
}

/// How far a ray from (r, c) in direction `d` can still go; it shrinks with every step on the board.
pub open spec fn ray_measure(d: (i32, i32), r: int, c: int) -> int {
    (if d.0 > 0 {
        8 - r
    } else if d.0 < 0 {
        r + 1
    } else {
        0
    }) + (if d.1 > 0 {
        8 - c
    } else if d.1 < 0 {
        c + 1
    } else {
        0
    })
}

/// The one-square move from (r, c) in direction `d`, if that square is on the board and empty.
pub open spec fn step_moves(b: Seq<Piece>, r: int, c: int, d: (i32, i32)) -> Seq<Move> {
    let nr = r + d.0;
    let nc = c + d.1;
    if in_bounds(nr, nc) && cell(b, nr, nc) == Piece::Empty {
        seq![(sq(nr, nc), None)]
    } else {
        seq![]
    }
}

/// The short jump from (r, c) in direction `d`: over an adjacent enemy onto the empty square behind it.
pub open spec fn jump_moves(b: Seq<Piece>, piece: Piece, r: int, c: int, d: (i32, i32)) -> Seq<
    Move,
> {
    let nr = r + d.0;
    let nc = c + d.1;
    let jr = r + 2 * d.0;
    let jc = c + 2 * d.1;
    if in_bounds(nr, nc) && is_enemy(piece, cell(b, nr, nc)) && in_bounds(jr, jc) && cell(
        b,
        jr,
        jc,
    ) == Piece::Empty {
        seq![(sq(jr, jc), Some(sq(nr, nc)))]
    } else {
        seq![]
    }
}

/// The landings beyond (r, c) in direction `d` after capturing the piece on `cap`:
/// every empty square up to the first occupied one or the edge.
pub open spec fn landings(b: Seq<Piece>, d: (i32, i32), cap: Pos, r: int, c: int) -> Seq<Move>
    decreases ray_measure(d, r, c),
{
    let nr = r + d.0;
    let nc = c + d.1;
    if !unit_dir(d) || !in_bounds(nr, nc) || cell(b, nr, nc) != Piece::Empty {
        seq![]
    } else {
        seq![(sq(nr, nc), Some(cap))] + landings(b, d, cap, nr, nc)
    }
}

/// The moves of a sliding king from (r, c) in direction `d`: every empty square up to the
/// first occupied one; if that one holds an enemy, every landing beyond it.
pub open spec fn slides(b: Seq<Piece>, piece: Piece, d: (i32, i32), r: int, c: int) -> Seq<Move>
    decreases ray_measure(d, r, c),
{
    let nr = r + d.0;
    let nc = c + d.1;
    if !unit_dir(d) || !in_bounds(nr, nc) {
        seq![]
    } else if cell(b, nr, nc) == Piece::Empty {
        seq![(sq(nr, nc), None)] + slides(b, piece, d, nr, nc)
    } else if is_enemy(piece, cell(b, nr, nc)) {
        landings(b, d, sq(nr, nc), nr, nc)
    } else {
        seq![]
    }
}

/// The step moves from (r, c) in each direction of `dirs`, in that order.
pub open spec fn steps_over(b: Seq<Piece>, r: int, c: int, dirs: Seq<(i32, i32)>) -> Seq<Move>
    decreases dirs.len(),
{
    if dirs.len() == 0 {
        seq![]
    } else {
        steps_over(b, r, c, dirs.drop_last()) + step_moves(b, r, c, dirs.last())
    }
}

/// The short jumps from (r, c) in each direction of `dirs`, in that order.
pub open spec fn jumps_over(b: Seq<Piece>, piece: Piece, r: int, c: int, dirs: Seq<(i32, i32)>) -> Seq<
    Move,
>
    decreases dirs.len(),
{
    if dirs.len() == 0 {
        seq![]
    } else {
        jumps_over(b, piece, r, c, dirs.drop_last()) + jump_moves(b, piece, r, c, dirs.last())
    }
}

/// The sliding moves from (r, c) in each direction of `dirs`, in that order.
pub open spec fn slides_over(b: Seq<Piece>, piece: Piece, r: int, c: int, dirs: Seq<(i32, i32)>) -> Seq<
    Move,
>
    decreases dirs.len(),
{
    if dirs.len() == 0 {
        seq![]
    } else {
        slides_over(b, piece, r, c, dirs.drop_last()) + slides(b, piece, dirs.last(), r, c)
    }
}

pub open spec fn orthogonal_dirs() -> Seq<(i32, i32)> {
    seq![(-1i32, 0i32), (1i32, 0i32), (0i32, -1i32), (0i32, 1i32)]
}

pub open spec fn diagonal_dirs() -> Seq<(i32, i32)> {
    seq![(-1i32, -1i32), (-1i32, 1i32), (1i32, -1i32), (1i32, 1i32)]
}

/// The directions a piece moves in: kings every way; men forward (up for white, down for
/// black), and sideways too in the orthogonal variant.
pub open spec fn move_dirs(v: Variant, piece: Piece) -> Seq<(i32, i32)> {
    if v.orthogonal() {
        if piece.is_king() {
            orthogonal_dirs()
        } else if piece.is_white() {
            seq![(-1i32, 0i32), (0i32, -1i32), (0i32, 1i32)]
        } else {
            seq![(1i32, 0i32), (0i32, -1i32), (0i32, 1i32)]
        }
    } else {
        if piece.is_king() {
            diagonal_dirs()
        } else if piece.is_white() {
            seq![(-1i32, -1i32), (-1i32, 1i32)]
        } else {
            seq![(1i32, -1i32), (1i32, 1i32)]
        }
    }
}

/// The directions a piece captures in: every direction for kings and where men may capture
/// backwards; otherwise the directions the man moves in (forward, and sideways in the
/// orthogonal variant).
pub open spec fn capture_dirs(v: Variant, piece: Piece) -> Seq<(i32, i32)> {
    if v.backward_capture() || piece.is_king() {
        if v.orthogonal() {
            orthogonal_dirs()
        } else {
            diagonal_dirs()
        }
    } else {
        move_dirs(v, piece)
    }
}

/// Kings that slide: in the orthogonal variant and in the flying-king variants.
pub open spec fn slides_far(v: Variant, piece: Piece) -> bool {
    piece.is_king() && (v.orthogonal() || v.flying_king())
}

/// Every move of the piece on `pos`, captures and plain moves alike, in the order the game
/// lists them.
pub open spec fn piece_moves(b: Seq<Piece>, v: Variant, pos: Pos) -> Seq<Move> {
    let r = pos.row as int;
    let c = pos.col as int;
    let piece = cell(b, r, c);
    if piece == Piece::Empty {
        seq![]
    } else if slides_far(v, piece) {
        slides_over(b, piece, r, c, move_dirs(v, piece))
    } else {
        steps_over(b, r, c, move_dirs(v, piece)) + jumps_over(
            b,
            piece,
            r,
            c,
            capture_dirs(v, piece),
        )
    }
}

/// The captures among `s`, in the same order.
pub open spec fn captures_of(s: Seq<Move>) -> Seq<Move>
    decreases s.len(),
{
    if s.len() == 0 {
        seq![]
    } else if s.last().1 is Some {
        captures_of(s.drop_last()).push(s.last())
    } else {
        captures_of(s.drop_last())
    }
}

/// The captures among the moves of the piece on `pos`, in the same order.
pub open spec fn piece_captures(b: Seq<Piece>, v: Variant, pos: Pos) -> Seq<Move> {
    captures_of(piece_moves(b, v, pos))
}

/// A move of `piece` is sound on board `b`: it lands on an empty square of the board, and
/// what it captures is an enemy piece on the board.
pub open spec fn move_ok(b: Seq<Piece>, piece: Piece, m: Move) -> bool {
    &&& m.0.on_board()
    &&& cell(b, m.0.row as int, m.0.col as int) == Piece::Empty
    &&& (m.1 matches Some(cp) ==> cp.on_board() && is_enemy(
        piece,
        cell(b, cp.row as int, cp.col as int),
    ))
}

pub open spec fn all_ok(b: Seq<Piece>, piece: Piece, s: Seq<Move>) -> bool {
    forall|i: int| 0 <= i < s.len() ==> move_ok(b, piece, #[trigger] s[i])
}

proof fn lemma_all_ok_add(b: Seq<Piece>, piece: Piece, s: Seq<Move>, t: Seq<Move>)
    requires
        all_ok(b, piece, s),
        all_ok(b, piece, t),
    ensures
        all_ok(b, piece, s + t),
{
    assert forall|i: int| 0 <= i < (s + t).len() implies move_ok(b, piece, #[trigger] (s + t)[i]) by {
        if i < s.len() {
            assert((s + t)[i] == s[i]);
        } else {
            assert((s + t)[i] == t[i - s.len()]);
        }
    }
}

proof fn lemma_landings_ok(b: Seq<Piece>, piece: Piece, d: (i32, i32), cap: Pos, r: int, c: int)
    requires
        board_wf(b),
        cap.on_board(),
        is_enemy(piece, cell(b, cap.row as int, cap.col as int)),
    ensures
        all_ok(b, piece, landings(b, d, cap, r, c)),
    decreases ray_measure(d, r, c),
{
    let nr = r + d.0;
    let nc = c + d.1;
    if !unit_dir(d) || !in_bounds(nr, nc) || cell(b, nr, nc) != Piece::Empty {
    } else {
        lemma_landings_ok(b, piece, d, cap, nr, nc);
        lemma_all_ok_add(b, piece, seq![(sq(nr, nc), Some(cap))], landings(b, d, cap, nr, nc));
    }
}

proof fn lemma_slides_ok(b: Seq<Piece>, piece: Piece, d: (i32, i32), r: int, c: int)
    requires
        board_wf(b),
    ensures
        all_ok(b, piece, slides(b, piece, d, r, c)),
    decreases ray_measure(d, r, c),
{
    let nr = r + d.0;
    let nc = c + d.1;
    if !unit_dir(d) || !in_bounds(nr, nc) {
    } else if cell(b, nr, nc) == Piece::Empty {
        lemma_slides_ok(b, piece, d, nr, nc);
        lemma_all_ok_add(b, piece, seq![(sq(nr, nc), None)], slides(b, piece, d, nr, nc));
    } else if is_enemy(piece, cell(b, nr, nc)) {
        lemma_landings_ok(b, piece, d, sq(nr, nc), nr, nc);
    }
}

proof fn lemma_steps_over_ok(b: Seq<Piece>, piece: Piece, r: int, c: int, dirs: Seq<(i32, i32)>)
    requires
        board_wf(b),
    ensures
        all_ok(b, piece, steps_over(b, r, c, dirs)),
    decreases dirs.len(),
{
    if dirs.len() > 0 {
        lemma_steps_over_ok(b, piece, r, c, dirs.drop_last());
        lemma_all_ok_add(
            b,
            piece,
            steps_over(b, r, c, dirs.drop_last()),
            step_moves(b, r, c, dirs.last()),
        );
    }
}

proof fn lemma_jumps_over_ok(b: Seq<Piece>, piece: Piece, r: int, c: int, dirs: Seq<(i32, i32)>)
    requires
        board_wf(b),
    ensures
        all_ok(b, piece, jumps_over(b, piece, r, c, dirs)),
    decreases dirs.len(),
{
    if dirs.len() > 0 {
        lemma_jumps_over_ok(b, piece, r, c, dirs.drop_last());
        lemma_all_ok_add(
            b,
            piece,
            jumps_over(b, piece, r, c, dirs.drop_last()),
            jump_moves(b, piece, r, c, dirs.last()),
        );
    }
}

proof fn lemma_slides_over_ok(b: Seq<Piece>, piece: Piece, r: int, c: int, dirs: Seq<(i32, i32)>)
    requires
        board_wf(b),
    ensures
        all_ok(b, piece, slides_over(b, piece, r, c, dirs)),
    decreases dirs.len(),
{
    if dirs.len() > 0 {
        lemma_slides_over_ok(b, piece, r, c, dirs.drop_last());
        lemma_slides_ok(b, piece, dirs.last(), r, c);
        lemma_all_ok_add(
            b,
            piece,
            slides_over(b, piece, r, c, dirs.drop_last()),
            slides(b, piece, dirs.last(), r, c),
        );
    }
}

/// Every move that `piece_moves` lists is sound for the piece on `pos`.
pub proof fn lemma_piece_moves_ok(b: Seq<Piece>, v: Variant, pos: Pos)
    requires
        board_wf(b),
    ensures
        all_ok(b, cell(b, pos.row as int, pos.col as int), piece_moves(b, v, pos)),
{
    let r = pos.row as int;
    let c = pos.col as int;
    let piece = cell(b, r, c);
    if piece == Piece::Empty {
    } else if slides_far(v, piece) {
        lemma_slides_over_ok(b, piece, r, c, move_dirs(v, piece));
    } else {
        lemma_steps_over_ok(b, piece, r, c, move_dirs(v, piece));
        lemma_jumps_over_ok(b, piece, r, c, capture_dirs(v, piece));
        lemma_all_ok_add(
            b,
            piece,
            steps_over(b, r, c, move_dirs(v, piece)),
            jumps_over(b, piece, r, c, capture_dirs(v, piece)),
        );
    }
}

/// `captures_of` keeps only captures, each one taken from `s`.
pub proof fn lemma_captures_of(b: Seq<Piece>, piece: Piece, s: Seq<Move>)
    ensures
        forall|i: int|
            0 <= i < captures_of(s).len() ==> (#[trigger] captures_of(s)[i]).1 is Some
                && s.contains(captures_of(s)[i]),
        all_ok(b, piece, s) ==> all_ok(b, piece, captures_of(s)),
        captures_of(s).len() == 0 <==> (forall|i: int| 0 <= i < s.len() ==> (#[trigger] s[i]).1 is None),
        captures_of(s).len() <= s.len(),
    decreases s.len(),
{
    if s.len() > 0 {
        let t = s.drop_last();
        lemma_captures_of(b, piece, t);
        assert forall|i: int| 0 <= i < t.len() implies s.contains(#[trigger] t[i]) by {
            assert(s[i] == t[i]);
        }
        assert(s[s.len() - 1] == s.last());
        if s.last().1 is None {
            assert forall|i: int| 0 <= i < s.len() && (forall|j: int| 0 <= j < t.len() ==> (#[trigger] t[j]).1 is None) implies (#[trigger] s[i]).1 is None by {
                if i < t.len() {
                    assert(s[i] == t[i]);
                }
            }
        }
    }
}

/// Every direction of `dirs` is a unit direction.
pub open spec fn all_unit(dirs: Seq<(i32, i32)>) -> bool {
    forall|i: int| 0 <= i < dirs.len() ==> unit_dir(#[trigger] dirs[i])
}

/// The directions of `move_dirs`, built for the executable code.
pub fn move_dirs_exec(v: Variant, piece: Piece) -> (dirs: Vec<(i32, i32)>)
    ensures
        dirs@ == move_dirs(v, piece),
        all_unit(dirs@),
{
    let mut dirs: Vec<(i32, i32)> = Vec::new();
    if v.orthogonal() {
        if piece.is_king() {
            dirs.push((-1, 0));
            dirs.push((1, 0));
            dirs.push((0, -1));
            dirs.push((0, 1));
        } else if piece.is_white() {
            dirs.push((-1, 0));
            dirs.push((0, -1));
            dirs.push((0, 1));
        } else {
            dirs.push((1, 0));
            dirs.push((0, -1));
            dirs.push((0, 1));
        }
    } else {
        if piece.is_king() {
            dirs.push((-1, -1));
            dirs.push((-1, 1));
            dirs.push((1, -1));
            dirs.push((1, 1));
        } else if piece.is_white() {
            dirs.push((-1, -1));
            dirs.push((-1, 1));
        } else {
            dirs.push((1, -1));
            dirs.push((1, 1));
        }
    }
    assert(dirs@ =~= move_dirs(v, piece));
    dirs
}

/// The directions of `capture_dirs`, built for the executable code.
pub fn capture_dirs_exec(v: Variant, piece: Piece) -> (dirs: Vec<(i32, i32)>)
    ensures
        dirs@ == capture_dirs(v, piece),
        all_unit(dirs@),
{
    if v.backward_capture() || piece.is_king() {
        let mut dirs: Vec<(i32, i32)> = Vec::new();
        if v.orthogonal() {
            dirs.push((-1, 0));
            dirs.push((1, 0));
            dirs.push((0, -1));
            dirs.push((0, 1));
        } else {
            dirs.push((-1, -1));
            dirs.push((-1, 1));
            dirs.push((1, -1));
            dirs.push((1, 1));
        }
        assert(dirs@ =~= capture_dirs(v, piece));
        dirs
    } else {
        move_dirs_exec(v, piece)
    }
}

pub fn cell_at(b: &Vec<Piece>, r: usize, c: usize) -> (p: Piece)
    requires
        board_wf(b@),
        r < 8,
        c < 8,
    ensures
        p == cell(b@, r as int, c as int),
{
    b[r * 8 + c]
}

fn push_step(b: &Vec<Piece>, r: i32, c: i32, d: (i32, i32), moves: &mut Vec<Move>)
    requires
        board_wf(b@),
        in_bounds(r as int, c as int),
        unit_dir(d),
    ensures
        final(moves)@ == old(moves)@ + step_moves(b@, r as int, c as int, d),
{
    let nr = r + d.0;
    let nc = c + d.1;
    if nr >= 0 && nr < 8 && nc >= 0 && nc < 8 {
        if cell_at(b, nr as usize, nc as usize) == Piece::Empty {
            moves.push((Pos { row: nr as usize, col: nc as usize }, None));
        }
    }
    proof {
        assert(final(moves)@ =~= old(moves)@ + step_moves(b@, r as int, c as int, d));
    }
}

fn push_jump(b: &Vec<Piece>, piece: Piece, r: i32, c: i32, d: (i32, i32), moves: &mut Vec<Move>)
    requires
        board_wf(b@),
        in_bounds(r as int, c as int),
        unit_dir(d),
    ensures
        final(moves)@ == old(moves)@ + jump_moves(b@, piece, r as int, c as int, d),
{
    let nr = r + d.0;
    let nc = c + d.1;
    if nr >= 0 && nr < 8 && nc >= 0 && nc < 8 {
        let target = cell_at(b, nr as usize, nc as usize);
        if is_enemy(piece, target) {
            let jr = r + 2 * d.0;
            let jc = c + 2 * d.1;
            if jr >= 0 && jr < 8 && jc >= 0 && jc < 8 {
                if cell_at(b, jr as usize, jc as usize) == Piece::Empty {
                    moves.push(
                        (
                            Pos { row: jr as usize, col: jc as usize },
                            Some(Pos { row: nr as usize, col: nc as usize }),
                        ),
                    );
                }
            }
        }
    }
    proof {
        assert(final(moves)@ =~= old(moves)@ + jump_moves(b@, piece, r as int, c as int, d));
    }
}

fn push_landings(
    b: &Vec<Piece>,
    d: (i32, i32),
    cap: Pos,
    r0: i32,
    c0: i32,
    moves: &mut Vec<Move>,
)
    requires
        board_wf(b@),
        in_bounds(r0 as int, c0 as int),
        unit_dir(d),
    ensures
        final(moves)@ == old(moves)@ + landings(b@, d, cap, r0 as int, c0 as int),
{
    let ghost start = moves@;
    let ghost target = start + landings(b@, d, cap, r0 as int, c0 as int);
    let mut r = r0;
    let mut c = c0;
    loop
        invariant_except_break
            in_bounds(r as int, c as int),
            moves@ + landings(b@, d, cap, r as int, c as int) == target,
        invariant
            board_wf(b@),
            unit_dir(d),
            target == start + landings(b@, d, cap, r0 as int, c0 as int),
        ensures
            moves@ == target,
        decreases ray_measure(d, r as int, c as int),
    {
        let nr = r + d.0;
        let nc = c + d.1;
        if nr < 0 || nr >= 8 || nc < 0 || nc >= 8 {
            assert(moves@ =~= target);
            break ;
        }
        if cell_at(b, nr as usize, nc as usize) != Piece::Empty {
            assert(moves@ =~= target);
            break ;
        }
        let ghost before = moves@;
        moves.push((Pos { row: nr as usize, col: nc as usize }, Some(cap)));
        proof {
            assert(moves@ + landings(b@, d, cap, nr as int, nc as int) =~= before + landings(
                b@,
                d,
                cap,
                r as int,
                c as int,
            ));
        }
        r = nr;
        c = nc;
    }
}

fn push_slides(
    b: &Vec<Piece>,
    piece: Piece,
    d: (i32, i32),
    r0: i32,
    c0: i32,
    moves: &mut Vec<Move>,
)
    requires
        board_wf(b@),
        in_bounds(r0 as int, c0 as int),
        unit_dir(d),
    ensures
        final(moves)@ == old(moves)@ + slides(b@, piece, d, r0 as int, c0 as int),
{
    let ghost start = moves@;
    let ghost target = start + slides(b@, piece, d, r0 as int, c0 as int);
    let mut r = r0;
    let mut c = c0;
    loop
        invariant_except_break
            in_bounds(r as int, c as int),
            moves@ + slides(b@, piece, d, r as int, c as int) == target,
        invariant
            board_wf(b@),
            unit_dir(d),
            target == start + slides(b@, piece, d, r0 as int, c0 as int),
        ensures
            moves@ == target,
        decreases ray_measure(d, r as int, c as int),
    {
        let nr = r + d.0;
        let nc = c + d.1;
        if nr < 0 || nr >= 8 || nc < 0 || nc >= 8 {
            assert(moves@ =~= target);
            break ;
        }
        let t = cell_at(b, nr as usize, nc as usize);
        if t == Piece::Empty {
            let ghost before = moves@;
            moves.push((Pos { row: nr as usize, col: nc as usize }, None));
            proof {
                assert(moves@ + slides(b@, piece, d, nr as int, nc as int) =~= before + slides(
                    b@,
                    piece,
                    d,
                    r as int,
                    c as int,
                ));
            }
            r = nr;
            c = nc;
        } else {
            if is_enemy(piece, t) {
                push_landings(b, d, Pos { row: nr as usize, col: nc as usize }, nr, nc, moves);
            } else {
                assert(moves@ =~= target);
            }
            break ;
        }
    }
}

pub fn push_steps_over(
    b: &Vec<Piece>,
    r: i32,
    c: i32,
    dirs: &Vec<(i32, i32)>,
    moves: &mut Vec<Move>,
)
    requires
        board_wf(b@),
        in_bounds(r as int, c as int),
        all_unit(dirs@),
    ensures
        final(moves)@ == old(moves)@ + steps_over(b@, r as int, c as int, dirs@),
{
    let ghost start = moves@;
    let mut i: usize = 0;
    while i < dirs.len()
        invariant
            0 <= i <= dirs@.len(),
            board_wf(b@),
            in_bounds(r as int, c as int),
            all_unit(dirs@),
            moves@ == start + steps_over(b@, r as int, c as int, dirs@.take(i as int)),
        decreases dirs.len() - i,
    {
        let ghost before = moves@;
        push_step(b, r, c, dirs[i], moves);
        proof {
            let t = dirs@.take(i + 1);
            assert(t.drop_last() =~= dirs@.take(i as int));
            assert(moves@ =~= start + steps_over(b@, r as int, c as int, t));
        }
        i = i + 1;
    }
    assert(dirs@.take(dirs@.len() as int) =~= dirs@);
}

pub fn push_jumps_over(
    b: &Vec<Piece>,
    piece: Piece,
    r: i32,
    c: i32,
    dirs: &Vec<(i32, i32)>,
    moves: &mut Vec<Move>,
)
    requires
        board_wf(b@),
        in_bounds(r as int, c as int),
        all_unit(dirs@),
    ensures
        final(moves)@ == old(moves)@ + jumps_over(b@, piece, r as int, c as int, dirs@),
{
    let ghost start = moves@;
    let mut i: usize = 0;
    while i < dirs.len()
        invariant
            0 <= i <= dirs@.len(),
            board_wf(b@),
            in_bounds(r as int, c as int),
            all_unit(dirs@),
            moves@ == start + jumps_over(b@, piece, r as int, c as int, dirs@.take(i as int)),
        decreases dirs.len() - i,
    {
        push_jump(b, piece, r, c, dirs[i], moves);
        proof {
            let t = dirs@.take(i + 1);
            assert(t.drop_last() =~= dirs@.take(i as int));
            assert(moves@ =~= start + jumps_over(b@, piece, r as int, c as int, t));
        }
        i = i + 1;
    }
    assert(dirs@.take(dirs@.len() as int) =~= dirs@);
}

pub fn push_slides_over(
    b: &Vec<Piece>,
    piece: Piece,
    r: i32,
    c: i32,
    dirs: &Vec<(i32, i32)>,
    moves: &mut Vec<Move>,
)
    requires
        board_wf(b@),
        in_bounds(r as int, c as int),
        all_unit(dirs@),
    ensures
        final(moves)@ == old(moves)@ + slides_over(b@, piece, r as int, c as int, dirs@),
{
    let ghost start = moves@;
    let mut i: usize = 0;
    while i < dirs.len()
        invariant
            0 <= i <= dirs@.len(),
            board_wf(b@),
            in_bounds(r as int, c as int),
            all_unit(dirs@),
            moves@ == start + slides_over(b@, piece, r as int, c as int, dirs@.take(i as int)),
        decreases dirs.len() - i,
    {
        push_slides(b, piece, dirs[i], r, c, moves);
        proof {
            let t = dirs@.take(i + 1);
            assert(t.drop_last() =~= dirs@.take(i as int));
            assert(moves@ =~= start + slides_over(b@, piece, r as int, c as int, t));
        }
        i = i + 1;
    }
    assert(dirs@.take(dirs@.len() as int) =~= dirs@);
}

} // verus!
