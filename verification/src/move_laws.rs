use vstd::prelude::*;
use crate::distinct::{along_variant_line, law_moves_along_lines};
use crate::piece::{Piece, Pos, Variant};
use crate::rules::{
    board_wf, capture_dirs, cell, in_bounds, is_enemy, jump_moves, jumps_over, landings, move_dirs,
    piece_moves, ray_measure, slides, slides_far, slides_over, sq, step_moves, steps_over, unit_dir,
    Move,
};

verus! {

/// One step along a diagonal.
pub open spec fn is_diagonal_step(d: (i32, i32)) -> bool {
    (d.0 == 1 || d.0 == -1) && (d.1 == 1 || d.1 == -1)
}

/// One step along a row or a column.
pub open spec fn is_orthogonal_step(d: (i32, i32)) -> bool {
    ((d.0 == 0 && (d.1 == 1 || d.1 == -1)) || (d.1 == 0 && (d.0 == 1 || d.0 == -1)))
}

/// The steps pieces take in variant `v`: along rows and columns when it is orthogonal,
/// along diagonals otherwise.
pub open spec fn variant_step(v: Variant, d: (i32, i32)) -> bool {
    if v.orthogonal() {
        is_orthogonal_step(d)
    } else {
        is_diagonal_step(d)
    }
}

/// Step `d` leads `piece` towards the opponent's side: up the board for white, down for black.
pub open spec fn forward(piece: Piece, d: (i32, i32)) -> bool {
    if piece.is_white() {
        d.0 == -1
    } else {
        d.0 == 1
    }
}

/// A piece may move a square in direction `d`: kings in any, men forward or sideways.
pub open spec fn may_step(piece: Piece, d: (i32, i32)) -> bool {
    piece.is_king() || forward(piece, d) || d.0 == 0
}

/// A piece may capture in direction `d`: kings, and men where backward captures are allowed,
/// in any; other men forward or sideways.
pub open spec fn may_jump(v: Variant, piece: Piece, d: (i32, i32)) -> bool {
    piece.is_king() || v.backward_capture() || forward(piece, d) || d.0 == 0
}

proof fn lemma_steps_over_has(b: Seq<Piece>, r: int, c: int, dirs: Seq<(i32, i32)>, k: int, m: Move)
    requires
        0 <= k < dirs.len(),
        step_moves(b, r, c, dirs[k]).contains(m),
    ensures
        steps_over(b, r, c, dirs).contains(m),
    decreases dirs.len(),
{
    let pre = dirs.drop_last();
    let s = steps_over(b, r, c, pre);
    let t = step_moves(b, r, c, dirs.last());
    if k < dirs.len() - 1 {
        assert(pre[k] == dirs[k]);
        lemma_steps_over_has(b, r, c, pre, k, m);
        let i = choose|i: int| 0 <= i < s.len() && s[i] == m;
        assert((s + t)[i] == m);
    } else {
        assert(dirs[k] == dirs.last());
        let i = choose|i: int| 0 <= i < t.len() && t[i] == m;
        assert((s + t)[s.len() + i] == m);
    }
}

proof fn lemma_jumps_over_has(
    b: Seq<Piece>,
    piece: Piece,
    r: int,
    c: int,
    dirs: Seq<(i32, i32)>,
    k: int,
    m: Move,
)
    requires
        0 <= k < dirs.len(),
        jump_moves(b, piece, r, c, dirs[k]).contains(m),
    ensures
        jumps_over(b, piece, r, c, dirs).contains(m),
    decreases dirs.len(),
{
    let pre = dirs.drop_last();
    let s = jumps_over(b, piece, r, c, pre);
    let t = jump_moves(b, piece, r, c, dirs.last());
    if k < dirs.len() - 1 {
        assert(pre[k] == dirs[k]);
        lemma_jumps_over_has(b, piece, r, c, pre, k, m);
        let i = choose|i: int| 0 <= i < s.len() && s[i] == m;
        assert((s + t)[i] == m);
    } else {
        assert(dirs[k] == dirs.last());
        let i = choose|i: int| 0 <= i < t.len() && t[i] == m;
        assert((s + t)[s.len() + i] == m);
    }
}

proof fn lemma_index_of_dir(dirs: Seq<(i32, i32)>, d: (i32, i32)) -> (k: int)
    requires
        dirs.contains(d),
    ensures
        0 <= k < dirs.len(),
        dirs[k] == d,
{
    choose|k: int| 0 <= k < dirs.len() && dirs[k] == d
}

proof fn lemma_move_dirs_has(v: Variant, piece: Piece, d: (i32, i32))
    requires
        piece != Piece::Empty,
        variant_step(v, d),
        may_step(piece, d),
    ensures
        move_dirs(v, piece).contains(d),
{
    let m = move_dirs(v, piece);
    if v.orthogonal() {
        if piece.is_king() {
            if d == (-1i32, 0i32) { assert(m[0] == d); } else if d == (1i32, 0i32) { assert(m[1] == d); }
            else if d == (0i32, -1i32) { assert(m[2] == d); } else { assert(m[3] == d); }
        } else if piece.is_white() {
            if d == (-1i32, 0i32) { assert(m[0] == d); } else if d == (0i32, -1i32) { assert(m[1] == d); }
            else { assert(m[2] == d); }
        } else {
            if d == (1i32, 0i32) { assert(m[0] == d); } else if d == (0i32, -1i32) { assert(m[1] == d); }
            else { assert(m[2] == d); }
        }
    } else {
        if piece.is_king() {
            if d == (-1i32, -1i32) { assert(m[0] == d); } else if d == (-1i32, 1i32) { assert(m[1] == d); }
            else if d == (1i32, -1i32) { assert(m[2] == d); } else { assert(m[3] == d); }
        } else if piece.is_white() {
            if d == (-1i32, -1i32) { assert(m[0] == d); } else { assert(m[1] == d); }
        } else {
            if d == (1i32, -1i32) { assert(m[0] == d); } else { assert(m[1] == d); }
        }
    }
}

proof fn lemma_capture_dirs_has(v: Variant, piece: Piece, d: (i32, i32))
    requires
        piece != Piece::Empty,
        variant_step(v, d),
        may_jump(v, piece, d),
    ensures
        capture_dirs(v, piece).contains(d),
{
    let m = capture_dirs(v, piece);
    if v.backward_capture() || piece.is_king() {
        if v.orthogonal() {
            if d == (-1i32, 0i32) { assert(m[0] == d); } else if d == (1i32, 0i32) { assert(m[1] == d); }
            else if d == (0i32, -1i32) { assert(m[2] == d); } else { assert(m[3] == d); }
        } else {
            if d == (-1i32, -1i32) { assert(m[0] == d); } else if d == (-1i32, 1i32) { assert(m[1] == d); }
            else if d == (1i32, -1i32) { assert(m[2] == d); } else { assert(m[3] == d); }
        }
    } else {
        lemma_move_dirs_has(v, piece, d);
    }
}

/// A piece that does not slide far can step to any empty neighbouring square in a direction
/// it may move in: every direction for a king, forward (or sideways in the orthogonal
/// variant) for a man.
pub proof fn law_steps_complete(b: Seq<Piece>, v: Variant, pos: Pos, d: (i32, i32))
    requires
        board_wf(b),
        pos.on_board(),
        cell(b, pos.row as int, pos.col as int) != Piece::Empty,
        !slides_far(v, cell(b, pos.row as int, pos.col as int)),
        variant_step(v, d),
        may_step(cell(b, pos.row as int, pos.col as int), d),
        in_bounds(pos.row + d.0, pos.col + d.1),
        cell(b, pos.row + d.0, pos.col + d.1) == Piece::Empty,
    ensures
        piece_moves(b, v, pos).contains((sq(pos.row + d.0, pos.col + d.1), None)),
{
    let r = pos.row as int;
    let c = pos.col as int;
    let piece = cell(b, r, c);
    let md = move_dirs(v, piece);
    lemma_move_dirs_has(v, piece, d);
    let k = lemma_index_of_dir(md, d);
    let m = (sq(r + d.0, c + d.1), None::<Pos>);
    assert(step_moves(b, r, c, md[k])[0] == m);
    lemma_steps_over_has(b, r, c, md, k, m);
    let s = steps_over(b, r, c, md);
    let t = jumps_over(b, piece, r, c, capture_dirs(v, piece));
    let i = choose|i: int| 0 <= i < s.len() && s[i] == m;
    assert((s + t)[i] == m);
}

/// A piece that does not slide far can capture any enemy piece next to it in a direction
/// it may capture in, when the square beyond is on the board and empty: every direction
/// for a king (and for men where backward captures are allowed), forward or sideways for
/// other men.
pub proof fn law_jumps_complete(b: Seq<Piece>, v: Variant, pos: Pos, d: (i32, i32))
    requires
        board_wf(b),
        pos.on_board(),
        cell(b, pos.row as int, pos.col as int) != Piece::Empty,
        !slides_far(v, cell(b, pos.row as int, pos.col as int)),
        variant_step(v, d),
        may_jump(v, cell(b, pos.row as int, pos.col as int), d),
        in_bounds(pos.row + d.0, pos.col + d.1),
        is_enemy(cell(b, pos.row as int, pos.col as int), cell(b, pos.row + d.0, pos.col + d.1)),
        in_bounds(pos.row + 2 * d.0, pos.col + 2 * d.1),
        cell(b, pos.row + 2 * d.0, pos.col + 2 * d.1) == Piece::Empty,
    ensures
        piece_moves(b, v, pos).contains(
            (sq(pos.row + 2 * d.0, pos.col + 2 * d.1), Some(sq(pos.row + d.0, pos.col + d.1))),
        ),
{
    let r = pos.row as int;
    let c = pos.col as int;
    let piece = cell(b, r, c);
    let cd = capture_dirs(v, piece);
    lemma_capture_dirs_has(v, piece, d);
    let k = lemma_index_of_dir(cd, d);
    let m = (sq(r + 2 * d.0, c + 2 * d.1), Some(sq(r + d.0, c + d.1)));
    assert(jump_moves(b, piece, r, c, cd[k])[0] == m);
    lemma_jumps_over_has(b, piece, r, c, cd, k, m);
    let s = steps_over(b, r, c, move_dirs(v, piece));
    let t = jumps_over(b, piece, r, c, cd);
    let i = choose|i: int| 0 <= i < t.len() && t[i] == m;
    assert((s + t)[s.len() + i] == m);
}

proof fn lemma_steps_over_from(b: Seq<Piece>, r: int, c: int, dirs: Seq<(i32, i32)>, i: int) -> (k: int)
    requires
        0 <= i < steps_over(b, r, c, dirs).len(),
    ensures
        0 <= k < dirs.len(),
        steps_over(b, r, c, dirs)[i] == (sq(r + dirs[k].0, c + dirs[k].1), None::<Pos>),
    decreases dirs.len(),
{
    let pre = dirs.drop_last();
    let s = steps_over(b, r, c, pre);
    let t = step_moves(b, r, c, dirs.last());
    if i < s.len() {
        assert((s + t)[i] == s[i]);
        let k = lemma_steps_over_from(b, r, c, pre, i);
        assert(pre[k] == dirs[k]);
        k
    } else {
        assert((s + t)[i] == t[i - s.len()]);
        dirs.len() - 1
    }
}

proof fn lemma_jumps_over_from(
    b: Seq<Piece>,
    piece: Piece,
    r: int,
    c: int,
    dirs: Seq<(i32, i32)>,
    i: int,
) -> (k: int)
    requires
        0 <= i < jumps_over(b, piece, r, c, dirs).len(),
    ensures
        0 <= k < dirs.len(),
        jumps_over(b, piece, r, c, dirs)[i] == (
            sq(r + 2 * dirs[k].0, c + 2 * dirs[k].1),
            Some(sq(r + dirs[k].0, c + dirs[k].1)),
        ),
    decreases dirs.len(),
{
    let pre = dirs.drop_last();
    let s = jumps_over(b, piece, r, c, pre);
    let t = jump_moves(b, piece, r, c, dirs.last());
    if i < s.len() {
        assert((s + t)[i] == s[i]);
        let k = lemma_jumps_over_from(b, piece, r, c, pre, i);
        assert(pre[k] == dirs[k]);
        k
    } else {
        assert((s + t)[i] == t[i - s.len()]);
        dirs.len() - 1
    }
}

proof fn lemma_move_dirs_sound(v: Variant, piece: Piece, k: int)
    requires
        piece != Piece::Empty,
        0 <= k < move_dirs(v, piece).len(),
    ensures
        variant_step(v, move_dirs(v, piece)[k]),
        may_step(piece, move_dirs(v, piece)[k]),
{
}

proof fn lemma_capture_dirs_sound(v: Variant, piece: Piece, k: int)
    requires
        piece != Piece::Empty,
        0 <= k < capture_dirs(v, piece).len(),
    ensures
        variant_step(v, capture_dirs(v, piece)[k]),
        may_jump(v, piece, capture_dirs(v, piece)[k]),
{
    if !(v.backward_capture() || piece.is_king()) {
        lemma_move_dirs_sound(v, piece, k);
    }
}

/// Move `m` from (r, c) is a plain step onto the next square in a direction `piece` may
/// move in, or a capture of the next square in a direction it may capture in, landing on
/// the square beyond.
pub open spec fn short_move(v: Variant, piece: Piece, r: int, c: int, m: Move) -> bool {
    ||| exists|d: (i32, i32)|
        #[trigger] variant_step(v, d) && may_step(piece, d) && m == (sq(r + d.0, c + d.1), None::<Pos>)
    ||| exists|d: (i32, i32)|
        #[trigger] variant_step(v, d) && may_jump(v, piece, d) && m == (
            sq(r + 2 * d.0, c + 2 * d.1),
            Some(sq(r + d.0, c + d.1)),
        )
}

/// Every move of a piece that does not slide far is either a plain step onto the next
/// square in a direction it may move in, or a capture of the next square in a direction it
/// may capture in, landing on the square beyond: nothing longer, and nothing backwards for a
/// man unless backward captures are allowed.
pub proof fn law_short_moves_sound(b: Seq<Piece>, v: Variant, pos: Pos)
    requires
        board_wf(b),
        pos.on_board(),
        cell(b, pos.row as int, pos.col as int) != Piece::Empty,
        !slides_far(v, cell(b, pos.row as int, pos.col as int)),
    ensures
        forall|i: int|
            0 <= i < piece_moves(b, v, pos).len() ==> short_move(
                v,
                cell(b, pos.row as int, pos.col as int),
                pos.row as int,
                pos.col as int,
                #[trigger] piece_moves(b, v, pos)[i],
            ),
{
    let r = pos.row as int;
    let c = pos.col as int;
    let piece = cell(b, r, c);
    let md = move_dirs(v, piece);
    let cd = capture_dirs(v, piece);
    let s = steps_over(b, r, c, md);
    let t = jumps_over(b, piece, r, c, cd);
    assert forall|i: int| 0 <= i < piece_moves(b, v, pos).len() implies short_move(
        v,
        piece,
        r,
        c,
        #[trigger] piece_moves(b, v, pos)[i],
    ) by {
        if i < s.len() {
            assert((s + t)[i] == s[i]);
            let k = lemma_steps_over_from(b, r, c, md, i);
            lemma_move_dirs_sound(v, piece, k);
            let d = md[k];
            assert(variant_step(v, d) && may_step(piece, d));
        } else {
            assert((s + t)[i] == t[i - s.len()]);
            let k = lemma_jumps_over_from(b, piece, r, c, cd, i - s.len());
            lemma_capture_dirs_sound(v, piece, k);
            let d = cd[k];
            assert(variant_step(v, d) && may_jump(v, piece, d));
        }
    }
}

/// Coordinate `x` moved `k` steps in direction `dx` (-1, 0 or 1).
pub open spec fn at(x: int, dx: i32, k: int) -> int {
    if dx > 0 {
        x + k
    } else if dx < 0 {
        x - k
    } else {
        x
    }
}

/// The square `k` steps from (r, c) in direction `d`.
pub open spec fn ray_sq(r: int, c: int, d: (i32, i32), k: int) -> Pos {
    sq(at(r, d.0, k), at(c, d.1, k))
}

/// The squares `lo` to `hi` steps from (r, c) in direction `d` are on the board and empty.
pub open spec fn empty_run(b: Seq<Piece>, r: int, c: int, d: (i32, i32), lo: int, hi: int) -> bool {
    forall|j: int|
        lo <= j <= hi ==> in_bounds(at(r, d.0, j), at(c, d.1, j)) && #[trigger] cell(
            b,
            at(r, d.0, j),
            at(c, d.1, j),
        ) == Piece::Empty
}

proof fn lemma_shift_run(b: Seq<Piece>, r: int, c: int, d: (i32, i32), lo: int, hi: int)
    requires
        unit_dir(d),
        empty_run(b, r, c, d, lo, hi),
    ensures
        empty_run(b, r + d.0, c + d.1, d, lo - 1, hi - 1),
{
    assert forall|j: int| lo - 1 <= j <= hi - 1 implies in_bounds(at(r + d.0, d.0, j), at(c + d.1, d.1, j))
        && #[trigger] cell(b, at(r + d.0, d.0, j), at(c + d.1, d.1, j)) == Piece::Empty by {
        assert(at(r + d.0, d.0, j) == at(r, d.0, j + 1));
        assert(at(c + d.1, d.1, j) == at(c, d.1, j + 1));
        assert(cell(b, at(r, d.0, j + 1), at(c, d.1, j + 1)) == Piece::Empty);
    }
}

proof fn lemma_landings_has(b: Seq<Piece>, d: (i32, i32), cap: Pos, r: int, c: int, l: int)
    requires
        unit_dir(d),
        l >= 1,
        empty_run(b, r, c, d, 1, l),
    ensures
        landings(b, d, cap, r, c).contains((ray_sq(r, c, d, l), Some(cap))),
    decreases l,
{
    let nr = r + d.0;
    let nc = c + d.1;
    assert(at(r, d.0, 1) == nr && at(c, d.1, 1) == nc);
    assert(cell(b, at(r, d.0, 1), at(c, d.1, 1)) == Piece::Empty);
    let head = (sq(nr, nc), Some(cap));
    let rest = landings(b, d, cap, nr, nc);
    if l == 1 {
        assert((seq![head] + rest)[0] == head);
    } else {
        lemma_shift_run(b, r, c, d, 1, l);
        lemma_landings_has(b, d, cap, nr, nc, l - 1);
        assert(ray_sq(nr, nc, d, l - 1) == ray_sq(r, c, d, l));
        let m = (ray_sq(r, c, d, l), Some(cap));
        let k = choose|k: int| 0 <= k < rest.len() && rest[k] == m;
        assert((seq![head] + rest)[k + 1] == m);
    }
}

proof fn lemma_slides_has_plain(b: Seq<Piece>, piece: Piece, d: (i32, i32), r: int, c: int, k: int)
    requires
        unit_dir(d),
        k >= 1,
        empty_run(b, r, c, d, 1, k),
    ensures
        slides(b, piece, d, r, c).contains((ray_sq(r, c, d, k), None)),
    decreases k,
{
    let nr = r + d.0;
    let nc = c + d.1;
    assert(at(r, d.0, 1) == nr && at(c, d.1, 1) == nc);
    assert(cell(b, at(r, d.0, 1), at(c, d.1, 1)) == Piece::Empty);
    let head = (sq(nr, nc), None::<Pos>);
    let rest = slides(b, piece, d, nr, nc);
    if k == 1 {
        assert((seq![head] + rest)[0] == head);
    } else {
        lemma_shift_run(b, r, c, d, 1, k);
        lemma_slides_has_plain(b, piece, d, nr, nc, k - 1);
        assert(ray_sq(nr, nc, d, k - 1) == ray_sq(r, c, d, k));
        let m = (ray_sq(r, c, d, k), None::<Pos>);
        let i = choose|i: int| 0 <= i < rest.len() && rest[i] == m;
        assert((seq![head] + rest)[i + 1] == m);
    }
}

proof fn lemma_slides_has_capture(
    b: Seq<Piece>,
    piece: Piece,
    d: (i32, i32),
    r: int,
    c: int,
    j: int,
    l: int,
)
    requires
        unit_dir(d),
        1 <= j < l,
        empty_run(b, r, c, d, 1, j - 1),
        in_bounds(at(r, d.0, j), at(c, d.1, j)),
        is_enemy(piece, cell(b, at(r, d.0, j), at(c, d.1, j))),
        empty_run(b, r, c, d, j + 1, l),
    ensures
        slides(b, piece, d, r, c).contains((ray_sq(r, c, d, l), Some(ray_sq(r, c, d, j)))),
    decreases j,
{
    let nr = r + d.0;
    let nc = c + d.1;
    assert(at(r, d.0, 1) == nr && at(c, d.1, 1) == nc);
    lemma_shift_run(b, r, c, d, j + 1, l);
    if j == 1 {
        assert(cell(b, nr, nc) != Piece::Empty);
        assert(slides(b, piece, d, r, c) == landings(b, d, sq(nr, nc), nr, nc));
        assert(empty_run(b, nr, nc, d, 1, l - 1));
        lemma_landings_has(b, d, sq(nr, nc), nr, nc, l - 1);
        assert(ray_sq(nr, nc, d, l - 1) == ray_sq(r, c, d, l));
        assert(ray_sq(r, c, d, 1) == sq(nr, nc));
    } else {
        assert(cell(b, at(r, d.0, 1), at(c, d.1, 1)) == Piece::Empty);
        lemma_shift_run(b, r, c, d, 1, j - 1);
        assert(at(nr, d.0, j - 1) == at(r, d.0, j) && at(nc, d.1, j - 1) == at(c, d.1, j));
        lemma_slides_has_capture(b, piece, d, nr, nc, j - 1, l - 1);
        assert(ray_sq(nr, nc, d, l - 1) == ray_sq(r, c, d, l));
        assert(ray_sq(nr, nc, d, j - 1) == ray_sq(r, c, d, j));
        let head = (sq(nr, nc), None::<Pos>);
        let rest = slides(b, piece, d, nr, nc);
        let m = (ray_sq(r, c, d, l), Some(ray_sq(r, c, d, j)));
        let i = choose|i: int| 0 <= i < rest.len() && rest[i] == m;
        assert((seq![head] + rest)[i + 1] == m);
    }
}

proof fn lemma_slides_over_has(
    b: Seq<Piece>,
    piece: Piece,
    r: int,
    c: int,
    dirs: Seq<(i32, i32)>,
    k: int,
    m: Move,
)
    requires
        0 <= k < dirs.len(),
        slides(b, piece, dirs[k], r, c).contains(m),
    ensures
        slides_over(b, piece, r, c, dirs).contains(m),
    decreases dirs.len(),
{
    let pre = dirs.drop_last();
    let s = slides_over(b, piece, r, c, pre);
    let t = slides(b, piece, dirs.last(), r, c);
    if k < dirs.len() - 1 {
        assert(pre[k] == dirs[k]);
        lemma_slides_over_has(b, piece, r, c, pre, k, m);
        let i = choose|i: int| 0 <= i < s.len() && s[i] == m;
        assert((s + t)[i] == m);
    } else {
        assert(dirs[k] == dirs.last());
        let i = choose|i: int| 0 <= i < t.len() && t[i] == m;
        assert((s + t)[s.len() + i] == m);
    }
}

/// A sliding king (flying kings, and kings of the orthogonal variant) can move to every square
/// along one of its lines up to the first occupied one.
pub proof fn law_slides_complete(b: Seq<Piece>, v: Variant, pos: Pos, d: (i32, i32), k: int)
    requires
        board_wf(b),
        pos.on_board(),
        slides_far(v, cell(b, pos.row as int, pos.col as int)),
        variant_step(v, d),
        k >= 1,
        empty_run(b, pos.row as int, pos.col as int, d, 1, k),
    ensures
        piece_moves(b, v, pos).contains((ray_sq(pos.row as int, pos.col as int, d, k), None)),
{
    let r = pos.row as int;
    let c = pos.col as int;
    let piece = cell(b, r, c);
    lemma_move_dirs_has(v, piece, d);
    let md = move_dirs(v, piece);
    let i = lemma_index_of_dir(md, d);
    lemma_slides_has_plain(b, piece, d, r, c, k);
    lemma_slides_over_has(b, piece, r, c, md, i, (ray_sq(r, c, d, k), None));
}

/// A sliding king can capture the first piece along one of its lines when it is an enemy,
/// landing on any square beyond it up to the next occupied one.
pub proof fn law_slide_captures_complete(
    b: Seq<Piece>,
    v: Variant,
    pos: Pos,
    d: (i32, i32),
    j: int,
    l: int,
)
    requires
        board_wf(b),
        pos.on_board(),
        slides_far(v, cell(b, pos.row as int, pos.col as int)),
        variant_step(v, d),
        1 <= j < l,
        empty_run(b, pos.row as int, pos.col as int, d, 1, j - 1),
        in_bounds(at(pos.row as int, d.0, j), at(pos.col as int, d.1, j)),
        is_enemy(
            cell(b, pos.row as int, pos.col as int),
            cell(b, at(pos.row as int, d.0, j), at(pos.col as int, d.1, j)),
        ),
        empty_run(b, pos.row as int, pos.col as int, d, j + 1, l),
    ensures
        piece_moves(b, v, pos).contains(
            (
                ray_sq(pos.row as int, pos.col as int, d, l),
                Some(ray_sq(pos.row as int, pos.col as int, d, j)),
            ),
        ),
{
    let r = pos.row as int;
    let c = pos.col as int;
    let piece = cell(b, r, c);
    lemma_move_dirs_has(v, piece, d);
    let md = move_dirs(v, piece);
    let i = lemma_index_of_dir(md, d);
    lemma_slides_has_capture(b, piece, d, r, c, j, l);
    lemma_slides_over_has(
        b,
        piece,
        r,
        c,
        md,
        i,
        (ray_sq(r, c, d, l), Some(ray_sq(r, c, d, j))),
    );
}

proof fn lemma_unshift_run(b: Seq<Piece>, r: int, c: int, d: (i32, i32), hi: int)
    requires
        unit_dir(d),
        in_bounds(r + d.0, c + d.1),
        cell(b, r + d.0, c + d.1) == Piece::Empty,
        empty_run(b, r + d.0, c + d.1, d, 1, hi),
    ensures
        empty_run(b, r, c, d, 1, hi + 1),
{
    assert forall|j: int| 1 <= j <= hi + 1 implies in_bounds(at(r, d.0, j), at(c, d.1, j))
        && #[trigger] cell(b, at(r, d.0, j), at(c, d.1, j)) == Piece::Empty by {
        if j == 1 {
            assert(at(r, d.0, 1) == r + d.0 && at(c, d.1, 1) == c + d.1);
        } else {
            assert(at(r + d.0, d.0, j - 1) == at(r, d.0, j));
            assert(at(c + d.1, d.1, j - 1) == at(c, d.1, j));
            assert(cell(b, at(r + d.0, d.0, j - 1), at(c + d.1, d.1, j - 1)) == Piece::Empty);
        }
    }
}

proof fn lemma_shift_run_up(b: Seq<Piece>, r: int, c: int, d: (i32, i32), lo: int, hi: int)
    requires
        unit_dir(d),
        empty_run(b, r + d.0, c + d.1, d, lo, hi),
    ensures
        empty_run(b, r, c, d, lo + 1, hi + 1),
{
    assert forall|j: int| lo + 1 <= j <= hi + 1 implies in_bounds(at(r, d.0, j), at(c, d.1, j))
        && #[trigger] cell(b, at(r, d.0, j), at(c, d.1, j)) == Piece::Empty by {
        assert(at(r + d.0, d.0, j - 1) == at(r, d.0, j));
        assert(at(c + d.1, d.1, j - 1) == at(c, d.1, j));
        assert(cell(b, at(r + d.0, d.0, j - 1), at(c + d.1, d.1, j - 1)) == Piece::Empty);
    }
}

proof fn lemma_landing_from(b: Seq<Piece>, d: (i32, i32), cap: Pos, r: int, c: int, i: int)
    requires
        unit_dir(d),
        0 <= i < landings(b, d, cap, r, c).len(),
    ensures
        landings(b, d, cap, r, c)[i] == (ray_sq(r, c, d, i + 1), Some(cap)),
        empty_run(b, r, c, d, 1, i + 1),
    decreases ray_measure(d, r, c),
{
    let nr = r + d.0;
    let nc = c + d.1;
    let head = (sq(nr, nc), Some(cap));
    let rest = landings(b, d, cap, nr, nc);
    assert(at(r, d.0, 1) == nr && at(c, d.1, 1) == nc);
    if i == 0 {
        assert((seq![head] + rest)[0] == head);
        assert(empty_run(b, r, c, d, 1, 1));
    } else {
        assert((seq![head] + rest)[i] == rest[i - 1]);
        lemma_landing_from(b, d, cap, nr, nc, i - 1);
        assert(ray_sq(nr, nc, d, i) == ray_sq(r, c, d, i + 1));
        lemma_unshift_run(b, r, c, d, i);
    }
}

proof fn lemma_slide_from(b: Seq<Piece>, piece: Piece, d: (i32, i32), r: int, c: int, i: int) -> (w: (
    bool,
    int,
    int,
))
    requires
        unit_dir(d),
        0 <= i < slides(b, piece, d, r, c).len(),
    ensures
        !w.0 ==> w.1 >= 1 && empty_run(b, r, c, d, 1, w.1) && slides(b, piece, d, r, c)[i] == (
            ray_sq(r, c, d, w.1),
            None::<Pos>,
        ),
        w.0 ==> 1 <= w.1 < w.2 && empty_run(b, r, c, d, 1, w.1 - 1) && in_bounds(
            at(r, d.0, w.1),
            at(c, d.1, w.1),
        ) && is_enemy(piece, cell(b, at(r, d.0, w.1), at(c, d.1, w.1))) && empty_run(
            b,
            r,
            c,
            d,
            w.1 + 1,
            w.2,
        ) && slides(b, piece, d, r, c)[i] == (ray_sq(r, c, d, w.2), Some(ray_sq(r, c, d, w.1))),
    decreases ray_measure(d, r, c),
{
    let nr = r + d.0;
    let nc = c + d.1;
    assert(at(r, d.0, 1) == nr && at(c, d.1, 1) == nc);
    if cell(b, nr, nc) == Piece::Empty {
        let head = (sq(nr, nc), None::<Pos>);
        let rest = slides(b, piece, d, nr, nc);
        if i == 0 {
            assert((seq![head] + rest)[0] == head);
            assert(empty_run(b, r, c, d, 1, 1));
            (false, 1, 0)
        } else {
            assert((seq![head] + rest)[i] == rest[i - 1]);
            let w1 = lemma_slide_from(b, piece, d, nr, nc, i - 1);
            if !w1.0 {
                lemma_unshift_run(b, r, c, d, w1.1);
                assert(ray_sq(nr, nc, d, w1.1) == ray_sq(r, c, d, w1.1 + 1));
                (false, w1.1 + 1, 0)
            } else {
                let j = w1.1;
                let l = w1.2;
                if j > 1 {
                    lemma_unshift_run(b, r, c, d, j - 1);
                } else {
                    assert(empty_run(b, r, c, d, 1, 1));
                }
                lemma_shift_run_up(b, r, c, d, j + 1, l);
                assert(at(nr, d.0, j) == at(r, d.0, j + 1) && at(nc, d.1, j) == at(c, d.1, j + 1));
                assert(ray_sq(nr, nc, d, l) == ray_sq(r, c, d, l + 1));
                assert(ray_sq(nr, nc, d, j) == ray_sq(r, c, d, j + 1));
                (true, j + 1, l + 1)
            }
        }
    } else {
        let cap = sq(nr, nc);
        lemma_landing_from(b, d, cap, nr, nc, i);
        lemma_shift_run_up(b, r, c, d, 1, i + 1);
        assert(ray_sq(nr, nc, d, i + 1) == ray_sq(r, c, d, i + 2));
        assert(ray_sq(r, c, d, 1) == cap);
        (true, 1, i + 2)
    }
}

proof fn lemma_slides_over_from(
    b: Seq<Piece>,
    piece: Piece,
    r: int,
    c: int,
    dirs: Seq<(i32, i32)>,
    i: int,
) -> (k: (int, int))
    requires
        0 <= i < slides_over(b, piece, r, c, dirs).len(),
    ensures
        0 <= k.0 < dirs.len(),
        0 <= k.1 < slides(b, piece, dirs[k.0], r, c).len(),
        slides_over(b, piece, r, c, dirs)[i] == slides(b, piece, dirs[k.0], r, c)[k.1],
    decreases dirs.len(),
{
    let pre = dirs.drop_last();
    let s = slides_over(b, piece, r, c, pre);
    let t = slides(b, piece, dirs.last(), r, c);
    if i < s.len() {
        assert((s + t)[i] == s[i]);
        let k = lemma_slides_over_from(b, piece, r, c, pre, i);
        assert(pre[k.0] == dirs[k.0]);
        k
    } else {
        assert((s + t)[i] == t[i - s.len()]);
        (dirs.len() - 1, i - s.len())
    }
}

/// Move `m` of a sliding king on (r, c) goes along one line of the variant: to a square with
/// only empty squares before it, or over the first piece on that line, an enemy, to an empty
/// square beyond it with only empty squares in between.
pub open spec fn slide_move(b: Seq<Piece>, v: Variant, piece: Piece, r: int, c: int, m: Move) -> bool {
    ||| exists|d: (i32, i32), k: int|
        #![trigger ray_sq(r, c, d, k)]
        variant_step(v, d) && k >= 1 && empty_run(b, r, c, d, 1, k) && m == (
            ray_sq(r, c, d, k),
            None::<Pos>,
        )
    ||| exists|d: (i32, i32), j: int, l: int|
        #![trigger ray_sq(r, c, d, j), ray_sq(r, c, d, l)]
        variant_step(v, d) && 1 <= j < l && empty_run(b, r, c, d, 1, j - 1) && in_bounds(
            at(r, d.0, j),
            at(c, d.1, j),
        ) && is_enemy(piece, cell(b, at(r, d.0, j), at(c, d.1, j))) && empty_run(b, r, c, d, j + 1, l)
            && m == (ray_sq(r, c, d, l), Some(ray_sq(r, c, d, j)))
}

/// Every move of a sliding king runs along a line of the variant without passing over any
/// piece, except the one enemy piece it captures, which is the first piece on that line.
pub proof fn law_slides_sound(b: Seq<Piece>, v: Variant, pos: Pos)
    requires
        board_wf(b),
        pos.on_board(),
        slides_far(v, cell(b, pos.row as int, pos.col as int)),
    ensures
        forall|i: int|
            0 <= i < piece_moves(b, v, pos).len() ==> slide_move(
                b,
                v,
                cell(b, pos.row as int, pos.col as int),
                pos.row as int,
                pos.col as int,
                #[trigger] piece_moves(b, v, pos)[i],
            ),
{
    let r = pos.row as int;
    let c = pos.col as int;
    let piece = cell(b, r, c);
    let md = move_dirs(v, piece);
    assert forall|i: int| 0 <= i < piece_moves(b, v, pos).len() implies slide_move(
        b,
        v,
        piece,
        r,
        c,
        #[trigger] piece_moves(b, v, pos)[i],
    ) by {
        let k = lemma_slides_over_from(b, piece, r, c, md, i);
        lemma_move_dirs_sound(v, piece, k.0);
        let d = md[k.0];
        assert(unit_dir(d));
        let w = lemma_slide_from(b, piece, d, r, c, k.1);
        if w.0 {
            assert(ray_sq(r, c, d, w.1) == ray_sq(r, c, d, w.1) && ray_sq(r, c, d, w.2) == ray_sq(r, c, d, w.2));
        } else {
            assert(ray_sq(r, c, d, w.1) == ray_sq(r, c, d, w.1));
        }
    }
}

/// In the diagonal variants every move lands on a square of the same colour as the one the
/// piece leaves, so pieces never leave the dark squares they start on.
pub proof fn law_diagonal_moves_keep_square_colour(b: Seq<Piece>, v: Variant, pos: Pos)
    requires
        !v.orthogonal(),
    ensures
        forall|i: int|
            0 <= i < piece_moves(b, v, pos).len() ==> ((#[trigger] piece_moves(b, v, pos)[i]).0.row
                + piece_moves(b, v, pos)[i].0.col) % 2 == (pos.row + pos.col) % 2,
{
    law_moves_along_lines(b, v, pos);
    assert forall|i: int| 0 <= i < piece_moves(b, v, pos).len() implies ((#[trigger] piece_moves(
        b,
        v,
        pos,
    )[i]).0.row + piece_moves(b, v, pos)[i].0.col) % 2 == (pos.row + pos.col) % 2 by {
        let p = piece_moves(b, v, pos)[i].0;
        assert(along_variant_line(v, pos.row as int, pos.col as int, p));
        let dr = p.row as int - pos.row as int;
        let dc = p.col as int - pos.col as int;
        if dc == dr {
            assert(p.row + p.col == pos.row + pos.col + 2 * dr);
        } else {
            assert(dc == -dr);
            assert(p.row + p.col == pos.row + pos.col);
        }
    }
}

} // verus!
