use vstd::prelude::*;
use crate::game::FullMove;
use crate::piece::{Piece, Pos, Variant};
use crate::side_moves::{all_valid_moves, any_capture, row_moves, rows_moves, square_moves};
use crate::rules::{
    capture_dirs, captures_of, cell, in_bounds, is_enemy, jump_moves, jumps_over,
    landings, lemma_captures_of, move_dirs, piece_moves, ray_measure, slides,
    slides_far, slides_over, sq, step_moves, steps_over, unit_dir, Move,
};

verus! {

pub open spec fn sgn(x: int) -> int {
    if x > 0 {
        1
    } else if x < 0 {
        -1
    } else {
        0
    }
}

pub open spec fn abs(x: int) -> int {
    if x < 0 {
        -x
    } else {
        x
    }
}

/// The direction in which square `p` lies seen from (r, c), one sign per coordinate.
pub open spec fn away(r: int, c: int, p: Pos) -> (int, int) {
    (sgn(p.row as int - r), sgn(p.col as int - c))
}

/// How many king steps square `p` lies from (r, c).
pub open spec fn reach(r: int, c: int, p: Pos) -> int {
    let a = abs(p.row as int - r);
    let e = abs(p.col as int - c);
    if a >= e {
        a
    } else {
        e
    }
}

pub open spec fn dir_int(d: (i32, i32)) -> (int, int) {
    (d.0 as int, d.1 as int)
}

/// No two moves of `s` land on the same square.
pub open spec fn distinct_dests(s: Seq<Move>) -> bool {
    forall|i: int, j: int| 0 <= i < s.len() && 0 <= j < s.len() && i != j ==> s[i].0 != s[j].0
}

/// Square `p` lies on the line from (r, c) in direction `d`: on its side of every
/// coordinate, and, for a diagonal, as far down or up as across.
pub open spec fn straight(r: int, c: int, d: (i32, i32), p: Pos) -> bool {
    &&& away(r, c, p) == dir_int(d)
    &&& (d.0 != 0 && d.1 != 0 ==> abs(p.row as int - r) == abs(p.col as int - c))
}

/// Every move of `s` lands on the line from (r, c) in direction `d`.
pub open spec fn all_in_dir(r: int, c: int, d: (i32, i32), s: Seq<Move>) -> bool {
    forall|i: int| 0 <= i < s.len() ==> straight(r, c, d, (#[trigger] s[i]).0)
}

/// The moves of `s` land farther and farther from (r, c), at least one step away.
pub open spec fn farther_each(r: int, c: int, s: Seq<Move>) -> bool {
    &&& forall|i: int| 0 <= i < s.len() ==> reach(r, c, (#[trigger] s[i]).0) >= 1
    &&& forall|i: int, j: int|
        0 <= i < j < s.len() ==> reach(r, c, (#[trigger] s[i]).0) < reach(r, c, (#[trigger] s[j]).0)
}

proof fn lemma_shift(d: (i32, i32), r: int, c: int, p: Pos)
    requires
        unit_dir(d),
        straight(r + d.0, c + d.1, d, p),
    ensures
        straight(r, c, d, p),
        reach(r, c, p) == reach(r + d.0, c + d.1, p) + 1,
{
}

proof fn lemma_prepend_ray(d: (i32, i32), r: int, c: int, head: Move, t: Seq<Move>)
    requires
        unit_dir(d),
        head.0 == sq(r + d.0, c + d.1),
        in_bounds(r + d.0, c + d.1),
        all_in_dir(r + d.0, c + d.1, d, t),
        farther_each(r + d.0, c + d.1, t),
    ensures
        all_in_dir(r, c, d, seq![head] + t),
        farther_each(r, c, seq![head] + t),
{
    let s = seq![head] + t;
    assert forall|i: int| 0 <= i < t.len() implies straight(r, c, d, (#[trigger] t[i]).0)
        && reach(r, c, t[i].0) == reach(r + d.0, c + d.1, t[i].0) + 1 by {
        lemma_shift(d, r, c, t[i].0);
    }
    assert forall|i: int| 0 <= i < s.len() implies straight(r, c, d, (#[trigger] s[i]).0)
        && reach(r, c, s[i].0) >= 1 by {
        if i > 0 {
            assert(s[i] == t[i - 1]);
        }
    }
    assert forall|i: int, j: int| 0 <= i < j < s.len() implies reach(r, c, (#[trigger] s[i]).0)
        < reach(r, c, (#[trigger] s[j]).0) by {
        assert(s[j] == t[j - 1]);
        if i > 0 {
            assert(s[i] == t[i - 1]);
        }
    }
}

proof fn lemma_landings_ray(b: Seq<Piece>, d: (i32, i32), cap: Pos, r: int, c: int)
    requires
        unit_dir(d),
    ensures
        all_in_dir(r, c, d, landings(b, d, cap, r, c)),
        farther_each(r, c, landings(b, d, cap, r, c)),
    decreases ray_measure(d, r, c),
{
    let nr = r + d.0;
    let nc = c + d.1;
    if !unit_dir(d) || !in_bounds(nr, nc) || cell(b, nr, nc) != Piece::Empty {
    } else {
        lemma_landings_ray(b, d, cap, nr, nc);
        lemma_prepend_ray(d, r, c, (sq(nr, nc), Some(cap)), landings(b, d, cap, nr, nc));
    }
}

proof fn lemma_slides_ray(b: Seq<Piece>, piece: Piece, d: (i32, i32), r: int, c: int)
    requires
        unit_dir(d),
    ensures
        all_in_dir(r, c, d, slides(b, piece, d, r, c)),
        farther_each(r, c, slides(b, piece, d, r, c)),
    decreases ray_measure(d, r, c),
{
    let nr = r + d.0;
    let nc = c + d.1;
    if !unit_dir(d) || !in_bounds(nr, nc) {
    } else if cell(b, nr, nc) == Piece::Empty {
        lemma_slides_ray(b, piece, d, nr, nc);
        lemma_prepend_ray(d, r, c, (sq(nr, nc), None), slides(b, piece, d, nr, nc));
    } else if is_enemy(piece, cell(b, nr, nc)) {
        let l = landings(b, d, sq(nr, nc), nr, nc);
        lemma_landings_ray(b, d, sq(nr, nc), nr, nc);
        assert forall|i: int| 0 <= i < l.len() implies straight(r, c, d, (#[trigger] l[i]).0)
            && reach(r, c, l[i].0) == reach(nr, nc, l[i].0) + 1 by {
            lemma_shift(d, r, c, l[i].0);
        }
    }
}

/// The directions of `dirs` are distinct unit directions.
pub open spec fn dirs_ok(dirs: Seq<(i32, i32)>) -> bool {
    &&& forall|i: int| 0 <= i < dirs.len() ==> unit_dir(#[trigger] dirs[i])
    &&& dirs.no_duplicates()
}

/// Every move of `s` lands on the line from (r, c) in one of the directions of `dirs`.
pub open spec fn dirs_cover(r: int, c: int, dirs: Seq<(i32, i32)>, s: Seq<Move>) -> bool {
    forall|i: int|
        0 <= i < s.len() ==> exists|k: int|
            0 <= k < dirs.len() && straight(r, c, #[trigger] dirs[k], (#[trigger] s[i]).0)
}

proof fn lemma_join_dirs(
    r: int,
    c: int,
    dirs: Seq<(i32, i32)>,
    s: Seq<Move>,
    t: Seq<Move>,
)
    requires
        dirs.len() > 0,
        dirs_ok(dirs),
        dirs_cover(r, c, dirs.drop_last(), s),
        distinct_dests(s),
        all_in_dir(r, c, dirs.last(), t),
        distinct_dests(t),
    ensures
        dirs_cover(r, c, dirs, s + t),
        distinct_dests(s + t),
{
    let st = s + t;
    let pre = dirs.drop_last();
    assert forall|i: int| 0 <= i < st.len() implies exists|k: int|
        0 <= k < dirs.len() && straight(r, c, #[trigger] dirs[k], (#[trigger] st[i]).0) by {
        if i < s.len() {
            assert(st[i] == s[i]);
            let k = choose|k: int| 0 <= k < pre.len() && straight(r, c, pre[k], s[i].0);
            assert(dirs[k] == pre[k]);
        } else {
            assert(st[i] == t[i - s.len()]);
            assert(dirs[dirs.len() - 1] == dirs.last());
        }
    }
    assert forall|i: int, j: int| 0 <= i < st.len() && 0 <= j < st.len() && i != j implies st[i].0
        != st[j].0 by {
        if i < s.len() && j < s.len() {
            assert(st[i] == s[i] && st[j] == s[j]);
        } else if i >= s.len() && j >= s.len() {
            assert(st[i] == t[i - s.len()] && st[j] == t[j - s.len()]);
        } else {
            let (a, e) = if i < s.len() {
                (i, j)
            } else {
                (j, i)
            };
            assert(st[a] == s[a] && st[e] == t[e - s.len()]);
            let k = choose|k: int| 0 <= k < pre.len() && straight(r, c, pre[k], s[a].0);
            assert(dirs[k] == pre[k]);
            assert(dirs[k] != dirs[dirs.len() - 1]);
        }
    }
}

proof fn lemma_slides_over_distinct(b: Seq<Piece>, piece: Piece, r: int, c: int, dirs: Seq<(i32, i32)>)
    requires
        dirs_ok(dirs),
    ensures
        dirs_cover(r, c, dirs, slides_over(b, piece, r, c, dirs)),
        distinct_dests(slides_over(b, piece, r, c, dirs)),
    decreases dirs.len(),
{
    if dirs.len() > 0 {
        let pre = dirs.drop_last();
        assert(dirs[dirs.len() - 1] == dirs.last());
        assert(dirs_ok(pre)) by {
            assert forall|i: int| 0 <= i < pre.len() implies unit_dir(#[trigger] pre[i]) by {
                assert(pre[i] == dirs[i]);
            }
        }
        lemma_slides_over_distinct(b, piece, r, c, pre);
        let t = slides(b, piece, dirs.last(), r, c);
        lemma_slides_ray(b, piece, dirs.last(), r, c);
        assert(distinct_dests(t)) by {
            assert forall|i: int, j: int| 0 <= i < t.len() && 0 <= j < t.len() && i != j implies t[i].0
                != t[j].0 by {
                if i < j {
                    assert(reach(r, c, t[i].0) < reach(r, c, t[j].0));
                } else {
                    assert(reach(r, c, t[j].0) < reach(r, c, t[i].0));
                }
            }
        }
        lemma_join_dirs(r, c, dirs, slides_over(b, piece, r, c, pre), t);
    }
}

proof fn lemma_steps_over_distinct(b: Seq<Piece>, r: int, c: int, dirs: Seq<(i32, i32)>)
    requires
        dirs_ok(dirs),
    ensures
        dirs_cover(r, c, dirs, steps_over(b, r, c, dirs)),
        distinct_dests(steps_over(b, r, c, dirs)),
        forall|i: int|
            0 <= i < steps_over(b, r, c, dirs).len() ==> reach(
                r,
                c,
                (#[trigger] steps_over(b, r, c, dirs)[i]).0,
            ) == 1,
    decreases dirs.len(),
{
    if dirs.len() > 0 {
        let pre = dirs.drop_last();
        assert(dirs[dirs.len() - 1] == dirs.last());
        assert(dirs_ok(pre)) by {
            assert forall|i: int| 0 <= i < pre.len() implies unit_dir(#[trigger] pre[i]) by {
                assert(pre[i] == dirs[i]);
            }
        }
        lemma_steps_over_distinct(b, r, c, pre);
        let s = steps_over(b, r, c, pre);
        let t = step_moves(b, r, c, dirs.last());
        lemma_join_dirs(r, c, dirs, s, t);
        assert forall|i: int| 0 <= i < (s + t).len() implies reach(r, c, (#[trigger] (s + t)[i]).0)
            == 1 by {
            if i < s.len() {
                assert((s + t)[i] == s[i]);
            }
        }
    }
}

proof fn lemma_jumps_over_distinct(b: Seq<Piece>, piece: Piece, r: int, c: int, dirs: Seq<(i32, i32)>)
    requires
        dirs_ok(dirs),
    ensures
        dirs_cover(r, c, dirs, jumps_over(b, piece, r, c, dirs)),
        distinct_dests(jumps_over(b, piece, r, c, dirs)),
        forall|i: int|
            0 <= i < jumps_over(b, piece, r, c, dirs).len() ==> reach(
                r,
                c,
                (#[trigger] jumps_over(b, piece, r, c, dirs)[i]).0,
            ) == 2,
    decreases dirs.len(),
{
    if dirs.len() > 0 {
        let pre = dirs.drop_last();
        assert(dirs[dirs.len() - 1] == dirs.last());
        assert(dirs_ok(pre)) by {
            assert forall|i: int| 0 <= i < pre.len() implies unit_dir(#[trigger] pre[i]) by {
                assert(pre[i] == dirs[i]);
            }
        }
        lemma_jumps_over_distinct(b, piece, r, c, pre);
        let s = jumps_over(b, piece, r, c, pre);
        let t = jump_moves(b, piece, r, c, dirs.last());
        lemma_join_dirs(r, c, dirs, s, t);
        assert forall|i: int| 0 <= i < (s + t).len() implies reach(r, c, (#[trigger] (s + t)[i]).0)
            == 2 by {
            if i < s.len() {
                assert((s + t)[i] == s[i]);
            }
        }
    }
}

proof fn lemma_dirs_ok(v: Variant, piece: Piece)
    ensures
        dirs_ok(move_dirs(v, piece)),
        dirs_ok(capture_dirs(v, piece)),
{
    let m = move_dirs(v, piece);
    let k = capture_dirs(v, piece);
    assert(dirs_ok(m));
    assert(dirs_ok(k));
}

/// No two moves of a piece land on the same square.
pub proof fn lemma_piece_moves_distinct(b: Seq<Piece>, v: Variant, pos: Pos)
    ensures
        distinct_dests(piece_moves(b, v, pos)),
{
    let r = pos.row as int;
    let c = pos.col as int;
    let piece = cell(b, r, c);
    lemma_dirs_ok(v, piece);
    if piece == Piece::Empty {
    } else if slides_far(v, piece) {
        lemma_slides_over_distinct(b, piece, r, c, move_dirs(v, piece));
    } else {
        let s = steps_over(b, r, c, move_dirs(v, piece));
        let t = jumps_over(b, piece, r, c, capture_dirs(v, piece));
        lemma_steps_over_distinct(b, r, c, move_dirs(v, piece));
        lemma_jumps_over_distinct(b, piece, r, c, capture_dirs(v, piece));
        let st = s + t;
        assert forall|i: int, j: int| 0 <= i < st.len() && 0 <= j < st.len() && i != j implies st[i].0
            != st[j].0 by {
            if i < s.len() && j < s.len() {
                assert(st[i] == s[i] && st[j] == s[j]);
            } else if i >= s.len() && j >= s.len() {
                assert(st[i] == t[i - s.len()] && st[j] == t[j - s.len()]);
            } else if i < s.len() {
                assert(st[i] == s[i] && st[j] == t[j - s.len()]);
                assert(reach(r, c, st[i].0) == 1 && reach(r, c, st[j].0) == 2);
            } else {
                assert(st[j] == s[j] && st[i] == t[i - s.len()]);
                assert(reach(r, c, st[j].0) == 1 && reach(r, c, st[i].0) == 2);
            }
        }
    }
}

/// The directions of `dirs` run along rows and columns in the orthogonal variant, along
/// diagonals otherwise.
pub open spec fn dirs_of_variant(v: Variant, dirs: Seq<(i32, i32)>) -> bool {
    forall|k: int|
        0 <= k < dirs.len() ==> if v.orthogonal() {
            ((#[trigger] dirs[k]).0 == 0) != (dirs[k].1 == 0)
        } else {
            dirs[k].0 != 0 && dirs[k].1 != 0
        }
}

/// Square `p` lies on a row or column through (r, c) in the orthogonal variant, on a
/// diagonal through it otherwise, and is not (r, c) itself.
pub open spec fn along_variant_line(v: Variant, r: int, c: int, p: Pos) -> bool {
    let dr = p.row as int - r;
    let dc = p.col as int - c;
    if v.orthogonal() {
        (dr == 0) != (dc == 0)
    } else {
        dr != 0 && abs(dr) == abs(dc)
    }
}

proof fn lemma_cover_lines(v: Variant, r: int, c: int, dirs: Seq<(i32, i32)>, s: Seq<Move>)
    requires
        dirs_of_variant(v, dirs),
        dirs_cover(r, c, dirs, s),
    ensures
        forall|i: int| 0 <= i < s.len() ==> along_variant_line(v, r, c, (#[trigger] s[i]).0),
{
    assert forall|i: int| 0 <= i < s.len() implies along_variant_line(v, r, c, (#[trigger] s[i]).0) by {
        let k = choose|k: int| 0 <= k < dirs.len() && straight(r, c, dirs[k], s[i].0);
        assert(straight(r, c, dirs[k], s[i].0));
    }
}

/// Every move goes along a row or a column in the orthogonal variant, and along a diagonal
/// in the others.
pub proof fn law_moves_along_lines(b: Seq<Piece>, v: Variant, pos: Pos)
    ensures
        forall|i: int|
            0 <= i < piece_moves(b, v, pos).len() ==> along_variant_line(
                v,
                pos.row as int,
                pos.col as int,
                (#[trigger] piece_moves(b, v, pos)[i]).0,
            ),
{
    let r = pos.row as int;
    let c = pos.col as int;
    let piece = cell(b, r, c);
    lemma_dirs_ok(v, piece);
    assert(dirs_of_variant(v, move_dirs(v, piece)));
    assert(dirs_of_variant(v, capture_dirs(v, piece)));
    if piece == Piece::Empty {
    } else if slides_far(v, piece) {
        lemma_slides_over_distinct(b, piece, r, c, move_dirs(v, piece));
        lemma_cover_lines(v, r, c, move_dirs(v, piece), slides_over(b, piece, r, c, move_dirs(v, piece)));
    } else {
        let s = steps_over(b, r, c, move_dirs(v, piece));
        let t = jumps_over(b, piece, r, c, capture_dirs(v, piece));
        lemma_steps_over_distinct(b, r, c, move_dirs(v, piece));
        lemma_jumps_over_distinct(b, piece, r, c, capture_dirs(v, piece));
        lemma_cover_lines(v, r, c, move_dirs(v, piece), s);
        lemma_cover_lines(v, r, c, capture_dirs(v, piece), t);
        assert forall|i: int| 0 <= i < (s + t).len() implies along_variant_line(v, r, c, (#[trigger] (s + t)[i]).0) by {
            if i < s.len() {
                assert((s + t)[i] == s[i]);
            } else {
                assert((s + t)[i] == t[i - s.len()]);
            }
        }
    }
}

/// No two captures of a piece land on the same square.
pub proof fn lemma_captures_distinct(s: Seq<Move>)
    requires
        distinct_dests(s),
    ensures
        distinct_dests(captures_of(s)),
    decreases s.len(),
{
    if s.len() > 0 {
        let t = s.drop_last();
        assert(distinct_dests(t)) by {
            assert forall|i: int, j: int| 0 <= i < t.len() && 0 <= j < t.len() && i != j implies t[i].0
                != t[j].0 by {
                assert(t[i] == s[i] && t[j] == s[j]);
            }
        }
        lemma_captures_distinct(t);
        if s.last().1 is Some {
            let ct = captures_of(t);
            lemma_captures_of(seq![], Piece::Empty, t);
            let cs = ct.push(s.last());
            assert forall|i: int, j: int| 0 <= i < cs.len() && 0 <= j < cs.len() && i != j implies cs[i].0
                != cs[j].0 by {
                if i < ct.len() && j < ct.len() {
                } else {
                    let a = if i < ct.len() {
                        i
                    } else {
                        j
                    };
                    assert(t.contains(ct[a]));
                    let k = choose|k: int| 0 <= k < t.len() && t[k] == ct[a];
                    assert(s[k] == t[k]);
                    assert(s[s.len() - 1] == s.last());
                }
            }
        }
    }
}

proof fn lemma_join_nodup(s: Seq<FullMove>, t: Seq<FullMove>)
    requires
        s.no_duplicates(),
        t.no_duplicates(),
        forall|i: int, j: int| 0 <= i < s.len() && 0 <= j < t.len() ==> s[i] != t[j],
    ensures
        (s + t).no_duplicates(),
{
    let st = s + t;
    assert forall|i: int, j: int| 0 <= i < st.len() && 0 <= j < st.len() && i != j implies st[i]
        != st[j] by {
        if i < s.len() && j < s.len() {
            assert(st[i] == s[i] && st[j] == s[j]);
        } else if i >= s.len() && j >= s.len() {
            assert(st[i] == t[i - s.len()] && st[j] == t[j - s.len()]);
        } else if i < s.len() {
            assert(st[i] == s[i] && st[j] == t[j - s.len()]);
        } else {
            assert(st[j] == s[j] && st[i] == t[i - s.len()]);
        }
    }
}

proof fn lemma_square_nodup(b: Seq<Piece>, v: Variant, white: bool, must: bool, r: int, c: int)
    requires
        in_bounds(r, c),
    ensures
        square_moves(b, v, white, must, r, c).no_duplicates(),
        forall|i: int|
            0 <= i < square_moves(b, v, white, must, r, c).len() ==> (#[trigger] square_moves(
                b,
                v,
                white,
                must,
                r,
                c,
            )[i]).0 == sq(r, c),
{
    let p = sq(r, c);
    lemma_piece_moves_distinct(b, v, p);
    lemma_captures_distinct(piece_moves(b, v, p));
}

proof fn lemma_row_nodup(b: Seq<Piece>, v: Variant, white: bool, must: bool, r: int, n: int)
    requires
        0 <= r < 8,
        n <= 8,
    ensures
        row_moves(b, v, white, must, r, n).no_duplicates(),
        forall|i: int|
            0 <= i < row_moves(b, v, white, must, r, n).len() ==> (#[trigger] row_moves(
                b,
                v,
                white,
                must,
                r,
                n,
            )[i]).0.row == r && row_moves(b, v, white, must, r, n)[i].0.col < n,
    decreases n,
{
    if n > 0 {
        lemma_row_nodup(b, v, white, must, r, n - 1);
        lemma_square_nodup(b, v, white, must, r, n - 1);
        let s = row_moves(b, v, white, must, r, n - 1);
        let t = square_moves(b, v, white, must, r, n - 1);
        assert forall|i: int, j: int| 0 <= i < s.len() && 0 <= j < t.len() implies s[i] != t[j] by {
            assert(t[j].0 == sq(r, n - 1));
        }
        lemma_join_nodup(s, t);
        assert forall|i: int| 0 <= i < (s + t).len() implies (#[trigger] (s + t)[i]).0.row == r && (
        s + t)[i].0.col < n by {
            if i < s.len() {
                assert((s + t)[i] == s[i]);
            } else {
                assert((s + t)[i] == t[i - s.len()]);
            }
        }
    }
}

proof fn lemma_rows_nodup(b: Seq<Piece>, v: Variant, white: bool, must: bool, n: int)
    requires
        n <= 8,
    ensures
        rows_moves(b, v, white, must, n).no_duplicates(),
        forall|i: int|
            0 <= i < rows_moves(b, v, white, must, n).len() ==> (#[trigger] rows_moves(
                b,
                v,
                white,
                must,
                n,
            )[i]).0.row < n && rows_moves(b, v, white, must, n)[i].0.col < 8,
    decreases n,
{
    if n > 0 {
        lemma_rows_nodup(b, v, white, must, n - 1);
        lemma_row_nodup(b, v, white, must, n - 1, 8);
        let s = rows_moves(b, v, white, must, n - 1);
        let t = row_moves(b, v, white, must, n - 1, 8);
        assert forall|i: int, j: int| 0 <= i < s.len() && 0 <= j < t.len() implies s[i] != t[j] by {
            assert(t[j].0.row == n - 1);
        }
        lemma_join_nodup(s, t);
        assert forall|i: int| 0 <= i < (s + t).len() implies (#[trigger] (s + t)[i]).0.row < n && (s
            + t)[i].0.col < 8 by {
            if i < s.len() {
                assert((s + t)[i] == s[i]);
            } else {
                assert((s + t)[i] == t[i - s.len()]);
            }
        }
    }
}

/// No move is listed twice among the moves a side may play.
pub proof fn law_side_moves_distinct(b: Seq<Piece>, v: Variant, white: bool)
    ensures
        all_valid_moves(b, v, white).no_duplicates(),
{
    lemma_rows_nodup(b, v, white, any_capture(b, v, white), 8);
}

/// The moves of `s` come square by square in reading order: a move from an earlier square
/// never follows a move from a later one.
pub open spec fn in_reading_order(s: Seq<FullMove>) -> bool {
    forall|i: int, j: int|
        0 <= i < j < s.len() ==> (#[trigger] s[i]).0.row * 8 + s[i].0.col <= (#[trigger] s[j]).0.row
            * 8 + s[j].0.col
}

proof fn lemma_row_order(b: Seq<Piece>, v: Variant, white: bool, must: bool, r: int, n: int)
    requires
        0 <= r < 8,
        n <= 8,
    ensures
        in_reading_order(row_moves(b, v, white, must, r, n)),
    decreases n,
{
    if n > 0 {
        lemma_row_order(b, v, white, must, r, n - 1);
        lemma_row_nodup(b, v, white, must, r, n - 1);
        lemma_square_nodup(b, v, white, must, r, n - 1);
        let s = row_moves(b, v, white, must, r, n - 1);
        let t = square_moves(b, v, white, must, r, n - 1);
        let st = s + t;
        assert forall|i: int, j: int| 0 <= i < j < st.len() implies (#[trigger] st[i]).0.row * 8
            + st[i].0.col <= (#[trigger] st[j]).0.row * 8 + st[j].0.col by {
            if j < s.len() {
                assert(st[i] == s[i] && st[j] == s[j]);
            } else if i >= s.len() {
                assert(st[i] == t[i - s.len()] && st[j] == t[j - s.len()]);
            } else {
                assert(st[i] == s[i] && st[j] == t[j - s.len()]);
            }
        }
    }
}

proof fn lemma_rows_order(b: Seq<Piece>, v: Variant, white: bool, must: bool, n: int)
    requires
        n <= 8,
    ensures
        in_reading_order(rows_moves(b, v, white, must, n)),
    decreases n,
{
    if n > 0 {
        lemma_rows_order(b, v, white, must, n - 1);
        lemma_rows_nodup(b, v, white, must, n - 1);
        lemma_row_order(b, v, white, must, n - 1, 8);
        lemma_row_nodup(b, v, white, must, n - 1, 8);
        let s = rows_moves(b, v, white, must, n - 1);
        let t = row_moves(b, v, white, must, n - 1, 8);
        let st = s + t;
        assert forall|i: int, j: int| 0 <= i < j < st.len() implies (#[trigger] st[i]).0.row * 8
            + st[i].0.col <= (#[trigger] st[j]).0.row * 8 + st[j].0.col by {
            if j < s.len() {
                assert(st[i] == s[i] && st[j] == s[j]);
            } else if i >= s.len() {
                assert(st[i] == t[i - s.len()] && st[j] == t[j - s.len()]);
            } else {
                assert(st[i] == s[i] && st[j] == t[j - s.len()]);
                assert(s[i].0.row < n - 1);
                assert(t[j - s.len()].0.row == n - 1);
            }
        }
    }
}

/// The moves a side may play are grouped by the square they start from, the squares taken in
/// reading order: row by row from the top, left to right within a row.
pub proof fn law_side_moves_in_reading_order(b: Seq<Piece>, v: Variant, white: bool)
    ensures
        in_reading_order(all_valid_moves(b, v, white)),
{
    lemma_rows_order(b, v, white, any_capture(b, v, white), 8);
}

} // verus!
