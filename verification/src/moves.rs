//! Move resolution: the eight-direction ray walk that decides whether a
//! placement is legal, and the flips an accepted move performs.
//!
//! A ray from the target cell in one of the eight directions "ignites"
//! when its first stepped-to cell holds an opponent piece and the walk,
//! which from then on is abandoned only at the board's edge, reaches a
//! piece of the moving player. A move is legal when the target is empty
//! and at least one ray ignites; every cell strictly between the target
//! and an igniting ray's own piece is set to the moving player, and the
//! target receives the moving player's piece. Note the walk is abandoned
//! on a non-opponent cell only before the first opponent piece has been
//! seen: past that piece it runs through empty cells as well.

use vstd::prelude::*;
use crate::board::{Player, CellState, opponent, cell_of, on_board, sq, board_wf, opponent_of, piece_of, cell_at};

verus! {

/// Row step of direction `d`; the eight directions are numbered 0..8.
pub open spec fn dir_dr(d: int) -> int {
    if d < 3 {
        -1
    } else if d < 5 {
        0
    } else {
        1
    }
}

/// Column step of direction `d`.
pub open spec fn dir_dc(d: int) -> int {
    if d == 0 || d == 3 || d == 5 {
        -1
    } else if d == 1 || d == 6 {
        0
    } else {
        1
    }
}

/// Row of the cell `k` steps from row `r` along direction `d`.
pub open spec fn ray_pos_r(r: int, d: int, k: int) -> int {
    r + k * dir_dr(d)
}

/// Column of the cell `k` steps from column `c` along direction `d`.
pub open spec fn ray_pos_c(c: int, d: int, k: int) -> int {
    c + k * dir_dc(d)
}

/// The ray from `(r, c)` along direction `d` ignites at step `k`: the
/// first stepped-to cell holds an opponent piece, the walk then runs
/// through cells that are not the mover's own — opponent or empty alike —
/// and step `k` is the first to hold a piece of `p`, all on the board.
pub open spec fn ignition_at(
    b: Seq<CellState>,
    r: int,
    c: int,
    d: int,
    p: Player,
    k: int,
) -> bool {
    &&& 2 <= k
    &&& on_board(ray_pos_r(r, d, k), ray_pos_c(c, d, k))
    &&& b[sq(ray_pos_r(r, d, k), ray_pos_c(c, d, k))] == cell_of(p)
    &&& b[sq(ray_pos_r(r, d, 1), ray_pos_c(c, d, 1))] == cell_of(opponent(p))
    &&& forall|j: int|
        1 <= j < k ==> on_board(#[trigger] ray_pos_r(r, d, j), ray_pos_c(c, d, j))
            && b[sq(ray_pos_r(r, d, j), ray_pos_c(c, d, j))] != cell_of(p)
}

/// Step `k` strictly flanks the ray from `(r, c)` along `d`: steps 1
/// through `k - 1` (at least one) all hold opponent pieces and step `k`
/// holds a piece of `p`, all on the board.
pub open spec fn flank_at(b: Seq<CellState>, r: int, c: int, d: int, p: Player, k: int) -> bool {
    &&& 2 <= k
    &&& on_board(ray_pos_r(r, d, k), ray_pos_c(c, d, k))
    &&& b[sq(ray_pos_r(r, d, k), ray_pos_c(c, d, k))] == cell_of(p)
    &&& forall|j: int|
        1 <= j < k ==> on_board(#[trigger] ray_pos_r(r, d, j), ray_pos_c(c, d, j))
            && b[sq(ray_pos_r(r, d, j), ray_pos_c(c, d, j))] == cell_of(opponent(p))
}

/// The ray from `(r, c)` along `d` is strictly flanked: an unbroken run
/// of opponent pieces followed immediately by a piece of `p`.
pub open spec fn ray_flanked(b: Seq<CellState>, r: int, c: int, d: int, p: Player) -> bool {
    exists|k: int| flank_at(b, r, c, d, p, k)
}

/// The ray from `(r, c)` along direction `d` ignites at some step.
pub open spec fn ray_ignites(b: Seq<CellState>, r: int, c: int, d: int, p: Player) -> bool {
    exists|k: int| ignition_at(b, r, c, d, p, k)
}

/// Placing a piece of `p` on `(r, c)` is legal: the target is an empty
/// board cell and at least one of the eight rays from it ignites.
pub open spec fn move_legal(b: Seq<CellState>, r: int, c: int, p: Player) -> bool {
    &&& on_board(r, c)
    &&& b[sq(r, c)] == CellState::Empty
    &&& exists|d: int| 0 <= d < 8 && #[trigger] ray_ignites(b, r, c, d, p)
}

/// Cell index `i` lies on the ray from `(r, c)` along `d`, strictly
/// between the origin and step `jmax`.
pub open spec fn on_ray_below(r: int, c: int, d: int, jmax: int, i: int) -> bool {
    exists|j: int| 1 <= j < jmax && i == sq(#[trigger] ray_pos_r(r, d, j), ray_pos_c(c, d, j))
}

/// Cell index `i` is flipped by one of the directions below `dmax`: it
/// lies strictly between the target and the igniting piece of such a ray.
pub open spec fn flipped_upto(
    b: Seq<CellState>,
    r: int,
    c: int,
    p: Player,
    dmax: int,
    i: int,
) -> bool {
    exists|d: int, j: int, k: int|
        #![trigger ignition_at(b, r, c, d, p, k), ray_pos_r(r, d, j)]
        0 <= d < dmax && 1 <= j < k && ignition_at(b, r, c, d, p, k)
            && i == sq(ray_pos_r(r, d, j), ray_pos_c(c, d, j))
}

/// Cell index `i` is flipped by the move of `p` on `(r, c)`.
pub open spec fn flipped(b: Seq<CellState>, r: int, c: int, p: Player, i: int) -> bool {
    flipped_upto(b, r, c, p, 8, i)
}

/// Cell `i` after a legal move of `p` on `(r, c)`: the target and every
/// flipped cell hold `p`'s piece; every other cell is unchanged.
pub open spec fn moved_cell(b: Seq<CellState>, r: int, c: int, p: Player, i: int) -> CellState {
    if i == sq(r, c) || flipped(b, r, c, p, i) {
        cell_of(p)
    } else {
        b[i]
    }
}

/// The whole board after a legal move of `p` on `(r, c)`.
pub open spec fn moved_board(b: Seq<CellState>, r: int, c: int, p: Player) -> Seq<CellState> {
    Seq::new(64, |i: int| moved_cell(b, r, c, p, i))
}

/// Step 0 of a ray is its origin.
pub proof fn lemma_ray_start(r: int, c: int, d: int)
    ensures
        ray_pos_r(r, d, 0) == r,
        ray_pos_c(c, d, 0) == c,
{
    let m = dir_dr(d);
    let n = dir_dc(d);
    assert(0 * m == 0) by (nonlinear_arith);
    assert(0 * n == 0) by (nonlinear_arith);
}

/// Each ray step advances the position by the direction's unit vector.
pub proof fn lemma_ray_step(r: int, c: int, d: int, k: int)
    ensures
        ray_pos_r(r, d, k + 1) == ray_pos_r(r, d, k) + dir_dr(d),
        ray_pos_c(c, d, k + 1) == ray_pos_c(c, d, k) + dir_dc(d),
{
    let m = dir_dr(d);
    let n = dir_dc(d);
    assert((k + 1) * m == k * m + m) by (nonlinear_arith);
    assert((k + 1) * n == k * n + n) by (nonlinear_arith);
}

/// A ray leaves the board within 7 steps: directions are nonzero, so one
/// coordinate drifts by one cell per step.
pub proof fn lemma_ray_bound(r: int, c: int, d: int, k: int)
    requires
        0 <= d < 8,
        0 <= r < 8,
        0 <= c < 8,
        0 <= k,
        on_board(ray_pos_r(r, d, k), ray_pos_c(c, d, k)),
    ensures
        k <= 7,
{
    let m = dir_dr(d);
    let n = dir_dc(d);
    assert(k <= 7) by (nonlinear_arith)
        requires
            m == -1 || m == 0 || m == 1,
            n == -1 || n == 0 || n == 1,
            !(m == 0 && n == 0),
            0 <= r < 8,
            0 <= c < 8,
            0 <= k,
            0 <= r + k * m < 8,
            0 <= c + k * n < 8;
}

/// A ray ignites at no more than one step: the igniting cell holds the
/// mover's piece, while every cell before it does not.
pub proof fn lemma_ignition_unique(
    b: Seq<CellState>,
    r: int,
    c: int,
    d: int,
    p: Player,
    k1: int,
    k2: int,
)
    requires
        ignition_at(b, r, c, d, p, k1),
        ignition_at(b, r, c, d, p, k2),
    ensures
        k1 == k2,
{
    if k1 < k2 {
        assert(b[sq(ray_pos_r(r, d, k1), ray_pos_c(c, d, k1))] != cell_of(p));
    }
    if k2 < k1 {
        assert(b[sq(ray_pos_r(r, d, k2), ray_pos_c(c, d, k2))] != cell_of(p));
    }
}

/// A strictly flanked ray ignites: opponent pieces are never the mover's
/// own, so the strict flank is a special case of the engine's walk.
pub proof fn lemma_flanked_ignites(b: Seq<CellState>, r: int, c: int, d: int, p: Player)
    requires
        ray_flanked(b, r, c, d, p),
    ensures
        ray_ignites(b, r, c, d, p),
{
    let k = choose|k: int| flank_at(b, r, c, d, p, k);
    assert(opponent(p) != p);
    assert(on_board(ray_pos_r(r, d, 1), ray_pos_c(c, d, 1)) && b[sq(
        ray_pos_r(r, d, 1),
        ray_pos_c(c, d, 1),
    )] == cell_of(opponent(p)));
    assert(ignition_at(b, r, c, d, p, k));
}

/// A cell flipped by the directions below `d1` is flipped by those below
/// any larger bound.
pub proof fn lemma_flipped_upto_monotone(
    b: Seq<CellState>,
    r: int,
    c: int,
    p: Player,
    d1: int,
    d2: int,
    i: int,
)
    requires
        d1 <= d2,
        flipped_upto(b, r, c, p, d1, i),
    ensures
        flipped_upto(b, r, c, p, d2, i),
{
    let (dw, jw, kw) = choose|dw: int, jw: int, kw: int|
        0 <= dw < d1 && 1 <= jw < kw && ignition_at(b, r, c, dw, p, kw)
            && i == sq(ray_pos_r(r, dw, jw), ray_pos_c(c, dw, jw));
    assert(ignition_at(b, r, c, dw, p, kw));
    assert(i == sq(ray_pos_r(r, dw, jw), ray_pos_c(c, dw, jw)));
}

/// Adding the igniting direction `d` to the flipped set adds exactly the
/// cells strictly between the target and `d`'s igniting piece.
pub proof fn lemma_flipped_step_ignite(
    b: Seq<CellState>,
    r: int,
    c: int,
    p: Player,
    d: int,
    k: int,
    i: int,
)
    requires
        0 <= d,
        ignition_at(b, r, c, d, p, k),
    ensures
        flipped_upto(b, r, c, p, d + 1, i) == (flipped_upto(b, r, c, p, d, i) || on_ray_below(
            r,
            c,
            d,
            k,
            i,
        )),
{
    if flipped_upto(b, r, c, p, d + 1, i) {
        let (dw, jw, kw) = choose|dw: int, jw: int, kw: int|
            0 <= dw < d + 1 && 1 <= jw < kw && ignition_at(b, r, c, dw, p, kw)
                && i == sq(ray_pos_r(r, dw, jw), ray_pos_c(c, dw, jw));
        if dw == d {
            lemma_ignition_unique(b, r, c, d, p, kw, k);
            assert(on_ray_below(r, c, d, k, i));
        } else {
            assert(flipped_upto(b, r, c, p, d, i));
        }
    }
    if flipped_upto(b, r, c, p, d, i) {
        lemma_flipped_upto_monotone(b, r, c, p, d, d + 1, i);
    }
    if on_ray_below(r, c, d, k, i) {
        let jw = choose|jw: int|
            1 <= jw < k && i == sq(#[trigger] ray_pos_r(r, d, jw), ray_pos_c(c, d, jw));
        assert(0 <= d < d + 1 && 1 <= jw < k && ignition_at(b, r, c, d, p, k)
            && i == sq(ray_pos_r(r, d, jw), ray_pos_c(c, d, jw)));
        assert(flipped_upto(b, r, c, p, d + 1, i));
    }
}

/// A direction whose ray does not ignite adds nothing to the flipped set.
pub proof fn lemma_flipped_step_quiet(
    b: Seq<CellState>,
    r: int,
    c: int,
    p: Player,
    d: int,
    i: int,
)
    requires
        !ray_ignites(b, r, c, d, p),
    ensures
        flipped_upto(b, r, c, p, d + 1, i) == flipped_upto(b, r, c, p, d, i),
{
    if flipped_upto(b, r, c, p, d + 1, i) {
        let (dw, jw, kw) = choose|dw: int, jw: int, kw: int|
            0 <= dw < d + 1 && 1 <= jw < kw && ignition_at(b, r, c, dw, p, kw)
                && i == sq(ray_pos_r(r, dw, jw), ray_pos_c(c, dw, jw));
        if dw == d {
            assert(ray_ignites(b, r, c, d, p));
        } else {
            assert(flipped_upto(b, r, c, p, d, i));
        }
    }
    if flipped_upto(b, r, c, p, d, i) {
        lemma_flipped_upto_monotone(b, r, c, p, d, d + 1, i);
    }
}

/// The unit vector of direction `d`, as executable code.
pub fn dir_delta(d: usize) -> (delta: (i16, i16))
    requires
        d < 8,
    ensures
        delta.0 as int == dir_dr(d as int),
        delta.1 as int == dir_dc(d as int),
{
    match d {
        0 => (-1, -1),
        1 => (-1, 0),
        2 => (-1, 1),
        3 => (0, -1),
        4 => (0, 1),
        5 => (1, -1),
        6 => (1, 0),
        _ => (1, 1),
    }
}

/// Walk the ray from `(row, col)` along direction `d` for player `p`.
/// Returns the igniting step, or 0 when the ray does not ignite. The walk
/// is abandoned at once when its first stepped-to cell is not an opponent
/// piece; after that first piece it runs through every cell that is not
/// `p`'s own — opponent or empty — and ignites at `p`'s first piece. Only
/// the board's edge ends the walk without ignition then.
pub fn scan_ray(board: &Vec<CellState>, row: usize, col: usize, d: usize, p: Player) -> (res: usize)
    requires
        board_wf(board@),
        row < 8,
        col < 8,
        d < 8,
    ensures
        res == 0 ==> !ray_ignites(board@, row as int, col as int, d as int, p),
        res != 0 ==> ignition_at(board@, row as int, col as int, d as int, p, res as int),
        res <= 7,
{
    let (dr, dc) = dir_delta(d);
    let opp_cell = piece_of(opponent_of(p));
    let cur_cell = piece_of(p);
    let mut rr: i16 = row as i16;
    let mut cc: i16 = col as i16;
    let mut steps: usize = 0;
    let ghost r = row as int;
    let ghost c = col as int;
    let ghost dd = d as int;
    loop
        invariant
            board_wf(board@),
            row < 8,
            col < 8,
            d < 8,
            r == row as int,
            c == col as int,
            dd == d as int,
            dr as int == dir_dr(dd),
            dc as int == dir_dc(dd),
            opp_cell == cell_of(opponent(p)),
            cur_cell == cell_of(p),
            steps <= 7,
            rr as int == ray_pos_r(r, dd, steps as int),
            cc as int == ray_pos_c(c, dd, steps as int),
            on_board(rr as int, cc as int),
            steps as int >= 1 ==> board@[sq(ray_pos_r(r, dd, 1), ray_pos_c(c, dd, 1))] == cell_of(
                opponent(p),
            ),
            forall|j: int|
                1 <= j <= steps as int ==> on_board(
                    #[trigger] ray_pos_r(r, dd, j),
                    ray_pos_c(c, dd, j),
                ) && board@[sq(ray_pos_r(r, dd, j), ray_pos_c(c, dd, j))] != cell_of(p),
        decreases 8 - steps,
    {
        proof {
            lemma_ray_step(r, c, dd, steps as int);
        }
        rr = rr + dr;
        cc = cc + dc;
        steps = steps + 1;
        if rr < 0 || rr >= 8 || cc < 0 || cc >= 8 {
            proof {
                let s = steps as int;
                assert forall|k: int| !ignition_at(board@, r, c, dd, p, k) by {
                    if ignition_at(board@, r, c, dd, p, k) {
                        if k < s {
                            assert(board@[sq(ray_pos_r(r, dd, k), ray_pos_c(c, dd, k))]
                                != cell_of(p));
                        } else if k > s {
                            assert(on_board(ray_pos_r(r, dd, s), ray_pos_c(c, dd, s)));
                        }
                    }
                }
            }
            return 0;
        }
        proof {
            lemma_ray_bound(r, c, dd, steps as int);
        }
        let idx: usize = (rr as usize) * 8 + (cc as usize);
        assert(idx as int == sq(ray_pos_r(r, dd, steps as int), ray_pos_c(c, dd, steps as int)));
        let cell = cell_at(board, idx);
        if steps == 1 {
            if cell != opp_cell {
                proof {
                    assert forall|k: int| !ignition_at(board@, r, c, dd, p, k) by {
                        if ignition_at(board@, r, c, dd, p, k) {
                            assert(board@[sq(ray_pos_r(r, dd, 1), ray_pos_c(c, dd, 1))]
                                == cell_of(opponent(p)));
                        }
                    }
                }
                return 0;
            }
            proof {
                assert(opponent(p) != p);
            }
        } else if cell == cur_cell {
            proof {
                assert(ignition_at(board@, r, c, dd, p, steps as int));
            }
            return steps;
        }
    }
}

/// Read the recorded igniting step of direction `d`.
fn ray_len_at(ks: &Vec<usize>, d: usize) -> (k: usize)
    requires
        d < ks@.len(),
    ensures
        k == ks@[d as int],
{
    *vstd::slice::slice_index_get(ks.as_slice(), d)
}

/// Attempt to place a piece of `p` on `(row, col)`. When the placement is
/// legal, flip every cell strictly between the target and the igniting
/// piece of each igniting ray, put `p`'s piece on the target, and return
/// true; otherwise leave the board untouched, cell for cell, and return
/// false. Targets off the board are rejected the same way.
pub fn apply_move(board: &mut Vec<CellState>, row: usize, col: usize, p: Player) -> (moved: bool)
    requires
        board_wf(old(board)@),
    ensures
        board_wf(final(board)@),
        moved == move_legal(old(board)@, row as int, col as int, p),
        !moved ==> final(board)@ == old(board)@,
        moved ==> final(board)@ == moved_board(old(board)@, row as int, col as int, p),
{
    let ghost b0 = board@;
    let ghost r = row as int;
    let ghost c = col as int;
    if row >= 8 || col >= 8 {
        return false;
    }
    let tidx: usize = row * 8 + col;
    match cell_at(board, tidx) {
        CellState::OccupiedBy(_) => {
            return false;
        },
        CellState::Empty => {},
    }
    let cur_cell = piece_of(p);

    let mut ks: Vec<usize> = Vec::new();
    let mut found = false;
    let mut d: usize = 0;
    while d < 8
        invariant
            board@ == b0,
            b0.len() == 64,
            row < 8,
            col < 8,
            r == row as int,
            c == col as int,
            d <= 8,
            ks@.len() == d as int,
            forall|e: int| 0 <= e < d as int ==> #[trigger] ks@[e] <= 7,
            forall|e: int|
                0 <= e < d as int ==> (#[trigger] ks@[e] == 0 ==> !ray_ignites(b0, r, c, e, p)),
            forall|e: int|
                0 <= e < d as int ==> (#[trigger] ks@[e] != 0 ==> ignition_at(
                    b0,
                    r,
                    c,
                    e,
                    p,
                    ks@[e] as int,
                )),
        decreases 8 - d,
    {
        let k = scan_ray(board, row, col, d, p);
        ks.push(k);
        d = d + 1;
    }

    let ghost mut wd: int = 0;
    let mut e: usize = 0;
    while e < 8
        invariant
            ks@.len() == 8,
            e <= 8,
            forall|e2: int| 0 <= e2 < 8 ==> #[trigger] ks@[e2] <= 7,
            forall|e2: int|
                0 <= e2 < 8 ==> (#[trigger] ks@[e2] == 0 ==> !ray_ignites(b0, r, c, e2, p)),
            forall|e2: int|
                0 <= e2 < 8 ==> (#[trigger] ks@[e2] != 0 ==> ignition_at(
                    b0,
                    r,
                    c,
                    e2,
                    p,
                    ks@[e2] as int,
                )),
            found ==> 0 <= wd < 8 && ks@[wd] != 0,
            !found ==> forall|e2: int| 0 <= e2 < e as int ==> #[trigger] ks@[e2] == 0,
        decreases 8 - e,
    {
        let k = ray_len_at(&ks, e);
        if k != 0 {
            found = true;
            proof {
                wd = e as int;
            }
        }
        e = e + 1;
    }

    if !found {
        proof {
            assert forall|dw: int| 0 <= dw < 8 implies !ray_ignites(b0, r, c, dw, p) by {
                assert(ks@[dw] == 0);
            }
        }
        return false;
    }
    proof {
        assert(ignition_at(b0, r, c, wd, p, ks@[wd] as int));
        assert(ray_ignites(b0, r, c, wd, p));
        assert(move_legal(b0, r, c, p));
    }

    let mut d2: usize = 0;
    while d2 < 8
        invariant
            b0.len() == 64,
            board@.len() == 64,
            row < 8,
            col < 8,
            r == row as int,
            c == col as int,
            cur_cell == cell_of(p),
            d2 <= 8,
            ks@.len() == 8,
            forall|e: int| 0 <= e < 8 ==> #[trigger] ks@[e] <= 7,
            forall|e: int| 0 <= e < 8 ==> (#[trigger] ks@[e] == 0 ==> !ray_ignites(b0, r, c, e, p)),
            forall|e: int|
                0 <= e < 8 ==> (#[trigger] ks@[e] != 0 ==> ignition_at(b0, r, c, e, p, ks@[e] as int)),
            forall|i: int|
                0 <= i < 64 ==> #[trigger] board@[i] == (if flipped_upto(b0, r, c, p, d2 as int, i) {
                    cell_of(p)
                } else {
                    b0[i]
                }),
        decreases 8 - d2,
    {
        let ghost dv = d2 as int;
        let k = ray_len_at(&ks, d2);
        if k > 0 {
            proof {
                assert(ignition_at(b0, r, c, dv, p, k as int));
            }
            let (dr, dc) = dir_delta(d2);
            proof {
                lemma_ray_start(r, c, dv);
                lemma_ray_step(r, c, dv, 0);
            }
            let mut rr: i16 = row as i16 + dr;
            let mut cc: i16 = col as i16 + dc;
            let mut j: usize = 1;
            while j < k
                invariant
                    b0.len() == 64,
                    board@.len() == 64,
                    r == row as int,
                    c == col as int,
                    cur_cell == cell_of(p),
                    dv == d2 as int,
                    0 <= dv < 8,
                    dr as int == dir_dr(dv),
                    dc as int == dir_dc(dv),
                    1 <= j <= k,
                    k <= 7,
                    ignition_at(b0, r, c, dv, p, k as int),
                    rr as int == ray_pos_r(r, dv, j as int),
                    cc as int == ray_pos_c(c, dv, j as int),
                    forall|i: int|
                        0 <= i < 64 ==> #[trigger] board@[i] == (if flipped_upto(
                            b0,
                            r,
                            c,
                            p,
                            dv,
                            i,
                        ) || on_ray_below(r, c, dv, j as int, i) {
                            cell_of(p)
                        } else {
                            b0[i]
                        }),
                decreases k - j,
            {
                let ghost jv = j as int;
                assert(on_board(rr as int, cc as int));
                let idx: usize = (rr as usize) * 8 + (cc as usize);
                assert(idx as int == sq(ray_pos_r(r, dv, jv), ray_pos_c(c, dv, jv)));
                board.set(idx, cur_cell);
                proof {
                    assert forall|i: int| 0 <= i < 64 implies board@[i] == (if flipped_upto(
                        b0,
                        r,
                        c,
                        p,
                        dv,
                        i,
                    ) || on_ray_below(r, c, dv, jv + 1, i) {
                        cell_of(p)
                    } else {
                        b0[i]
                    }) by {
                        if i == idx as int {
                            assert(1 <= jv < jv + 1 && i == sq(
                                ray_pos_r(r, dv, jv),
                                ray_pos_c(c, dv, jv),
                            ));
                            assert(on_ray_below(r, c, dv, jv + 1, i));
                        } else {
                            if on_ray_below(r, c, dv, jv + 1, i) {
                                let j2 = choose|j2: int|
                                    1 <= j2 < jv + 1 && i == sq(
                                        #[trigger] ray_pos_r(r, dv, j2),
                                        ray_pos_c(c, dv, j2),
                                    );
                                if j2 == jv {
                                    assert(false);
                                } else {
                                    assert(on_ray_below(r, c, dv, jv, i));
                                }
                            }
                            if on_ray_below(r, c, dv, jv, i) {
                                let j2 = choose|j2: int|
                                    1 <= j2 < jv && i == sq(
                                        #[trigger] ray_pos_r(r, dv, j2),
                                        ray_pos_c(c, dv, j2),
                                    );
                                assert(on_ray_below(r, c, dv, jv + 1, i));
                            }
                        }
                    }
                    lemma_ray_step(r, c, dv, jv);
                }
                rr = rr + dr;
                cc = cc + dc;
                j = j + 1;
            }
            proof {
                assert forall|i: int| 0 <= i < 64 implies board@[i] == (if flipped_upto(
                    b0,
                    r,
                    c,
                    p,
                    dv + 1,
                    i,
                ) {
                    cell_of(p)
                } else {
                    b0[i]
                }) by {
                    lemma_flipped_step_ignite(b0, r, c, p, dv, k as int, i);
                }
            }
        } else {
            proof {
                assert(!ray_ignites(b0, r, c, dv, p));
                assert forall|i: int| 0 <= i < 64 implies board@[i] == (if flipped_upto(
                    b0,
                    r,
                    c,
                    p,
                    dv + 1,
                    i,
                ) {
                    cell_of(p)
                } else {
                    b0[i]
                }) by {
                    lemma_flipped_step_quiet(b0, r, c, p, dv, i);
                }
            }
        }
        d2 = d2 + 1;
    }

    board.set(tidx, cur_cell);
    proof {
        assert forall|i: int| 0 <= i < 64 implies board@[i] == moved_board(b0, r, c, p)[i] by {
            assert(moved_board(b0, r, c, p)[i] == moved_cell(b0, r, c, p, i));
        }
        assert(board@ =~= moved_board(b0, r, c, p));
    }
    true
}

} // verus!
