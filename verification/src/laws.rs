//! The library's laws, stated and proved over the spec model: what a
//! reset establishes, what the direction table covers, what a successful
//! move does to each cell, how the scores partition the board, and what
//! termination means cell by cell.

use vstd::prelude::*;
use crate::board::{
    Player, CellState, opponent, cell_of, on_board, sq, board_wf, count_of,
    lemma_counts_partition, lemma_count_zero_iff, lemma_initial_board_counts,
};
use crate::moves::{
    dir_dr, dir_dc, ray_pos_r, ray_pos_c, ignition_at, ray_ignites, flank_at, ray_flanked,
    move_legal, flipped, moved_board, moved_cell, lemma_flanked_ignites,
};
use crate::game::{GameState, is_initial_state};

verus! {

/// Initialization invariant: a freshly reset state has exactly two pieces
/// per player, on the diagonals of the centre 2x2 block, sixty empty
/// cells, scores 2 and 2, and `First` active.
pub proof fn lemma_initialization_invariant(s: GameState)
    requires
        is_initial_state(s),
    ensures
        count_of(s.board@, cell_of(Player::First)) == 2,
        count_of(s.board@, cell_of(Player::Second)) == 2,
        count_of(s.board@, CellState::Empty) == 60,
        s.board@[sq(3, 3)] == cell_of(Player::First),
        s.board@[sq(4, 4)] == cell_of(Player::First),
        s.board@[sq(3, 4)] == cell_of(Player::Second),
        s.board@[sq(4, 3)] == cell_of(Player::Second),
        forall|r: int, c: int|
            on_board(r, c) && !(3 <= r <= 4 && 3 <= c <= 4) ==> s.board@[#[trigger] sq(r, c)]
                == CellState::Empty,
        s.first_score == 2,
        s.second_score == 2,
        s.active == Player::First,
{
    lemma_initial_board_counts();
}

/// The eight direction indices cover every nonzero unit vector: each
/// (dr, dc) with entries in -1..=1, not both zero, is some direction.
pub proof fn lemma_directions_complete(dr: int, dc: int)
    requires
        -1 <= dr <= 1,
        -1 <= dc <= 1,
        !(dr == 0 && dc == 0),
    ensures
        exists|d: int| 0 <= d < 8 && dir_dr(d) == dr && #[trigger] dir_dc(d) == dc,
{
    if dr == -1 && dc == -1 {
        assert(dir_dr(0) == dr && dir_dc(0) == dc);
    } else if dr == -1 && dc == 0 {
        assert(dir_dr(1) == dr && dir_dc(1) == dc);
    } else if dr == -1 && dc == 1 {
        assert(dir_dr(2) == dr && dir_dc(2) == dc);
    } else if dr == 0 && dc == -1 {
        assert(dir_dr(3) == dr && dir_dc(3) == dc);
    } else if dr == 0 && dc == 1 {
        assert(dir_dr(4) == dr && dir_dc(4) == dc);
    } else if dr == 1 && dc == -1 {
        assert(dir_dr(5) == dr && dir_dc(5) == dc);
    } else if dr == 1 && dc == 0 {
        assert(dir_dr(6) == dr && dir_dc(6) == dc);
    } else {
        assert(dir_dr(7) == dr && dir_dc(7) == dc);
    }
}

/// Distinct direction indices stand for distinct vectors, so the eight
/// indices are exactly the eight rays.
pub proof fn lemma_directions_distinct(d1: int, d2: int)
    requires
        0 <= d1 < 8,
        0 <= d2 < 8,
        d1 != d2,
    ensures
        dir_dr(d1) != dir_dr(d2) || dir_dc(d1) != dir_dc(d2),
{
}

/// Move legality in strict-flank terms. A strictly flanked ray — an
/// unbroken opponent run, then the mover's piece — makes an empty target
/// legal on every board. Conversely, on positions where no igniting walk
/// crosses anything but opponent pieces, a move is legal exactly when the
/// target is an empty board cell and some ray is strictly flanked. The
/// walk itself is laxer than the strict flank elsewhere: it abandons a
/// direction only before the first opponent piece, so past that piece it
/// can run through empty cells and still ignite.
pub proof fn lemma_move_legality_flanked(b: Seq<CellState>, r: int, c: int, p: Player)
    requires
        forall|d: int, k: int, j: int|
            #![trigger ignition_at(b, r, c, d, p, k), ray_pos_r(r, d, j)]
            0 <= d < 8 && ignition_at(b, r, c, d, p, k) && 1 <= j < k ==> b[sq(
                ray_pos_r(r, d, j),
                ray_pos_c(c, d, j),
            )] == cell_of(opponent(p)),
    ensures
        move_legal(b, r, c, p) <==> (on_board(r, c) && b[sq(r, c)] == CellState::Empty && (exists|
            d: int,
        |
            0 <= d < 8 && #[trigger] ray_flanked(b, r, c, d, p))),
{
    if move_legal(b, r, c, p) {
        let d = choose|d: int| 0 <= d < 8 && #[trigger] ray_ignites(b, r, c, d, p);
        let k = choose|k: int| ignition_at(b, r, c, d, p, k);
        assert(flank_at(b, r, c, d, p, k));
        assert(ray_flanked(b, r, c, d, p));
    }
    if on_board(r, c) && b[sq(r, c)] == CellState::Empty && (exists|d: int|
        0 <= d < 8 && #[trigger] ray_flanked(b, r, c, d, p)) {
        let d = choose|d: int| 0 <= d < 8 && #[trigger] ray_flanked(b, r, c, d, p);
        lemma_flanked_ignites(b, r, c, d, p);
        assert(move_legal(b, r, c, p));
    }
}

/// Flip correctness: after a successful move, every cell strictly between
/// the target and an igniting piece holds the mover's piece, the target
/// holds it too, and every other cell is unchanged.
pub proof fn lemma_flip_correctness(b: Seq<CellState>, r: int, c: int, p: Player, i: int)
    requires
        board_wf(b),
        on_board(r, c),
        0 <= i < 64,
    ensures
        flipped(b, r, c, p, i) ==> moved_board(b, r, c, p)[i] == cell_of(p),
        moved_board(b, r, c, p)[sq(r, c)] == cell_of(p),
        !flipped(b, r, c, p, i) && i != sq(r, c) ==> moved_board(b, r, c, p)[i] == b[i],
{
    assert(moved_board(b, r, c, p)[i] == moved_cell(b, r, c, p, i));
    assert(moved_board(b, r, c, p)[sq(r, c)] == moved_cell(b, r, c, p, sq(r, c)));
}

/// Score/board consistency: scores that match a fresh scan sum with the
/// number of empty cells to the 64 board cells.
pub proof fn lemma_scores_partition(s: GameState)
    requires
        s.wf(),
        s.first_score as int == count_of(s.board@, cell_of(Player::First)),
        s.second_score as int == count_of(s.board@, cell_of(Player::Second)),
    ensures
        s.first_score as int + s.second_score as int + count_of(s.board@, CellState::Empty) == 64,
{
    lemma_counts_partition(s.board@);
}

/// Termination in cell terms: a count is zero exactly when no cell holds
/// that state, so the game is over exactly when no cell holds `First`, no
/// cell holds `Second`, or no cell is empty.
pub proof fn lemma_game_over_cells(b: Seq<CellState>)
    requires
        board_wf(b),
    ensures
        count_of(b, cell_of(Player::First)) == 0 <==> (forall|i: int|
            0 <= i < 64 ==> b[i] != cell_of(Player::First)),
        count_of(b, cell_of(Player::Second)) == 0 <==> (forall|i: int|
            0 <= i < 64 ==> b[i] != cell_of(Player::Second)),
        count_of(b, CellState::Empty) == 0 <==> (forall|i: int|
            0 <= i < 64 ==> b[i] != CellState::Empty),
{
    lemma_count_zero_iff(b, cell_of(Player::First), 64);
    lemma_count_zero_iff(b, cell_of(Player::Second), 64);
    lemma_count_zero_iff(b, CellState::Empty, 64);
}

/// Reset idempotence: the reset postcondition determines every observable
/// of the state, so resetting twice in a row leaves the same state as
/// resetting once.
pub proof fn lemma_reset_idempotent(once: GameState, twice: GameState)
    requires
        is_initial_state(once),
        is_initial_state(twice),
    ensures
        once.board@ == twice.board@,
        once.active == twice.active,
        once.first_score == twice.first_score,
        once.second_score == twice.second_score,
{
}

} // verus!
