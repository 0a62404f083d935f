//! Board data model: players, cell states, the 8x8 grid layout, the
//! canonical starting position, and piece counting.

use vstd::prelude::*;

verus! {

/// The two players. Exactly one is active at any time; `First` moves first
/// after a reset.
#[derive(Copy, Clone, Debug, PartialEq, Eq, Structural)]
pub enum Player {
    First,
    Second,
}

/// Contents of one board cell: empty, or a piece of one player.
#[derive(Copy, Clone, Debug, PartialEq, Eq, Structural)]
pub enum CellState {
    Empty,
    OccupiedBy(Player),
}

/// The opponent of a player.
pub open spec fn opponent(p: Player) -> Player {
    match p {
        Player::First => Player::Second,
        Player::Second => Player::First,
    }
}

/// The cell state that holds a piece of player `p`.
pub open spec fn cell_of(p: Player) -> CellState {
    CellState::OccupiedBy(p)
}

/// Whether `(r, c)` addresses a cell of the 8x8 board.
pub open spec fn on_board(r: int, c: int) -> bool {
    0 <= r < 8 && 0 <= c < 8
}

/// Index of cell `(r, c)` in the row-major sequence of the 64 cells.
pub open spec fn sq(r: int, c: int) -> int {
    8 * r + c
}

/// A well-formed board holds exactly the 64 cells of the 8x8 grid.
pub open spec fn board_wf(b: Seq<CellState>) -> bool {
    b.len() == 64
}

/// The canonical starting position: the center 2x2 block holds `First` on
/// its main diagonal and `Second` on its anti-diagonal; all else is empty.
pub open spec fn init_board() -> Seq<CellState> {
    Seq::new(64, |i: int|
        if i == sq(3, 3) || i == sq(4, 4) {
            cell_of(Player::First)
        } else if i == sq(3, 4) || i == sq(4, 3) {
            cell_of(Player::Second)
        } else {
            CellState::Empty
        })
}

/// Number of cells among the first `n` of `b` that hold exactly `s`.
pub open spec fn count_upto(b: Seq<CellState>, s: CellState, n: int) -> int
    decreases n,
{
    if n <= 0 {
        0
    } else {
        count_upto(b, s, n - 1) + if b[n - 1] == s { 1int } else { 0int }
    }
}

/// Number of cells of `b` that hold exactly `s`.
pub open spec fn count_of(b: Seq<CellState>, s: CellState) -> int {
    count_upto(b, s, b.len() as int)
}

/// A prefix count lies between 0 and the prefix length.
pub proof fn lemma_count_bounds(b: Seq<CellState>, s: CellState, n: int)
    requires
        0 <= n,
    ensures
        0 <= count_upto(b, s, n) <= n,
    decreases n,
{
    if n > 0 {
        lemma_count_bounds(b, s, n - 1);
    }
}

/// A prefix count is zero exactly when no cell of the prefix holds `s`.
pub proof fn lemma_count_zero_iff(b: Seq<CellState>, s: CellState, n: int)
    requires
        0 <= n,
    ensures
        count_upto(b, s, n) == 0 <==> (forall|j: int| 0 <= j < n ==> b[j] != s),
    decreases n,
{
    if n > 0 {
        lemma_count_zero_iff(b, s, n - 1);
        lemma_count_bounds(b, s, n - 1);
    }
}

/// Every cell is empty, `First`'s, or `Second`'s, so the three prefix
/// counts partition the prefix.
pub proof fn lemma_counts_partition_upto(b: Seq<CellState>, n: int)
    requires
        0 <= n <= b.len(),
    ensures
        count_upto(b, CellState::Empty, n)
            + count_upto(b, cell_of(Player::First), n)
            + count_upto(b, cell_of(Player::Second), n) == n,
    decreases n,
{
    if n > 0 {
        lemma_counts_partition_upto(b, n - 1);
    }
}

/// On a full board the empty, `First` and `Second` counts sum to 64.
pub proof fn lemma_counts_partition(b: Seq<CellState>)
    requires
        board_wf(b),
    ensures
        count_of(b, CellState::Empty)
            + count_of(b, cell_of(Player::First))
            + count_of(b, cell_of(Player::Second)) == 64,
{
    lemma_counts_partition_upto(b, 64);
}

/// Cells between `m` and `n` that do not hold `s` leave the count unchanged.
pub proof fn lemma_count_constant_segment(b: Seq<CellState>, s: CellState, m: int, n: int)
    requires
        0 <= m <= n,
        forall|j: int| m <= j < n ==> b[j] != s,
    ensures
        count_upto(b, s, n) == count_upto(b, s, m),
    decreases n - m,
{
    if m < n {
        lemma_count_constant_segment(b, s, m, n - 1);
    }
}

/// The starting position holds exactly two pieces per player and sixty
/// empty cells.
pub proof fn lemma_initial_board_counts()
    ensures
        count_of(init_board(), cell_of(Player::First)) == 2,
        count_of(init_board(), cell_of(Player::Second)) == 2,
        count_of(init_board(), CellState::Empty) == 60,
{
    let b = init_board();
    let cf = cell_of(Player::First);
    let cs = cell_of(Player::Second);
    // First's pieces sit at row-major indices 27 and 36
    lemma_count_constant_segment(b, cf, 0, 27);
    assert(count_upto(b, cf, 28) == 1);
    lemma_count_constant_segment(b, cf, 28, 36);
    assert(count_upto(b, cf, 37) == 2);
    lemma_count_constant_segment(b, cf, 37, 64);
    assert(count_of(b, cf) == 2);
    // Second's pieces sit at row-major indices 28 and 35
    lemma_count_constant_segment(b, cs, 0, 28);
    assert(count_upto(b, cs, 29) == 1);
    lemma_count_constant_segment(b, cs, 29, 35);
    assert(count_upto(b, cs, 36) == 2);
    lemma_count_constant_segment(b, cs, 36, 64);
    assert(count_of(b, cs) == 2);
    lemma_counts_partition(b);
}

/// Read the cell at sequence index `idx`.
pub fn cell_at(board: &Vec<CellState>, idx: usize) -> (s: CellState)
    requires
        idx < board@.len(),
    ensures
        s == board@[idx as int],
{
    *vstd::slice::slice_index_get(board.as_slice(), idx)
}

/// The opposite player, as executable code.
pub fn opponent_of(p: Player) -> (q: Player)
    ensures
        q == opponent(p),
{
    match p {
        Player::First => Player::Second,
        Player::Second => Player::First,
    }
}

/// A piece of player `p`, as executable code.
pub fn piece_of(p: Player) -> (s: CellState)
    ensures
        s == cell_of(p),
{
    CellState::OccupiedBy(p)
}

} // verus!
