//! Score counting and end-of-game detection, as full scans of the board.

use vstd::prelude::*;
use crate::board::{
    Player, CellState, cell_of, count_upto, count_of, board_wf, cell_at, piece_of,
    lemma_count_bounds,
};

verus! {

/// Count the pieces of player `p` on the board.
pub fn count_pieces(board: &Vec<CellState>, p: Player) -> (n: u8)
    requires
        board_wf(board@),
    ensures
        n as int == count_of(board@, cell_of(p)),
{
    let target = piece_of(p);
    let mut n: u8 = 0;
    let mut i: usize = 0;
    while i < 64
        invariant
            board_wf(board@),
            target == cell_of(p),
            i <= 64,
            n <= i,
            n as int == count_upto(board@, cell_of(p), i as int),
        decreases 64 - i,
    {
        if cell_at(board, i) == target {
            n = n + 1;
        }
        i = i + 1;
    }
    n
}

/// Whether the position is terminal: one of the players has no piece on
/// the board, or no cell is empty.
pub fn board_game_over(board: &Vec<CellState>) -> (over: bool)
    requires
        board_wf(board@),
    ensures
        over == (count_of(board@, cell_of(Player::First)) == 0 || count_of(
            board@,
            cell_of(Player::Second),
        ) == 0 || count_of(board@, CellState::Empty) == 0),
{
    let mut seen_first = false;
    let mut seen_second = false;
    let mut full = true;
    let mut i: usize = 0;
    while i < 64
        invariant
            board_wf(board@),
            i <= 64,
            seen_first == (count_upto(board@, cell_of(Player::First), i as int) != 0),
            seen_second == (count_upto(board@, cell_of(Player::Second), i as int) != 0),
            full == (count_upto(board@, CellState::Empty, i as int) == 0),
        decreases 64 - i,
    {
        proof {
            lemma_count_bounds(board@, cell_of(Player::First), i as int);
            lemma_count_bounds(board@, cell_of(Player::Second), i as int);
            lemma_count_bounds(board@, CellState::Empty, i as int);
        }
        match cell_at(board, i) {
            CellState::Empty => {
                full = false;
            },
            CellState::OccupiedBy(Player::First) => {
                seen_first = true;
            },
            CellState::OccupiedBy(Player::Second) => {
                seen_second = true;
            },
        }
        i = i + 1;
    }
    !seen_first || !seen_second || full
}

} // verus!
