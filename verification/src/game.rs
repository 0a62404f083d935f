//! The mutable game aggregate and the entry points collaborators call:
//! initialization, click handling, reset and pass signals, and the read
//! queries for rendering.

use vstd::prelude::*;
use crate::board::{
    Player, CellState, opponent, cell_of, sq, board_wf, init_board, count_of, cell_at,
    opponent_of, lemma_initial_board_counts,
};
use crate::moves::{move_legal, moved_board, apply_move};
use crate::score::{count_pieces, board_game_over};

verus! {

/// The sole mutable aggregate: the board, the active player, and the two
/// piece counts, which are derived from the board and recomputable at any
/// time.
pub struct GameState {
    pub board: Vec<CellState>,
    pub active: Player,
    pub first_score: u8,
    pub second_score: u8,
}

impl GameState {
    /// The board holds exactly the 64 cells of the 8x8 grid.
    pub open spec fn wf(self) -> bool {
        board_wf(self.board@)
    }
}

/// A state as a reset leaves it: the canonical starting position, both
/// scores 2, and `First` to move.
pub open spec fn is_initial_state(s: GameState) -> bool {
    &&& s.board@ == init_board()
    &&& s.active == Player::First
    &&& s.first_score == 2
    &&& s.second_score == 2
}

/// Unconditionally overwrite every cell with the starting position, set
/// both scores to 2, and make `First` the active player.
pub fn reset(state: &mut GameState)
    ensures
        final(state).wf(),
        is_initial_state(*final(state)),
{
    let mut board: Vec<CellState> = Vec::new();
    let mut i: usize = 0;
    while i < 64
        invariant
            i <= 64,
            board@.len() == i as int,
            forall|j: int| 0 <= j < i as int ==> board@[j] == CellState::Empty,
        decreases 64 - i,
    {
        board.push(CellState::Empty);
        i = i + 1;
    }
    // the centre block: (3,3) and (4,4) for First, (3,4) and (4,3) for Second
    board.set(27, CellState::OccupiedBy(Player::First));
    board.set(36, CellState::OccupiedBy(Player::First));
    board.set(28, CellState::OccupiedBy(Player::Second));
    board.set(35, CellState::OccupiedBy(Player::Second));
    proof {
        assert(board@ =~= init_board());
    }
    state.board = board;
    state.active = Player::First;
    state.first_score = 2;
    state.second_score = 2;
}

/// Create the aggregate in its starting state; called once at startup.
pub fn initialize() -> (state: GameState)
    ensures
        state.wf(),
        is_initial_state(state),
{
    let mut state = GameState {
        board: Vec::new(),
        active: Player::First,
        first_score: 2,
        second_score: 2,
    };
    reset(&mut state);
    state
}

/// Attempt the active player's move on `(row, col)`: decide legality by
/// the eight-direction ray walk, and perform all flips and the placement
/// when legal. An occupied or off-board target, or one with no igniting
/// ray, is rejected with no change to any cell. The turn is not advanced
/// and the scores are not recomputed here; that composition is the
/// caller's.
pub fn attempt_move(state: &mut GameState, row: usize, col: usize) -> (moved: bool)
    requires
        old(state).wf(),
    ensures
        final(state).wf(),
        moved == move_legal(old(state).board@, row as int, col as int, old(state).active),
        final(state).active == old(state).active,
        final(state).first_score == old(state).first_score,
        final(state).second_score == old(state).second_score,
        !moved ==> final(state).board@ == old(state).board@,
        moved ==> final(state).board@ == moved_board(
            old(state).board@,
            row as int,
            col as int,
            old(state).active,
        ),
{
    let p = state.active;
    apply_move(&mut state.board, row, col, p)
}

/// Overwrite both scores with a fresh scan of the board.
pub fn recompute(state: &mut GameState)
    requires
        old(state).wf(),
    ensures
        final(state).wf(),
        final(state).board@ == old(state).board@,
        final(state).active == old(state).active,
        final(state).first_score as int == count_of(old(state).board@, cell_of(Player::First)),
        final(state).second_score as int == count_of(old(state).board@, cell_of(Player::Second)),
{
    let f = count_pieces(&state.board, Player::First);
    let s = count_pieces(&state.board, Player::Second);
    state.first_score = f;
    state.second_score = s;
}

/// Whether the game is over: the board holds no `First` piece, no
/// `Second` piece, or no empty cell. Purely observational; nothing is
/// mutated and later input is not blocked.
pub fn is_game_over(state: &GameState) -> (over: bool)
    requires
        state.wf(),
    ensures
        over == (count_of(state.board@, cell_of(Player::First)) == 0 || count_of(
            state.board@,
            cell_of(Player::Second),
        ) == 0 || count_of(state.board@, CellState::Empty) == 0),
{
    board_game_over(&state.board)
}

/// Toggle the active player after an accepted move.
pub fn advance(state: &mut GameState)
    ensures
        final(state).board@ == old(state).board@,
        final(state).active == opponent(old(state).active),
        final(state).first_score == old(state).first_score,
        final(state).second_score == old(state).second_score,
{
    state.active = opponent_of(state.active);
}

/// Toggle the active player on a manual skip; behaviourally the same as
/// `advance`, reached from a distinct external trigger.
pub fn toggle_manual(state: &mut GameState)
    ensures
        final(state).board@ == old(state).board@,
        final(state).active == opponent(old(state).active),
        final(state).first_score == old(state).first_score,
        final(state).second_score == old(state).second_score,
{
    advance(state);
}

/// Resolve a click on cell `(row, col)`: attempt the move, advance the
/// turn only when it succeeded, then recompute the scores.
pub fn handle_cell_click(state: &mut GameState, row: usize, col: usize)
    requires
        old(state).wf(),
    ensures
        final(state).wf(),
        move_legal(old(state).board@, row as int, col as int, old(state).active) ==> {
            &&& final(state).board@ == moved_board(
                old(state).board@,
                row as int,
                col as int,
                old(state).active,
            )
            &&& final(state).active == opponent(old(state).active)
        },
        !move_legal(old(state).board@, row as int, col as int, old(state).active) ==> {
            &&& final(state).board@ == old(state).board@
            &&& final(state).active == old(state).active
        },
        final(state).first_score as int == count_of(final(state).board@, cell_of(Player::First)),
        final(state).second_score as int == count_of(final(state).board@, cell_of(Player::Second)),
{
    let moved = attempt_move(state, row, col);
    if moved {
        advance(state);
    }
    recompute(state);
}

/// An external "new game" signal: reset, then recompute the scores from
/// the fresh board, which confirms them at 2 and 2.
pub fn handle_reset_signal(state: &mut GameState)
    ensures
        final(state).wf(),
        is_initial_state(*final(state)),
{
    reset(state);
    recompute(state);
    proof {
        lemma_initial_board_counts();
    }
}

/// An external "skip turn" signal: toggle the active player; board and
/// scores are untouched.
pub fn handle_pass_signal(state: &mut GameState)
    ensures
        final(state).board@ == old(state).board@,
        final(state).active == opponent(old(state).active),
        final(state).first_score == old(state).first_score,
        final(state).second_score == old(state).second_score,
{
    toggle_manual(state);
}

/// Read one cell for a rendering collaborator.
pub fn read_cell(state: &GameState, row: usize, col: usize) -> (s: CellState)
    requires
        state.wf(),
        row < 8,
        col < 8,
    ensures
        s == state.board@[sq(row as int, col as int)],
{
    cell_at(&state.board, row * 8 + col)
}

/// Read both scores, `First`'s then `Second`'s, for a label collaborator.
pub fn read_scores(state: &GameState) -> (scores: (u8, u8))
    ensures
        scores.0 == state.first_score,
        scores.1 == state.second_score,
{
    (state.first_score, state.second_score)
}

} // verus!
