use othello::board::{CellState, Player};
use othello::game::{
    attempt_move, handle_cell_click, handle_pass_signal, handle_reset_signal, initialize,
    is_game_over, read_cell, read_scores, recompute, GameState,
};

fn put(state: &mut GameState, row: usize, col: usize, cell: CellState) {
    state.board[row * 8 + col] = cell;
}

fn first() -> CellState {
    CellState::OccupiedBy(Player::First)
}

fn second() -> CellState {
    CellState::OccupiedBy(Player::Second)
}

fn snapshot(state: &GameState) -> (Vec<CellState>, Player, u8, u8) {
    (
        state.board.clone(),
        state.active,
        state.first_score,
        state.second_score,
    )
}

#[test]
fn initialize_starting_position() {
    let state = initialize();
    for row in 0..8 {
        for col in 0..8 {
            let expected = match (row, col) {
                (3, 3) | (4, 4) => first(),
                (3, 4) | (4, 3) => second(),
                _ => CellState::Empty,
            };
            assert_eq!(read_cell(&state, row, col), expected);
        }
    }
    assert_eq!(read_scores(&state), (2, 2));
    assert_eq!(state.active, Player::First);
}

#[test]
fn first_move_scenario() {
    let mut state = initialize();

    // (2,3) is illegal for First: the ray straight down meets First's own
    // piece at (3,3) immediately, and no other ray has an opponent run.
    let before = snapshot(&state);
    assert!(!attempt_move(&mut state, 2, 3));
    assert_eq!(snapshot(&state), before);

    // (2,4) is legal: straight down runs through Second at (3,4) to First
    // at (4,4); the full click flips (3,4), advances the turn, rescores.
    handle_cell_click(&mut state, 2, 4);
    assert_eq!(read_cell(&state, 2, 4), first());
    assert_eq!(read_cell(&state, 3, 4), first());
    assert_eq!(read_cell(&state, 3, 3), first());
    assert_eq!(read_cell(&state, 4, 4), first());
    assert_eq!(read_cell(&state, 4, 3), second());
    assert_eq!(read_scores(&state), (4, 1));
    assert_eq!(state.active, Player::Second);
}

#[test]
fn second_move_scenario() {
    let mut state = initialize();
    handle_cell_click(&mut state, 2, 4);
    assert_eq!(state.active, Player::Second);
    // Second replies at (2,3): straight down runs through First at (3,3)
    // to Second at (4,3), flipping (3,3)
    handle_cell_click(&mut state, 2, 3);
    assert_eq!(read_cell(&state, 2, 3), second());
    assert_eq!(read_cell(&state, 3, 3), second());
    assert_eq!(read_cell(&state, 4, 3), second());
    assert_eq!(read_cell(&state, 2, 4), first());
    assert_eq!(read_cell(&state, 3, 4), first());
    assert_eq!(read_cell(&state, 4, 4), first());
    assert_eq!(read_scores(&state), (3, 3));
    assert_eq!(state.active, Player::First);
}

#[test]
fn occupied_target_rejected() {
    let mut state = initialize();
    let before = snapshot(&state);
    assert!(!attempt_move(&mut state, 3, 3));
    assert!(!attempt_move(&mut state, 4, 3));
    assert_eq!(snapshot(&state), before);
}

#[test]
fn out_of_bounds_rejected() {
    let mut state = initialize();
    let before = snapshot(&state);
    assert!(!attempt_move(&mut state, 8, 0));
    assert!(!attempt_move(&mut state, 0, 8));
    assert!(!attempt_move(&mut state, 100, 100));
    assert_eq!(snapshot(&state), before);
}

#[test]
fn no_flank_rejected() {
    let mut state = initialize();
    // an empty target far from every piece has no igniting ray
    let before = snapshot(&state);
    assert!(!attempt_move(&mut state, 0, 0));
    assert!(!attempt_move(&mut state, 7, 7));
    assert_eq!(snapshot(&state), before);
}

#[test]
fn opponent_run_without_terminator_rejected() {
    let mut state = initialize();
    for row in 0..8 {
        for col in 0..8 {
            put(&mut state, row, col, CellState::Empty);
        }
    }
    // a lone opponent neighbour, empty beyond it: no ignition
    put(&mut state, 4, 5, second());
    let before = snapshot(&state);
    assert!(!attempt_move(&mut state, 4, 4));
    assert_eq!(snapshot(&state), before);

    // an opponent run that leaves the board unterminated: still illegal
    put(&mut state, 4, 6, second());
    put(&mut state, 4, 7, second());
    let before = snapshot(&state);
    assert!(!attempt_move(&mut state, 4, 4));
    assert_eq!(snapshot(&state), before);
}

#[test]
fn walk_crosses_empty_after_first_opponent() {
    let mut state = initialize();
    for row in 0..8 {
        for col in 0..8 {
            put(&mut state, row, col, CellState::Empty);
        }
    }
    // once the first stepped-to cell held an opponent piece, the walk runs
    // on through the empty (4,6) and ignites on First's piece at (4,7);
    // every crossed cell is set to First
    put(&mut state, 4, 5, second());
    put(&mut state, 4, 7, first());
    assert!(attempt_move(&mut state, 4, 4));
    assert_eq!(read_cell(&state, 4, 4), first());
    assert_eq!(read_cell(&state, 4, 5), first());
    assert_eq!(read_cell(&state, 4, 6), first());
    assert_eq!(read_cell(&state, 4, 7), first());

    // an empty first stepped-to cell abandons the direction at once
    for row in 0..8 {
        for col in 0..8 {
            put(&mut state, row, col, CellState::Empty);
        }
    }
    put(&mut state, 4, 6, second());
    put(&mut state, 4, 7, first());
    let before = snapshot(&state);
    assert!(!attempt_move(&mut state, 4, 4));
    assert_eq!(snapshot(&state), before);
}

#[test]
fn flips_multiple_directions() {
    let mut state = initialize();
    for row in 0..8 {
        for col in 0..8 {
            put(&mut state, row, col, CellState::Empty);
        }
    }
    // west ray: two Second pieces, then First
    put(&mut state, 4, 1, first());
    put(&mut state, 4, 2, second());
    put(&mut state, 4, 3, second());
    // north ray: two Second pieces, then First
    put(&mut state, 1, 4, first());
    put(&mut state, 2, 4, second());
    put(&mut state, 3, 4, second());
    // east ray: a Second run that exits the board, never ignites
    put(&mut state, 4, 5, second());
    put(&mut state, 4, 6, second());
    put(&mut state, 4, 7, second());
    // south ray: First's own piece first, abandoned at once
    put(&mut state, 5, 4, first());
    // south-east ray: one Second, then empty, no ignition
    put(&mut state, 5, 5, second());

    assert!(attempt_move(&mut state, 4, 4));
    // target and both igniting rays now First
    assert_eq!(read_cell(&state, 4, 4), first());
    assert_eq!(read_cell(&state, 4, 2), first());
    assert_eq!(read_cell(&state, 4, 3), first());
    assert_eq!(read_cell(&state, 2, 4), first());
    assert_eq!(read_cell(&state, 3, 4), first());
    // non-igniting rays are untouched
    assert_eq!(read_cell(&state, 4, 5), second());
    assert_eq!(read_cell(&state, 4, 6), second());
    assert_eq!(read_cell(&state, 4, 7), second());
    assert_eq!(read_cell(&state, 5, 4), first());
    assert_eq!(read_cell(&state, 5, 5), second());
    // attempt_move leaves scores to the caller's recompute
    assert_eq!(read_scores(&state), (2, 2));
    recompute(&mut state);
    assert_eq!(read_scores(&state), (8, 4));
}

#[test]
fn corner_move_flips_to_edge() {
    let mut state = initialize();
    for row in 0..8 {
        for col in 0..8 {
            put(&mut state, row, col, CellState::Empty);
        }
    }
    put(&mut state, 0, 1, second());
    put(&mut state, 0, 2, second());
    put(&mut state, 0, 3, first());
    assert!(attempt_move(&mut state, 0, 0));
    assert_eq!(read_cell(&state, 0, 0), first());
    assert_eq!(read_cell(&state, 0, 1), first());
    assert_eq!(read_cell(&state, 0, 2), first());
    assert_eq!(read_cell(&state, 0, 3), first());
}

#[test]
fn pass_signal_toggles_turn_only() {
    let mut state = initialize();
    let (board_before, _, f_before, s_before) = snapshot(&state);
    handle_pass_signal(&mut state);
    assert_eq!(state.active, Player::Second);
    assert_eq!(state.board, board_before);
    assert_eq!((state.first_score, state.second_score), (f_before, s_before));
    handle_pass_signal(&mut state);
    assert_eq!(state.active, Player::First);
}

#[test]
fn reset_idempotence() {
    let mut once = initialize();
    handle_cell_click(&mut once, 2, 4);
    handle_reset_signal(&mut once);

    let mut twice = initialize();
    handle_cell_click(&mut twice, 2, 4);
    handle_reset_signal(&mut twice);
    handle_reset_signal(&mut twice);

    assert_eq!(snapshot(&once), snapshot(&twice));
    assert_eq!(read_scores(&once), (2, 2));
    assert_eq!(once.active, Player::First);
}

#[test]
fn recompute_matches_fresh_scan() {
    let mut state = initialize();
    for row in 0..8 {
        for col in 0..8 {
            let cell = if (row + col) % 3 == 0 {
                first()
            } else if (row + col) % 3 == 1 {
                second()
            } else {
                CellState::Empty
            };
            put(&mut state, row, col, cell);
        }
    }
    recompute(&mut state);
    let mut expect_first = 0u8;
    let mut expect_second = 0u8;
    let mut expect_empty = 0u8;
    for row in 0..8 {
        for col in 0..8 {
            match read_cell(&state, row, col) {
                CellState::OccupiedBy(Player::First) => expect_first += 1,
                CellState::OccupiedBy(Player::Second) => expect_second += 1,
                CellState::Empty => expect_empty += 1,
            }
        }
    }
    assert_eq!(read_scores(&state), (expect_first, expect_second));
    assert_eq!(
        expect_first as u32 + expect_second as u32 + expect_empty as u32,
        64
    );
}

#[test]
fn game_over_detection() {
    let mut state = initialize();
    assert!(!is_game_over(&state));

    // no Second piece left
    put(&mut state, 3, 4, first());
    put(&mut state, 4, 3, first());
    assert!(is_game_over(&state));

    // no First piece left
    for row in 0..8 {
        for col in 0..8 {
            put(&mut state, row, col, CellState::Empty);
        }
    }
    put(&mut state, 0, 0, second());
    assert!(is_game_over(&state));

    // a full board is over even with both colours present
    for row in 0..8 {
        for col in 0..8 {
            put(&mut state, row, col, if col % 2 == 0 { first() } else { second() });
        }
    }
    assert!(is_game_over(&state));

    // an empty board has neither colour: over as well
    for row in 0..8 {
        for col in 0..8 {
            put(&mut state, row, col, CellState::Empty);
        }
    }
    assert!(is_game_over(&state));

    // both colours present and an empty cell: not over
    put(&mut state, 0, 0, first());
    put(&mut state, 7, 7, second());
    assert!(!is_game_over(&state));
}

#[test]
fn game_over_does_not_block_play() {
    let mut state = initialize();
    // wipe Second from the board: the game reads as over
    put(&mut state, 3, 4, first());
    put(&mut state, 4, 3, first());
    recompute(&mut state);
    assert!(is_game_over(&state));
    // yet a later click is still processed as usual
    put(&mut state, 3, 4, second());
    recompute(&mut state);
    handle_cell_click(&mut state, 2, 4);
    assert_eq!(read_cell(&state, 2, 4), first());
    assert_eq!(state.active, Player::Second);
}
