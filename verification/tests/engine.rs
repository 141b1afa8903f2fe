use follow_the_arrows::board::{Cell, GameStatus};
use follow_the_arrows::engine::{PuzzleEngine, DEFAULT_SIZE};

const L: Cell = Cell::LeftArrow;
const R: Cell = Cell::RightArrow;
const E: Cell = Cell::Empty;

fn count(board: &[Cell], cell: Cell) -> usize {
    board.iter().filter(|&&c| c == cell).count()
}

const SOLUTION: [usize; 24] = [
    3, 5, 6, 4, 2, 1, 3, 5, 7, 8, 6, 4, 2, 0, 1, 3, 5, 7, 6, 4, 2, 3, 5, 4,
];

#[test]
fn new_engine_starts_at_the_starting_row() {
    let engine = PuzzleEngine::new();
    assert_eq!(DEFAULT_SIZE, 9);
    assert_eq!(engine.size(), 9);
    assert_eq!(engine.history_len(), 1);
    assert_eq!(engine.current_board(), &vec![R, R, R, R, E, L, L, L, L]);
    assert_eq!(engine.status(), GameStatus::Playing);
    assert_eq!(engine.locate_empty(), 4);
    assert!(!engine.is_solved());
    assert!(!engine.is_terminal_no_moves());
}

#[test]
fn initialize_builds_other_odd_sizes() {
    let small = PuzzleEngine::initialize(3);
    assert_eq!(small.current_board(), &vec![R, E, L]);
    assert_eq!(small.size(), 3);
    assert_eq!(small.locate_empty(), 1);
    assert_eq!(small.status(), GameStatus::Playing);
    let five = PuzzleEngine::initialize(5);
    assert_eq!(five.current_board(), &vec![R, R, E, L, L]);
    assert_eq!(five.locate_empty(), 2);
    assert_eq!(five.history_len(), 1);
}

#[test]
fn smallest_puzzle_is_solved_in_three_moves() {
    let mut engine = PuzzleEngine::initialize(3);
    assert_eq!(engine.try_move(0), GameStatus::Playing);
    assert_eq!(engine.current_board(), &vec![E, R, L]);
    assert_eq!(engine.try_move(2), GameStatus::Playing);
    assert_eq!(engine.current_board(), &vec![L, R, E]);
    assert_eq!(engine.try_move(1), GameStatus::Solved);
    assert_eq!(engine.current_board(), &vec![L, E, R]);
    assert!(engine.is_solved());
    assert_eq!(engine.history_len(), 4);
}

#[test]
fn slide_then_jump() {
    let mut engine = PuzzleEngine::new();
    assert_eq!(engine.try_move(3), GameStatus::Playing);
    assert_eq!(engine.current_board(), &vec![R, R, R, E, R, L, L, L, L]);
    assert_eq!(engine.locate_empty(), 3);
    assert_eq!(engine.try_move(5), GameStatus::Playing);
    assert_eq!(engine.current_board(), &vec![R, R, R, L, R, E, L, L, L]);
    assert_eq!(engine.locate_empty(), 5);
    assert_eq!(engine.history_len(), 3);
}

#[test]
fn move_validity_at_the_start() {
    let engine = PuzzleEngine::new();
    let expected = [false, false, true, true, false, true, true, false, false];
    for (index, want) in expected.iter().enumerate() {
        assert_eq!(engine.is_move_valid(index), *want, "index {}", index);
    }
}

#[test]
fn out_of_range_index_is_never_valid() {
    let mut engine = PuzzleEngine::new();
    assert!(!engine.is_move_valid(9));
    assert!(!engine.is_move_valid(10));
    assert!(!engine.is_move_valid(usize::MAX));
    assert_eq!(engine.try_move(9), GameStatus::Playing);
    assert_eq!(engine.try_move(usize::MAX), GameStatus::Playing);
    assert_eq!(engine.history_len(), 1);
}

#[test]
fn empty_cell_is_never_valid() {
    let mut engine = PuzzleEngine::new();
    assert!(!engine.is_move_valid(4));
    assert_eq!(engine.try_move(4), GameStatus::Playing);
    assert_eq!(engine.history_len(), 1);
    assert_eq!(engine.current_board(), &vec![R, R, R, R, E, L, L, L, L]);
}

#[test]
fn arrows_do_not_move_backwards() {
    let mut engine = PuzzleEngine::new();
    engine.try_move(3);
    // the right arrow now at 4 stands above the gap at 3
    assert!(!engine.is_move_valid(4));
    engine.try_move(5);
    // gap at 5: the left arrow at 3 stands below it
    assert!(!engine.is_move_valid(3));
    assert!(engine.is_move_valid(4));
    assert!(engine.is_move_valid(6));
    assert!(engine.is_move_valid(7));
}

#[test]
fn move_legality_matches_the_neighbours_of_the_gap() {
    let mut engine = PuzzleEngine::new();
    for &index in SOLUTION.iter() {
        let board = engine.current_board().clone();
        let e = engine.locate_empty();
        assert_eq!(board[e], E);
        if e >= 1 {
            assert_eq!(engine.is_move_valid(e - 1), board[e - 1] == R);
        }
        if e >= 2 {
            assert_eq!(engine.is_move_valid(e - 2), board[e - 2] == R);
        }
        if e + 1 < board.len() {
            assert_eq!(engine.is_move_valid(e + 1), board[e + 1] == L);
        }
        if e + 2 < board.len() {
            assert_eq!(engine.is_move_valid(e + 2), board[e + 2] == L);
        }
        for far in 0..board.len() {
            if far + 2 < e || far > e + 2 {
                assert!(!engine.is_move_valid(far));
            }
        }
        engine.try_move(index);
    }
}

#[test]
fn full_solution_reports_solved_once_on_the_last_move() {
    let mut engine = PuzzleEngine::new();
    let mut solved_reports = 0;
    for (step, &index) in SOLUTION.iter().enumerate() {
        assert!(engine.is_move_valid(index), "step {}", step);
        let status = engine.try_move(index);
        if status == GameStatus::Solved {
            solved_reports += 1;
            assert_eq!(step, SOLUTION.len() - 1);
        } else {
            assert_eq!(status, GameStatus::Playing);
        }
    }
    assert_eq!(solved_reports, 1);
    assert_eq!(engine.current_board(), &vec![L, L, L, L, E, R, R, R, R]);
    assert_eq!(engine.status(), GameStatus::Solved);
    assert!(engine.is_solved());
    assert_eq!(engine.history_len(), 25);
}

#[test]
fn solved_board_is_reported_solved_although_nothing_moves() {
    let mut engine = PuzzleEngine::new();
    for &index in SOLUTION.iter() {
        engine.try_move(index);
    }
    assert!(engine.is_terminal_no_moves());
    assert_eq!(engine.status(), GameStatus::Solved);
    for index in 0..9 {
        assert_eq!(engine.try_move(index), GameStatus::Solved);
    }
    assert_eq!(engine.history_len(), 25);
}

#[test]
fn stuck_board_rejects_every_move() {
    let mut engine = PuzzleEngine::new();
    assert_eq!(engine.try_move(3), GameStatus::Playing);
    assert_eq!(engine.try_move(2), GameStatus::Playing);
    assert_eq!(engine.try_move(1), GameStatus::Playing);
    assert_eq!(engine.try_move(0), GameStatus::Stuck);
    let stuck = vec![E, R, R, R, R, L, L, L, L];
    assert_eq!(engine.current_board(), &stuck);
    assert!(engine.is_terminal_no_moves());
    assert!(!engine.is_solved());
    assert_eq!(engine.status(), GameStatus::Stuck);
    for index in 0..12 {
        assert!(!engine.is_move_valid(index));
        assert_eq!(engine.try_move(index), GameStatus::Stuck);
        assert_eq!(engine.current_board(), &stuck);
        assert_eq!(engine.history_len(), 5);
    }
}

#[test]
fn stuck_in_the_middle_of_the_row() {
    let mut engine = PuzzleEngine::new();
    assert_eq!(engine.try_move(3), GameStatus::Playing);
    assert_eq!(engine.try_move(5), GameStatus::Playing);
    assert_eq!(engine.try_move(6), GameStatus::Playing);
    assert_eq!(engine.try_move(7), GameStatus::Playing);
    assert_eq!(engine.current_board(), &vec![R, R, R, L, R, L, L, E, L]);
    assert_eq!(engine.try_move(8), GameStatus::Stuck);
    assert_eq!(engine.current_board(), &vec![R, R, R, L, R, L, L, L, E]);
    assert!(engine.is_terminal_no_moves());
}

#[test]
fn rejected_move_changes_nothing_however_often() {
    let mut engine = PuzzleEngine::new();
    engine.try_move(3);
    let board = engine.current_board().clone();
    let status = engine.status();
    for _ in 0..5 {
        assert_eq!(engine.try_move(0), status);
        assert_eq!(engine.try_move(4), status);
        assert_eq!(engine.try_move(8), status);
        assert_eq!(engine.try_move(100), status);
        assert_eq!(engine.current_board(), &board);
        assert_eq!(engine.history_len(), 2);
    }
}

#[test]
fn undo_at_the_floor_changes_nothing() {
    let mut engine = PuzzleEngine::new();
    for _ in 0..4 {
        engine.undo();
        assert_eq!(engine.history_len(), 1);
        assert_eq!(engine.current_board(), &vec![R, R, R, R, E, L, L, L, L]);
        assert_eq!(engine.status(), GameStatus::Playing);
    }
}

#[test]
fn undo_takes_back_one_move_at_a_time() {
    let mut engine = PuzzleEngine::new();
    engine.try_move(3);
    engine.try_move(5);
    engine.undo();
    assert_eq!(engine.current_board(), &vec![R, R, R, E, R, L, L, L, L]);
    assert_eq!(engine.history_len(), 2);
    engine.undo();
    assert_eq!(engine.current_board(), &vec![R, R, R, R, E, L, L, L, L]);
    assert_eq!(engine.history_len(), 1);
    engine.undo();
    assert_eq!(engine.history_len(), 1);
}

#[test]
fn move_then_undo_restores_board_and_status() {
    let mut engine = PuzzleEngine::new();
    for &index in SOLUTION.iter() {
        let board = engine.current_board().clone();
        let status = engine.status();
        let len = engine.history_len();
        engine.try_move(index);
        assert_ne!(engine.current_board(), &board);
        engine.undo();
        assert_eq!(engine.current_board(), &board);
        assert_eq!(engine.status(), status);
        assert_eq!(engine.history_len(), len);
        engine.try_move(index);
    }
}

#[test]
fn undo_from_a_stuck_board_returns_to_play() {
    let mut engine = PuzzleEngine::new();
    for index in [3, 2, 1, 0] {
        engine.try_move(index);
    }
    assert_eq!(engine.status(), GameStatus::Stuck);
    engine.undo();
    assert_eq!(engine.status(), GameStatus::Playing);
    assert_eq!(engine.current_board(), &vec![R, E, R, R, R, L, L, L, L]);
}

#[test]
fn reset_restores_the_starting_row() {
    let mut engine = PuzzleEngine::new();
    for &index in SOLUTION.iter().take(10) {
        engine.try_move(index);
    }
    engine.reset();
    assert_eq!(engine.current_board(), &vec![R, R, R, R, E, L, L, L, L]);
    assert_eq!(engine.status(), GameStatus::Playing);
    assert_eq!(engine.history_len(), 1);
    assert_eq!(engine.size(), 9);
    engine.undo();
    assert_eq!(engine.current_board(), &vec![R, R, R, R, E, L, L, L, L]);
}

#[test]
fn reset_after_solved_and_after_stuck() {
    let mut engine = PuzzleEngine::new();
    for &index in SOLUTION.iter() {
        engine.try_move(index);
    }
    engine.reset();
    assert_eq!(engine.status(), GameStatus::Playing);
    for index in [3, 2, 1, 0] {
        engine.try_move(index);
    }
    engine.reset();
    assert_eq!(engine.status(), GameStatus::Playing);
    assert_eq!(engine.current_board(), &vec![R, R, R, R, E, L, L, L, L]);
    let mut five = PuzzleEngine::initialize(5);
    five.try_move(1);
    five.reset();
    assert_eq!(five.current_board(), &vec![R, R, E, L, L]);
    assert_eq!(five.size(), 5);
}

#[test]
fn one_gap_and_the_same_arrows_throughout() {
    let mut engine = PuzzleEngine::new();
    let script = [3, 9, 5, 0, 6, 4, 4, 2, 1, 8, 3, 5, 7];
    for (step, &index) in script.iter().enumerate() {
        engine.try_move(index);
        if step % 4 == 3 {
            engine.undo();
        }
        let board = engine.current_board();
        assert_eq!(board.len(), 9);
        assert_eq!(count(board, E), 1);
        assert_eq!(count(board, L), 4);
        assert_eq!(count(board, R), 4);
        assert_eq!(board[engine.locate_empty()], E);
    }
    engine.reset();
    let board = engine.current_board();
    assert_eq!(count(board, E), 1);
    assert_eq!(count(board, L), 4);
    assert_eq!(count(board, R), 4);
}

#[test]
fn valid_move_swaps_the_arrow_and_the_gap_only() {
    let mut engine = PuzzleEngine::new();
    let before = engine.current_board().clone();
    engine.try_move(6);
    let after = engine.current_board().clone();
    assert_eq!(after, vec![R, R, R, R, L, L, E, L, L]);
    for i in 0..9 {
        if i != 4 && i != 6 {
            assert_eq!(before[i], after[i]);
        }
    }
}
