//! The executable puzzle: the current board, the boards that led to it, and
//! the operations that move an arrow, take a move back and start over.

use vstd::prelude::*;
use crate::board::{
    after_reset, after_try_move, after_undo, apply_move, empty_index, initial_board, initial_cell,
    is_empty_index, legal_step, lemma_apply_move_valid, lemma_initial_board_playing,
    lemma_initial_board_valid, move_valid, no_moves, solved_board, solved_cell, status_of,
    valid_history, valid_size, Cell, GameStatus,
};

verus! {

/// The size of the classic puzzle: four arrows on each side of the gap.
pub const DEFAULT_SIZE: usize = 9;

/// A puzzle in progress. It owns every board since the start, oldest first;
/// the last one is the board in play.
pub struct PuzzleEngine {
    size: usize,
    history: Vec<Vec<Cell>>,
}

impl View for PuzzleEngine {
    type V = Seq<Seq<Cell>>;

    /// The move history, oldest board first.
    closed spec fn view(&self) -> Seq<Seq<Cell>> {
        Seq::new(self.history@.len(), |k: int| self.history@[k]@)
    }
}

impl PuzzleEngine {
    /// The number of cells this puzzle was made with.
    pub closed spec fn spec_size(&self) -> nat {
        self.size as nat
    }

    /// The board in play: the last of the history.
    pub open spec fn current(&self) -> Seq<Cell> {
        self@.last()
    }

    /// The history is a valid one for this puzzle's size.
    pub open spec fn wf(&self) -> bool {
        valid_history(self@, self.spec_size())
    }

    /// The starting row of `size` cells.
    fn starting_row(size: usize) -> (row: Vec<Cell>)
        ensures
            row@ == initial_board(size as nat),
    {
        let mut row: Vec<Cell> = Vec::new();
        let half: usize = size / 2;
        let mut i: usize = 0;
        while i < size
            invariant
                i <= size,
                half == size / 2,
                row@.len() == i,
                forall|j: int| 0 <= j < i ==> row@[j] == initial_cell(size as nat, j),
            decreases size - i,
        {
            let cell = if i < half {
                Cell::RightArrow
            } else if i == half {
                Cell::Empty
            } else {
                Cell::LeftArrow
            };
            row.push(cell);
            i += 1;
        }
        assert(row@ =~= initial_board(size as nat));
        row
    }

    /// A new puzzle of `size` cells, at its starting row and with nothing to
    /// take back.
    pub fn initialize(size: usize) -> (engine: Self)
        requires
            valid_size(size as nat),
        ensures
            engine.wf(),
            engine.spec_size() == size,
            engine@ == after_reset(size as nat),
            status_of(engine.current()) == GameStatus::Playing,
    {
        let mut history: Vec<Vec<Cell>> = Vec::new();
        history.push(Self::starting_row(size));
        let engine = PuzzleEngine { size, history };
        proof {
            assert(engine@ =~= seq![initial_board(size as nat)]);
            lemma_initial_board_valid(size as nat);
            lemma_initial_board_playing(size as nat);
        }
        engine
    }

    /// A new puzzle of the classic size.
    pub fn new() -> (engine: Self)
        ensures
            engine.wf(),
            engine.spec_size() == DEFAULT_SIZE,
            engine@ == after_reset(DEFAULT_SIZE as nat),
            status_of(engine.current()) == GameStatus::Playing,
    {
        Self::initialize(DEFAULT_SIZE)
    }

    /// Forgets every move and returns to the starting row.
    pub fn reset(&mut self)
        requires
            old(self).wf(),
        ensures
            final(self).wf(),
            final(self).spec_size() == old(self).spec_size(),
            final(self)@ == after_reset(old(self).spec_size()),
            status_of(final(self).current()) == GameStatus::Playing,
    {
        let mut history: Vec<Vec<Cell>> = Vec::new();
        history.push(Self::starting_row(self.size));
        self.history = history;
        proof {
            assert(self@ =~= seq![initial_board(self.size as nat)]);
            lemma_initial_board_valid(self.size as nat);
            lemma_initial_board_playing(self.size as nat);
        }
    }

    /// Takes the last move back. With no move to take back, nothing changes.
    pub fn undo(&mut self)
        requires
            old(self).wf(),
        ensures
            final(self).wf(),
            final(self).spec_size() == old(self).spec_size(),
            final(self)@ == after_undo(old(self)@),
    {
        if self.history.len() > 1 {
            self.history.pop();
            proof {
                assert(self@ =~= old(self)@.drop_last());
            }
        }
    }

    /// The number of cells of the puzzle.
    pub fn size(&self) -> (n: usize)
        ensures
            n == self.spec_size(),
    {
        self.size
    }

    /// The number of boards in the history: one more than the moves that can
    /// be taken back.
    pub fn history_len(&self) -> (n: usize)
        ensures
            n == self@.len(),
    {
        self.history.len()
    }

    /// The board in play.
    pub fn current_board(&self) -> (board: &Vec<Cell>)
        requires
            self.wf(),
        ensures
            board@ == self.current(),
    {
        &self.history[self.history.len() - 1]
    }

    /// The position of the gap in the board in play.
    pub fn locate_empty(&self) -> (e: usize)
        requires
            self.wf(),
        ensures
            e == empty_index(self.current()),
            is_empty_index(self.current(), e as int),
    {
        let board = self.current_board();
        let ghost g = empty_index(board@);
        proof {
            assert(is_empty_index(board@, g));
        }
        let n = board.len();
        let mut i: usize = 0;
        while !(board[i] == Cell::Empty)
            invariant
                board@ == self.current(),
                n == board@.len(),
                is_empty_index(board@, g),
                0 <= i <= g,
            decreases g - i,
        {
            i += 1;
        }
        i
    }

    /// Whether the arrow at `index` may move. Positions outside the board
    /// hold no arrow, so the answer for them is no.
    pub fn is_move_valid(&self, index: usize) -> (valid: bool)
        requires
            self.wf(),
        ensures
            valid == move_valid(self.current(), index as int),
    {
        let board = self.current_board();
        if index >= board.len() {
            return false;
        }
        let e = self.locate_empty();
        match board[index] {
            Cell::LeftArrow => index > e && index - e <= 2,
            Cell::RightArrow => index < e && e - index <= 2,
            Cell::Empty => false,
        }
    }

    /// Whether no arrow of the board in play may move.
    pub fn is_terminal_no_moves(&self) -> (none: bool)
        requires
            self.wf(),
        ensures
            none == no_moves(self.current()),
    {
        let n = self.current_board().len();
        let mut i: usize = 0;
        while i < n
            invariant
                self.wf(),
                n == self.current().len(),
                i <= n,
                forall|j: int| 0 <= j < i ==> !#[trigger] move_valid(self.current(), j),
            decreases n - i,
        {
            if self.is_move_valid(i) {
                return false;
            }
            i += 1;
        }
        true
    }

    /// Whether the board in play is the solved row.
    pub fn is_solved(&self) -> (solved: bool)
        requires
            self.wf(),
        ensures
            solved == (self.current() == solved_board(self.spec_size())),
    {
        let board = self.current_board();
        let n = board.len();
        let half: usize = n / 2;
        let mut i: usize = 0;
        while i < n
            invariant
                board@ == self.current(),
                n == board@.len(),
                n == self.spec_size(),
                half == n / 2,
                i <= n,
                forall|j: int| 0 <= j < i ==> board@[j] == solved_cell(n as nat, j),
            decreases n - i,
        {
            let want = if i < half {
                Cell::LeftArrow
            } else if i == half {
                Cell::Empty
            } else {
                Cell::RightArrow
            };
            if !(board[i] == want) {
                proof {
                    assert(solved_board(n as nat)[i as int] == want);
                }
                return false;
            }
            i += 1;
        }
        assert(board@ =~= solved_board(n as nat));
        true
    }

    /// The status of the board in play.
    pub fn status(&self) -> (status: GameStatus)
        requires
            self.wf(),
        ensures
            status == status_of(self.current()),
    {
        if self.is_solved() {
            GameStatus::Solved
        } else if self.is_terminal_no_moves() {
            GameStatus::Stuck
        } else {
            GameStatus::Playing
        }
    }

    /// Tries to move the arrow at `index` into the gap. A move that is not
    /// valid changes nothing; a valid one appends the new board to the
    /// history. Either way the result is the status of the board then in play.
    pub fn try_move(&mut self, index: usize) -> (status: GameStatus)
        requires
            old(self).wf(),
        ensures
            final(self).wf(),
            final(self).spec_size() == old(self).spec_size(),
            final(self)@ == after_try_move(old(self)@, index as int),
            status == status_of(final(self).current()),
    {
        if self.is_move_valid(index) {
            let e = self.locate_empty();
            let board = self.current_board();
            let moved = board[index];
            let mut next: Vec<Cell> = board.clone();
            assert(next@ =~= board@);
            next.set(e, moved);
            next.set(index, Cell::Empty);
            proof {
                assert(next@ == apply_move(old(self).current(), index as int));
                lemma_apply_move_valid(
                    old(self).current(),
                    old(self).spec_size(),
                    index as int,
                );
            }
            self.history.push(next);
            proof {
                assert(self@ =~= old(self)@.push(apply_move(old(self).current(), index as int)));
                assert forall|k: int| 1 <= k < self@.len() implies legal_step(
                    self@[k - 1],
                    #[trigger] self@[k],
                ) by {
                    if k < old(self)@.len() {
                        assert(self@[k] == old(self)@[k]);
                        assert(self@[k - 1] == old(self)@[k - 1]);
                    }
                }
            }
        }
        self.status()
    }
}

} // verus!
