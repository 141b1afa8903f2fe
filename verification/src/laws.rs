//! What holds of the puzzle whatever the player does: theorems over the
//! history model that the engine's operations are specified by.

use vstd::prelude::*;
use crate::board::{
    after_reset, after_try_move, after_undo, apply_move, count_of, empty_index, has_single_empty,
    initial_board, is_empty_index, legal_step, lemma_apply_move_valid, lemma_empty_index_unique,
    lemma_initial_board_counts, lemma_initial_board_playing, lemma_initial_board_valid,
    lemma_single_empty_count, move_valid, no_moves, status_of, valid_board, valid_history, Cell, GameStatus,
};

verus! {

/// One call on a puzzle, as the history model sees it.
pub enum Operation {
    /// An attempt to move the arrow at the given position.
    TryMove(int),
    /// Taking the last move back.
    Undo,
    /// Starting over.
    Reset,
}

/// The history of a puzzle of size `n` after one operation on `h`.
pub open spec fn after_operation(h: Seq<Seq<Cell>>, n: nat, op: Operation) -> Seq<Seq<Cell>> {
    match op {
        Operation::TryMove(i) => after_try_move(h, i),
        Operation::Undo => after_undo(h),
        Operation::Reset => after_reset(n),
    }
}

/// The history of a puzzle of size `n` after the operations `ops` on `h`, in
/// order.
pub open spec fn after_operations(h: Seq<Seq<Cell>>, n: nat, ops: Seq<Operation>) -> Seq<
    Seq<Cell>,
>
    decreases ops.len(),
{
    if ops.len() == 0 {
        h
    } else {
        after_operation(after_operations(h, n, ops.drop_last()), n, ops.last())
    }
}

/// The same operation `k` times over.
pub open spec fn repeated(op: Operation, k: nat) -> Seq<Operation> {
    Seq::new(k, |j: int| op)
}

/// Each operation leaves a valid history valid.
pub proof fn law_operation_keeps_history_valid(h: Seq<Seq<Cell>>, n: nat, op: Operation)
    requires
        valid_history(h, n),
    ensures
        valid_history(after_operation(h, n, op), n),
{
    let g = after_operation(h, n, op);
    match op {
        Operation::TryMove(i) => {
            if move_valid(h.last(), i) {
                lemma_apply_move_valid(h.last(), n, i);
                assert forall|k: int| 0 <= k < g.len() implies valid_board(#[trigger] g[k], n) by {
                    if k < h.len() {
                        assert(g[k] == h[k]);
                    }
                }
                assert forall|k: int| 1 <= k < g.len() implies legal_step(
                    g[k - 1],
                    #[trigger] g[k],
                ) by {
                    if k < h.len() {
                        assert(g[k] == h[k]);
                        assert(g[k - 1] == h[k - 1]);
                    }
                }
            }
        },
        Operation::Undo => {
            if h.len() > 1 {
                assert forall|k: int| 0 <= k < g.len() implies valid_board(#[trigger] g[k], n) by {
                    assert(g[k] == h[k]);
                }
                assert forall|k: int| 1 <= k < g.len() implies legal_step(
                    g[k - 1],
                    #[trigger] g[k],
                ) by {
                    assert(g[k] == h[k]);
                    assert(g[k - 1] == h[k - 1]);
                }
            }
        },
        Operation::Reset => {
            lemma_initial_board_valid(n);
        },
    }
}

/// Any sequence of operations leaves a valid history valid.
pub proof fn law_operations_keep_history_valid(h: Seq<Seq<Cell>>, n: nat, ops: Seq<Operation>)
    requires
        valid_history(h, n),
    ensures
        valid_history(after_operations(h, n, ops), n),
    decreases ops.len(),
{
    if ops.len() > 0 {
        law_operations_keep_history_valid(h, n, ops.drop_last());
        law_operation_keeps_history_valid(
            after_operations(h, n, ops.drop_last()),
            n,
            ops.last(),
        );
    }
}

/// Exactly one gap: after any sequence of operations on a puzzle, the board in
/// play has one position that holds the gap and no other, and so has every
/// board of the history.
pub proof fn law_single_empty(h: Seq<Seq<Cell>>, n: nat, ops: Seq<Operation>, k: int)
    requires
        valid_history(h, n),
        0 <= k < after_operations(h, n, ops).len(),
    ensures
        has_single_empty(after_operations(h, n, ops).last()),
        has_single_empty(after_operations(h, n, ops)[k]),
        count_of(after_operations(h, n, ops).last(), Cell::Empty) == 1,
        count_of(after_operations(h, n, ops)[k], Cell::Empty) == 1,
{
    law_operations_keep_history_valid(h, n, ops);
    let g = after_operations(h, n, ops);
    assert(valid_board(g[k], n));
    assert(valid_board(g[g.len() - 1], n));
    lemma_single_empty_count(g[k], empty_index(g[k]));
    lemma_single_empty_count(g.last(), empty_index(g.last()));
}

/// Arrows are neither made nor lost: after any sequence of operations the
/// board in play holds as many left arrows and as many right arrows as the
/// starting row, which is half the size, rounded down, of each.
pub proof fn law_arrow_conservation(h: Seq<Seq<Cell>>, n: nat, ops: Seq<Operation>)
    requires
        valid_history(h, n),
    ensures
        count_of(after_operations(h, n, ops).last(), Cell::LeftArrow) == count_of(
            initial_board(n),
            Cell::LeftArrow,
        ),
        count_of(after_operations(h, n, ops).last(), Cell::RightArrow) == count_of(
            initial_board(n),
            Cell::RightArrow,
        ),
        count_of(after_operations(h, n, ops).last(), Cell::LeftArrow) == n / 2,
        count_of(after_operations(h, n, ops).last(), Cell::RightArrow) == n / 2,
{
    law_operations_keep_history_valid(h, n, ops);
    let g = after_operations(h, n, ops);
    assert(valid_board(g[g.len() - 1], n));
    lemma_initial_board_counts(n);
}

/// Around the gap at `e`, a move is valid exactly for an arrow that points at
/// the gap: at `e - 1` and `e - 2` a right arrow, at `e + 1` and `e + 2` a
/// left arrow, wherever those positions are on the board. No other position
/// holds a valid move.
pub proof fn law_move_legality(b: Seq<Cell>, e: int)
    requires
        is_empty_index(b, e),
    ensures
        0 <= e - 1 ==> (move_valid(b, e - 1) <==> b[e - 1] == Cell::RightArrow),
        0 <= e - 2 ==> (move_valid(b, e - 2) <==> b[e - 2] == Cell::RightArrow),
        e + 1 < b.len() ==> (move_valid(b, e + 1) <==> b[e + 1] == Cell::LeftArrow),
        e + 2 < b.len() ==> (move_valid(b, e + 2) <==> b[e + 2] == Cell::LeftArrow),
        !move_valid(b, e),
        forall|i: int| i < e - 2 || i > e + 2 || i < 0 || i >= b.len() ==> !move_valid(b, i),
{
    lemma_empty_index_unique(b, e);
}

/// Nothing can move exactly when no arrow within two cells of the gap points
/// at it: no right arrow at `e - 1` or `e - 2`, no left arrow at `e + 1` or
/// `e + 2`.
pub proof fn law_no_moves_around_gap(b: Seq<Cell>, e: int)
    requires
        is_empty_index(b, e),
    ensures
        no_moves(b) <==> {
            &&& 0 <= e - 1 ==> b[e - 1] != Cell::RightArrow
            &&& 0 <= e - 2 ==> b[e - 2] != Cell::RightArrow
            &&& e + 1 < b.len() ==> b[e + 1] != Cell::LeftArrow
            &&& e + 2 < b.len() ==> b[e + 2] != Cell::LeftArrow
        },
{
    law_move_legality(b, e);
    if no_moves(b) {
        if 0 <= e - 1 {
            assert(!move_valid(b, e - 1));
        }
        if 0 <= e - 2 {
            assert(!move_valid(b, e - 2));
        }
        if e + 1 < b.len() {
            assert(!move_valid(b, e + 1));
        }
        if e + 2 < b.len() {
            assert(!move_valid(b, e + 2));
        }
    }
}

/// A stuck puzzle stays as it is whatever arrow is tried: the history does not
/// change, and the status remains stuck.
pub proof fn law_stuck_rejects_every_move(h: Seq<Seq<Cell>>, n: nat, i: int)
    requires
        valid_history(h, n),
        status_of(h.last()) == GameStatus::Stuck,
    ensures
        after_try_move(h, i) == h,
        status_of(after_try_move(h, i).last()) == GameStatus::Stuck,
{
    if 0 <= i < h.last().len() {
        assert(!move_valid(h.last(), i));
    }
}

/// A rejected move changes nothing, however often it is tried: the history,
/// and with it the board and the status, stay as they were.
pub proof fn law_rejected_move_changes_nothing(h: Seq<Seq<Cell>>, n: nat, i: int, times: nat)
    requires
        valid_history(h, n),
        !move_valid(h.last(), i),
    ensures
        after_operations(h, n, repeated(Operation::TryMove(i), times)) == h,
    decreases times,
{
    if times > 0 {
        let ops = repeated(Operation::TryMove(i), times);
        assert(ops.drop_last() =~= repeated(Operation::TryMove(i), (times - 1) as nat));
        law_rejected_move_changes_nothing(h, n, i, (times - 1) as nat);
    }
}

/// With no move to take back, taking back changes nothing, however often it is
/// tried: the board in play stays the starting row.
pub proof fn law_undo_floor(h: Seq<Seq<Cell>>, n: nat, times: nat)
    requires
        valid_history(h, n),
        h.len() == 1,
    ensures
        after_operations(h, n, repeated(Operation::Undo, times)) == h,
        after_operations(h, n, repeated(Operation::Undo, times)).last() == initial_board(n),
    decreases times,
{
    if times > 0 {
        let ops = repeated(Operation::Undo, times);
        assert(ops.drop_last() =~= repeated(Operation::Undo, (times - 1) as nat));
        law_undo_floor(h, n, (times - 1) as nat);
    }
}

/// Whatever came before, starting over leaves the starting row alone in the
/// history, and the puzzle in play.
pub proof fn law_reset_restores_start(h: Seq<Seq<Cell>>, n: nat, ops: Seq<Operation>)
    requires
        valid_history(h, n),
    ensures
        after_operations(h, n, ops.push(Operation::Reset)) == seq![initial_board(n)],
        after_operations(h, n, ops.push(Operation::Reset)).last() == initial_board(n),
        status_of(after_operations(h, n, ops.push(Operation::Reset)).last())
            == GameStatus::Playing,
{
    let all = ops.push(Operation::Reset);
    assert(all.drop_last() =~= ops);
    assert(all.last() == Operation::Reset);
    lemma_initial_board_playing(n);
}

/// A valid move followed by taking it back restores the history as it was,
/// and with it the board and the status.
pub proof fn law_move_then_undo(h: Seq<Seq<Cell>>, n: nat, i: int)
    requires
        valid_history(h, n),
        move_valid(h.last(), i),
    ensures
        after_undo(after_try_move(h, i)) == h,
        after_undo(after_try_move(h, i)).last() == h.last(),
        status_of(after_undo(after_try_move(h, i)).last()) == status_of(h.last()),
        after_operations(h, n, seq![Operation::TryMove(i), Operation::Undo]) == h,
{
    let moved = h.push(apply_move(h.last(), i));
    assert(moved.drop_last() =~= h);
    let ops = seq![Operation::TryMove(i), Operation::Undo];
    assert(ops.drop_last() =~= seq![Operation::TryMove(i)]);
    assert(ops.drop_last().drop_last() =~= Seq::<Operation>::empty());
    assert(after_operations(h, n, ops.drop_last().drop_last()) == h);
    assert(after_operations(h, n, ops.drop_last()) == after_try_move(h, i));
}

/// No two neighbours in a valid history are the same board.
pub proof fn law_adjacent_boards_differ(h: Seq<Seq<Cell>>, n: nat, k: int)
    requires
        valid_history(h, n),
        1 <= k < h.len(),
    ensures
        h[k - 1] != h[k],
{
    assert(valid_board(h[k - 1], n));
    assert(legal_step(h[k - 1], h[k]));
    let i = choose|i: int| #[trigger] move_valid(h[k - 1], i) && h[k] == apply_move(h[k - 1], i);
    lemma_apply_move_valid(h[k - 1], n, i);
}

} // verus!
