//! The row of cells as a mathematical sequence, and the rules of the puzzle
//! stated over it.

use vstd::prelude::*;

verus! {

/// One slot of the row.
#[derive(Clone, Copy, Debug, PartialEq, Eq, Structural)]
pub enum Cell {
    LeftArrow,
    RightArrow,
    Empty,
}

/// What a board means for the player.
#[derive(Clone, Copy, Debug, PartialEq, Eq, Structural)]
pub enum GameStatus {
    /// Not solved, and at least one arrow can move.
    Playing,
    /// The board is the solved configuration.
    Solved,
    /// Not solved, and no arrow can move.
    Stuck,
}

/// The cell at position `i` of the starting row of length `n`: right arrows
/// below the centre, the gap at the centre, left arrows above it.
pub open spec fn initial_cell(n: nat, i: int) -> Cell {
    if i < n / 2 {
        Cell::RightArrow
    } else if i == n / 2 {
        Cell::Empty
    } else {
        Cell::LeftArrow
    }
}

/// The cell at position `i` of the solved row of length `n`: the mirror image
/// of the starting row.
pub open spec fn solved_cell(n: nat, i: int) -> Cell {
    if i < n / 2 {
        Cell::LeftArrow
    } else if i == n / 2 {
        Cell::Empty
    } else {
        Cell::RightArrow
    }
}

/// The starting row of length `n`.
pub open spec fn initial_board(n: nat) -> Seq<Cell> {
    Seq::new(n, |i: int| initial_cell(n, i))
}

/// The solved row of length `n`.
pub open spec fn solved_board(n: nat) -> Seq<Cell> {
    Seq::new(n, |i: int| solved_cell(n, i))
}

/// A board size the puzzle is defined for: odd, so that there is a centre,
/// and with at least one arrow on each side.
pub open spec fn valid_size(n: nat) -> bool {
    n % 2 == 1 && n >= 3
}

/// How many cells of `b` hold `c`.
pub open spec fn count_of(b: Seq<Cell>, c: Cell) -> nat
    decreases b.len(),
{
    if b.len() == 0 {
        0
    } else {
        count_of(b.drop_last(), c) + if b.last() == c {
            1nat
        } else {
            0nat
        }
    }
}

/// `e` is a position of `b` that holds the gap, and no other position does.
pub open spec fn is_empty_index(b: Seq<Cell>, e: int) -> bool {
    &&& 0 <= e < b.len()
    &&& b[e] == Cell::Empty
    &&& forall|j: int| 0 <= j < b.len() && #[trigger] b[j] == Cell::Empty ==> j == e
}

/// `b` holds exactly one gap.
pub open spec fn has_single_empty(b: Seq<Cell>) -> bool {
    exists|e: int| is_empty_index(b, e)
}

/// The position of the gap of a board that has exactly one.
pub open spec fn empty_index(b: Seq<Cell>) -> int {
    choose|e: int| is_empty_index(b, e)
}

/// The arrow at position `i` may move: a left arrow one or two cells above the
/// gap, or a right arrow one or two cells below it. The gap itself and
/// positions outside the board never may.
pub open spec fn move_valid(b: Seq<Cell>, i: int) -> bool {
    let e = empty_index(b);
    &&& 0 <= i < b.len()
    &&& {
        ||| b[i] == Cell::LeftArrow && (i == e + 1 || i == e + 2)
        ||| b[i] == Cell::RightArrow && (i == e - 1 || i == e - 2)
    }
}

/// No arrow of `b` may move.
pub open spec fn no_moves(b: Seq<Cell>) -> bool {
    forall|i: int| 0 <= i < b.len() ==> !#[trigger] move_valid(b, i)
}

/// The board after the arrow at `i` has moved into the gap: the two cells
/// change places.
pub open spec fn apply_move(b: Seq<Cell>, i: int) -> Seq<Cell> {
    b.update(empty_index(b), b[i]).update(i, Cell::Empty)
}

/// The status of a board: solved if it is the solved row of its length,
/// otherwise stuck if nothing can move, otherwise still in play.
pub open spec fn status_of(b: Seq<Cell>) -> GameStatus {
    if b == solved_board(b.len()) {
        GameStatus::Solved
    } else if no_moves(b) {
        GameStatus::Stuck
    } else {
        GameStatus::Playing
    }
}

/// `b` has the same number of each kind of cell as the starting row of
/// length `n`.
pub open spec fn same_cells_as_initial(b: Seq<Cell>, n: nat) -> bool {
    forall|c: Cell| #[trigger] count_of(b, c) == count_of(initial_board(n), c)
}

/// A board of a puzzle of size `n`: of that length, with exactly one gap, and
/// with the arrows the starting row has.
pub open spec fn valid_board(b: Seq<Cell>, n: nat) -> bool {
    &&& b.len() == n
    &&& has_single_empty(b)
    &&& same_cells_as_initial(b, n)
}

/// `next` comes from `prev` by one legal move.
pub open spec fn legal_step(prev: Seq<Cell>, next: Seq<Cell>) -> bool {
    exists|i: int| #[trigger] move_valid(prev, i) && next == apply_move(prev, i)
}

/// A move history of a puzzle of size `n`, oldest board first: it starts with
/// the starting row, holds valid boards only, and each board comes from the
/// one before it by one legal move.
pub open spec fn valid_history(h: Seq<Seq<Cell>>, n: nat) -> bool {
    &&& valid_size(n)
    &&& h.len() >= 1
    &&& h[0] == initial_board(n)
    &&& forall|k: int| 0 <= k < h.len() ==> valid_board(#[trigger] h[k], n)
    &&& forall|k: int| 1 <= k < h.len() ==> legal_step(h[k - 1], #[trigger] h[k])
}

/// The history after an attempt to move the arrow at `i`: a valid move appends
/// the board it leads to, any other attempt changes nothing.
pub open spec fn after_try_move(h: Seq<Seq<Cell>>, i: int) -> Seq<Seq<Cell>> {
    if move_valid(h.last(), i) {
        h.push(apply_move(h.last(), i))
    } else {
        h
    }
}

/// The history after taking a move back: the last board goes, unless it is
/// the only one.
pub open spec fn after_undo(h: Seq<Seq<Cell>>) -> Seq<Seq<Cell>> {
    if h.len() > 1 {
        h.drop_last()
    } else {
        h
    }
}

/// The history after starting a puzzle of size `n` over: the starting row
/// alone.
pub open spec fn after_reset(n: nat) -> Seq<Seq<Cell>> {
    seq![initial_board(n)]
}

/// Whoever knows one position that alone holds the gap knows `empty_index`.
pub proof fn lemma_empty_index_unique(b: Seq<Cell>, e: int)
    requires
        is_empty_index(b, e),
    ensures
        empty_index(b) == e,
        has_single_empty(b),
{
    let f = empty_index(b);
    assert(is_empty_index(b, f));
}

/// Writing `v` at position `i` takes one from the count of what stood there
/// and adds one to the count of `v`.
pub proof fn lemma_count_update(b: Seq<Cell>, i: int, v: Cell, c: Cell)
    requires
        0 <= i < b.len(),
    ensures
        count_of(b.update(i, v), c) + (if b[i] == c { 1nat } else { 0nat })
            == count_of(b, c) + (if v == c { 1nat } else { 0nat }),
    decreases b.len(),
{
    let u = b.update(i, v);
    if i == b.len() - 1 {
        assert(u.drop_last() =~= b.drop_last());
    } else {
        assert(u.drop_last() =~= b.drop_last().update(i, v));
        lemma_count_update(b.drop_last(), i, v, c);
    }
}

/// The starting row is a valid board with its gap at the centre.
pub proof fn lemma_initial_board_valid(n: nat)
    requires
        valid_size(n),
    ensures
        valid_board(initial_board(n), n),
        empty_index(initial_board(n)) == n / 2,
{
    let b = initial_board(n);
    assert(is_empty_index(b, (n / 2) as int));
    lemma_empty_index_unique(b, (n / 2) as int);
}

/// How often `c` occurs among the first `k` cells of the starting row of
/// length `n`.
pub open spec fn initial_prefix_count(n: nat, k: nat, c: Cell) -> nat {
    match c {
        Cell::RightArrow => if k <= n / 2 {
            k
        } else {
            n / 2
        },
        Cell::Empty => if k <= n / 2 {
            0
        } else {
            1
        },
        Cell::LeftArrow => if k <= n / 2 {
            0
        } else {
            (k - n / 2 - 1) as nat
        },
    }
}

/// Counting along the starting row gives `initial_prefix_count`.
pub proof fn lemma_initial_prefix_count(n: nat, k: nat, c: Cell)
    requires
        k <= n,
    ensures
        count_of(initial_board(n).take(k as int), c) == initial_prefix_count(n, k, c),
    decreases k,
{
    let p = initial_board(n).take(k as int);
    if k > 0 {
        assert(p.drop_last() =~= initial_board(n).take(k - 1));
        assert(p.last() == initial_cell(n, k - 1));
        lemma_initial_prefix_count(n, (k - 1) as nat, c);
    }
}

/// The starting row holds as many right arrows as left arrows, half its
/// length rounded down of each, and one gap.
pub proof fn lemma_initial_board_counts(n: nat)
    requires
        valid_size(n),
    ensures
        count_of(initial_board(n), Cell::RightArrow) == n / 2,
        count_of(initial_board(n), Cell::LeftArrow) == n / 2,
        count_of(initial_board(n), Cell::Empty) == 1,
{
    let b = initial_board(n);
    assert(b.take(n as int) =~= b);
    lemma_initial_prefix_count(n, n, Cell::RightArrow);
    lemma_initial_prefix_count(n, n, Cell::LeftArrow);
    lemma_initial_prefix_count(n, n, Cell::Empty);
}

/// A legal move leaves a valid board valid, and puts the gap where the arrow
/// stood.
pub proof fn lemma_apply_move_valid(b: Seq<Cell>, n: nat, i: int)
    requires
        valid_board(b, n),
        move_valid(b, i),
    ensures
        valid_board(apply_move(b, i), n),
        empty_index(apply_move(b, i)) == i,
        legal_step(b, apply_move(b, i)),
        apply_move(b, i) != b,
{
    let e = empty_index(b);
    assert(is_empty_index(b, e));
    let mid = b.update(e, b[i]);
    let nb = apply_move(b, i);
    assert(nb == mid.update(i, Cell::Empty));
    assert(is_empty_index(nb, i)) by {
        assert forall|j: int| 0 <= j < nb.len() && #[trigger] nb[j] == Cell::Empty implies j
            == i by {
            if j != i {
                assert(nb[j] == mid[j]);
                if j != e {
                    assert(mid[j] == b[j]);
                }
            }
        }
    }
    lemma_empty_index_unique(nb, i);
    assert forall|c: Cell| #[trigger] count_of(nb, c) == count_of(initial_board(n), c) by {
        lemma_count_update(b, e, b[i], c);
        lemma_count_update(mid, i, Cell::Empty, c);
        assert(count_of(b, c) == count_of(initial_board(n), c));
    }
    assert(nb[i] != b[i]);
}

/// A board with one position that alone holds the gap holds the gap once.
pub proof fn lemma_single_empty_count(b: Seq<Cell>, e: int)
    requires
        is_empty_index(b, e),
    ensures
        count_of(b, Cell::Empty) == 1,
    decreases b.len(),
{
    let p = b.drop_last();
    if e == b.len() - 1 {
        lemma_no_empty_count(p);
    } else {
        assert(b.last() != Cell::Empty);
        assert(is_empty_index(p, e)) by {
            assert forall|j: int| 0 <= j < p.len() && #[trigger] p[j] == Cell::Empty implies j
                == e by {
                assert(b[j] == Cell::Empty);
            }
        }
        lemma_single_empty_count(p, e);
    }
}

/// A board without a gap holds the gap no times.
pub proof fn lemma_no_empty_count(b: Seq<Cell>)
    requires
        forall|j: int| 0 <= j < b.len() ==> #[trigger] b[j] != Cell::Empty,
    ensures
        count_of(b, Cell::Empty) == 0,
    decreases b.len(),
{
    if b.len() > 0 {
        assert(b.last() == b[b.len() - 1]);
        assert forall|j: int| 0 <= j < b.drop_last().len() implies #[trigger] b.drop_last()[j]
            != Cell::Empty by {
            assert(b[j] != Cell::Empty);
        }
        lemma_no_empty_count(b.drop_last());
    }
}

/// The starting row is in play: it is not the solved row, and the right arrow
/// just below the centre can slide.
pub proof fn lemma_initial_board_playing(n: nat)
    requires
        valid_size(n),
    ensures
        status_of(initial_board(n)) == GameStatus::Playing,
        move_valid(initial_board(n), n / 2 - 1),
{
    let b = initial_board(n);
    lemma_initial_board_valid(n);
    assert(b[0] == Cell::RightArrow);
    assert(solved_board(n)[0] == Cell::LeftArrow);
    assert(move_valid(b, n / 2 - 1));
}

} // verus!
