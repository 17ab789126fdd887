//! Counting the pieces on the board and naming the winner.

use vstd::prelude::*;
use crate::cell::Cell;
use crate::grid::{Grid, in_bounds, with_cell};
use crate::board::{Board, fits};

verus! {

/// How a finished game ended.
#[derive(Clone, Copy, Debug, PartialEq, Eq, Structural)]
pub enum Outcome {
    Player1Wins,
    Player2Wins,
    Tie,
}

/// The number of squares of `row` that hold `v`.
pub open spec fn count_in_row(row: Seq<Cell>, v: Cell) -> nat
    decreases row.len(),
{
    if row.len() == 0 {
        0
    } else {
        count_in_row(row.drop_last(), v) + if row.last() == v {
            1nat
        } else {
            0nat
        }
    }
}

/// The number of squares of `g` that hold `v`.
pub open spec fn count_cells(g: Grid, v: Cell) -> nat
    decreases g.len(),
{
    if g.len() == 0 {
        0
    } else {
        count_cells(g.drop_last(), v) + count_in_row(g.last(), v)
    }
}

/// The player with more pieces wins; equal counts are a tie.
pub open spec fn outcome_of(player1: nat, player2: nat) -> Outcome {
    if player1 > player2 {
        Outcome::Player1Wins
    } else if player1 < player2 {
        Outcome::Player2Wins
    } else {
        Outcome::Tie
    }
}

/// The outcome of a game that ends on grid `g`.
pub open spec fn final_outcome(g: Grid) -> Outcome {
    outcome_of(count_cells(g, Cell::Player1), count_cells(g, Cell::Player2))
}

/// The numbers of squares held by the first and by the second player.
pub fn score(board: &Board) -> (counts: (usize, usize))
    ensures
        counts.0 == count_cells(board@, Cell::Player1),
        counts.1 == count_cells(board@, Cell::Player2),
{
    let size = board.size();
    let ghost g = board@;
    let mut first: usize = 0;
    let mut second: usize = 0;
    let mut r: usize = 0;
    proof {
        reveal(fits);
        assert(g.take(0) =~= Seq::<Seq<Cell>>::empty());
    }
    while r < size
        invariant
            r <= size,
            g == board@,
            size == board.spec_size(),
            crate::grid::is_square(g, size as nat),
            size * size <= usize::MAX,
            first == count_cells(g.take(r as int), Cell::Player1),
            second == count_cells(g.take(r as int), Cell::Player2),
        decreases size - r,
    {
        let mut c: usize = 0;
        let mut in_row_first: usize = 0;
        let mut in_row_second: usize = 0;
        let ghost row = g[r as int];
        assert(row.take(0) =~= Seq::<Cell>::empty());
        while c < size
            invariant
                c <= size,
                r < size,
                g == board@,
                row == g[r as int],
                row.len() == size,
                size == board.spec_size(),
                in_row_first == count_in_row(row.take(c as int), Cell::Player1),
                in_row_second == count_in_row(row.take(c as int), Cell::Player2),
                in_row_first <= c,
                in_row_second <= c,
            decreases size - c,
        {
            let cell = board.get(r, c);
            proof {
                assert(row.take(c as int + 1).drop_last() =~= row.take(c as int));
                assert(row.take(c as int + 1).last() == cell);
            }
            if cell == Cell::Player1 {
                in_row_first = in_row_first + 1;
            } else if cell == Cell::Player2 {
                in_row_second = in_row_second + 1;
            }
            c = c + 1;
        }
        proof {
            assert(row.take(size as int) =~= row);
            assert(g.take(r as int + 1).drop_last() =~= g.take(r as int));
            assert(g.take(r as int + 1).last() == row);
            lemma_count_cells_bound(g.take(r as int), size as nat, Cell::Player1);
            lemma_count_cells_bound(g.take(r as int), size as nat, Cell::Player2);
            assert(r * size + size <= size * size) by (nonlinear_arith)
                requires
                    r < size,
            ;
        }
        first = first + in_row_first;
        second = second + in_row_second;
        r = r + 1;
    }
    assert(g.take(size as int) =~= g);
    (first, second)
}

/// The outcome that the pieces now on the board give.
pub fn winner(board: &Board) -> (outcome: Outcome)
    ensures
        outcome == final_outcome(board@),
{
    let (first, second) = score(board);
    if first > second {
        Outcome::Player1Wins
    } else if first < second {
        Outcome::Player2Wins
    } else {
        Outcome::Tie
    }
}

/// A row holds no more squares of one value than it has squares.
pub proof fn lemma_count_in_row_bound(row: Seq<Cell>, v: Cell)
    ensures
        count_in_row(row, v) <= row.len(),
    decreases row.len(),
{
    if row.len() > 0 {
        lemma_count_in_row_bound(row.drop_last(), v);
    }
}

/// A grid whose rows have at most `width` squares holds at most
/// `width` squares of one value per row.
pub proof fn lemma_count_cells_bound(g: Grid, width: nat, v: Cell)
    requires
        forall|r: int| 0 <= r < g.len() ==> (#[trigger] g[r]).len() <= width,
    ensures
        count_cells(g, v) <= g.len() * width,
    decreases g.len(),
{
    if g.len() > 0 {
        lemma_count_cells_bound(g.drop_last(), width, v);
        lemma_count_in_row_bound(g.last(), v);
        assert(g.drop_last().len() * width + width == g.len() * width) by (nonlinear_arith)
            requires
                g.drop_last().len() + 1 == g.len(),
        ;
    }
}

/// Every square of a row is empty or held by one of the two players.
pub proof fn lemma_row_counts_add_up(row: Seq<Cell>)
    ensures
        count_in_row(row, Cell::Empty) + count_in_row(row, Cell::Player1) + count_in_row(
            row,
            Cell::Player2,
        ) == row.len(),
    decreases row.len(),
{
    if row.len() > 0 {
        lemma_row_counts_add_up(row.drop_last());
    }
}

/// Every square of a grid is empty or held by one of the two players: on a
/// grid of `g.len()` rows of `width` squares the three counts add up to the
/// number of squares.
pub proof fn lemma_counts_add_up(g: Grid, width: nat)
    requires
        forall|r: int| 0 <= r < g.len() ==> (#[trigger] g[r]).len() == width,
    ensures
        count_cells(g, Cell::Empty) + count_cells(g, Cell::Player1) + count_cells(g, Cell::Player2)
            == g.len() * width,
    decreases g.len(),
{
    if g.len() > 0 {
        lemma_counts_add_up(g.drop_last(), width);
        lemma_row_counts_add_up(g.last());
        assert(g.drop_last().len() * width + width == g.len() * width) by (nonlinear_arith)
            requires
                g.drop_last().len() + 1 == g.len(),
        ;
    } else {
        assert(g.len() * width == 0) by (nonlinear_arith)
            requires
                g.len() == 0,
        ;
    }
}

/// One more square of value `v` and one fewer of the value it replaces:
/// the count of `x` in a row after square `c` was set to `v`.
pub proof fn lemma_count_in_row_update(row: Seq<Cell>, c: int, v: Cell, x: Cell)
    requires
        0 <= c < row.len(),
    ensures
        count_in_row(row.update(c, v), x) + (if row[c] == x {
            1nat
        } else {
            0nat
        }) == count_in_row(row, x) + (if v == x {
            1nat
        } else {
            0nat
        }),
    decreases row.len(),
{
    let changed = row.update(c, v);
    if c == row.len() - 1 {
        assert(changed.drop_last() =~= row.drop_last());
    } else {
        assert(changed.drop_last() =~= row.drop_last().update(c, v));
        lemma_count_in_row_update(row.drop_last(), c, v, x);
    }
}

/// The count of `x` on a grid after square `(r, c)` was set to `v`.
pub proof fn lemma_count_with_cell(g: Grid, r: int, c: int, v: Cell, x: Cell)
    requires
        in_bounds(g, r, c),
    ensures
        count_cells(with_cell(g, r, c, v), x) + (if g[r][c] == x {
            1nat
        } else {
            0nat
        }) == count_cells(g, x) + (if v == x {
            1nat
        } else {
            0nat
        }),
    decreases g.len(),
{
    let changed = with_cell(g, r, c, v);
    if r == g.len() - 1 {
        assert(changed.drop_last() =~= g.drop_last());
        lemma_count_in_row_update(g[r], c, v, x);
    } else {
        assert(changed.drop_last() =~= with_cell(g.drop_last(), r, c, v));
        lemma_count_with_cell(g.drop_last(), r, c, v, x);
    }
}

/// A value that stands on no square is counted zero times.
pub proof fn lemma_count_absent(g: Grid, x: Cell)
    requires
        forall|r: int, c: int| in_bounds(g, r, c) ==> g[r][c] != x,
    ensures
        count_cells(g, x) == 0,
    decreases g.len(),
{
    if g.len() > 0 {
        let rest = g.drop_last();
        assert forall|r: int, c: int| in_bounds(rest, r, c) implies rest[r][c] != x by {
            assert(in_bounds(g, r, c));
        }
        lemma_count_absent(rest, x);
        lemma_row_count_absent(g, g.len() - 1, g.last().len() as int, x);
    }
}

/// The first `k` squares of a row on which `x` does not stand count zero.
proof fn lemma_row_count_absent(g: Grid, r: int, k: int, x: Cell)
    requires
        0 <= r < g.len(),
        0 <= k <= g[r].len(),
        forall|i: int, c: int| in_bounds(g, i, c) ==> g[i][c] != x,
    ensures
        count_in_row(g[r].take(k), x) == 0,
        k == g[r].len() ==> count_in_row(g[r], x) == 0,
    decreases k,
{
    if k > 0 {
        lemma_row_count_absent(g, r, k - 1, x);
        assert(g[r].take(k).drop_last() =~= g[r].take(k - 1));
        assert(in_bounds(g, r, k - 1));
        assert(g[r].take(k).last() == g[r][k - 1]);
    }
    if k == g[r].len() {
        assert(g[r].take(k) =~= g[r]);
    }
}

} // verus!
