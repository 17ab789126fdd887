//! The board: a square grid of cells with bounds-checked access.

use vstd::prelude::*;
use crate::cell::Cell;
use crate::grid::{Grid, is_square, in_bounds, with_cell, empty_grid};
use crate::score::{count_cells, lemma_count_with_cell, lemma_count_absent};

verus! {

/// A square board. Its side never changes after construction.
pub struct Board {
    size: usize,
    cells: Vec<Cell>,
}

/// Why a board cannot take the opening position.
#[derive(Clone, Copy, Debug, PartialEq, Eq, Structural)]
pub enum SetupError {
    /// The side is below two: there are no four central squares.
    TooSmall,
    /// The side is odd: no four squares are central.
    OddSize,
}

/// The squares of a board of side `n` can be counted in a `usize`.
#[verifier::opaque]
pub open spec fn fits(n: usize) -> bool {
    n * n <= usize::MAX
}

impl View for Board {
    type V = Grid;

    closed spec fn view(&self) -> Grid {
        Seq::new(
            self.size as nat,
            |r: int| Seq::new(self.size as nat, |c: int| self.cells@[r * self.size + c]),
        )
    }
}

impl Board {
    #[verifier::type_invariant]
    spec fn well_formed(self) -> bool {
        self.cells.len() == self.size * self.size
    }

    /// The side length of the board.
    pub closed spec fn spec_size(&self) -> usize {
        self.size
    }

    /// The grid of a board is square, with the board's side.
    pub proof fn lemma_square(&self)
        ensures
            is_square(self@, self.spec_size() as nat),
    {
    }

    /// The side length of the board.
    #[verifier::when_used_as_spec(spec_size)]
    pub fn size(&self) -> (n: usize)
        ensures
            n == self.spec_size(),
            is_square(self@, n as nat),
            fits(n),
    {
        proof {
            use_type_invariant(self);
            reveal(fits);
        }
        self.size
    }

    /// The content of square `(row, col)`.
    pub fn get(&self, row: usize, col: usize) -> (cell: Cell)
        requires
            row < self.spec_size(),
            col < self.spec_size(),
        ensures
            cell == self@[row as int][col as int],
    {
        proof {
            use_type_invariant(self);
            lemma_index_in_range(row as int, col as int, self.size as int);
        }
        self.cells[row * self.size + col]
    }

    /// Replaces the content of square `(row, col)` by `cell`.
    pub fn set(&mut self, row: usize, col: usize, cell: Cell)
        requires
            row < old(self).spec_size(),
            col < old(self).spec_size(),
        ensures
            final(self).spec_size() == old(self).spec_size(),
            final(self)@ == with_cell(old(self)@, row as int, col as int, cell),
    {
        proof {
            use_type_invariant(&*self);
            lemma_index_in_range(row as int, col as int, self.size as int);
        }
        let n = self.size;
        self.cells[row * n + col] = cell;
        proof {
            let before = old(self)@;
            let after = self@;
            let want = with_cell(before, row as int, col as int, cell);
            assert(after.len() == want.len());
            assert forall|r: int| 0 <= r < after.len() implies after[r] == want[r] by {
                assert(after[r].len() == want[r].len());
                assert forall|c: int| 0 <= c < after[r].len() implies after[r][c] == want[r][c] by {
                    lemma_index_in_range(r, c, n as int);
                    if r * n + c == row * n + col {
                        lemma_index_injective(r, c, row as int, col as int, n as int);
                    }
                    assert(after[r][c] == self.cells@[r * n + c]);
                    assert(before[r][c] == old(self).cells@[r * n + c]);
                }
                assert(after[r] =~= want[r]);
            }
            assert(after =~= want);
        }
    }
}

/// A board of side `size` whose squares are all empty.
pub fn create_board(size: usize) -> (board: Board)
    requires
        size * size <= usize::MAX,
    ensures
        board.spec_size() == size,
        board@ == empty_grid(size as nat),
{
    let total = size * size;
    let mut cells: Vec<Cell> = Vec::new();
    let mut i: usize = 0;
    while i < total
        invariant
            i <= total,
            cells.len() == i,
            forall|k: int| 0 <= k < i ==> cells@[k] == Cell::Empty,
        decreases total - i,
    {
        cells.push(Cell::Empty);
        i += 1;
    }
    let board = Board { size, cells };
    proof {
        let g = board@;
        let e = empty_grid(size as nat);
        assert forall|r: int| 0 <= r < g.len() implies g[r] == e[r] by {
            assert forall|c: int| 0 <= c < g[r].len() implies g[r][c] == e[r][c] by {
                lemma_index_in_range(r, c, size as int);
            }
            assert(g[r] =~= e[r]);
        }
        assert(g =~= e);
    }
    board
}

/// `g` with the opening position on its four central squares: the second
/// player on the diagonal that falls to the right, the first player on the
/// other one.
pub open spec fn with_opening(g: Grid) -> Grid {
    let m = g.len() as int / 2;
    with_cell(
        with_cell(
            with_cell(with_cell(g, m - 1, m - 1, Cell::Player2), m - 1, m, Cell::Player1),
            m,
            m - 1,
            Cell::Player1,
        ),
        m,
        m,
        Cell::Player2,
    )
}

/// Whether a board of side `n` can take the opening position.
pub open spec fn opening_check(n: nat) -> Result<(), SetupError> {
    if n < 2 {
        Err(SetupError::TooSmall)
    } else if n % 2 != 0 {
        Err(SetupError::OddSize)
    } else {
        Ok(())
    }
}

/// Puts the opening position on the four central squares of the board and
/// leaves the other squares as they are. A board whose side is odd or below
/// two is refused and not changed.
pub fn setup_initial(board: &mut Board) -> (result: Result<(), SetupError>)
    ensures
        final(board).spec_size() == old(board).spec_size(),
        result == opening_check(old(board).spec_size() as nat),
        result is Ok ==> final(board)@ == with_opening(old(board)@),
        result is Err ==> final(board)@ == old(board)@,
{
    let size = board.size();
    if size < 2 {
        return Err(SetupError::TooSmall);
    }
    if size % 2 != 0 {
        return Err(SetupError::OddSize);
    }
    let m = size / 2;
    board.set(m - 1, m - 1, Cell::Player2);
    board.set(m - 1, m, Cell::Player1);
    board.set(m, m - 1, Cell::Player1);
    board.set(m, m, Cell::Player2);
    Ok(())
}

/// On an empty board of even side `n >= 2` the opening position fills
/// exactly the four central squares: each diagonal pair has one owner, and
/// the two pairs have different owners.
pub proof fn lemma_opening_position(n: nat)
    requires
        n >= 2,
        n % 2 == 0,
    ensures
        ({
            let g = with_opening(empty_grid(n));
            let m = n as int / 2;
            &&& is_square(g, n)
            &&& g[m - 1][m - 1] == Cell::Player2
            &&& g[m][m] == Cell::Player2
            &&& g[m - 1][m] == Cell::Player1
            &&& g[m][m - 1] == Cell::Player1
            &&& forall|r: int, c: int|
                in_bounds(g, r, c) ==> (#[trigger] g[r][c] != Cell::Empty <==> (m - 1 <= r <= m && m
                    - 1 <= c <= m))
            &&& count_cells(g, Cell::Player1) == 2
            &&& count_cells(g, Cell::Player2) == 2
        }),
{
    let m = n as int / 2;
    let g0 = empty_grid(n);
    let g1 = with_cell(g0, m - 1, m - 1, Cell::Player2);
    let g2 = with_cell(g1, m - 1, m, Cell::Player1);
    let g3 = with_cell(g2, m, m - 1, Cell::Player1);
    lemma_count_absent(g0, Cell::Player1);
    lemma_count_absent(g0, Cell::Player2);
    lemma_count_with_cell(g0, m - 1, m - 1, Cell::Player2, Cell::Player1);
    lemma_count_with_cell(g0, m - 1, m - 1, Cell::Player2, Cell::Player2);
    lemma_count_with_cell(g1, m - 1, m, Cell::Player1, Cell::Player1);
    lemma_count_with_cell(g1, m - 1, m, Cell::Player1, Cell::Player2);
    lemma_count_with_cell(g2, m, m - 1, Cell::Player1, Cell::Player1);
    lemma_count_with_cell(g2, m, m - 1, Cell::Player1, Cell::Player2);
    lemma_count_with_cell(g3, m, m, Cell::Player2, Cell::Player1);
    lemma_count_with_cell(g3, m, m, Cell::Player2, Cell::Player2);
}

/// `r * n + c` is a valid index into `n * n` cells.
proof fn lemma_index_in_range(r: int, c: int, n: int)
    requires
        0 <= r < n,
        0 <= c < n,
    ensures
        0 <= r * n + c < n * n,
{
    assert(r * n + c < n * n) by (nonlinear_arith)
        requires
            0 <= r < n,
            0 <= c < n,
    ;
    assert(0 <= r * n) by (nonlinear_arith)
        requires
            0 <= r,
            0 <= n,
    ;
}

/// Distinct squares have distinct indices.
proof fn lemma_index_injective(r1: int, c1: int, r2: int, c2: int, n: int)
    requires
        0 <= c1 < n,
        0 <= c2 < n,
        r1 * n + c1 == r2 * n + c2,
    ensures
        r1 == r2,
        c1 == c2,
{
    assert(r1 == r2) by (nonlinear_arith)
        requires
            0 <= c1 < n,
            0 <= c2 < n,
            r1 * n + c1 == r2 * n + c2,
    ;
}

} // verus!
