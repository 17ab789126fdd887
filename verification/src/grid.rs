//! The mathematical model of a board: a square grid of cells.

use vstd::prelude::*;
use crate::cell::Cell;

verus! {

/// A grid of cells, indexed by row and then by column.
pub type Grid = Seq<Seq<Cell>>;

/// `g` has `n` rows of `n` cells each.
pub open spec fn is_square(g: Grid, n: nat) -> bool {
    &&& g.len() == n
    &&& forall|r: int| 0 <= r < n ==> (#[trigger] g[r]).len() == n
}

/// `(r, c)` names a square of `g`.
pub open spec fn in_bounds(g: Grid, r: int, c: int) -> bool {
    0 <= r < g.len() && 0 <= c < g[r].len()
}

/// The content of square `(r, c)`; anything off the board reads as empty.
pub open spec fn cell_at(g: Grid, r: int, c: int) -> Cell {
    if in_bounds(g, r, c) {
        g[r][c]
    } else {
        Cell::Empty
    }
}

/// `g` with square `(r, c)` replaced by `v`.
pub open spec fn with_cell(g: Grid, r: int, c: int, v: Cell) -> Grid {
    g.update(r, g[r].update(c, v))
}

/// The grid of side `n` whose squares are all empty.
pub open spec fn empty_grid(n: nat) -> Grid {
    Seq::new(n, |r: int| Seq::new(n, |c: int| Cell::Empty))
}

} // verus!
