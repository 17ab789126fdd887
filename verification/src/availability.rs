//! Does a player have any legal move?

use vstd::prelude::*;
use crate::cell::{Cell, Player};
use crate::grid::{Grid, is_square, in_bounds};
use crate::board::Board;
use crate::placement::{MoveError, legal_move, place_outcome, count_captures};

verus! {

/// `p` can place a piece somewhere on `g`.
pub open spec fn has_legal_move(g: Grid, p: Player) -> bool {
    exists|r: int, c: int| legal_move(g, r, c, p)
}

/// Whether `player` has a legal move: some empty square on which a piece of
/// theirs would capture. Squares are tried row by row; the board is only
/// read.
pub fn can_take_turn(board: &Board, player: Player) -> (can: bool)
    ensures
        can == has_legal_move(board@, player),
{
    let size = board.size();
    let ghost g = board@;
    let mut r: usize = 0;
    while r < size
        invariant
            r <= size,
            g == board@,
            size == board.spec_size(),
            is_square(g, size as nat),
            forall|i: int, j: int| 0 <= i < r && 0 <= j < size ==> !legal_move(g, i, j, player),
        decreases size - r,
    {
        let mut c: usize = 0;
        while c < size
            invariant
                c <= size,
                r < size,
                g == board@,
                size == board.spec_size(),
                is_square(g, size as nat),
                forall|i: int, j: int| 0 <= i < r && 0 <= j < size ==> !legal_move(g, i, j, player),
                forall|j: int| 0 <= j < c ==> !legal_move(g, r as int, j, player),
            decreases size - c,
        {
            if board.get(r, c) == Cell::Empty && count_captures(board, r, c, player) > 0 {
                assert(legal_move(g, r as int, c as int, player));
                return true;
            }
            c = c + 1;
        }
        r = r + 1;
    }
    assert forall|i: int, j: int| !legal_move(g, i, j, player) by {
        if in_bounds(g, i, j) {
            assert(0 <= i < size && 0 <= j < size);
        }
    }
    false
}

/// A player has no legal move just when a placement on any empty square
/// would be refused for capturing nothing.
pub proof fn lemma_no_move_means_no_capture(g: Grid, p: Player)
    ensures
        !has_legal_move(g, p) <==> forall|r: int, c: int|
            in_bounds(g, r, c) && g[r][c] == Cell::Empty ==> #[trigger] place_outcome(g, r, c, p)
                == Err::<nat, MoveError>(MoveError::NoCapture),
{
    if !has_legal_move(g, p) {
        assert forall|r: int, c: int|
            in_bounds(g, r, c) && g[r][c] == Cell::Empty implies #[trigger] place_outcome(g, r, c, p)
            == Err::<nat, MoveError>(MoveError::NoCapture) by {
            assert(!legal_move(g, r, c, p));
        }
    }
    if has_legal_move(g, p) {
        let (r, c) = choose|r: int, c: int| legal_move(g, r, c, p);
        assert(place_outcome(g, r, c, p) is Ok);
    }
}

} // verus!
