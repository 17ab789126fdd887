//! Placing a piece: legality, the captures in all eight directions, and the
//! resulting board.

use vstd::prelude::*;
use crate::cell::{Cell, Player};
use crate::grid::{Grid, is_square, in_bounds, with_cell};
use crate::direction::Direction;
use crate::board::{Board, fits};
use crate::capture::{
    ray_cell, captures, line_captures, line_count, on_line, captured_on, flip_line, count_line,
    check, count_change, lemma_line_count, lemma_flip_line_counts, lemma_step_on_line,
};
use crate::score::{count_cells, lemma_count_with_cell};

verus! {

/// Why a placement was refused.
#[derive(Clone, Copy, Debug, PartialEq, Eq, Structural)]
pub enum MoveError {
    /// The target square already holds a piece.
    Occupied,
    /// The placement would capture no piece in any direction.
    NoCapture,
}

/// Square `(i, j)` holds a piece that a placement of `p` on `(r, c)`
/// captures.
pub open spec fn captured(g: Grid, r: int, c: int, p: Player, i: int, j: int) -> bool {
    exists|d: Direction| captured_on(g, r, c, d, p, i, j)
}

/// A placement of `p` on `(r, c)` captures in at least one direction.
pub open spec fn any_capture(g: Grid, r: int, c: int, p: Player) -> bool {
    exists|d: Direction| line_captures(g, r, c, d, p)
}

/// `g` after every piece that a placement of `p` on `(r, c)` captures has
/// changed owner. The square `(r, c)` itself is not touched.
pub open spec fn flip_all(g: Grid, r: int, c: int, p: Player) -> Grid {
    Seq::new(
        g.len(),
        |i: int|
            Seq::new(
                g[i].len(),
                |j: int| if captured(g, r, c, p, i, j) { p.cell() } else { g[i][j] },
            ),
    )
}

/// The number of pieces that a placement of `p` on `(r, c)` captures, all
/// directions together.
pub open spec fn total_count(g: Grid, r: int, c: int, p: Player) -> nat {
    line_count(g, r, c, Direction::Up, p) + line_count(g, r, c, Direction::UpRight, p)
        + line_count(g, r, c, Direction::Right, p) + line_count(g, r, c, Direction::DownRight, p)
        + line_count(g, r, c, Direction::Down, p) + line_count(g, r, c, Direction::DownLeft, p)
        + line_count(g, r, c, Direction::Left, p) + line_count(g, r, c, Direction::UpLeft, p)
}

/// `p` may place a piece on `(r, c)`: the square is on the board and empty,
/// and the placement captures in at least one direction.
pub open spec fn legal_move(g: Grid, r: int, c: int, p: Player) -> bool {
    &&& in_bounds(g, r, c)
    &&& g[r][c] == Cell::Empty
    &&& any_capture(g, r, c, p)
}

/// What an attempt of `p` to place a piece on `(r, c)` returns: the number of
/// captured pieces, or the reason for the refusal.
pub open spec fn place_outcome(g: Grid, r: int, c: int, p: Player) -> Result<nat, MoveError> {
    if g[r][c] != Cell::Empty {
        Err(MoveError::Occupied)
    } else if !any_capture(g, r, c, p) {
        Err(MoveError::NoCapture)
    } else {
        Ok(total_count(g, r, c, p))
    }
}

/// The grid after an attempt of `p` to place a piece on `(r, c)`: unchanged
/// where the attempt is refused; else the captured pieces change owner and
/// the new piece stands on `(r, c)`.
pub open spec fn place_grid(g: Grid, r: int, c: int, p: Player) -> Grid {
    if place_outcome(g, r, c, p) is Ok {
        with_cell(flip_all(g, r, c, p), r, c, p.cell())
    } else {
        g
    }
}

/// The number of pieces that `player` would capture by placing a piece on
/// `(row, col)`, all directions together. The board is only read, and the
/// content of `(row, col)` plays no part.
pub fn count_captures(board: &Board, row: usize, col: usize, player: Player) -> (count: usize)
    requires
        row < board.spec_size(),
        col < board.spec_size(),
    ensures
        count == total_count(board@, row as int, col as int, player),
        count > 0 <==> any_capture(board@, row as int, col as int, player),
{
    let size = board.size();
    proof {
        lemma_eight_sides_fit(size);
    }
    let up = count_line(board, row, col, Direction::Up, player);
    let up_right = count_line(board, row, col, Direction::UpRight, player);
    let right = count_line(board, row, col, Direction::Right, player);
    let down_right = count_line(board, row, col, Direction::DownRight, player);
    let down = count_line(board, row, col, Direction::Down, player);
    let down_left = count_line(board, row, col, Direction::DownLeft, player);
    let left = count_line(board, row, col, Direction::Left, player);
    let up_left = count_line(board, row, col, Direction::UpLeft, player);
    let total = up + up_right + right + down_right + down + down_left + left + up_left;
    proof {
        lemma_total_count_positive(board@, row as int, col as int, player);
    }
    total
}

/// Turns over every piece that `player` captures by placing a piece on
/// `(row, col)`, and says whether there was any. The piece itself is not
/// placed. An occupied square captures nothing.
pub fn try_capture(board: &mut Board, row: usize, col: usize, player: Player) -> (captured: bool)
    requires
        row < old(board).spec_size(),
        col < old(board).spec_size(),
    ensures
        final(board).spec_size() == old(board).spec_size(),
        captured == legal_move(old(board)@, row as int, col as int, player),
        final(board)@ == if old(board)@[row as int][col as int] == Cell::Empty {
            flip_all(old(board)@, row as int, col as int, player)
        } else {
            old(board)@
        },
{
    let size = board.size();
    if board.get(row, col) != Cell::Empty {
        return false;
    }
    let ghost g = board@;
    let ghost r = row as int;
    let ghost c = col as int;
    let mut any = false;
    let mut t: usize = 0;
    proof {
        assert(flip_among(g, r, c, player, 0) =~~= g);
    }
    while t < 8
        invariant
            t <= 8,
            g == old(board)@,
            r == row as int,
            c == col as int,
            size == board.spec_size(),
            size == old(board).spec_size(),
            row < size,
            col < size,
            is_square(g, size as nat),
            board@ == flip_among(g, r, c, player, t as int),
            any == any_capture_among(g, r, c, player, t as int),
        decreases 8 - t,
    {
        let dir = Direction::from_index(t);
        proof {
            lemma_flip_next(g, size as nat, r, c, player, t as int);
        }
        let hit = check(board, row, col, dir, player);
        proof {
            if any_capture_among(g, r, c, player, t as int + 1) {
                let e = choose|e: Direction|
                    e.index() < t as int + 1 && line_captures(g, r, c, e, player);
                if e.index() < t {
                    assert(any_capture_among(g, r, c, player, t as int));
                } else {
                    assert(e == dir);
                }
            }
            if any_capture_among(g, r, c, player, t as int) {
                let e = choose|e: Direction|
                    e.index() < t as int && line_captures(g, r, c, e, player);
                assert(e.index() < t as int + 1 && line_captures(g, r, c, e, player));
            }
            if hit {
                assert(dir.index() < t as int + 1 && line_captures(g, r, c, dir, player));
            }
        }
        if hit {
            any = true;
        }
        t = t + 1;
    }
    proof {
        lemma_flip_among_all(g, r, c, player);
    }
    any
}

/// Places a piece of `player` on `(row, col)` where the rules allow it: the
/// captured pieces change owner, and the number of them is returned. A
/// refused placement leaves the board as it was.
pub fn attempt_place(board: &mut Board, row: usize, col: usize, player: Player) -> (result: Result<
    usize,
    MoveError,
>)
    requires
        row < old(board).spec_size(),
        col < old(board).spec_size(),
    ensures
        final(board).spec_size() == old(board).spec_size(),
        match result {
            Ok(count) => place_outcome(old(board)@, row as int, col as int, player) == Ok::<
                nat,
                MoveError,
            >(count as nat),
            Err(reason) => place_outcome(old(board)@, row as int, col as int, player) == Err::<
                nat,
                MoveError,
            >(reason),
        },
        result is Ok <==> legal_move(old(board)@, row as int, col as int, player),
        result is Err ==> final(board)@ == old(board)@,
        final(board)@ == place_grid(old(board)@, row as int, col as int, player),
        result matches Ok(count) ==> {
            &&& count >= 1
            &&& count_cells(final(board)@, player.cell()) == count_cells(
                old(board)@,
                player.cell(),
            ) + count + 1
            &&& count_cells(final(board)@, player.opponent().cell()) + count == count_cells(
                old(board)@,
                player.opponent().cell(),
            )
        },
{
    let size = board.size();
    if board.get(row, col) != Cell::Empty {
        return Err(MoveError::Occupied);
    }
    let count = count_captures(board, row, col, player);
    if count == 0 {
        return Err(MoveError::NoCapture);
    }
    proof {
        lemma_placement_counts(board@, size as nat, row as int, col as int, player);
    }
    let _ = try_capture(board, row, col, player);
    board.set(row, col, player.cell());
    Ok(count)
}

/// The lines that leave one square in two different directions share no
/// square.
pub proof fn lemma_lines_disjoint(r: int, c: int, d1: Direction, k1: int, d2: Direction, k2: int)
    requires
        d1 != d2,
        k1 >= 1,
        k2 >= 1,
    ensures
        d1.ray_row(r, k1) != d2.ray_row(r, k2) || d1.ray_col(c, k1) != d2.ray_col(c, k2),
{
}

/// A line never comes back to the square it leaves.
pub proof fn lemma_line_misses_origin(r: int, c: int, d: Direction, n: int)
    ensures
        !on_line(r, c, d, n, r, c),
{
}

/// The captures of a placement add up to a positive number just when some
/// direction captures.
pub proof fn lemma_total_count_positive(g: Grid, r: int, c: int, p: Player)
    ensures
        total_count(g, r, c, p) > 0 <==> any_capture(g, r, c, p),
{
    reveal(line_count);
    if any_capture(g, r, c, p) {
        let d = choose|d: Direction| line_captures(g, r, c, d, p);
        let n = choose|n: int| captures(g, r, c, d, p, n);
        lemma_line_count(g, r, c, d, p, n);
    }
}

/// The directions capture independently of each other: a capture made in
/// one direction changes neither whether another direction captures nor how
/// many pieces, and captures in two directions give the same grid in either
/// order.
pub proof fn lemma_lines_independent(
    g: Grid,
    size: nat,
    r: int,
    c: int,
    p: Player,
    d1: Direction,
    d2: Direction,
)
    requires
        is_square(g, size),
        d1 != d2,
    ensures
        line_captures(flip_line(g, r, c, d1, p), r, c, d2, p) == line_captures(g, r, c, d2, p),
        line_count(flip_line(g, r, c, d1, p), r, c, d2, p) == line_count(g, r, c, d2, p),
        flip_line(flip_line(g, r, c, d1, p), r, c, d2, p) == flip_line(
            flip_line(g, r, c, d2, p),
            r,
            c,
            d1,
            p,
        ),
{
    lemma_flip_keeps_other_line(g, size, r, c, p, d1, d2);
    lemma_flip_keeps_other_line(g, size, r, c, p, d2, d1);
    let a = flip_line(flip_line(g, r, c, d1, p), r, c, d2, p);
    let b = flip_line(flip_line(g, r, c, d2, p), r, c, d1, p);
    assert(a =~~= b);
}

/// A refused placement changes nothing, so the same attempt is refused
/// again, and for the same reason.
pub proof fn lemma_refusal_repeats(g: Grid, r: int, c: int, p: Player)
    requires
        place_outcome(g, r, c, p) is Err,
    ensures
        place_grid(g, r, c, p) == g,
        place_outcome(place_grid(g, r, c, p), r, c, p) == place_outcome(g, r, c, p),
{
}

/// A legal placement adds to the player's pieces the captured ones and the
/// new one, takes the captured ones from the opponent's, and fills one empty
/// square.
pub proof fn lemma_placement_counts(g: Grid, size: nat, r: int, c: int, p: Player)
    requires
        is_square(g, size),
        legal_move(g, r, c, p),
    ensures
        is_square(place_grid(g, r, c, p), size),
        count_cells(place_grid(g, r, c, p), p.cell()) == count_cells(g, p.cell()) + total_count(
            g,
            r,
            c,
            p,
        ) + 1,
        count_cells(place_grid(g, r, c, p), p.opponent().cell()) + total_count(g, r, c, p)
            == count_cells(g, p.opponent().cell()),
        count_cells(place_grid(g, r, c, p), Cell::Empty) + 1 == count_cells(g, Cell::Empty),
{
    let flipped = flip_all(g, r, c, p);
    lemma_flip_among_all(g, r, c, p);
    assert(count_among(g, r, c, p, 8) == total_count(g, r, c, p)) by {
        reveal_with_fuel(count_among, 9);
    }
    lemma_flip_among_counts(g, size, r, c, p, 8, p.cell());
    lemma_flip_among_counts(g, size, r, c, p, 8, p.opponent().cell());
    lemma_flip_among_counts(g, size, r, c, p, 8, Cell::Empty);
    assert(!captured(g, r, c, p, r, c)) by {
        if captured(g, r, c, p, r, c) {
            let d = choose|d: Direction| captured_on(g, r, c, d, p, r, c);
            lemma_line_misses_origin(r, c, d, line_count(g, r, c, d, p) as int);
        }
    }
    assert(flipped[r][c] == Cell::Empty);
    lemma_count_with_cell(flipped, r, c, p.cell(), p.cell());
    lemma_count_with_cell(flipped, r, c, p.cell(), p.opponent().cell());
    lemma_count_with_cell(flipped, r, c, p.cell(), Cell::Empty);
}

/// Square `(i, j)` is captured in one of the first `t` directions.
spec fn captured_among(g: Grid, r: int, c: int, p: Player, t: int, i: int, j: int) -> bool {
    exists|d: Direction| d.index() < t && captured_on(g, r, c, d, p, i, j)
}

/// `g` after the captures in the first `t` directions.
spec fn flip_among(g: Grid, r: int, c: int, p: Player, t: int) -> Grid {
    Seq::new(
        g.len(),
        |i: int|
            Seq::new(
                g[i].len(),
                |j: int| if captured_among(g, r, c, p, t, i, j) { p.cell() } else { g[i][j] },
            ),
    )
}

/// Some of the first `t` directions captures.
spec fn any_capture_among(g: Grid, r: int, c: int, p: Player, t: int) -> bool {
    exists|d: Direction| d.index() < t && line_captures(g, r, c, d, p)
}

/// The number of pieces captured in the first `t` directions.
spec fn count_among(g: Grid, r: int, c: int, p: Player, t: int) -> nat
    decreases t,
{
    if t <= 0 {
        0
    } else {
        count_among(g, r, c, p, t - 1) + line_count(g, r, c, Direction::spec_from_index(t - 1), p)
    }
}

/// Eight lines of a board whose squares can be counted can be counted too.
proof fn lemma_eight_sides_fit(n: usize)
    requires
        fits(n),
    ensures
        8 * n <= usize::MAX,
{
    reveal(fits);
    if n >= 8 {
        assert(8 * n <= n * n) by (nonlinear_arith)
            requires
                n >= 8,
        ;
    }
}

/// Two grids that agree along a line give the same capture along it.
proof fn lemma_same_line(g1: Grid, g2: Grid, r: int, c: int, d: Direction, p: Player)
    requires
        forall|k: int| k >= 1 ==> #[trigger] ray_cell(g1, r, c, d, k) == ray_cell(g2, r, c, d, k),
    ensures
        line_captures(g1, r, c, d, p) == line_captures(g2, r, c, d, p),
        line_count(g1, r, c, d, p) == line_count(g2, r, c, d, p),
{
    reveal(line_count);
    assert forall|n: int| captures(g1, r, c, d, p, n) == captures(g2, r, c, d, p, n) by {
        if captures(g1, r, c, d, p, n) {
            assert forall|k: int| 1 <= k <= n implies #[trigger] ray_cell(g2, r, c, d, k)
                == p.opponent().cell() by {
                assert(ray_cell(g1, r, c, d, k) == ray_cell(g2, r, c, d, k));
            }
            assert(ray_cell(g1, r, c, d, n + 1) == ray_cell(g2, r, c, d, n + 1));
        }
        if captures(g2, r, c, d, p, n) {
            assert forall|k: int| 1 <= k <= n implies #[trigger] ray_cell(g1, r, c, d, k)
                == p.opponent().cell() by {
                assert(ray_cell(g1, r, c, d, k) == ray_cell(g2, r, c, d, k));
            }
            assert(ray_cell(g1, r, c, d, n + 1) == ray_cell(g2, r, c, d, n + 1));
        }
    }
    if line_captures(g1, r, c, d, p) {
        let n = choose|n: int| captures(g1, r, c, d, p, n);
        assert(captures(g2, r, c, d, p, n));
        lemma_line_count(g1, r, c, d, p, n);
        lemma_line_count(g2, r, c, d, p, n);
    } else if line_captures(g2, r, c, d, p) {
        let n = choose|n: int| captures(g2, r, c, d, p, n);
        assert(captures(g1, r, c, d, p, n));
    }
}

/// A capture made in direction `d1` leaves every square of the line in
/// another direction `d2` as it was.
proof fn lemma_flip_keeps_other_line(
    g: Grid,
    size: nat,
    r: int,
    c: int,
    p: Player,
    d1: Direction,
    d2: Direction,
)
    requires
        is_square(g, size),
        d1 != d2,
    ensures
        line_captures(flip_line(g, r, c, d1, p), r, c, d2, p) == line_captures(g, r, c, d2, p),
        line_count(flip_line(g, r, c, d1, p), r, c, d2, p) == line_count(g, r, c, d2, p),
{
    let flipped = flip_line(g, r, c, d1, p);
    let n1 = line_count(g, r, c, d1, p) as int;
    assert forall|k: int| k >= 1 implies #[trigger] ray_cell(flipped, r, c, d2, k) == ray_cell(
        g,
        r,
        c,
        d2,
        k,
    ) by {
        let i = d2.ray_row(r, k);
        let j = d2.ray_col(c, k);
        if in_bounds(g, i, j) && on_line(r, c, d1, n1, i, j) {
            let m = lemma_step_on_line(r, c, d1, n1, i, j);
            lemma_lines_disjoint(r, c, d2, k, d1, m);
        }
    }
    lemma_same_line(flipped, g, r, c, d2, p);
}

/// The captures in the first `t` directions leave every square of the line
/// in a later direction as it was.
proof fn lemma_flip_among_keeps_line(
    g: Grid,
    size: nat,
    r: int,
    c: int,
    p: Player,
    t: int,
    d: Direction,
)
    requires
        is_square(g, size),
        d.index() >= t,
    ensures
        line_captures(flip_among(g, r, c, p, t), r, c, d, p) == line_captures(g, r, c, d, p),
        line_count(flip_among(g, r, c, p, t), r, c, d, p) == line_count(g, r, c, d, p),
{
    let before = flip_among(g, r, c, p, t);
    assert forall|k: int| k >= 1 implies #[trigger] ray_cell(before, r, c, d, k) == ray_cell(
        g,
        r,
        c,
        d,
        k,
    ) by {
        let i = d.ray_row(r, k);
        let j = d.ray_col(c, k);
        if in_bounds(g, i, j) && captured_among(g, r, c, p, t, i, j) {
            let e = choose|e: Direction| e.index() < t && captured_on(g, r, c, e, p, i, j);
            let m = lemma_step_on_line(r, c, e, line_count(g, r, c, e, p) as int, i, j);
            lemma_lines_disjoint(r, c, d, k, e, m);
        }
    }
    lemma_same_line(before, g, r, c, d, p);
}

/// A square is captured in one of the first `t + 1` directions just when it
/// is captured in one of the first `t` or in the one after them.
proof fn lemma_captured_among_next(g: Grid, r: int, c: int, p: Player, t: int, i: int, j: int)
    requires
        0 <= t < 8,
    ensures
        captured_among(g, r, c, p, t + 1, i, j) <==> captured_among(g, r, c, p, t, i, j)
            || captured_on(g, r, c, Direction::spec_from_index(t), p, i, j),
{
    let d = Direction::spec_from_index(t);
    if captured_among(g, r, c, p, t + 1, i, j) {
        let e = choose|e: Direction| e.index() < t + 1 && captured_on(g, r, c, e, p, i, j);
        if e.index() < t {
            assert(captured_among(g, r, c, p, t, i, j));
        } else {
            assert(e == d);
        }
    }
    if captured_among(g, r, c, p, t, i, j) {
        let e = choose|e: Direction| e.index() < t && captured_on(g, r, c, e, p, i, j);
        assert(e.index() < t + 1 && captured_on(g, r, c, e, p, i, j));
    }
    if captured_on(g, r, c, d, p, i, j) {
        assert(d.index() < t + 1 && captured_on(g, r, c, d, p, i, j));
    }
}

/// The captures in one more direction, made on a grid on which those of the
/// earlier directions were already made, are those that the untouched grid
/// asks for.
proof fn lemma_flip_next(g: Grid, size: nat, r: int, c: int, p: Player, t: int)
    requires
        is_square(g, size),
        0 <= t < 8,
    ensures
        is_square(flip_among(g, r, c, p, t), size),
        line_captures(flip_among(g, r, c, p, t), r, c, Direction::spec_from_index(t), p)
            == line_captures(g, r, c, Direction::spec_from_index(t), p),
        line_count(flip_among(g, r, c, p, t), r, c, Direction::spec_from_index(t), p)
            == line_count(g, r, c, Direction::spec_from_index(t), p),
        flip_line(flip_among(g, r, c, p, t), r, c, Direction::spec_from_index(t), p) == flip_among(
            g,
            r,
            c,
            p,
            t + 1,
        ),
{
    let d = Direction::spec_from_index(t);
    lemma_flip_among_keeps_line(g, size, r, c, p, t, d);
    let a = flip_line(flip_among(g, r, c, p, t), r, c, d, p);
    let b = flip_among(g, r, c, p, t + 1);
    assert(a.len() == b.len());
    assert forall|i: int| 0 <= i < a.len() implies a[i] == b[i] by {
        assert(a[i].len() == b[i].len());
        assert forall|j: int| 0 <= j < a[i].len() implies a[i][j] == b[i][j] by {
            lemma_captured_among_next(g, r, c, p, t, i, j);
        }
        assert(a[i] =~= b[i]);
    }
    assert(a =~= b);
}

/// The first eight directions are all of them.
proof fn lemma_flip_among_all(g: Grid, r: int, c: int, p: Player)
    ensures
        flip_among(g, r, c, p, 8) == flip_all(g, r, c, p),
        any_capture_among(g, r, c, p, 8) == any_capture(g, r, c, p),
{
    let a = flip_among(g, r, c, p, 8);
    let b = flip_all(g, r, c, p);
    assert forall|i: int| 0 <= i < a.len() implies a[i] == b[i] by {
        assert forall|j: int| 0 <= j < a[i].len() implies a[i][j] == b[i][j] by {
            if captured(g, r, c, p, i, j) {
                let e = choose|e: Direction| captured_on(g, r, c, e, p, i, j);
                assert(e.index() < 8 && captured_on(g, r, c, e, p, i, j));
            }
        }
        assert(a[i] =~= b[i]);
    }
    assert(a =~= b);
    if any_capture(g, r, c, p) {
        let e = choose|e: Direction| line_captures(g, r, c, e, p);
        assert(e.index() < 8 && line_captures(g, r, c, e, p));
    }
}

/// The captures in the first `t` directions move that many pieces from the
/// opponent's count to the player's.
proof fn lemma_flip_among_counts(g: Grid, size: nat, r: int, c: int, p: Player, t: int, x: Cell)
    requires
        is_square(g, size),
        0 <= r < size,
        0 <= c < size,
        0 <= t <= 8,
    ensures
        count_cells(flip_among(g, r, c, p, t), x) == count_cells(g, x) + count_change(
            p,
            count_among(g, r, c, p, t) as int,
            x,
        ),
    decreases t,
{
    if t == 0 {
        assert(flip_among(g, r, c, p, 0) =~~= g);
    } else {
        lemma_flip_among_counts(g, size, r, c, p, t - 1, x);
        lemma_flip_next(g, size, r, c, p, t - 1);
        lemma_flip_line_counts(
            flip_among(g, r, c, p, t - 1),
            size,
            r,
            c,
            Direction::spec_from_index(t - 1),
            p,
            x,
        );
    }
}

} // verus!
