//! The capture engine: which lines a placement captures, and the flips.

use vstd::prelude::*;
use crate::cell::{Cell, Player};
use crate::grid::{Grid, is_square, in_bounds, cell_at, with_cell};
use crate::direction::Direction;
use crate::board::Board;
use crate::score::{count_cells, lemma_count_with_cell};

verus! {

/// The content of the square `k` steps from `(r, c)` in direction `d`.
pub open spec fn ray_cell(g: Grid, r: int, c: int, d: Direction, k: int) -> Cell {
    cell_at(g, d.ray_row(r, k), d.ray_col(c, k))
}

/// Placing a piece of `p` on `(r, c)` captures exactly `n` pieces in
/// direction `d`: the `n >= 1` squares next to `(r, c)` hold the opponent's
/// pieces and the square after them holds a piece of `p`.
pub open spec fn captures(g: Grid, r: int, c: int, d: Direction, p: Player, n: int) -> bool {
    &&& n >= 1
    &&& forall|k: int| 1 <= k <= n ==> #[trigger] ray_cell(g, r, c, d, k) == p.opponent().cell()
    &&& ray_cell(g, r, c, d, n + 1) == p.cell()
}

/// Direction `d` contributes a capture to a placement of `p` on `(r, c)`.
pub open spec fn line_captures(g: Grid, r: int, c: int, d: Direction, p: Player) -> bool {
    exists|n: int| captures(g, r, c, d, p, n)
}

/// The number of pieces that a placement of `p` on `(r, c)` captures in
/// direction `d`; 0 where the line captures nothing.
#[verifier::opaque]
pub open spec fn line_count(g: Grid, r: int, c: int, d: Direction, p: Player) -> nat {
    if line_captures(g, r, c, d, p) {
        (choose|n: int| captures(g, r, c, d, p, n)) as nat
    } else {
        0
    }
}

/// Square `(i, j)` is one of the first `n` squares of the line that leaves
/// `(r, c)` in direction `d`.
pub open spec fn on_line(r: int, c: int, d: Direction, n: int, i: int, j: int) -> bool {
    exists|k: int| 1 <= k <= n && #[trigger] d.ray_row(r, k) == i && d.ray_col(c, k) == j
}

/// Square `(i, j)` holds a piece that a placement of `p` on `(r, c)`
/// captures in direction `d`.
pub open spec fn captured_on(
    g: Grid,
    r: int,
    c: int,
    d: Direction,
    p: Player,
    i: int,
    j: int,
) -> bool {
    on_line(r, c, d, line_count(g, r, c, d, p) as int, i, j)
}

/// `g` with the first `n` squares of the line from `(r, c)` in direction `d`
/// set to `v`, as far as they lie on the board.
pub open spec fn paint_line(g: Grid, r: int, c: int, d: Direction, n: int, v: Cell) -> Grid {
    Seq::new(
        g.len(),
        |i: int| Seq::new(g[i].len(), |j: int| if on_line(r, c, d, n, i, j) { v } else { g[i][j] }),
    )
}

/// `g` after the pieces that a placement of `p` on `(r, c)` captures in
/// direction `d` have changed owner. The square `(r, c)` itself is not
/// touched.
pub open spec fn flip_line(g: Grid, r: int, c: int, d: Direction, p: Player) -> Grid {
    paint_line(g, r, c, d, line_count(g, r, c, d, p) as int, p.cell())
}

/// The square `m` steps away holds a piece of `p` that closes a run of the
/// opponent's pieces: every square between it and `(r, c)` holds one, so
/// none of them is empty or off the board.
pub open spec fn closes_run(g: Grid, r: int, c: int, d: Direction, p: Player, m: int) -> bool {
    &&& m >= 2
    &&& ray_cell(g, r, c, d, m) == p.cell()
    &&& forall|k: int| 1 <= k < m ==> #[trigger] ray_cell(g, r, c, d, k) == p.opponent().cell()
}

/// The number by which a capture of `n` pieces changes the count of the
/// squares that hold `x`: as many more of the player's, as many fewer of
/// the opponent's.
pub open spec fn count_change(p: Player, n: int, x: Cell) -> int {
    if x == p.cell() {
        n
    } else if x == p.opponent().cell() {
        -n
    } else {
        0
    }
}

/// The number of pieces that `player` would capture in direction `dir` by
/// placing a piece on `(row, col)`. The board is only read.
pub fn count_line(board: &Board, row: usize, col: usize, dir: Direction, player: Player) -> (count:
    usize)
    requires
        row < board.spec_size(),
        col < board.spec_size(),
    ensures
        count == line_count(board@, row as int, col as int, dir, player),
        count < board.spec_size(),
{
    let size = board.size();
    let own = player.cell();
    let other = player.opponent().cell();
    let ghost g = board@;
    let mut r = row;
    let mut c = col;
    let mut count: usize = 0;
    loop
        invariant
            g == board@,
            size == board.spec_size(),
            is_square(g, size as nat),
            own == player.cell(),
            other == player.opponent().cell(),
            row < size,
            col < size,
            r < size,
            c < size,
            r == dir.ray_row(row as int, count as int),
            c == dir.ray_col(col as int, count as int),
            forall|k: int|
                1 <= k <= count ==> #[trigger] ray_cell(g, row as int, col as int, dir, k)
                    == other,
        decreases size - count,
    {
        let stepped = dir.step(r, c, size);
        let ghost k1 = count as int + 1;
        match stepped {
            None => {
                proof {
                    assert(ray_cell(g, row as int, col as int, dir, k1) == Cell::Empty);
                    lemma_no_capture(g, row as int, col as int, dir, player, k1);
                }
                return 0;
            },
            Some((nr, nc)) => {
                let cell = board.get(nr, nc);
                assert(cell == ray_cell(g, row as int, col as int, dir, k1));
                if cell == other {
                    count = count + 1;
                    r = nr;
                    c = nc;
                } else if cell == own && count > 0 {
                    proof {
                        lemma_line_count(g, row as int, col as int, dir, player, count as int);
                        lemma_line_count_bound(g, size as nat, row as int, col as int, dir, player);
                    }
                    return count;
                } else {
                    proof {
                        if cell == own {
                            lemma_no_capture_adjacent(g, row as int, col as int, dir, player);
                        } else {
                            lemma_no_capture(g, row as int, col as int, dir, player, k1);
                        }
                    }
                    return 0;
                }
            },
        }
    }
}

/// Scans the line that leaves `(row, col)` in direction `dir` and, where a
/// placement of `player` on `(row, col)` captures it, turns the captured
/// pieces over. Returns whether the line was captured.
pub fn check(board: &mut Board, row: usize, col: usize, dir: Direction, player: Player) -> (captured:
    bool)
    requires
        row < old(board).spec_size(),
        col < old(board).spec_size(),
    ensures
        final(board).spec_size() == old(board).spec_size(),
        captured == line_captures(old(board)@, row as int, col as int, dir, player),
        final(board)@ == flip_line(old(board)@, row as int, col as int, dir, player),
{
    let count = count_line(board, row, col, dir, player);
    let own = player.cell();
    let size = board.size();
    let ghost g = board@;
    proof {
        lemma_line_count_bound(g, size as nat, row as int, col as int, dir, player);
        assert(paint_line(g, row as int, col as int, dir, 0, own) =~~= g);
    }
    let mut r = row;
    let mut c = col;
    let mut k: usize = 0;
    while k < count
        invariant
            size == board.spec_size(),
            size == old(board).spec_size(),
            is_square(g, size as nat),
            g == old(board)@,
            own == player.cell(),
            k <= count,
            count == line_count(g, row as int, col as int, dir, player),
            count > 0 ==> captures(g, row as int, col as int, dir, player, count as int),
            r < size,
            c < size,
            r == dir.ray_row(row as int, k as int),
            c == dir.ray_col(col as int, k as int),
            board@ == paint_line(g, row as int, col as int, dir, k as int, own),
        decreases count - k,
    {
        let ghost k1 = k as int + 1;
        proof {
            assert(ray_cell(g, row as int, col as int, dir, k1) == player.opponent().cell());
            assert(in_bounds(g, dir.ray_row(row as int, k1), dir.ray_col(col as int, k1)));
            lemma_paint_step(g, size as nat, row as int, col as int, dir, k as int, own);
        }
        match dir.step(r, c, size) {
            Some((nr, nc)) => {
                board.set(nr, nc, own);
                r = nr;
                c = nc;
            },
            None => {
                assert(false);
            },
        }
        k = k + 1;
    }
    count > 0
}

/// A line captures at most one run of pieces.
pub proof fn lemma_captures_unique(g: Grid, r: int, c: int, d: Direction, p: Player, n: int, m: int)
    requires
        captures(g, r, c, d, p, n),
        captures(g, r, c, d, p, m),
    ensures
        n == m,
{
    if n < m {
        assert(ray_cell(g, r, c, d, n + 1) == p.opponent().cell());
    } else if m < n {
        assert(ray_cell(g, r, c, d, m + 1) == p.opponent().cell());
    }
}

/// `line_count` is the length of the captured run where there is one.
pub proof fn lemma_line_count(g: Grid, r: int, c: int, d: Direction, p: Player, n: int)
    requires
        captures(g, r, c, d, p, n),
    ensures
        line_captures(g, r, c, d, p),
        line_count(g, r, c, d, p) == n,
{
    reveal(line_count);
    let m = choose|m: int| captures(g, r, c, d, p, m);
    lemma_captures_unique(g, r, c, d, p, n, m);
}

/// A captured run and the piece that closes it lie on the board, so the run
/// is shorter than the board's side by at least two.
pub proof fn lemma_line_count_bound(g: Grid, n: nat, r: int, c: int, d: Direction, p: Player)
    requires
        is_square(g, n),
        0 <= r < n,
        0 <= c < n,
    ensures
        line_count(g, r, c, d, p) > 0 <==> line_captures(g, r, c, d, p),
        line_count(g, r, c, d, p) > 0 ==> captures(g, r, c, d, p, line_count(g, r, c, d, p) as int),
        line_count(g, r, c, d, p) + 2 <= n || line_count(g, r, c, d, p) == 0,
{
    reveal(line_count);
    if line_captures(g, r, c, d, p) {
        let m = choose|m: int| captures(g, r, c, d, p, m);
        assert(ray_cell(g, r, c, d, m + 1) == p.cell());
        assert(in_bounds(g, d.ray_row(r, m + 1), d.ray_col(c, m + 1)));
    }
}

/// A direction captures just when the square next to `(r, c)` holds a piece
/// of the opponent and a piece of the player closes the run that starts
/// there, before any empty square and before the edge of the board.
pub proof fn lemma_line_captures_iff(g: Grid, r: int, c: int, d: Direction, p: Player)
    ensures
        line_captures(g, r, c, d, p) <==> {
            &&& ray_cell(g, r, c, d, 1) == p.opponent().cell()
            &&& exists|m: int| closes_run(g, r, c, d, p, m)
        },
{
    if line_captures(g, r, c, d, p) {
        let n = choose|n: int| captures(g, r, c, d, p, n);
        assert(ray_cell(g, r, c, d, 1) == p.opponent().cell());
        assert(closes_run(g, r, c, d, p, n + 1));
    }
    if exists|m: int| closes_run(g, r, c, d, p, m) {
        let m = choose|m: int| closes_run(g, r, c, d, p, m);
        assert(captures(g, r, c, d, p, m - 1));
    }
}

/// The squares that the capture in one direction changes are those of the
/// captured run, and there are some just when the direction captures. Each
/// held a piece of the opponent and then holds one of the player.
pub proof fn lemma_flip_line_changes(g: Grid, n: nat, r: int, c: int, d: Direction, p: Player)
    requires
        is_square(g, n),
        0 <= r < n,
        0 <= c < n,
    ensures
        is_square(flip_line(g, r, c, d, p), n),
        forall|i: int, j: int|
            in_bounds(g, i, j) ==> (#[trigger] flip_line(g, r, c, d, p)[i][j] != g[i][j]
                <==> captured_on(g, r, c, d, p, i, j)),
        forall|i: int, j: int|
            in_bounds(g, i, j) && #[trigger] captured_on(g, r, c, d, p, i, j) ==> {
                &&& g[i][j] == p.opponent().cell()
                &&& flip_line(g, r, c, d, p)[i][j] == p.cell()
            },
        flip_line(g, r, c, d, p) != g <==> line_captures(g, r, c, d, p),
{
    let f = flip_line(g, r, c, d, p);
    let n_line = line_count(g, r, c, d, p) as int;
    lemma_line_count_bound(g, n, r, c, d, p);
    assert forall|i: int, j: int|
        in_bounds(g, i, j) && #[trigger] captured_on(g, r, c, d, p, i, j) implies {
        &&& g[i][j] == p.opponent().cell()
        &&& f[i][j] == p.cell()
    } by {
        let k = lemma_step_on_line(r, c, d, n_line, i, j);
        assert(ray_cell(g, r, c, d, k) == p.opponent().cell());
    }
    if line_captures(g, r, c, d, p) {
        let i = d.ray_row(r, 1);
        let j = d.ray_col(c, 1);
        assert(ray_cell(g, r, c, d, 1) == p.opponent().cell());
        assert(1 <= 1 <= n_line && d.ray_row(r, 1) == i && d.ray_col(c, 1) == j);
        assert(on_line(r, c, d, n_line, i, j));
        assert(f[i][j] != g[i][j]);
    } else {
        assert(f =~~= g);
    }
}

/// The capture in one direction moves the captured pieces from the
/// opponent's count to the player's and changes no other count.
pub proof fn lemma_flip_line_counts(
    g: Grid,
    size: nat,
    r: int,
    c: int,
    d: Direction,
    p: Player,
    x: Cell,
)
    requires
        is_square(g, size),
        0 <= r < size,
        0 <= c < size,
    ensures
        count_cells(flip_line(g, r, c, d, p), x) == count_cells(g, x) + count_change(
            p,
            line_count(g, r, c, d, p) as int,
            x,
        ),
{
    let n = line_count(g, r, c, d, p) as int;
    lemma_line_count_bound(g, size, r, c, d, p);
    if n > 0 {
        lemma_paint_counts(g, size, r, c, d, p, n, n, x);
    } else {
        assert(flip_line(g, r, c, d, p) =~~= g);
    }
}

/// The step at which a line reaches a square that lies on it.
pub proof fn lemma_step_on_line(r: int, c: int, d: Direction, n: int, i: int, j: int) -> (k: int)
    requires
        on_line(r, c, d, n, i, j),
    ensures
        1 <= k <= n,
        d.ray_row(r, k) == i,
        d.ray_col(c, k) == j,
{
    choose|k: int| 1 <= k <= n && #[trigger] d.ray_row(r, k) == i && d.ray_col(c, k) == j
}

/// A run that is broken at step `k` by a square that holds no piece
/// captures nothing.
proof fn lemma_no_capture(g: Grid, r: int, c: int, d: Direction, p: Player, k: int)
    requires
        k >= 1,
        forall|j: int| 1 <= j < k ==> #[trigger] ray_cell(g, r, c, d, j) == p.opponent().cell(),
        ray_cell(g, r, c, d, k) == Cell::Empty,
    ensures
        !line_captures(g, r, c, d, p),
        line_count(g, r, c, d, p) == 0,
{
    reveal(line_count);
    assert forall|n: int| !captures(g, r, c, d, p, n) by {
        if captures(g, r, c, d, p, n) {
            if n >= k {
                assert(ray_cell(g, r, c, d, k) == p.opponent().cell());
            } else {
                assert(ray_cell(g, r, c, d, n + 1) == p.cell());
                if n + 1 < k {
                    assert(ray_cell(g, r, c, d, n + 1) == p.opponent().cell());
                }
            }
        }
    }
}

/// A line whose first square holds the player's own piece captures nothing.
proof fn lemma_no_capture_adjacent(g: Grid, r: int, c: int, d: Direction, p: Player)
    requires
        ray_cell(g, r, c, d, 1) == p.cell(),
    ensures
        !line_captures(g, r, c, d, p),
        line_count(g, r, c, d, p) == 0,
{
    reveal(line_count);
    assert forall|n: int| !captures(g, r, c, d, p, n) by {
        if captures(g, r, c, d, p, n) {
            assert(ray_cell(g, r, c, d, 1) == p.opponent().cell());
        }
    }
}

/// Painting one more square of a line.
proof fn lemma_paint_step(g: Grid, size: nat, r: int, c: int, d: Direction, n: int, v: Cell)
    requires
        is_square(g, size),
        n >= 0,
        in_bounds(g, d.ray_row(r, n + 1), d.ray_col(c, n + 1)),
    ensures
        with_cell(paint_line(g, r, c, d, n, v), d.ray_row(r, n + 1), d.ray_col(c, n + 1), v)
            == paint_line(g, r, c, d, n + 1, v),
{
    let a = with_cell(paint_line(g, r, c, d, n, v), d.ray_row(r, n + 1), d.ray_col(c, n + 1), v);
    let b = paint_line(g, r, c, d, n + 1, v);
    let ri = d.ray_row(r, n + 1);
    let ci = d.ray_col(c, n + 1);
    assert(a.len() == b.len());
    assert forall|i: int| 0 <= i < a.len() implies a[i] == b[i] by {
        assert(a[i].len() == b[i].len());
        assert forall|j: int| 0 <= j < a[i].len() implies a[i][j] == b[i][j] by {
            if on_line(r, c, d, n, i, j) {
                let k = lemma_step_on_line(r, c, d, n, i, j);
                assert(1 <= k <= n + 1 && d.ray_row(r, k) == i && d.ray_col(c, k) == j);
            }
            if i == ri && j == ci {
                assert(1 <= n + 1 <= n + 1 && d.ray_row(r, n + 1) == i && d.ray_col(c, n + 1) == j);
            }
            if on_line(r, c, d, n + 1, i, j) {
                let k = lemma_step_on_line(r, c, d, n + 1, i, j);
                if k <= n {
                    assert(on_line(r, c, d, n, i, j));
                }
            }
        }
        assert(a[i] =~= b[i]);
    }
    assert(a =~= b);
}

/// Painting the first `k` squares of a captured run moves `k` squares from
/// the opponent's count to the player's.
proof fn lemma_paint_counts(
    g: Grid,
    size: nat,
    r: int,
    c: int,
    d: Direction,
    p: Player,
    n: int,
    k: int,
    x: Cell,
)
    requires
        is_square(g, size),
        captures(g, r, c, d, p, n),
        0 <= k <= n,
    ensures
        count_cells(paint_line(g, r, c, d, k, p.cell()), x) == count_cells(g, x) + count_change(
            p,
            k,
            x,
        ),
    decreases k,
{
    if k == 0 {
        assert(paint_line(g, r, c, d, 0, p.cell()) =~~= g);
    } else {
        lemma_paint_counts(g, size, r, c, d, p, n, k - 1, x);
        let before = paint_line(g, r, c, d, k - 1, p.cell());
        let i = d.ray_row(r, k);
        let j = d.ray_col(c, k);
        assert(ray_cell(g, r, c, d, k) == p.opponent().cell());
        assert(in_bounds(g, i, j));
        lemma_paint_step(g, size, r, c, d, k - 1, p.cell());
        assert(!on_line(r, c, d, k - 1, i, j));
        assert(before[i][j] == p.opponent().cell());
        lemma_count_with_cell(before, i, j, p.cell(), x);
    }
}

} // verus!
