//! The eight directions in which a line of pieces can be captured.

use vstd::prelude::*;

verus! {

/// One of the eight unit steps on the board. Rows grow downwards, columns
/// grow to the right.
#[derive(Clone, Copy, Debug, PartialEq, Eq, Structural)]
pub enum Direction {
    Up,
    UpRight,
    Right,
    DownRight,
    Down,
    DownLeft,
    Left,
    UpLeft,
}

impl Direction {
    /// The change of the row in one step: -1, 0 or 1.
    pub open spec fn d_row(self) -> int {
        match self {
            Direction::Up | Direction::UpRight | Direction::UpLeft => -1,
            Direction::Down | Direction::DownRight | Direction::DownLeft => 1,
            Direction::Left | Direction::Right => 0,
        }
    }

    /// The change of the column in one step: -1, 0 or 1.
    pub open spec fn d_col(self) -> int {
        match self {
            Direction::Left | Direction::UpLeft | Direction::DownLeft => -1,
            Direction::Right | Direction::UpRight | Direction::DownRight => 1,
            Direction::Up | Direction::Down => 0,
        }
    }

    /// The row reached from row `r` after `k` steps.
    pub open spec fn ray_row(self, r: int, k: int) -> int {
        match self {
            Direction::Up | Direction::UpRight | Direction::UpLeft => r - k,
            Direction::Down | Direction::DownRight | Direction::DownLeft => r + k,
            Direction::Left | Direction::Right => r,
        }
    }

    /// The column reached from column `c` after `k` steps.
    pub open spec fn ray_col(self, c: int, k: int) -> int {
        match self {
            Direction::Left | Direction::UpLeft | Direction::DownLeft => c - k,
            Direction::Right | Direction::UpRight | Direction::DownRight => c + k,
            Direction::Up | Direction::Down => c,
        }
    }

    /// The directions in clockwise order, starting with `Up`.
    pub open spec fn spec_from_index(i: int) -> Direction {
        if i == 0 {
            Direction::Up
        } else if i == 1 {
            Direction::UpRight
        } else if i == 2 {
            Direction::Right
        } else if i == 3 {
            Direction::DownRight
        } else if i == 4 {
            Direction::Down
        } else if i == 5 {
            Direction::DownLeft
        } else if i == 6 {
            Direction::Left
        } else {
            Direction::UpLeft
        }
    }

    /// The place of this direction in the clockwise order.
    pub open spec fn index(self) -> int {
        match self {
            Direction::Up => 0,
            Direction::UpRight => 1,
            Direction::Right => 2,
            Direction::DownRight => 3,
            Direction::Down => 4,
            Direction::DownLeft => 5,
            Direction::Left => 6,
            Direction::UpLeft => 7,
        }
    }

    /// A line advances by the direction's unit step: after `k` steps it has
    /// moved by `k` times the step, and no step leaves a square where it is.
    pub proof fn lemma_ray_steps(self, r: int, c: int, k: int)
        ensures
            self.ray_row(r, k) == r + k * self.d_row(),
            self.ray_col(c, k) == c + k * self.d_col(),
            self.d_row() != 0 || self.d_col() != 0,
    {
    }

    /// Each direction has its own place among the eight.
    pub proof fn lemma_index(self)
        ensures
            0 <= self.index() < 8,
            Direction::spec_from_index(self.index()) == self,
    {
    }

    /// The `i`-th direction in clockwise order, starting with `Up`.
    pub fn from_index(i: usize) -> (dir: Direction)
        requires
            i < 8,
        ensures
            dir == Direction::spec_from_index(i as int),
            dir.index() == i,
    {
        if i == 0 {
            Direction::Up
        } else if i == 1 {
            Direction::UpRight
        } else if i == 2 {
            Direction::Right
        } else if i == 3 {
            Direction::DownRight
        } else if i == 4 {
            Direction::Down
        } else if i == 5 {
            Direction::DownLeft
        } else if i == 6 {
            Direction::Left
        } else {
            Direction::UpLeft
        }
    }

    /// The square one step from `(row, col)` on a board of side `size`, or
    /// `None` where that step leaves the board.
    pub fn step(self, row: usize, col: usize, size: usize) -> (next: Option<(usize, usize)>)
        requires
            row < size,
            col < size,
        ensures
            match next {
                Some((r, c)) => {
                    &&& r == self.ray_row(row as int, 1)
                    &&& c == self.ray_col(col as int, 1)
                    &&& r < size
                    &&& c < size
                },
                None => {
                    ||| !(0 <= self.ray_row(row as int, 1) < size)
                    ||| !(0 <= self.ray_col(col as int, 1) < size)
                },
            },
    {
        let r: usize = match self {
            Direction::Up | Direction::UpRight | Direction::UpLeft => {
                if row == 0 {
                    return None;
                }
                row - 1
            },
            Direction::Down | Direction::DownRight | Direction::DownLeft => {
                if row + 1 >= size {
                    return None;
                }
                row + 1
            },
            Direction::Left | Direction::Right => row,
        };
        let c: usize = match self {
            Direction::Left | Direction::UpLeft | Direction::DownLeft => {
                if col == 0 {
                    return None;
                }
                col - 1
            },
            Direction::Right | Direction::UpRight | Direction::DownRight => {
                if col + 1 >= size {
                    return None;
                }
                col + 1
            },
            Direction::Up | Direction::Down => col,
        };
        Some((r, c))
    }
}

} // verus!
