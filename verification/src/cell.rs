//! Cell values and the two players.

use vstd::prelude::*;

verus! {

/// One of the two players.
#[derive(Clone, Copy, Debug, PartialEq, Eq, Structural)]
pub enum Player {
    Player1,
    Player2,
}

/// The content of one square of the board.
#[derive(Clone, Copy, Debug, PartialEq, Eq, Structural)]
pub enum Cell {
    Empty,
    Player1,
    Player2,
}

impl Player {
    /// The other player.
    pub open spec fn spec_opponent(self) -> Player {
        match self {
            Player::Player1 => Player::Player2,
            Player::Player2 => Player::Player1,
        }
    }

    /// The cell value that marks a square as owned by this player.
    pub open spec fn spec_cell(self) -> Cell {
        match self {
            Player::Player1 => Cell::Player1,
            Player::Player2 => Cell::Player2,
        }
    }

    /// The other player.
    #[verifier::when_used_as_spec(spec_opponent)]
    pub fn opponent(self) -> (other: Player)
        ensures
            other == self.spec_opponent(),
    {
        match self {
            Player::Player1 => Player::Player2,
            Player::Player2 => Player::Player1,
        }
    }

    /// The cell value that marks a square as owned by this player.
    #[verifier::when_used_as_spec(spec_cell)]
    pub fn cell(self) -> (owned: Cell)
        ensures
            owned == self.spec_cell(),
    {
        match self {
            Player::Player1 => Cell::Player1,
            Player::Player2 => Cell::Player2,
        }
    }
}

} // verus!
