//! Whose turn it is, when a turn is skipped, and when the game ends.

use vstd::prelude::*;
use crate::cell::Player;
use crate::grid::{Grid, is_square};
use crate::board::Board;
use crate::placement::{MoveError, attempt_place, legal_move, place_outcome, place_grid};
use crate::availability::{has_legal_move, can_take_turn};
use crate::score::{Outcome, final_outcome, winner};
use crate::coordinates::{parse_coordinates, get_coordinates};

verus! {

/// The state of a game between two turns. `skipped` says that the turn just
/// before was skipped because its player had no legal move.
#[derive(Clone, Copy, Debug, PartialEq, Eq, Structural)]
pub enum GameState {
    AwaitingPlayer1 { skipped: bool },
    AwaitingPlayer2 { skipped: bool },
    GameOver(Outcome),
}

/// What the caller has to do next.
#[derive(Clone, Copy, Debug, PartialEq, Eq, Structural)]
pub enum Action {
    /// Ask this player for a square and hand it to `take_turn`.
    Prompt(Player),
    /// This player has no legal move: their turn was skipped.
    Skip(Player),
    /// The game is over.
    Finish(Outcome),
}

/// Why a turn was not taken.
#[derive(Clone, Copy, Debug, PartialEq, Eq, Structural)]
pub enum TurnError {
    /// The game is over: nobody is to move.
    GameOver,
    /// The text names no square of the board.
    BadCoordinates,
    /// The rules refuse a piece on the named square.
    Refused(MoveError),
}

impl GameState {
    /// The player who is to move, if the game is not over.
    pub open spec fn awaited(self) -> Option<Player> {
        match self {
            GameState::AwaitingPlayer1 { .. } => Some(Player::Player1),
            GameState::AwaitingPlayer2 { .. } => Some(Player::Player2),
            GameState::GameOver(_) => None,
        }
    }

    /// Whether the turn before this state was skipped.
    pub open spec fn after_skip(self) -> bool {
        match self {
            GameState::AwaitingPlayer1 { skipped } => skipped,
            GameState::AwaitingPlayer2 { skipped } => skipped,
            GameState::GameOver(_) => false,
        }
    }

    /// The state in which `p` is to move.
    pub open spec fn awaiting(p: Player, skipped: bool) -> GameState {
        match p {
            Player::Player1 => GameState::AwaitingPlayer1 { skipped },
            Player::Player2 => GameState::AwaitingPlayer2 { skipped },
        }
    }
}

/// The state after the board was looked at, and what the caller does next.
/// A player who can move is prompted, and the state waits for their move. A
/// player who cannot is skipped, unless the turn before was skipped too:
/// then the game ends, and the counts of the pieces decide it.
pub open spec fn spec_advance(state: GameState, g: Grid) -> (GameState, Action) {
    match state.awaited() {
        None => (state, Action::Finish(state->GameOver_0)),
        Some(p) => if has_legal_move(g, p) {
            (state, Action::Prompt(p))
        } else if state.after_skip() {
            (GameState::GameOver(final_outcome(g)), Action::Finish(final_outcome(g)))
        } else {
            (GameState::awaiting(p.opponent(), true), Action::Skip(p))
        },
    }
}

/// The state after the awaited player has placed a piece: the other player
/// is to move, and no turn was skipped. A finished game stays finished.
pub open spec fn spec_after_move(state: GameState) -> GameState {
    match state.awaited() {
        None => state,
        Some(p) => GameState::awaiting(p.opponent(), false),
    }
}

/// The state in which a game starts: the first player is to move.
pub fn initial_state() -> (state: GameState)
    ensures
        state == (GameState::AwaitingPlayer1 { skipped: false }),
{
    GameState::AwaitingPlayer1 { skipped: false }
}

/// Looks at the board at the start of a turn and decides what happens:
/// the awaited player moves, is skipped, or the game ends.
pub fn advance(state: GameState, board: &Board) -> (step: (GameState, Action))
    ensures
        step == spec_advance(state, board@),
{
    let (player, skipped) = match state {
        GameState::AwaitingPlayer1 { skipped } => (Player::Player1, skipped),
        GameState::AwaitingPlayer2 { skipped } => (Player::Player2, skipped),
        GameState::GameOver(outcome) => {
            return (state, Action::Finish(outcome));
        },
    };
    if can_take_turn(board, player) {
        (state, Action::Prompt(player))
    } else if skipped {
        let outcome = winner(board);
        (GameState::GameOver(outcome), Action::Finish(outcome))
    } else {
        let next = match player {
            Player::Player1 => GameState::AwaitingPlayer2 { skipped: true },
            Player::Player2 => GameState::AwaitingPlayer1 { skipped: true },
        };
        (next, Action::Skip(player))
    }
}

/// What `take_turn` returns for the text `pos` in state `state` on grid `g`.
pub open spec fn turn_outcome(state: GameState, g: Grid, pos: Seq<char>) -> Result<nat, TurnError> {
    match state.awaited() {
        None => Err(TurnError::GameOver),
        Some(p) => match parse_coordinates(pos, g.len()) {
            None => Err(TurnError::BadCoordinates),
            Some((row, col)) => match place_outcome(g, row, col, p) {
                Ok(count) => Ok(count),
                Err(reason) => Err(TurnError::Refused(reason)),
            },
        },
    }
}

/// The grid after `take_turn`.
pub open spec fn turn_grid(state: GameState, g: Grid, pos: Seq<char>) -> Grid {
    if turn_outcome(state, g, pos) is Ok {
        let (row, col) = parse_coordinates(pos, g.len())->0;
        place_grid(g, row, col, state.awaited()->0)
    } else {
        g
    }
}

/// The awaited player's attempt to place a piece on the square that `pos`
/// names. Where the rules allow it the piece is placed, the captured pieces
/// change owner, their number is returned, and the other player is to move.
/// Otherwise the board and the state stay as they were, and the same player
/// is to be asked again.
pub fn take_turn(state: GameState, board: &mut Board, pos: &str) -> (turn: (
    GameState,
    Result<usize, TurnError>,
))
    ensures
        final(board).spec_size() == old(board).spec_size(),
        match turn.1 {
            Ok(count) => turn_outcome(state, old(board)@, pos@) == Ok::<nat, TurnError>(
                count as nat,
            ),
            Err(reason) => turn_outcome(state, old(board)@, pos@) == Err::<nat, TurnError>(reason),
        },
        final(board)@ == turn_grid(state, old(board)@, pos@),
        turn.0 == if turn.1 is Ok {
            spec_after_move(state)
        } else {
            state
        },
        turn.1 is Err ==> final(board)@ == old(board)@,
{
    let size = board.size();
    let (player, next) = match state {
        GameState::AwaitingPlayer1 { .. } => (
            Player::Player1,
            GameState::AwaitingPlayer2 { skipped: false },
        ),
        GameState::AwaitingPlayer2 { .. } => (
            Player::Player2,
            GameState::AwaitingPlayer1 { skipped: false },
        ),
        GameState::GameOver(_) => {
            return (state, Err(TurnError::GameOver));
        },
    };
    match get_coordinates(pos, size) {
        None => (state, Err(TurnError::BadCoordinates)),
        Some((row, col)) => match attempt_place(board, row, col, player) {
            Ok(count) => (next, Ok(count)),
            Err(reason) => (state, Err(TurnError::Refused(reason))),
        },
    }
}

/// Where neither player has a legal move, looking at the board twice ends
/// the game, whoever was to move, and the counts of the pieces decide it.
pub proof fn lemma_no_moves_end_the_game(state: GameState, g: Grid)
    requires
        state.awaited() is Some,
        !has_legal_move(g, Player::Player1),
        !has_legal_move(g, Player::Player2),
    ensures
        spec_advance(spec_advance(state, g).0, g) == (
            GameState::GameOver(final_outcome(g)),
            Action::Finish(final_outcome(g)),
        ),
{
}

/// The state changes hands only with a move: a turn that places a piece
/// passes the move to the other player, and any other turn leaves state and
/// grid as they were.
pub proof fn lemma_turn_keeps_or_passes(state: GameState, g: Grid, pos: Seq<char>)
    requires
        is_square(g, g.len()),
    ensures
        turn_outcome(state, g, pos) is Err ==> turn_grid(state, g, pos) == g,
        turn_outcome(state, g, pos) is Ok ==> {
            let (row, col) = parse_coordinates(pos, g.len())->0;
            &&& state.awaited() is Some
            &&& legal_move(g, row, col, state.awaited()->0)
            &&& has_legal_move(g, state.awaited()->0)
            &&& spec_after_move(state).awaited() == Some(state.awaited()->0.opponent())
            &&& !spec_after_move(state).after_skip()
        },
{
    if turn_outcome(state, g, pos) is Ok {
        let (row, col) = parse_coordinates(pos, g.len())->0;
        assert(legal_move(g, row, col, state.awaited()->0));
    }
}

} // verus!
