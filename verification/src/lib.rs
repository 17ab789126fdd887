//! Rules engine for Othello, a two-player grid-capture board game.
//!
//! A piece may be placed on an empty square only where it captures: in at
//! least one of the eight directions a run of the opponent's pieces must
//! start next to the square and end at a piece of the player. The captured
//! pieces change owner. A player without a legal move is skipped, and the
//! game ends once neither player can move; the player with more pieces wins.
//!
//! * [`cell`], [`grid`], [`board`]: the squares, the mathematical model of a
//!   board, and the board itself with the opening position.
//! * [`direction`], [`capture`]: the eight directions and the capture along
//!   one line.
//! * [`placement`]: placing a piece, with the captures along all lines.
//! * [`availability`]: whether a player has any legal move.
//! * [`score`]: counting the pieces and naming the winner.
//! * [`coordinates`]: reading the name of a square.
//! * [`game`]: the turns of a game as a state machine.
//!
//! Every function states what it returns and how it changes the board over
//! the grid model, and the general facts about the rules are proof functions
//! beside the functions they speak of.

pub mod cell;
pub mod grid;
pub mod board;
pub mod direction;
pub mod capture;
pub mod placement;
pub mod availability;
pub mod score;
pub mod coordinates;
pub mod game;
