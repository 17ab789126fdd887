use othello::availability::can_take_turn;
use othello::board::{create_board, setup_initial, Board};
use othello::cell::{Cell, Player};
use othello::coordinates::get_coordinates;
use othello::game::{advance, initial_state, take_turn, Action, GameState, TurnError};
use othello::placement::MoveError;
use othello::score::{score, Outcome};

fn build(rows: &[&str]) -> Board {
    let mut board = create_board(rows.len());
    for (r, row) in rows.iter().enumerate() {
        for (c, ch) in row.chars().enumerate() {
            let cell = match ch {
                'X' => Cell::Player1,
                'O' => Cell::Player2,
                _ => Cell::Empty,
            };
            board.set(r, c, cell);
        }
    }
    board
}

fn draw(board: &Board) -> Vec<String> {
    let n = board.size();
    (0..n)
        .map(|r| {
            (0..n)
                .map(|c| match board.get(r, c) {
                    Cell::Empty => '.',
                    Cell::Player1 => 'X',
                    Cell::Player2 => 'O',
                })
                .collect()
        })
        .collect()
}

fn opening() -> Board {
    let mut board = create_board(4);
    setup_initial(&mut board).unwrap();
    board
}

#[test]
fn get_coordinates_reads_both_orders_and_cases() {
    assert_eq!(get_coordinates("a1", 4), Some((0, 0)));
    assert_eq!(get_coordinates("A1", 4), Some((0, 0)));
    assert_eq!(get_coordinates("1a", 4), Some((0, 0)));
    assert_eq!(get_coordinates("1A", 4), Some((0, 0)));
    assert_eq!(get_coordinates("b3", 4), Some((1, 2)));
    assert_eq!(get_coordinates("3B", 4), Some((1, 2)));
    assert_eq!(get_coordinates("D4", 4), Some((3, 3)));
    assert_eq!(get_coordinates("4d", 4), Some((3, 3)));
    assert_eq!(get_coordinates("c2", 4), Some((2, 1)));
    assert_eq!(get_coordinates("z9", 26), Some((25, 8)));
    assert_eq!(get_coordinates("9Z", 26), Some((25, 8)));
}

#[test]
fn get_coordinates_refuses_squares_off_the_board() {
    assert_eq!(get_coordinates("e1", 4), None);
    assert_eq!(get_coordinates("a5", 4), None);
    assert_eq!(get_coordinates("5a", 4), None);
    assert_eq!(get_coordinates("E5", 4), None);
    assert_eq!(get_coordinates("e5", 5), Some((4, 4)));
    assert_eq!(get_coordinates("a1", 0), None);
    assert_eq!(get_coordinates("z9", 25), None);
    assert_eq!(get_coordinates("a0", 4), None);
    assert_eq!(get_coordinates("0a", 4), None);
}

#[test]
fn get_coordinates_refuses_other_text() {
    for text in [
        "", "a", "1", "ab", "11", "a12", "a1 ", " a1", "a-", "-1", "@1", "[1", "`1", "{1", "a:", "a/",
    ] {
        assert_eq!(get_coordinates(text, 8), None, "{text:?}");
    }
    for text in ["\u{b2}a", "a\u{b2}", "\u{e9}1", "1\u{e9}", "\u{661}a", "\u{ff11}a"] {
        assert_eq!(get_coordinates(text, 8), None, "{text:?}");
        assert_eq!(get_coordinates(text, 400), None, "{text:?}");
    }
}

#[test]
fn initial_state_awaits_the_first_player() {
    assert_eq!(initial_state(), GameState::AwaitingPlayer1 { skipped: false });
}

#[test]
fn advance_prompts_a_player_who_can_move() {
    let board = opening();
    let state = initial_state();
    assert_eq!(advance(state, &board), (state, Action::Prompt(Player::Player1)));
    let state = GameState::AwaitingPlayer2 { skipped: true };
    assert_eq!(advance(state, &board), (state, Action::Prompt(Player::Player2)));
}

#[test]
fn advance_skips_a_player_who_cannot_move() {
    let board = build(&["XO..", "....", "....", "...."]);
    let state = GameState::AwaitingPlayer2 { skipped: false };
    assert_eq!(
        advance(state, &board),
        (GameState::AwaitingPlayer1 { skipped: true }, Action::Skip(Player::Player2))
    );
    assert_eq!(
        advance(GameState::AwaitingPlayer1 { skipped: true }, &board),
        (GameState::AwaitingPlayer1 { skipped: true }, Action::Prompt(Player::Player1))
    );
    let board = build(&["OX..", "....", "....", "...."]);
    assert_eq!(
        advance(GameState::AwaitingPlayer1 { skipped: false }, &board),
        (GameState::AwaitingPlayer2 { skipped: true }, Action::Skip(Player::Player1))
    );
}

#[test]
fn game_over_when_neither_player_can_move() {
    // No empty square has a line that captures, for either player.
    let board = build(&["X..O", "....", "....", "X..X"]);
    assert!(!can_take_turn(&board, Player::Player1));
    assert!(!can_take_turn(&board, Player::Player2));
    let (state, action) = advance(initial_state(), &board);
    assert_eq!(state, GameState::AwaitingPlayer2 { skipped: true });
    assert_eq!(action, Action::Skip(Player::Player1));
    let (state, action) = advance(state, &board);
    assert_eq!(score(&board), (3, 1));
    assert_eq!(state, GameState::GameOver(Outcome::Player1Wins));
    assert_eq!(action, Action::Finish(Outcome::Player1Wins));
    assert_eq!(advance(state, &board), (state, Action::Finish(Outcome::Player1Wins)));
    assert_eq!(draw(&board), ["X..O", "....", "....", "X..X"]);
}

#[test]
fn game_over_outcome_follows_the_counts() {
    let board = build(&["XXXX", "XXXX", "XXXX", "XXX."]);
    let skipped = GameState::AwaitingPlayer2 { skipped: true };
    assert_eq!(
        advance(skipped, &board),
        (GameState::GameOver(Outcome::Player1Wins), Action::Finish(Outcome::Player1Wins))
    );
    let board = build(&["OOOO", "OOOO", "XOOO", "OOOO"]);
    let skipped = GameState::AwaitingPlayer1 { skipped: true };
    assert_eq!(
        advance(skipped, &board),
        (GameState::GameOver(Outcome::Player2Wins), Action::Finish(Outcome::Player2Wins))
    );
    let board = create_board(4);
    assert_eq!(
        advance(advance(initial_state(), &board).0, &board),
        (GameState::GameOver(Outcome::Tie), Action::Finish(Outcome::Tie))
    );
}

#[test]
fn take_turn_places_and_hands_over() {
    let mut board = opening();
    let (state, result) = take_turn(initial_state(), &mut board, "b1");
    assert_eq!(result, Ok(1));
    assert_eq!(state, GameState::AwaitingPlayer2 { skipped: false });
    assert_eq!(draw(&board), ["....", "XXX.", ".XO.", "...."]);
    let (state, result) = take_turn(state, &mut board, "1A");
    assert_eq!(result, Ok(1));
    assert_eq!(state, GameState::AwaitingPlayer1 { skipped: false });
    assert_eq!(draw(&board), ["O...", "XOX.", ".XO.", "...."]);
}

#[test]
fn take_turn_clears_the_skipped_flag() {
    let mut board = build(&["XO..", "....", "....", "...."]);
    let (state, result) = take_turn(GameState::AwaitingPlayer1 { skipped: true }, &mut board, "a3");
    assert_eq!(result, Ok(1));
    assert_eq!(state, GameState::AwaitingPlayer2 { skipped: false });
    assert_eq!(draw(&board), ["XXX.", "....", "....", "...."]);
}

#[test]
fn take_turn_refusals_keep_state_and_board() {
    let mut board = opening();
    let state = initial_state();
    for (text, reason) in [
        ("a1", TurnError::Refused(MoveError::NoCapture)),
        ("b4", TurnError::Refused(MoveError::NoCapture)),
        ("b2", TurnError::Refused(MoveError::Occupied)),
        ("c2", TurnError::Refused(MoveError::Occupied)),
        ("e1", TurnError::BadCoordinates),
        ("hello", TurnError::BadCoordinates),
        ("", TurnError::BadCoordinates),
    ] {
        assert_eq!(take_turn(state, &mut board, text), (state, Err(reason)), "{text:?}");
        assert_eq!(draw(&board), ["....", ".OX.", ".XO.", "...."]);
    }
    let over = GameState::GameOver(Outcome::Tie);
    assert_eq!(take_turn(over, &mut board, "b1"), (over, Err(TurnError::GameOver)));
    assert_eq!(draw(&board), ["....", ".OX.", ".XO.", "...."]);
}

#[test]
fn a_whole_game_on_a_small_board() {
    let mut board = opening();
    let mut state = initial_state();
    let mut prompts = 0;
    let mut skips = 0;
    let outcome = loop {
        let (next, action) = advance(state, &board);
        match action {
            Action::Prompt(player) => {
                prompts += 1;
                assert_eq!(next, state);
                let mut moved = false;
                'search: for row in ["a", "b", "c", "d"] {
                    for col in 1..=4 {
                        let text = format!("{row}{col}");
                        let (after, result) = take_turn(state, &mut board, &text);
                        if result.is_ok() {
                            let (r, c) = get_coordinates(&text, 4).unwrap();
                            assert_eq!(board.get(r, c), player.cell());
                            state = after;
                            moved = true;
                            break 'search;
                        }
                        assert_eq!(after, state);
                    }
                }
                assert!(moved, "a prompted player has a move");
            }
            Action::Skip(_) => {
                skips += 1;
                state = next;
            }
            Action::Finish(outcome) => {
                assert_eq!(next, GameState::GameOver(outcome));
                break outcome;
            }
        }
        assert!(prompts + skips < 100);
    };
    let (first, second) = score(&board);
    assert_eq!(first + second, 4 + prompts);
    let want = if first > second {
        Outcome::Player1Wins
    } else if first < second {
        Outcome::Player2Wins
    } else {
        Outcome::Tie
    };
    assert_eq!(outcome, want);
}
