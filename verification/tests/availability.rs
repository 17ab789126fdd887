use othello::availability::can_take_turn;
use othello::board::{create_board, setup_initial, Board};
use othello::cell::{Cell, Player};
use othello::placement::{attempt_place, MoveError};
use othello::score::{score, winner, Outcome};

fn make(rows: &[&str]) -> Board {
    let mut board = create_board(rows.len());
    for (r, row) in rows.iter().enumerate() {
        for (c, ch) in row.chars().enumerate() {
            let cell = match ch {
                'X' => Cell::Player1,
                'O' => Cell::Player2,
                _ => Cell::Empty,
            };
            board.set(r, c, cell);
        }
    }
    board
}

fn picture(board: &Board) -> Vec<String> {
    let n = board.size();
    (0..n)
        .map(|r| {
            (0..n)
                .map(|c| match board.get(r, c) {
                    Cell::Empty => '.',
                    Cell::Player1 => 'X',
                    Cell::Player2 => 'O',
                })
                .collect()
        })
        .collect()
}

const BOARDS: [[&str; 4]; 6] = [
    ["....", ".OX.", ".XO.", "...."],
    ["....", "....", "....", "...."],
    ["XXXX", "XXXX", "XXXX", "XXX."],
    ["XO..", "....", "....", "...."],
    ["OOOO", "OXXO", "OXXO", "OOO."],
    ["X.O.", ".X..", "O...", "...O"],
];

#[test]
fn can_take_turn_on_the_opening() {
    let mut board = create_board(4);
    setup_initial(&mut board).unwrap();
    assert!(can_take_turn(&board, Player::Player1));
    assert!(can_take_turn(&board, Player::Player2));
    assert_eq!(picture(&board), ["....", ".OX.", ".XO.", "...."]);
}

#[test]
fn can_take_turn_for_one_player_only() {
    let board = make(&["XO..", "....", "....", "...."]);
    assert!(can_take_turn(&board, Player::Player1));
    assert!(!can_take_turn(&board, Player::Player2));
    // The second player closes the diagonal; the first has no line at all.
    let board = make(&["OOOO", "OXXO", "OXXO", "OOO."]);
    assert!(!can_take_turn(&board, Player::Player1));
    assert!(can_take_turn(&board, Player::Player2));
}

#[test]
fn can_take_turn_on_empty_and_full_boards() {
    let board = create_board(4);
    assert!(!can_take_turn(&board, Player::Player1));
    assert!(!can_take_turn(&board, Player::Player2));
    let board = make(&["XOXO", "OXOX", "XOXO", "OXOX"]);
    assert!(!can_take_turn(&board, Player::Player1));
    assert!(!can_take_turn(&board, Player::Player2));
    let board = create_board(0);
    assert!(!can_take_turn(&board, Player::Player1));
}

#[test]
fn can_take_turn_finds_a_move_on_the_last_square() {
    let board = make(&["....", "....", "....", "XO.."]);
    assert!(can_take_turn(&board, Player::Player1));
    let board = make(&["....", "....", "....", ".XO."]);
    assert!(can_take_turn(&board, Player::Player1));
    assert!(can_take_turn(&board, Player::Player2));
    let board = make(&["....", "....", "....", "..XO"]);
    assert!(!can_take_turn(&board, Player::Player1));
    assert!(can_take_turn(&board, Player::Player2));
}

#[test]
fn can_take_turn_does_not_change_the_board() {
    for rows in BOARDS {
        let board = make(&rows);
        let _ = can_take_turn(&board, Player::Player1);
        let _ = can_take_turn(&board, Player::Player2);
        assert_eq!(picture(&board), rows);
    }
}

#[test]
fn no_move_just_when_every_empty_square_gives_no_capture() {
    for rows in BOARDS {
        for player in [Player::Player1, Player::Player2] {
            let board = make(&rows);
            let mut all_refused = true;
            for r in 0..4 {
                for c in 0..4 {
                    if board.get(r, c) == Cell::Empty {
                        let mut trial = make(&rows);
                        let result = attempt_place(&mut trial, r, c, player);
                        if result != Err(MoveError::NoCapture) {
                            assert!(result.is_ok());
                            all_refused = false;
                        }
                    }
                }
            }
            assert_eq!(can_take_turn(&board, player), !all_refused, "{rows:?} {player:?}");
        }
    }
}

#[test]
fn score_counts_both_players() {
    assert_eq!(score(&create_board(4)), (0, 0));
    assert_eq!(score(&create_board(0)), (0, 0));
    assert_eq!(score(&make(&["....", ".OX.", ".XO.", "...."])), (2, 2));
    assert_eq!(score(&make(&["XXXX", "XXXX", "XXXX", "XXX."])), (15, 0));
    assert_eq!(score(&make(&["OOOO", "OXXO", "OXXO", "OOO."])), (4, 11));
    assert_eq!(score(&make(&["X.O.", ".X..", "O...", "...O"])), (2, 3));
}

#[test]
fn winner_has_more_pieces() {
    assert_eq!(winner(&make(&["XXXX", "XXXX", "XXXX", "XXX."])), Outcome::Player1Wins);
    assert_eq!(winner(&make(&["OOOO", "OXXO", "OXXO", "OOO."])), Outcome::Player2Wins);
    assert_eq!(winner(&make(&["....", ".OX.", ".XO.", "...."])), Outcome::Tie);
    assert_eq!(winner(&create_board(2)), Outcome::Tie);
    assert_eq!(winner(&make(&["XO", "X."])), Outcome::Player1Wins);
    assert_eq!(winner(&make(&["XO", "O."])), Outcome::Player2Wins);
}

#[test]
fn score_after_a_placement() {
    let mut board = make(&["....", ".OX.", ".XO.", "...."]);
    assert_eq!(attempt_place(&mut board, 1, 0, Player::Player1), Ok(1));
    assert_eq!(score(&board), (4, 1));
}

#[test]
fn every_square_is_counted_once() {
    for rows in BOARDS {
        let board = make(&rows);
        let empty = picture(&board).iter().map(|r| r.matches('.').count()).sum::<usize>();
        let (first, second) = score(&board);
        assert_eq!(first + second + empty, 16, "{rows:?}");
    }
}

#[test]
fn a_placement_moves_the_captured_pieces_between_the_scores() {
    for rows in BOARDS {
        for player in [Player::Player1, Player::Player2] {
            for r in 0..4 {
                for c in 0..4 {
                    let mut board = make(&rows);
                    let (first, second) = score(&board);
                    if let Ok(count) = attempt_place(&mut board, r, c, player) {
                        assert!(count >= 1);
                        let want = match player {
                            Player::Player1 => (first + count + 1, second - count),
                            Player::Player2 => (first - count, second + count + 1),
                        };
                        assert_eq!(score(&board), want, "{rows:?} ({r}, {c}) {player:?}");
                    } else {
                        assert_eq!(score(&board), (first, second));
                    }
                }
            }
        }
    }
}
