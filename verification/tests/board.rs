use othello::board::{create_board, setup_initial, Board, SetupError};
use othello::cell::{Cell, Player};

fn cells(board: &Board) -> Vec<Vec<Cell>> {
    let n = board.size();
    (0..n).map(|r| (0..n).map(|c| board.get(r, c)).collect()).collect()
}

fn non_empty(board: &Board) -> usize {
    cells(board).iter().flatten().filter(|c| **c != Cell::Empty).count()
}

#[test]
fn create_board_is_empty() {
    for n in [0usize, 1, 2, 4, 8, 9] {
        let board = create_board(n);
        assert_eq!(board.size(), n);
        assert_eq!(non_empty(&board), 0);
        assert_eq!(cells(&board).len(), n);
    }
}

#[test]
fn set_changes_one_square() {
    let mut board = create_board(4);
    board.set(1, 2, Cell::Player1);
    board.set(3, 0, Cell::Player2);
    for r in 0..4 {
        for c in 0..4 {
            let want = match (r, c) {
                (1, 2) => Cell::Player1,
                (3, 0) => Cell::Player2,
                _ => Cell::Empty,
            };
            assert_eq!(board.get(r, c), want, "square ({r}, {c})");
        }
    }
    board.set(1, 2, Cell::Empty);
    assert_eq!(board.get(1, 2), Cell::Empty);
    assert_eq!(board.size(), 4);
}

#[test]
fn setup_initial_4x4() {
    let mut board = create_board(4);
    assert_eq!(setup_initial(&mut board), Ok(()));
    assert_eq!(board.get(1, 1), Cell::Player2);
    assert_eq!(board.get(1, 2), Cell::Player1);
    assert_eq!(board.get(2, 1), Cell::Player1);
    assert_eq!(board.get(2, 2), Cell::Player2);
    assert_eq!(non_empty(&board), 4);
}

#[test]
fn setup_initial_fills_four_squares_on_even_sides() {
    for n in [2usize, 4, 6, 8, 10, 26] {
        let mut board = create_board(n);
        assert_eq!(setup_initial(&mut board), Ok(()));
        let m = n / 2;
        assert_eq!(non_empty(&board), 4, "side {n}");
        assert_eq!(board.get(m - 1, m - 1), Cell::Player2);
        assert_eq!(board.get(m, m), Cell::Player2);
        assert_eq!(board.get(m - 1, m), Cell::Player1);
        assert_eq!(board.get(m, m - 1), Cell::Player1);
        assert_eq!(board.size(), n);
    }
}

#[test]
fn setup_initial_refuses_small_and_odd_sides() {
    let mut board = create_board(0);
    assert_eq!(setup_initial(&mut board), Err(SetupError::TooSmall));
    let mut board = create_board(1);
    assert_eq!(setup_initial(&mut board), Err(SetupError::TooSmall));
    assert_eq!(board.get(0, 0), Cell::Empty);
    for n in [3usize, 5, 7] {
        let mut board = create_board(n);
        board.set(0, 0, Cell::Player1);
        assert_eq!(setup_initial(&mut board), Err(SetupError::OddSize));
        assert_eq!(non_empty(&board), 1, "side {n}");
        assert_eq!(board.get(0, 0), Cell::Player1);
    }
}

#[test]
fn setup_initial_keeps_other_squares() {
    let mut board = create_board(6);
    board.set(0, 5, Cell::Player2);
    board.set(2, 2, Cell::Player1);
    assert_eq!(setup_initial(&mut board), Ok(()));
    assert_eq!(board.get(0, 5), Cell::Player2);
    assert_eq!(board.get(2, 2), Cell::Player2);
    assert_eq!(non_empty(&board), 5);
}

#[test]
fn player_cell_and_opponent() {
    assert_eq!(Player::Player1.cell(), Cell::Player1);
    assert_eq!(Player::Player2.cell(), Cell::Player2);
    assert_eq!(Player::Player1.opponent(), Player::Player2);
    assert_eq!(Player::Player2.opponent(), Player::Player1);
}
