use connect_four::board::Board;
use connect_four::board::DropError;
use connect_four::cell::Cell;
use connect_four::cell::GameResult;
use connect_four::cell::Player;

#[test]
fn drop_settles_on_lowest_open_row() {
    let mut board = Board::default();
    assert_eq!(board.drop_piece(0, Player::Red), Ok(()));
    assert_eq!(board.drop_piece(0, Player::Blue), Ok(()));
    assert_eq!(board.cell_at(0, 0), Cell::Red);
    assert_eq!(board.cell_at(1, 0), Cell::Blue);
    assert_eq!(board.cell_at(2, 0), Cell::Empty);
}

#[test]
fn drop_outside_board_is_rejected() {
    let mut board = Board::default();
    assert_eq!(board.drop_piece(9, Player::Red), Err(DropError::InvalidColumn));
    assert_eq!(board.drop_piece(usize::MAX, Player::Red), Err(DropError::InvalidColumn));
    for row in 0..7 {
        for col in 0..9 {
            assert_eq!(board.cell_at(row, col), Cell::Empty);
        }
    }
}

#[test]
fn drop_into_full_column_is_rejected_without_mutation() {
    let mut board = Board::default();
    let stack = [
        Player::Red,
        Player::Blue,
        Player::Red,
        Player::Blue,
        Player::Red,
        Player::Blue,
        Player::Red,
    ];
    for p in stack {
        assert_eq!(board.drop_piece(3, p), Ok(()));
    }
    let before: Vec<Cell> = (0..7).map(|row| board.cell_at(row, 3)).collect();
    assert_eq!(board.drop_piece(3, Player::Blue), Err(DropError::ColumnFull));
    let after: Vec<Cell> = (0..7).map(|row| board.cell_at(row, 3)).collect();
    assert_eq!(before, after);
}

#[test]
fn open_board_has_no_result() {
    let mut board = Board::default();
    assert_eq!(board.check_for_result(), None);
    board.drop_piece(0, Player::Red).unwrap();
    board.drop_piece(1, Player::Red).unwrap();
    board.drop_piece(2, Player::Red).unwrap();
    assert_eq!(board.check_for_result(), None);
}

#[test]
fn horizontal_run_of_four_wins() {
    let mut board = Board::default();
    board.drop_piece(2, Player::Red).unwrap();
    board.drop_piece(3, Player::Red).unwrap();
    board.drop_piece(4, Player::Red).unwrap();
    assert_eq!(board.check_for_result(), None);
    board.drop_piece(5, Player::Red).unwrap();
    assert_eq!(board.check_for_result(), Some(GameResult::RedWon));
}

#[test]
fn vertical_run_of_four_wins() {
    let mut board = Board::default();
    for _ in 0..3 {
        board.drop_piece(6, Player::Blue).unwrap();
    }
    assert_eq!(board.check_for_result(), None);
    board.drop_piece(6, Player::Blue).unwrap();
    assert_eq!(board.check_for_result(), Some(GameResult::BlueWon));
}

#[test]
fn ascending_diagonal_run_of_four_wins() {
    let mut board = Board::default();
    board.drop_piece(1, Player::Blue).unwrap();
    board.drop_piece(2, Player::Red).unwrap();
    board.drop_piece(2, Player::Blue).unwrap();
    board.drop_piece(3, Player::Red).unwrap();
    board.drop_piece(3, Player::Red).unwrap();
    board.drop_piece(3, Player::Blue).unwrap();
    board.drop_piece(4, Player::Red).unwrap();
    board.drop_piece(4, Player::Red).unwrap();
    board.drop_piece(4, Player::Red).unwrap();
    assert_eq!(board.check_for_result(), None);
    board.drop_piece(4, Player::Blue).unwrap();
    assert_eq!(board.check_for_result(), Some(GameResult::BlueWon));
}

#[test]
fn descending_diagonal_run_of_four_wins() {
    let mut board = Board::default();
    board.drop_piece(1, Player::Red).unwrap();
    board.drop_piece(1, Player::Red).unwrap();
    board.drop_piece(1, Player::Red).unwrap();
    board.drop_piece(2, Player::Red).unwrap();
    board.drop_piece(2, Player::Red).unwrap();
    board.drop_piece(2, Player::Blue).unwrap();
    board.drop_piece(3, Player::Red).unwrap();
    board.drop_piece(3, Player::Blue).unwrap();
    board.drop_piece(4, Player::Blue).unwrap();
    assert_eq!(board.check_for_result(), None);
    board.drop_piece(1, Player::Blue).unwrap();
    assert_eq!(board.check_for_result(), Some(GameResult::BlueWon));
}

#[test]
fn red_run_is_reported_before_blue_run() {
    let mut board = Board::default();
    for col in 0..4 {
        board.drop_piece(col, Player::Red).unwrap();
    }
    for col in 5..9 {
        board.drop_piece(col, Player::Blue).unwrap();
    }
    assert_eq!(board.check_for_result(), Some(GameResult::RedWon));
}
