use connect_four::cell::Cell;
use connect_four::cell::GameResult;
use connect_four::cell::Player;
use connect_four::game::Game;

fn pair_fill(x: usize, y: usize) -> Vec<usize> {
    vec![x, y, y, x, x, y, y, x, x, y, y, x, x, y]
}

#[test]
fn blue_moves_first() {
    let game = Game::new();
    assert_eq!(game.next_player, Player::Blue);
    for row in 0..7 {
        for col in 0..9 {
            assert_eq!(game.board.cell_at(row, col), Cell::Empty);
        }
    }
}

#[test]
fn vertical_stack_wins_on_fourth_drop() {
    let mut game = Game::new();
    let moves = vec![1, 2, 1, 2, 1, 2, 1];
    assert_eq!(game.play(&moves), Some(GameResult::BlueWon));
    assert_eq!(game.board.cell_at(0, 0), Cell::Blue);
    assert_eq!(game.board.cell_at(3, 0), Cell::Blue);
    assert_eq!(game.board.cell_at(2, 1), Cell::Red);
}

#[test]
fn horizontal_row_wins() {
    let mut game = Game::new();
    let moves = vec![1, 1, 2, 1, 3, 1, 4];
    assert_eq!(game.play(&moves), Some(GameResult::BlueWon));
}

#[test]
fn striped_full_board_is_a_tie() {
    let mut game = Game::new();
    let mut moves: Vec<usize> = Vec::new();
    moves.extend(pair_fill(1, 3));
    moves.extend(pair_fill(2, 4));
    moves.extend(pair_fill(5, 7));
    moves.extend(pair_fill(6, 8));
    moves.extend([9; 7]);
    assert_eq!(moves.len(), 63);
    assert_eq!(game.play(&moves), Some(GameResult::Tie));
    for col in 0..9 {
        assert_ne!(game.board.cell_at(6, col), Cell::Empty);
    }
}

#[test]
fn result_stops_play_before_remaining_moves() {
    let mut game = Game::new();
    let moves = vec![1, 2, 1, 2, 1, 2, 1, 5, 5, 5];
    assert_eq!(game.play(&moves), Some(GameResult::BlueWon));
    assert_eq!(game.board.cell_at(0, 4), Cell::Empty);
}

#[test]
fn open_game_reports_no_result() {
    let mut game = Game::new();
    let moves = vec![4, 5, 4, 5];
    assert_eq!(game.play(&moves), None);
    assert_eq!(game.check_for_result(), None);
    assert_eq!(game.next_player, Player::Blue);
}

#[test]
fn invalid_selection_changes_nothing() {
    let mut game = Game::new();
    assert!(game.play_turn(4));
    let before: Vec<Cell> = (0..9).map(|col| game.board.cell_at(0, col)).collect();
    let player_before = game.next_player;
    assert!(!game.play_turn(0));
    assert!(!game.play_turn(10));
    assert!(!game.play_turn(999));
    let after: Vec<Cell> = (0..9).map(|col| game.board.cell_at(0, col)).collect();
    assert_eq!(before, after);
    assert_eq!(game.next_player, player_before);
}

#[test]
fn selection_of_full_column_changes_nothing() {
    let mut game = Game::new();
    let moves = vec![2, 2, 2, 2, 2, 2, 2];
    assert_eq!(game.play(&moves), None);
    let player_before = game.next_player;
    assert!(!game.play_turn(2));
    assert_eq!(game.next_player, player_before);
    assert!(game.play_turn(3));
}

#[test]
fn turns_alternate_between_players() {
    let mut game = Game::new();
    assert_eq!(game.next_player, Player::Blue);
    assert!(game.play_turn(1));
    assert_eq!(game.next_player, Player::Red);
    assert!(game.play_turn(1));
    assert_eq!(game.next_player, Player::Blue);
    assert_eq!(game.board.cell_at(0, 0), Cell::Blue);
    assert_eq!(game.board.cell_at(1, 0), Cell::Red);
}
