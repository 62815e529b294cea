use colorize::AnsiColor;
use connect_four::board::Board;
use connect_four::cell::Player;

#[test]
fn render_twice_yields_identical_output() {
    let mut board = Board::default();
    board.drop_piece(0, Player::Red).unwrap();
    board.drop_piece(4, Player::Blue).unwrap();
    let first = board.render();
    let second = board.render();
    assert_eq!(first, second);
}

#[test]
fn render_with_markers_is_a_pure_projection() {
    let mut board = Board::default();
    board.drop_piece(2, Player::Blue).unwrap();
    let first = board.render_with_markers(".", "R", "B");
    let second = board.render_with_markers(".", "R", "B");
    assert_eq!(first, second);
    let top = first.lines().nth(3).unwrap();
    assert_eq!(top, "| . | . | . | . | . | . | . | . | . |");
    let bottom = first.lines().nth(9).unwrap();
    assert_eq!(bottom, "| . | . | B | . | . | . | . | . | . |");
}

#[test]
fn render_matches_the_expected_colored_layout() {
    let mut board = Board::default();
    board.drop_piece(0, Player::Blue).unwrap();
    board.drop_piece(1, Player::Red).unwrap();

    let dash = "-".repeat(37);
    let empty = "\u{25cf}".black();
    let red = "\u{25cf}".red();
    let blue = "\u{25cf}".blue();
    let mut expected = String::new();
    expected.push_str(&dash);
    expected.push('\n');
    for j in 0..9 {
        expected.push_str(&format!("| {} ", j + 1));
    }
    expected.push_str("|\n");
    expected.push_str(&dash);
    expected.push('\n');
    for row in (0..7).rev() {
        for col in 0..9 {
            let marker = if row == 0 && col == 0 {
                &blue
            } else if row == 0 && col == 1 {
                &red
            } else {
                &empty
            };
            expected.push_str(&format!("| {} ", marker));
        }
        expected.push_str("|\n");
    }
    expected.push_str(&dash);
    expected.push('\n');

    assert_eq!(board.render(), expected);
}

#[test]
fn markers_carry_their_color_escape_codes() {
    let mut board = Board::default();
    board.drop_piece(0, Player::Red).unwrap();
    board.drop_piece(1, Player::Blue).unwrap();
    let out = board.render();
    assert!(out.contains("\u{1b}[31m\u{25cf}"));
    assert!(out.contains("\u{1b}[34m\u{25cf}"));
    assert!(out.contains("\u{1b}[30m\u{25cf}"));
    assert!(!out.contains("| \u{25cf} "));
}
