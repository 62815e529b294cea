use connect_four::cell::Cell;
use connect_four::cell::Player;
use connect_four::column::Column;

#[test]
fn fill_index_tracks_drops_and_full_at_the_top() {
    let mut col = Column::default();
    assert_eq!(col.index, 0);
    for i in 0..7 {
        assert!(!col.is_full());
        col.drop_piece(if i % 2 == 0 { Player::Blue } else { Player::Red });
        assert_eq!(col.index, i + 1);
    }
    assert!(col.is_full());
    assert_eq!(col.cells[0], Cell::Blue);
    assert_eq!(col.cells[1], Cell::Red);
    assert_eq!(col.cells[6], Cell::Blue);
}

#[test]
fn new_column_is_entirely_empty() {
    let col = Column::default();
    assert!(!col.is_full());
    assert_eq!(col.cells.len(), 7);
    for cell in &col.cells {
        assert_eq!(*cell, Cell::Empty);
    }
}
