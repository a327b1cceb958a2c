use connect_four::board::{Board, Error, SimpleBoard, COLS, ROWS};
use connect_four::player::Player;
use connect_four::render::render;

fn board_with(moves: &[(usize, Player)]) -> SimpleBoard {
    let mut b = SimpleBoard::new();
    for &(col, p) in moves {
        b.make_move(col, p).unwrap();
    }
    b
}

#[test]
fn new_board_is_empty() {
    let b = SimpleBoard::new();
    for row in 0..ROWS {
        for col in 0..COLS {
            assert_eq!(b.get(row, col), Ok(None));
        }
    }
    for col in 0..COLS {
        assert_eq!(b.is_valid(col), Ok(true));
    }
    assert!(!b.check_winner());
}

#[test]
fn gravity_first_token_lands_on_bottom_row() {
    let mut b = SimpleBoard::new();
    assert_eq!(b.make_move(3, Player::Cross), Ok(()));
    assert_eq!(b.get(ROWS - 1, 3), Ok(Some(Player::Cross)));
    for row in 0..ROWS - 1 {
        assert_eq!(b.get(row, 3), Ok(None));
    }
    assert_eq!(b.make_move(3, Player::Circle), Ok(()));
    assert_eq!(b.get(ROWS - 2, 3), Ok(Some(Player::Circle)));
    assert_eq!(b.get(ROWS - 1, 3), Ok(Some(Player::Cross)));
    assert_eq!(b.get(ROWS - 3, 3), Ok(None));
    assert_eq!(b.get(ROWS - 1, 2), Ok(None));
}

#[test]
fn capacity_full_column_rejects_moves() {
    let mut b = SimpleBoard::new();
    let mut p = Player::Cross;
    for _ in 0..ROWS {
        assert_eq!(b.is_valid(5), Ok(true));
        assert_eq!(b.make_move(5, p), Ok(()));
        p.switch();
    }
    assert_eq!(b.is_valid(5), Ok(false));
    assert_eq!(b.make_move(5, p), Err(Error::FullColumn));
    assert_eq!(b.get(0, 5), Ok(Some(Player::Circle)));
    assert_eq!(b.is_valid(4), Ok(true));
}

#[test]
fn range_errors() {
    let mut b = SimpleBoard::new();
    assert_eq!(b.get(0, COLS), Err(Error::InvalidColumn));
    assert_eq!(b.get(ROWS, 0), Err(Error::InvalidRow));
    assert_eq!(b.get(ROWS + 3, COLS + 3), Err(Error::InvalidRow));
    assert_eq!(b.is_valid(COLS), Err(Error::InvalidColumn));
    assert_eq!(b.is_valid(100), Err(Error::InvalidColumn));
    assert_eq!(b.make_move(COLS, Player::Cross), Err(Error::InvalidColumn));
    assert!(b.get_column(COLS).is_err());
}

#[test]
fn get_column_lists_cells_top_down() {
    let b = board_with(&[(2, Player::Cross), (2, Player::Circle)]);
    let column = b.get_column(2).unwrap();
    assert_eq!(column.len(), ROWS);
    assert_eq!(column[ROWS - 1], Some(Player::Cross));
    assert_eq!(column[ROWS - 2], Some(Player::Circle));
    assert_eq!(column[0], None);
}

#[test]
fn win_horizontal() {
    let b = board_with(&[
        (0, Player::Cross),
        (1, Player::Cross),
        (2, Player::Cross),
        (3, Player::Cross),
    ]);
    assert!(b.check_winner());
}

#[test]
fn win_vertical() {
    let b = board_with(&[
        (6, Player::Circle),
        (6, Player::Circle),
        (6, Player::Circle),
        (6, Player::Circle),
    ]);
    assert!(b.check_winner());
}

#[test]
fn win_diagonal_down_right() {
    // Cross at rows 2, 3, 4, 5 of columns 0, 1, 2, 3.
    let b = board_with(&[
        (0, Player::Circle),
        (0, Player::Circle),
        (0, Player::Circle),
        (0, Player::Cross),
        (1, Player::Circle),
        (1, Player::Circle),
        (1, Player::Cross),
        (2, Player::Circle),
        (2, Player::Cross),
        (3, Player::Cross),
    ]);
    assert_eq!(b.get(2, 0), Ok(Some(Player::Cross)));
    assert!(b.check_winner());
}

#[test]
fn win_diagonal_up_right() {
    // Cross at rows 5, 4, 3, 2 of columns 3, 4, 5, 6.
    let b = board_with(&[
        (3, Player::Cross),
        (4, Player::Circle),
        (4, Player::Cross),
        (5, Player::Circle),
        (5, Player::Circle),
        (5, Player::Cross),
        (6, Player::Circle),
        (6, Player::Circle),
        (6, Player::Circle),
        (6, Player::Cross),
    ]);
    assert_eq!(b.get(2, 6), Ok(Some(Player::Cross)));
    assert!(b.check_winner());
}

#[test]
fn only_three_in_a_row_is_no_win() {
    let b = board_with(&[
        // three across the bottom
        (0, Player::Cross),
        (1, Player::Cross),
        (2, Player::Cross),
        // three down column 6
        (6, Player::Circle),
        (6, Player::Circle),
        (6, Player::Circle),
        // three on a rising diagonal from column 3
        (3, Player::Circle),
        (4, Player::Circle),
        (4, Player::Cross),
        (5, Player::Cross),
        (5, Player::Circle),
        (5, Player::Cross),
    ]);
    assert!(!b.check_winner());
}

#[test]
fn copies_are_independent() {
    let a = board_with(&[(1, Player::Cross)]);
    let mut b = a;
    b.make_move(1, Player::Circle).unwrap();
    assert_eq!(a.get(ROWS - 2, 1), Ok(None));
    assert_eq!(b.get(ROWS - 2, 1), Ok(Some(Player::Circle)));
}

#[test]
fn render_draws_rows_top_down() {
    let b = board_with(&[(0, Player::Cross), (1, Player::Circle)]);
    let empty_line = "□ □ □ □ □ □ □ \n";
    let mut expected = String::new();
    for _ in 0..ROWS - 1 {
        expected.push_str(empty_line);
    }
    expected.push_str("X O □ □ □ □ □ \n");
    assert_eq!(render(&b), expected);
}

#[test]
fn error_messages() {
    assert_eq!(Error::InvalidColumn.message(), "Invalid column");
    assert_eq!(Error::InvalidRow.message(), "Invalid row");
    assert_eq!(Error::FullColumn.message(), "Full column");
}

#[test]
fn player_switch_and_conversions() {
    let mut p = Player::default();
    assert_eq!(p, Player::Cross);
    assert_eq!(p.switch(), Player::Circle);
    assert_eq!(p, Player::Circle);
    assert_eq!(p.switch(), Player::Cross);
    assert_eq!(char::from(Player::Cross), 'X');
    assert_eq!(char::from(Player::Circle), 'O');
    assert!(bool::from(Player::Cross));
    assert!(!bool::from(Player::Circle));
}
