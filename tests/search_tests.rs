use connect_four::board::{Board, SimpleBoard, COLS, ROWS};
use connect_four::evaluate::{evaluate_board, evaluate_sequence};
use connect_four::game::Connect4;
use connect_four::player::Player;
use connect_four::search::minimax;

fn board_with(moves: &[(usize, Player)]) -> SimpleBoard {
    let mut b = SimpleBoard::new();
    for &(col, p) in moves {
        b.make_move(col, p).unwrap();
    }
    b
}

#[test]
fn evaluate_empty_board_is_zero() {
    let b = SimpleBoard::new();
    assert_eq!(evaluate_board(&b, Player::Cross), 0);
    assert_eq!(evaluate_board(&b, Player::Circle), 0);
}

#[test]
fn evaluate_two_in_a_row() {
    let b = board_with(&[(0, Player::Cross), (1, Player::Cross)]);
    assert_eq!(evaluate_board(&b, Player::Cross), 100);
    assert_eq!(evaluate_board(&b, Player::Circle), 50);
}

#[test]
fn evaluate_three_in_a_row() {
    let b = board_with(&[(2, Player::Cross), (3, Player::Cross), (4, Player::Cross)]);
    assert_eq!(evaluate_board(&b, Player::Cross), 20200);
    assert_eq!(evaluate_board(&b, Player::Circle), 200100);
}

#[test]
fn evaluate_mixed_window_is_neutral() {
    let b = board_with(&[(0, Player::Cross), (1, Player::Cross), (2, Player::Circle)]);
    // horizontal window on columns 0..=3 of the bottom row holds both sides
    assert_eq!(evaluate_sequence(&b, ROWS - 1, 0, 0, Player::Cross, Player::Circle), 0);
    // vertical window at the foot of column 0 holds one token
    assert_eq!(evaluate_sequence(&b, ROWS - 4, 0, 1, Player::Cross, Player::Circle), 0);
}

#[test]
fn evaluate_role_symmetry() {
    let b = board_with(&[
        (2, Player::Cross),
        (3, Player::Cross),
        (3, Player::Circle),
        (4, Player::Cross),
        (4, Player::Circle),
    ]);
    let swapped = board_with(&[
        (2, Player::Circle),
        (3, Player::Circle),
        (3, Player::Cross),
        (4, Player::Circle),
        (4, Player::Cross),
    ]);
    assert_ne!(evaluate_board(&b, Player::Cross), evaluate_board(&b, Player::Circle));
    assert_eq!(evaluate_board(&b, Player::Cross), evaluate_board(&swapped, Player::Circle));
    assert_eq!(evaluate_board(&b, Player::Circle), evaluate_board(&swapped, Player::Cross));
}

#[test]
fn minimax_is_deterministic() {
    let mut b = board_with(&[(3, Player::Cross), (3, Player::Circle), (2, Player::Cross)]);
    let first = minimax(&mut b, 3, Player::Circle);
    let second = minimax(&mut b, 3, Player::Circle);
    assert_eq!(first, second);
    assert!(first.1.is_some());
}

#[test]
fn minimax_completes_open_three() {
    let mut b = board_with(&[(2, Player::Cross), (3, Player::Cross), (4, Player::Cross)]);
    let (score, col) = minimax(&mut b, 1, Player::Cross);
    assert_eq!(col, Some(1));
    assert_eq!(score, -200050);
    let mut after = b;
    after.make_move(col.unwrap(), Player::Cross).unwrap();
    assert!(after.check_winner());
}

#[test]
fn minimax_leaves_board_unchanged() {
    let mut b = board_with(&[(0, Player::Cross), (6, Player::Circle)]);
    let before = b;
    let _ = minimax(&mut b, 2, Player::Cross);
    for row in 0..ROWS {
        for col in 0..COLS {
            assert_eq!(b.get(row, col), before.get(row, col));
        }
    }
}

fn full_board() -> SimpleBoard {
    let mut b = SimpleBoard::new();
    for col in 0..COLS {
        for row in 0..ROWS {
            let p = if (row / 2 + col) % 2 == 0 { Player::Cross } else { Player::Circle };
            b.make_move(col, p).unwrap();
        }
    }
    b
}

#[test]
fn minimax_on_full_board_has_no_move() {
    let mut b = full_board();
    for col in 0..COLS {
        assert_eq!(b.is_valid(col), Ok(false));
    }
    assert_eq!(minimax(&mut b, 1, Player::Cross), (i32::MIN, None));
    assert_eq!(minimax(&mut b, 4, Player::Circle), (i32::MIN, None));
}

#[test]
fn minimax_depth_zero_searches_one_ply() {
    let mut b = board_with(&[(2, Player::Cross), (3, Player::Cross), (4, Player::Cross)]);
    assert_eq!(minimax(&mut b, 0, Player::Cross), minimax(&mut b, 1, Player::Cross));
}

#[test]
fn game_turns_alternate_and_win_ends_game() {
    let mut g: Connect4<SimpleBoard> = Connect4::new();
    assert_eq!(g.current_player, Player::Cross);
    assert_eq!(g.bot_player, Player::Circle);
    assert!(!g.game_over);
    assert_eq!(g.play_turn(0), Ok(false));
    assert_eq!(g.current_player, Player::Circle);
    assert_eq!(g.play_turn(6), Ok(false));
    assert_eq!(g.play_turn(1), Ok(false));
    assert_eq!(g.play_turn(6), Ok(false));
    assert_eq!(g.play_turn(2), Ok(false));
    assert_eq!(g.play_turn(6), Ok(false));
    assert_eq!(g.play_turn(COLS), Err(connect_four::board::Error::InvalidColumn));
    assert_eq!(g.current_player, Player::Cross);
    assert_eq!(g.play_turn(3), Ok(true));
    assert!(g.game_over);
    assert_eq!(g.current_player, Player::Cross);
    assert!(g.check_winner());
}

#[test]
fn game_make_move_and_switch_player() {
    let mut g: Connect4<SimpleBoard> = Connect4::new();
    assert_eq!(g.make_move(4), Ok(()));
    assert_eq!(g.board.get(ROWS - 1, 4), Ok(Some(Player::Cross)));
    g.switch_player();
    assert_eq!(g.current_player, Player::Circle);
    assert_eq!(g.make_move(4), Ok(()));
    assert_eq!(g.board.get(ROWS - 2, 4), Ok(Some(Player::Circle)));
    assert!(!g.check_winner());
}

#[test]
fn bot_takes_last_open_column() {
    let mut g: Connect4<SimpleBoard> = Connect4::new();
    for col in 0..COLS - 1 {
        for row in 0..ROWS {
            let p = if (row / 2 + col) % 2 == 0 { Player::Cross } else { Player::Circle };
            g.board.make_move(col, p).unwrap();
        }
    }
    assert_eq!(g.find_best_move(), Some(COLS - 1));
}
