use hex_rs::{HexBoard, HexCell, HexMove, Player};

use hex_rs::game::{play_turn, side_to_ask};
use hex_rs::GameUpdate;

fn mv(x: usize, y: usize) -> HexMove {
    HexMove { x, y }
}

#[test]
fn opposite_switches_sides() {
    assert_eq!(Player::Red.opposite(), Player::Blue);
    assert_eq!(Player::Blue.opposite(), Player::Red);
    assert_eq!(Player::Red.opposite().opposite(), Player::Red);
}

#[test]
fn new_board_is_empty() {
    let b = HexBoard::new(4, 3, Player::Blue, false);
    assert_eq!(b.width, 4);
    assert_eq!(b.height, 3);
    assert_eq!(b.grid.len(), 3);
    for row in &b.grid {
        assert_eq!(row.len(), 4);
        assert!(row.iter().all(|c| *c == HexCell::Empty));
    }
    assert_eq!(b.current_player, Player::Blue);
    assert_eq!(b.move_count, 0);
    assert!(!b.swap_rule);
    assert_eq!(b.winner, None);
    assert!(b.move_history.is_empty());
}

#[test]
fn valid_moves_stay_on_the_board() {
    let b = HexBoard::new(3, 2, Player::Red, true);
    assert!(b.is_valid_move(&mv(0, 0)));
    assert!(b.is_valid_move(&mv(2, 1)));
    assert!(!b.is_valid_move(&mv(3, 0)));
    assert!(!b.is_valid_move(&mv(0, 2)));
    assert!(!b.is_valid_move(&mv(usize::MAX, usize::MAX)));
}

#[test]
fn occupied_cell_is_not_valid() {
    let mut b = HexBoard::new(3, 3, Player::Red, false);
    b.apply_move(&mv(1, 1)).unwrap();
    assert!(!b.is_valid_move(&mv(1, 1)));
    assert!(b.is_valid_move(&mv(0, 1)));
}

#[test]
fn swap_rule_lets_second_move_take_first_stone() {
    let mut b = HexBoard::new(3, 3, Player::Red, true);
    b.apply_move(&mv(1, 1)).unwrap();
    assert_eq!(b.current_player, Player::Blue);
    assert!(b.is_valid_move(&mv(1, 1)));
    b.apply_move(&mv(1, 1)).unwrap();
    assert_eq!(b.grid[1][1], HexCell::Occupied(Player::Blue));
    assert_eq!(b.move_count, 2);
    assert_eq!(b.move_history.len(), 2);
    assert_eq!(b.current_player, Player::Red);
    // From the third move on, taken cells are closed again.
    assert!(!b.is_valid_move(&mv(1, 1)));
}

#[test]
fn swap_rule_does_not_allow_own_stone() {
    let mut b = HexBoard::new(3, 3, Player::Red, true);
    b.move_count = 1;
    b.grid[0][0] = HexCell::Occupied(Player::Red);
    assert!(!b.is_valid_move(&mv(0, 0)));
}

#[test]
fn without_swap_rule_second_move_needs_empty_cell() {
    let mut b = HexBoard::new(3, 3, Player::Red, false);
    b.apply_move(&mv(1, 1)).unwrap();
    assert!(!b.is_valid_move(&mv(1, 1)));
    let before = b.clone();
    let r = b.apply_move(&mv(1, 1));
    assert_eq!(r, Err("WARNING: Invalid move: HexMove { x: 1, y: 1 }".to_string()));
    assert_eq!(b.move_count, before.move_count);
    assert_eq!(b.grid, before.grid);
    assert_eq!(b.current_player, before.current_player);
}

#[test]
fn apply_move_places_and_passes_turn() {
    let mut b = HexBoard::new(5, 5, Player::Red, true);
    assert_eq!(b.apply_move(&mv(2, 3)), Ok(()));
    assert_eq!(b.grid[3][2], HexCell::Occupied(Player::Red));
    assert_eq!(b.move_count, 1);
    assert_eq!(b.move_history, vec![mv(2, 3)]);
    assert_eq!(b.current_player, Player::Blue);
    assert_eq!(b.winner, None);
    assert_eq!(b.apply_move(&mv(0, 0)), Ok(()));
    assert_eq!(b.grid[0][0], HexCell::Occupied(Player::Blue));
    assert_eq!(b.current_player, Player::Red);
}

#[test]
fn invalid_move_message_matches_debug_form() {
    let mut b = HexBoard::new(3, 3, Player::Red, false);
    let m = mv(7, 12);
    let r = b.apply_move(&m);
    assert_eq!(r, Err(format!("WARNING: Invalid move: {:?}", m)));
    assert_eq!(r, Err("WARNING: Invalid move: HexMove { x: 7, y: 12 }".to_string()));
    assert_eq!(b.move_count, 0);
}

#[test]
fn off_board_sentinel_is_refused() {
    let mut b = HexBoard::new(11, 11, Player::Red, true);
    let m = mv(usize::MAX, usize::MAX);
    let r = b.apply_move(&m);
    assert_eq!(r, Err(format!("WARNING: Invalid move: {:?}", m)));
}

#[test]
fn one_cell_board_is_won_by_first_move() {
    let mut b = HexBoard::new(1, 1, Player::Red, false);
    b.apply_move(&mv(0, 0)).unwrap();
    assert_eq!(b.winner, Some(Player::Red));
    assert_eq!(b.current_player, Player::Red);

    let mut b = HexBoard::new(1, 1, Player::Blue, false);
    b.apply_move(&mv(0, 0)).unwrap();
    assert_eq!(b.winner, Some(Player::Blue));
}

#[test]
fn red_wins_with_a_column() {
    let mut b = HexBoard::new(3, 3, Player::Red, false);
    b.apply_move(&mv(0, 0)).unwrap(); // Red
    b.apply_move(&mv(2, 0)).unwrap(); // Blue
    b.apply_move(&mv(0, 1)).unwrap(); // Red
    assert_eq!(b.winner, None);
    b.apply_move(&mv(2, 1)).unwrap(); // Blue
    b.apply_move(&mv(0, 2)).unwrap(); // Red
    assert_eq!(b.winner, Some(Player::Red));
    assert_eq!(b.current_player, Player::Red);
    assert_eq!(b.move_count, 5);
}

#[test]
fn no_move_after_the_game_is_won() {
    let mut b = HexBoard::new(1, 1, Player::Red, false);
    b.apply_move(&mv(0, 0)).unwrap();
    let before = b.clone();
    let r = b.apply_move(&mv(0, 0));
    assert_eq!(r, Err("Game is already over".to_string()));
    assert_eq!(b.grid, before.grid);
    assert_eq!(b.move_count, before.move_count);
    assert_eq!(b.winner, Some(Player::Red));
}

#[test]
fn blue_wins_with_a_row() {
    let mut b = HexBoard::new(3, 3, Player::Blue, false);
    b.apply_move(&mv(0, 1)).unwrap(); // Blue
    b.apply_move(&mv(0, 0)).unwrap(); // Red
    b.apply_move(&mv(1, 1)).unwrap(); // Blue
    b.apply_move(&mv(1, 0)).unwrap(); // Red
    assert_eq!(b.winner, None);
    b.apply_move(&mv(2, 1)).unwrap(); // Blue
    assert_eq!(b.winner, Some(Player::Blue));
}

#[test]
fn the_rising_diagonal_joins_cells() {
    // (1, 0) and (0, 1) are neighbours.
    let mut b = HexBoard::new(2, 2, Player::Red, false);
    b.apply_move(&mv(1, 0)).unwrap(); // Red
    b.apply_move(&mv(0, 0)).unwrap(); // Blue
    b.apply_move(&mv(0, 1)).unwrap(); // Red
    assert_eq!(b.winner, Some(Player::Red));
}

#[test]
fn the_falling_diagonal_does_not_join_cells() {
    // (0, 0) and (1, 1) are not neighbours.
    let mut b = HexBoard::new(2, 2, Player::Red, false);
    b.apply_move(&mv(0, 0)).unwrap(); // Red
    b.apply_move(&mv(0, 1)).unwrap(); // Blue
    b.apply_move(&mv(1, 1)).unwrap(); // Red
    assert_eq!(b.winner, None);
    assert_eq!(b.current_player, Player::Blue);
}

#[test]
fn winding_chain_wins() {
    // Red goes down, right along a row, and down again.
    let mut b = HexBoard::new(4, 4, Player::Red, false);
    let red = [mv(0, 0), mv(0, 1), mv(1, 1), mv(2, 1), mv(2, 2), mv(2, 3)];
    let blue = [mv(3, 0), mv(3, 1), mv(0, 3), mv(1, 3), mv(3, 3)];
    for i in 0..red.len() {
        assert_eq!(b.winner, None);
        b.apply_move(&red[i]).unwrap();
        if i < blue.len() && b.winner.is_none() {
            b.apply_move(&blue[i]).unwrap();
        }
    }
    assert_eq!(b.winner, Some(Player::Red));
}

#[test]
fn blue_move_never_makes_red_win() {
    let mut b = HexBoard::new(2, 2, Player::Red, true);
    b.apply_move(&mv(0, 0)).unwrap(); // Red top row
    b.apply_move(&mv(1, 1)).unwrap(); // Blue
    assert_eq!(b.winner, None);
    b.apply_move(&mv(1, 0)).unwrap(); // Red
    assert_eq!(b.winner, None);
    b.apply_move(&mv(0, 1)).unwrap(); // Blue: joins left and right
    assert_eq!(b.winner, Some(Player::Blue));
}

#[test]
fn zero_sized_board_has_no_moves() {
    let mut b = HexBoard::new(0, 0, Player::Red, true);
    assert!(!b.is_valid_move(&mv(0, 0)));
    assert!(b.apply_move(&mv(0, 0)).is_err());
}

#[test]
fn move_notation() {
    assert_eq!(mv(0, 0).notation(), "a1");
    assert_eq!(mv(2, 9).notation(), "c10");
    assert_eq!(mv(10, 10).notation(), "k11");
}

#[test]
fn side_to_ask_follows_the_turn() {
    let mut b = HexBoard::new(2, 2, Player::Blue, false);
    assert_eq!(side_to_ask(&b), Some(Player::Blue));
    b.apply_move(&mv(0, 0)).unwrap();
    assert_eq!(side_to_ask(&b), Some(Player::Red));
    let mut w = HexBoard::new(1, 1, Player::Red, false);
    w.apply_move(&mv(0, 0)).unwrap();
    assert_eq!(side_to_ask(&w), None);
}

#[test]
fn play_turn_reports_position_or_error() {
    let mut b = HexBoard::new(3, 3, Player::Red, false);
    match play_turn(&mut b, &mv(1, 1)) {
        GameUpdate::State(s) => {
            assert_eq!(s.grid, b.grid);
            assert_eq!(s.grid[1][1], HexCell::Occupied(Player::Red));
            assert_eq!(s.move_history, vec![mv(1, 1)]);
            assert_eq!(s.current_player, Player::Blue);
        }
        GameUpdate::Error(e) => panic!("unexpected error {}", e),
    }
    match play_turn(&mut b, &mv(1, 1)) {
        GameUpdate::Error(e) => assert_eq!(e, "WARNING: Invalid move: HexMove { x: 1, y: 1 }"),
        GameUpdate::State(_) => panic!("move should be refused"),
    }
    assert_eq!(b.move_count, 1);
}

#[test]
fn copy_keeps_the_position() {
    let mut b = HexBoard::new(3, 2, Player::Red, true);
    b.apply_move(&mv(2, 1)).unwrap();
    let c = b.copy();
    assert_eq!(c.grid, b.grid);
    assert_eq!(c.move_history, b.move_history);
    assert_eq!((c.width, c.height, c.move_count, c.swap_rule), (3, 2, 1, true));
    assert_eq!(c.current_player, b.current_player);
    assert_eq!(c.winner, b.winner);
}

#[test]
fn grid_keeps_its_shape() {
    let mut b = HexBoard::new(4, 3, Player::Red, false);
    b.apply_move(&mv(3, 2)).unwrap();
    b.apply_move(&mv(0, 0)).unwrap();
    assert_eq!(b.grid.len(), 3);
    assert!(b.grid.iter().all(|r| r.len() == 4));
}

fn stones_on(b: &HexBoard) -> usize {
    b.grid.iter().flatten().filter(|c| **c != HexCell::Empty).count()
}

fn check_game_state(b: &HexBoard, first: Player) {
    assert_eq!(b.grid.len(), b.height);
    assert!(b.grid.iter().all(|row| row.len() == b.width));
    assert_eq!(b.move_count, b.move_history.len());
    assert!(stones_on(b) <= b.move_count);
    let mover = |k: usize| if k % 2 == 0 { first } else { first.opposite() };
    match b.winner {
        None => assert_eq!(b.current_player, mover(b.move_count)),
        Some(w) => {
            assert_eq!(w, b.current_player);
            assert!(b.move_count >= 1);
            assert_eq!(w, mover(b.move_count - 1));
        }
    }
}

#[test]
fn a_whole_game_keeps_its_bookkeeping() {
    let mut b = HexBoard::new(3, 3, Player::Red, false);
    check_game_state(&b, Player::Red);
    let moves = [mv(0, 0), mv(2, 0), mv(0, 0), mv(0, 1), mv(2, 1), mv(7, 7), mv(0, 2)];
    for m in moves.iter() {
        let _ = b.apply_move(m);
        check_game_state(&b, Player::Red);
    }
    assert_eq!(b.winner, Some(Player::Red));
    assert_eq!(b.move_count, 5);
    assert_eq!(stones_on(&b), 5);
    // Once won, the winner stays and nothing more is played.
    assert!(b.apply_move(&mv(1, 1)).is_err());
    assert_eq!(b.winner, Some(Player::Red));
    assert_eq!(b.move_count, 5);
    check_game_state(&b, Player::Red);
}

#[test]
fn the_swap_move_adds_no_stone() {
    let mut b = HexBoard::new(4, 4, Player::Blue, true);
    assert!(b.apply_move(&mv(1, 1)).is_ok());
    assert!(b.apply_move(&mv(1, 1)).is_ok());
    assert_eq!(b.move_count, 2);
    assert_eq!(stones_on(&b), 1);
    assert_eq!(b.grid[1][1], HexCell::Occupied(Player::Red));
    check_game_state(&b, Player::Blue);
}
