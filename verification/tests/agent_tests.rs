use hex_rs::agents::click::ClickAgent as SharedClickAgent;
use hex_rs::agents::move_or_none;
use hex_rs::agents::random::valid_moves;
use hex_rs::{Agent, ClickAgent, HexBoard, HexMove, Player, RandomAgent};
use std::sync::mpsc;
use std::sync::{Arc, Mutex};

#[test]
fn move_or_none_passes_moves_through() {
    assert_eq!(move_or_none(Some(HexMove { x: 3, y: 4 })), HexMove { x: 3, y: 4 });
    assert_eq!(move_or_none(None), HexMove { x: usize::MAX, y: usize::MAX });
}

#[test]
fn click_agent_plays_what_it_receives() {
    let (tx, rx) = mpsc::channel();
    let mut agent = ClickAgent::new(rx);
    let board = HexBoard::new(3, 3, Player::Red, true);
    tx.send(HexMove { x: 1, y: 2 }).unwrap();
    tx.send(HexMove { x: 0, y: 0 }).unwrap();
    assert_eq!(agent.get_move(&board), HexMove { x: 1, y: 2 });
    assert_eq!(agent.get_move(&board), HexMove { x: 0, y: 0 });
    drop(tx);
    assert_eq!(agent.get_move(&board), HexMove { x: usize::MAX, y: usize::MAX });
}

#[test]
fn shared_click_agents_take_turns_on_one_channel() {
    let (tx, rx) = mpsc::channel();
    let shared = Arc::new(Mutex::new(rx));
    let mut red = SharedClickAgent::new(shared.clone());
    let mut blue = SharedClickAgent::new(shared);
    let board = HexBoard::new(3, 3, Player::Red, true);
    tx.send(HexMove { x: 2, y: 1 }).unwrap();
    tx.send(HexMove { x: 1, y: 0 }).unwrap();
    assert_eq!(red.get_move(&board), HexMove { x: 2, y: 1 });
    assert_eq!(blue.get_move(&board), HexMove { x: 1, y: 0 });
    drop(tx);
    assert_eq!(red.get_move(&board), HexMove { x: usize::MAX, y: usize::MAX });
}

#[test]
fn valid_moves_in_reading_order() {
    let mut b = HexBoard::new(3, 2, Player::Red, false);
    assert_eq!(
        valid_moves(&b),
        vec![
            HexMove { x: 0, y: 0 },
            HexMove { x: 1, y: 0 },
            HexMove { x: 2, y: 0 },
            HexMove { x: 0, y: 1 },
            HexMove { x: 1, y: 1 },
            HexMove { x: 2, y: 1 },
        ]
    );
    b.apply_move(&HexMove { x: 1, y: 0 }).unwrap();
    b.apply_move(&HexMove { x: 0, y: 1 }).unwrap();
    assert_eq!(
        valid_moves(&b),
        vec![HexMove { x: 0, y: 0 }, HexMove { x: 2, y: 0 }, HexMove { x: 1, y: 1 }, HexMove { x: 2, y: 1 }]
    );
}

#[test]
fn valid_moves_with_swap_rule_include_first_stone() {
    let mut b = HexBoard::new(2, 2, Player::Red, true);
    b.apply_move(&HexMove { x: 1, y: 0 }).unwrap();
    assert_eq!(
        valid_moves(&b),
        vec![HexMove { x: 0, y: 0 }, HexMove { x: 1, y: 0 }, HexMove { x: 0, y: 1 }, HexMove { x: 1, y: 1 }]
    );
}

#[test]
fn random_agent_plays_an_allowed_move() {
    let mut b = HexBoard::new(2, 2, Player::Red, false);
    b.apply_move(&HexMove { x: 0, y: 0 }).unwrap();
    b.apply_move(&HexMove { x: 1, y: 1 }).unwrap();
    b.apply_move(&HexMove { x: 1, y: 0 }).unwrap();
    let mut agent = RandomAgent::new();
    for _ in 0..20 {
        assert_eq!(agent.get_move(&b), HexMove { x: 0, y: 1 });
    }
    let mut b = HexBoard::new(4, 4, Player::Red, false);
    b.apply_move(&HexMove { x: 2, y: 2 }).unwrap();
    for _ in 0..50 {
        let m = agent.get_move(&b);
        assert!(b.is_valid_move(&m));
    }
}

#[test]
fn random_agent_without_moves_gives_the_off_board_move() {
    let mut b = HexBoard::new(1, 1, Player::Red, false);
    b.apply_move(&HexMove { x: 0, y: 0 }).unwrap();
    let mut agent = RandomAgent::default();
    assert_eq!(agent.get_move(&b), HexMove { x: usize::MAX, y: usize::MAX });
}
