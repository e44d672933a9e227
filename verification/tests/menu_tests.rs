use hex_rs::menu::{game_mouse_action, handle_menu_mouse, menu_item_look, menu_rects, ItemLook, MouseKind};
use hex_rs::menu::{
    handle_dropdown_click, handle_dropdown_key, handle_menu_click, handle_menu_enter, handle_menu_key,
    handle_menu_scroll, new_area, MenuAction, MenuOutcome, MenuState,
};
use hex_rs::menu::{
    agent_index, agent_name, apply_dropdown_selection, config_to_dropdown_idx, dropdown_down, dropdown_len,
    dropdown_max, dropdown_up, handle_game_key, menu_item_at_row, next_menu_item, previous_menu_item,
    rect_contains, scroll_history, scroll_menu_item, Area, GameAction, Key, AGENT_COUNT,
};
use hex_rs::{AppConfig, HexBoard, Player};

#[test]
fn agents_by_name_and_place() {
    assert_eq!(AGENT_COUNT, 2);
    assert_eq!(agent_name(0), Some("Human"));
    assert_eq!(agent_name(1), Some("Random"));
    assert_eq!(agent_name(2), None);
    assert_eq!(agent_index("Human"), 0);
    assert_eq!(agent_index("Random"), 1);
    assert_eq!(agent_index("Robot"), 0);
    assert_eq!(agent_index(""), 0);
}

#[test]
fn dropdown_sizes() {
    assert_eq!(dropdown_max(0), 27);
    assert_eq!(dropdown_max(1), 27);
    assert_eq!(dropdown_max(2), 1);
    assert_eq!(dropdown_max(3), 1);
    assert_eq!(dropdown_max(4), 1);
    assert_eq!(dropdown_max(5), 1);
    assert_eq!(dropdown_max(9), 1);
    assert_eq!(dropdown_len(0), 28);
    assert_eq!(dropdown_len(3), 2);
    assert_eq!(dropdown_len(5), 2);
}

#[test]
fn dropdown_index_follows_config() {
    let mut c = AppConfig::default();
    assert_eq!(config_to_dropdown_idx(&c, 0), 8);
    assert_eq!(config_to_dropdown_idx(&c, 1), 8);
    assert_eq!(config_to_dropdown_idx(&c, 2), 0);
    assert_eq!(config_to_dropdown_idx(&c, 3), 0);
    assert_eq!(config_to_dropdown_idx(&c, 4), 0);
    c.width = 2;
    c.swap_rule = false;
    c.first_player = Player::Blue;
    c.agent2 = "Random".to_string();
    assert_eq!(config_to_dropdown_idx(&c, 0), 0);
    assert_eq!(config_to_dropdown_idx(&c, 2), 1);
    assert_eq!(config_to_dropdown_idx(&c, 3), 1);
    assert_eq!(config_to_dropdown_idx(&c, 5), 1);
    assert_eq!(config_to_dropdown_idx(&c, 7), 0);
}

#[test]
fn dropdown_selection_sets_config() {
    let mut c = AppConfig::default();
    apply_dropdown_selection(&mut c, 0, 0);
    assert_eq!(c.width, 3);
    apply_dropdown_selection(&mut c, 1, 27);
    assert_eq!(c.height, 30);
    apply_dropdown_selection(&mut c, 2, 1);
    assert!(!c.swap_rule);
    apply_dropdown_selection(&mut c, 2, 0);
    assert!(c.swap_rule);
    apply_dropdown_selection(&mut c, 3, 1);
    assert_eq!(c.first_player, Player::Blue);
    apply_dropdown_selection(&mut c, 4, 1);
    assert_eq!(c.agent1, "Random");
    apply_dropdown_selection(&mut c, 5, 9);
    assert_eq!(c.agent2, "Human");
    apply_dropdown_selection(&mut c, 6, 1);
    assert_eq!((c.width, c.height), (3, 30));
}

#[test]
fn menu_navigation_goes_round() {
    assert_eq!(next_menu_item(0), 1);
    assert_eq!(next_menu_item(7), 0);
    assert_eq!(previous_menu_item(0), 7);
    assert_eq!(previous_menu_item(3), 2);
    assert_eq!(scroll_menu_item(0, true), 5);
    assert_eq!(scroll_menu_item(3, true), 2);
    assert_eq!(scroll_menu_item(5, false), 0);
    assert_eq!(scroll_menu_item(7, false), 0);
    assert_eq!(scroll_menu_item(2, false), 3);
    assert_eq!(dropdown_up(0), 0);
    assert_eq!(dropdown_up(4), 3);
    assert_eq!(dropdown_down(4, 27), 5);
    assert_eq!(dropdown_down(27, 27), 27);
}

#[test]
fn menu_rows() {
    assert_eq!(menu_item_at_row(0), Some(0));
    assert_eq!(menu_item_at_row(5), Some(5));
    assert_eq!(menu_item_at_row(6), None);
    assert_eq!(menu_item_at_row(7), Some(6));
    assert_eq!(menu_item_at_row(8), Some(7));
    assert_eq!(menu_item_at_row(9), None);
}

#[test]
fn areas_hold_their_cells() {
    let a = Area { x: 2, y: 3, width: 4, height: 2 };
    assert!(rect_contains(a, 2, 3));
    assert!(rect_contains(a, 5, 4));
    assert!(!rect_contains(a, 6, 4));
    assert!(!rect_contains(a, 5, 5));
    assert!(!rect_contains(a, 1, 3));
    let empty = Area { x: 0, y: 0, width: 0, height: 0 };
    assert!(!rect_contains(empty, 0, 0));
    let edge = Area { x: u16::MAX - 1, y: 0, width: 1, height: 1 };
    assert!(rect_contains(edge, u16::MAX - 1, 0));
    assert!(!rect_contains(edge, u16::MAX, 0));
}

#[test]
fn game_keys() {
    let b = HexBoard::new(3, 4, Player::Red, true);
    assert_eq!(handle_game_key(Key::Char('q'), &b, 1, 1), Some(GameAction::Quit));
    assert_eq!(handle_game_key(Key::Esc, &b, 1, 1), Some(GameAction::Quit));
    assert_eq!(handle_game_key(Key::Char('m'), &b, 1, 1), Some(GameAction::GoToMenu));
    assert_eq!(handle_game_key(Key::Char('r'), &b, 1, 1), Some(GameAction::Reset));
    assert_eq!(handle_game_key(Key::Char('x'), &b, 1, 1), None);
    assert_eq!(handle_game_key(Key::Up, &b, 1, 1), Some(GameAction::MoveCursor(1, 0)));
    assert_eq!(handle_game_key(Key::Up, &b, 1, 0), None);
    assert_eq!(handle_game_key(Key::Down, &b, 1, 2), Some(GameAction::MoveCursor(1, 3)));
    assert_eq!(handle_game_key(Key::Down, &b, 1, 3), None);
    assert_eq!(handle_game_key(Key::Left, &b, 0, 1), None);
    assert_eq!(handle_game_key(Key::Left, &b, 2, 1), Some(GameAction::MoveCursor(1, 1)));
    assert_eq!(handle_game_key(Key::Right, &b, 1, 1), Some(GameAction::MoveCursor(2, 1)));
    assert_eq!(handle_game_key(Key::Right, &b, 2, 1), None);
    assert_eq!(handle_game_key(Key::Enter, &b, 2, 3), Some(GameAction::PlaceMove(2, 3)));
    assert_eq!(handle_game_key(Key::Other, &b, 2, 3), None);
}

#[test]
fn history_scrolling_stays_in_range() {
    assert_eq!(scroll_history(None, 0, 1), None);
    assert_eq!(scroll_history(None, 5, 1), Some(4));
    assert_eq!(scroll_history(None, 5, -1), Some(3));
    assert_eq!(scroll_history(Some(0), 5, -1), Some(0));
    assert_eq!(scroll_history(Some(2), 5, 1), Some(3));
    assert_eq!(scroll_history(Some(4), 5, 1), Some(4));
    assert_eq!(scroll_history(Some(9), 5, -1), Some(4));
}

fn closed(selected: usize) -> MenuState {
    MenuState { selected, dropdown_open: false, dropdown_selected: None }
}

#[test]
fn new_menu_state() {
    assert_eq!(MenuState::new(), closed(0));
}

#[test]
fn open_and_close_dropdown() {
    let c = AppConfig::default();
    let mut m = closed(1);
    m.open_dropdown(&c);
    assert_eq!(m, MenuState { selected: 1, dropdown_open: true, dropdown_selected: Some(8) });
    m.close_dropdown();
    assert_eq!(m, MenuState { selected: 1, dropdown_open: false, dropdown_selected: Some(8) });
}

#[test]
fn menu_keys_move_and_quit() {
    let mut c = AppConfig::default();
    let mut m = closed(7);
    assert_eq!(handle_menu_key(Key::Down, &mut c, &mut m), MenuOutcome { action: None, save: false });
    assert_eq!(m.selected, 0);
    handle_menu_key(Key::Up, &mut c, &mut m);
    assert_eq!(m.selected, 7);
    assert_eq!(handle_menu_key(Key::Char('q'), &mut c, &mut m).action, Some(MenuAction::Quit));
    assert_eq!(handle_menu_key(Key::Esc, &mut c, &mut m).action, Some(MenuAction::Quit));
    assert_eq!(handle_menu_key(Key::Enter, &mut c, &mut m).action, Some(MenuAction::StartGame));
    assert_eq!(handle_menu_key(Key::Left, &mut c, &mut m), MenuOutcome { action: None, save: false });
}

#[test]
fn choosing_a_width_from_the_dropdown() {
    let mut c = AppConfig::default();
    let mut m = closed(0);
    assert_eq!(handle_menu_key(Key::Enter, &mut c, &mut m), MenuOutcome { action: None, save: false });
    assert_eq!(m, MenuState { selected: 0, dropdown_open: true, dropdown_selected: Some(8) });
    handle_menu_key(Key::Down, &mut c, &mut m);
    handle_menu_key(Key::Down, &mut c, &mut m);
    handle_menu_key(Key::Up, &mut c, &mut m);
    assert_eq!(m.dropdown_selected, Some(9));
    assert_eq!(handle_menu_key(Key::Enter, &mut c, &mut m), MenuOutcome { action: None, save: true });
    assert_eq!(c.width, 12);
    assert!(!m.dropdown_open);
}

#[test]
fn dropdown_keys_stop_at_the_ends() {
    let mut c = AppConfig::default();
    let mut m = MenuState { selected: 2, dropdown_open: true, dropdown_selected: Some(1) };
    assert!(!handle_dropdown_key(Key::Down, &mut c, &mut m));
    assert_eq!(m.dropdown_selected, Some(1));
    handle_dropdown_key(Key::Up, &mut c, &mut m);
    handle_dropdown_key(Key::Up, &mut c, &mut m);
    assert_eq!(m.dropdown_selected, Some(0));
    assert!(!handle_dropdown_key(Key::Esc, &mut c, &mut m));
    assert!(!m.dropdown_open);
    assert!(c.swap_rule);
}

#[test]
fn reset_to_defaults() {
    let mut c = AppConfig::default();
    c.width = 5;
    c.agent1 = "Random".to_string();
    let mut m = closed(6);
    assert_eq!(handle_menu_enter(&mut c, &mut m), MenuOutcome { action: None, save: true });
    assert_eq!(c.width, 11);
    assert_eq!(c.agent1, "Human");
    assert_eq!(m, closed(6));
}

#[test]
fn scrolling_the_menu() {
    let mut m = closed(0);
    handle_menu_scroll(true, &mut m);
    assert_eq!(m.selected, 5);
    handle_menu_scroll(false, &mut m);
    assert_eq!(m.selected, 0);
    let mut m = MenuState { selected: 4, dropdown_open: true, dropdown_selected: Some(0) };
    handle_menu_scroll(false, &mut m);
    assert_eq!(m.dropdown_selected, Some(1));
    handle_menu_scroll(false, &mut m);
    assert_eq!(m.dropdown_selected, Some(1));
    assert_eq!(m.selected, 4);
}

#[test]
fn areas_are_cut_at_the_edge() {
    assert_eq!(new_area(1, 2, 3, 4), Area { x: 1, y: 2, width: 3, height: 4 });
    assert_eq!(new_area(u16::MAX - 2, u16::MAX, 10, 10), Area { x: u16::MAX - 2, y: u16::MAX, width: 2, height: 0 });
}

#[test]
fn clicking_menu_items() {
    let inner = Area { x: 10, y: 5, width: 36, height: 16 };
    let mut c = AppConfig::default();
    let mut m = closed(0);
    // Outside the menu.
    assert_eq!(handle_menu_click(0, 0, &mut c, &mut m, inner, 0), MenuOutcome { action: None, save: false });
    // The blank line.
    assert_eq!(handle_menu_click(12, 11, &mut c, &mut m, inner, 0), MenuOutcome { action: None, save: false });
    assert_eq!(m, closed(0));
    // "Start Game".
    assert_eq!(handle_menu_click(12, 13, &mut c, &mut m, inner, 0).action, Some(MenuAction::StartGame));
    assert_eq!(m.selected, 7);
    // "First Player" opens its list.
    handle_menu_click(12, 8, &mut c, &mut m, inner, 0);
    assert_eq!(m, MenuState { selected: 3, dropdown_open: true, dropdown_selected: Some(0) });
}

#[test]
fn clicking_dropdown_entries() {
    let inner = Area { x: 10, y: 5, width: 36, height: 16 };
    let mut c = AppConfig::default();
    // The list of item 3 lies at x 26..40, y 9..15; its entries on rows 10 to 13.
    let mut m = MenuState { selected: 3, dropdown_open: true, dropdown_selected: Some(0) };
    assert!(!handle_dropdown_click(30, 9, &mut c, &mut m, inner, 0));
    assert!(m.dropdown_open);
    assert!(!handle_dropdown_click(30, 12, &mut c, &mut m, inner, 0));
    assert!(m.dropdown_open);
    assert!(handle_dropdown_click(30, 11, &mut c, &mut m, inner, 0));
    assert_eq!(m, MenuState { selected: 3, dropdown_open: false, dropdown_selected: Some(1) });
    assert_eq!(c.first_player, Player::Blue);
    // Outside the list: it closes.
    let mut m = MenuState { selected: 0, dropdown_open: true, dropdown_selected: Some(8) };
    assert!(!handle_dropdown_click(5, 5, &mut c, &mut m, inner, 0));
    assert!(!m.dropdown_open);
    // A scrolled list of sizes.
    let mut m = MenuState { selected: 0, dropdown_open: true, dropdown_selected: Some(8) };
    assert!(handle_dropdown_click(30, 9, &mut c, &mut m, inner, 5));
    assert_eq!(c.width, 3 + 5 + 2);
}

#[test]
fn moving_down_then_up_returns() {
    for s in 0..8 {
        assert_eq!(previous_menu_item(next_menu_item(s)), s);
        assert_eq!(next_menu_item(previous_menu_item(s)), s);
    }
}

#[test]
fn keys_go_to_an_open_dropdown() {
    let mut c = AppConfig::default();
    let mut m = MenuState { selected: 1, dropdown_open: true, dropdown_selected: Some(2) };
    assert_eq!(handle_menu_key(Key::Down, &mut c, &mut m), MenuOutcome { action: None, save: false });
    assert_eq!(m.dropdown_selected, Some(3));
    assert_eq!(handle_menu_key(Key::Char('q'), &mut c, &mut m), MenuOutcome { action: None, save: false });
    assert!(m.dropdown_open);
    assert_eq!(handle_menu_key(Key::Enter, &mut c, &mut m), MenuOutcome { action: None, save: true });
    assert_eq!(c.height, 6);
    assert!(!m.dropdown_open);
}

#[test]
fn clicks_go_to_an_open_dropdown() {
    let inner = Area { x: 10, y: 5, width: 36, height: 16 };
    let mut c = AppConfig::default();
    let mut m = MenuState { selected: 2, dropdown_open: true, dropdown_selected: Some(0) };
    // The list of item 2 lies at y 8..14; its second entry on row 10.
    assert_eq!(handle_menu_click(30, 10, &mut c, &mut m, inner, 0), MenuOutcome { action: None, save: true });
    assert!(!c.swap_rule);
    assert_eq!(m, MenuState { selected: 2, dropdown_open: false, dropdown_selected: Some(1) });
}

#[test]
fn mouse_on_the_board_screen() {
    let history = Area { x: 40, y: 20, width: 40, height: 8 };
    let reset = Area { x: 50, y: 0, width: 20, height: 3 };
    let menu_btn = Area { x: 70, y: 0, width: 25, height: 3 };
    let canvas = Area { x: 1, y: 4, width: 90, height: 15 };
    let act = |k, c, r, h| game_mouse_action(k, c, r, history, reset, menu_btn, canvas, h);
    assert_eq!(act(MouseKind::ScrollDown, 45, 22, None), Some(GameAction::ScrollHistory(1)));
    assert_eq!(act(MouseKind::ScrollUp, 45, 22, None), Some(GameAction::ScrollHistory(-1)));
    assert_eq!(act(MouseKind::LeftDown, 45, 22, None), None);
    assert_eq!(act(MouseKind::LeftDown, 55, 1, None), Some(GameAction::Reset));
    assert_eq!(act(MouseKind::LeftDown, 75, 1, None), Some(GameAction::GoToMenu));
    assert_eq!(act(MouseKind::Other, 55, 1, None), None);
    assert_eq!(act(MouseKind::LeftDown, 10, 10, Some((2, 3))), Some(GameAction::PlaceMove(2, 3)));
    assert_eq!(act(MouseKind::Other, 10, 10, Some((2, 3))), Some(GameAction::MoveCursor(2, 3)));
    assert_eq!(act(MouseKind::LeftDown, 10, 10, None), None);
    let empty = Area { x: 1, y: 4, width: 0, height: 15 };
    assert_eq!(game_mouse_action(MouseKind::LeftDown, 1, 10, history, reset, menu_btn, empty, Some((0, 0))), None);
}

#[test]
fn menu_frame_is_centred_and_cut() {
    let screen = |w, h| Area { x: 0, y: 0, width: w, height: h };
    assert_eq!(
        menu_rects(screen(80, 24)),
        (Area { x: 20, y: 2, width: 40, height: 20 }, Area { x: 22, y: 4, width: 36, height: 16 })
    );
    assert_eq!(
        menu_rects(screen(30, 10)),
        (Area { x: 0, y: 0, width: 30, height: 10 }, Area { x: 2, y: 2, width: 26, height: 6 })
    );
    assert_eq!(
        menu_rects(screen(3, 3)),
        (Area { x: 0, y: 0, width: 3, height: 3 }, Area { x: 2, y: 2, width: 0, height: 0 })
    );
}

#[test]
fn menu_lines_look() {
    let m = closed(3);
    assert_eq!(menu_item_look(3, &m), ItemLook::Highlighted);
    assert_eq!(menu_item_look(2, &m), ItemLook::Plain);
    assert_eq!(menu_item_look(6, &closed(6)), ItemLook::Plain);
    assert_eq!(menu_item_look(7, &closed(6)), ItemLook::Highlighted);
    assert_eq!(menu_item_look(8, &closed(7)), ItemLook::Highlighted);
    let open = MenuState { selected: 3, dropdown_open: true, dropdown_selected: Some(0) };
    assert_eq!(menu_item_look(3, &open), ItemLook::Opened);
}

#[test]
fn mouse_on_the_menu() {
    let screen = Area { x: 0, y: 0, width: 80, height: 24 };
    let mut c = AppConfig::default();
    let mut m = closed(0);
    let none = MenuOutcome { action: None, save: false };
    // The menu area starts at (22, 4): row 7 is "First Player", whose list opens.
    assert_eq!(handle_menu_mouse(MouseKind::LeftDown, 24, 7, &mut c, &mut m, screen, 0), none);
    assert_eq!(m, MenuState { selected: 3, dropdown_open: true, dropdown_selected: Some(0) });
    // Its list lies at (38, 8); the second entry is on row 10.
    assert_eq!(
        handle_menu_mouse(MouseKind::LeftDown, 40, 10, &mut c, &mut m, screen, 0),
        MenuOutcome { action: None, save: true }
    );
    assert_eq!(c.first_player, Player::Blue);
    assert!(!m.dropdown_open);
    assert_eq!(handle_menu_mouse(MouseKind::ScrollDown, 0, 0, &mut c, &mut m, screen, 0), none);
    assert_eq!(m.selected, 4);
    assert_eq!(handle_menu_mouse(MouseKind::ScrollUp, 0, 0, &mut c, &mut m, screen, 0), none);
    assert_eq!(m.selected, 3);
    assert_eq!(handle_menu_mouse(MouseKind::Other, 24, 7, &mut c, &mut m, screen, 0), none);
    assert_eq!(m.selected, 3);
    assert!(!m.dropdown_open);
}

#[test]
fn dropdown_on_the_last_row_closes_on_click() {
    let inner = Area { x: 0, y: u16::MAX - 4, width: 36, height: 4 };
    let mut c = AppConfig::default();
    let mut m = MenuState { selected: 3, dropdown_open: true, dropdown_selected: Some(0) };
    assert!(!handle_dropdown_click(20, u16::MAX, &mut c, &mut m, inner, 0));
    assert_eq!(m, MenuState { selected: 3, dropdown_open: false, dropdown_selected: Some(0) });
    assert_eq!(c.first_player, Player::Red);
}
