use vstd::prelude::*;
use vstd::string::*;
use crate::config::{default_agent, default_settings, AppConfig};
use crate::game::{HexBoard, Player};

verus! {

/// Which screen the program shows.
pub enum AppState {
    Menu,
    Playing,
}

/// A key press, as far as the menu and the board read it.
#[derive(Debug, Clone, Copy, PartialEq, Eq, Structural)]
pub enum Key {
    Char(char),
    Esc,
    Enter,
    Up,
    Down,
    Left,
    Right,
    Other,
}

/// What a key or a click on the board asks for.
#[derive(Debug, Clone, Copy, PartialEq, Eq, Structural)]
pub enum GameAction {
    Quit,
    GoToMenu,
    Reset,
    MoveCursor(usize, usize),
    PlaceMove(usize, usize),
    ScrollHistory(i32),
}

/// A rectangle of terminal cells: its top-left corner and its size.
#[derive(Debug, Clone, Copy, PartialEq, Eq, Structural)]
pub struct Area {
    pub x: u16,
    pub y: u16,
    pub width: u16,
    pub height: u16,
}

/// The names of the agents one can choose, in menu order.
pub open spec fn agent_names() -> Seq<Seq<char>> {
    seq!["Human"@, "Random"@]
}

/// The number of agents one can choose.
pub const AGENT_COUNT: usize = 2;

/// The name of the agent at `idx` in the menu.
pub fn agent_name(idx: usize) -> (name: Option<&'static str>)
    ensures
        name is Some <==> idx < agent_names().len(),
        name matches Some(s) ==> s@ == agent_names()[idx as int],
{
    if idx == 0 {
        Some("Human")
    } else if idx == 1 {
        Some("Random")
    } else {
        None
    }
}

/// The place of `name` among the agents, or the first place when it is none of them.
pub open spec fn agent_position(name: Seq<char>) -> usize {
    if name == agent_names()[0] {
        0
    } else if name == agent_names()[1] {
        1
    } else {
        0
    }
}

fn same_text(a: &str, b: &str) -> (same: bool)
    ensures
        same == (a@ == b@),
{
    let n = a.unicode_len();
    if n != b.unicode_len() {
        return false;
    }
    let mut i: usize = 0;
    while i < n
        invariant
            n == a@.len(),
            n == b@.len(),
            i <= n,
            forall|k: int| 0 <= k < i ==> a@[k] == b@[k],
        decreases n - i,
    {
        if a.get_char(i) != b.get_char(i) {
            return false;
        }
        i = i + 1;
    }
    proof {
        assert(a@ =~= b@);
    }
    true
}

/// The place of the agent called `name` in the menu (the first place for an unknown name).
pub fn agent_index(name: &str) -> (idx: usize)
    ensures
        idx == agent_position(name@),
{
    if same_text(name, "Human") {
        0
    } else if same_text(name, "Random") {
        1
    } else {
        0
    }
}

/// The last index of the drop-down list opened on menu item `selected`: 28 board sizes, 2
/// agents, 2 choices otherwise.
pub open spec fn dropdown_last(selected: usize) -> usize {
    if selected <= 1 {
        27
    } else if selected == 4 || selected == 5 {
        (AGENT_COUNT - 1) as usize
    } else {
        1
    }
}

/// The last index of the drop-down list opened on menu item `selected` (see `dropdown_last`).
pub fn dropdown_max(selected: usize) -> (max: usize)
    ensures
        max == dropdown_last(selected),
{
    if selected == 0 || selected == 1 {
        27
    } else if selected == 4 || selected == 5 {
        AGENT_COUNT - 1
    } else {
        1
    }
}

/// The number of entries of the drop-down list opened on menu item `selected`.
pub open spec fn dropdown_count(selected: usize) -> usize {
    if selected <= 1 {
        28
    } else if selected == 4 || selected == 5 {
        AGENT_COUNT
    } else {
        2
    }
}

/// The number of entries of the drop-down list opened on menu item `selected`.
pub fn dropdown_len(selected: usize) -> (len: usize)
    ensures
        len == dropdown_count(selected),
{
    if selected == 0 || selected == 1 {
        28
    } else if selected == 4 || selected == 5 {
        AGENT_COUNT
    } else {
        2
    }
}

/// The drop-down entry that shows the current value of menu item `selected`.
pub open spec fn dropdown_index_of(config: AppConfig, selected: usize) -> usize {
    if selected == 0 {
        if config.width >= 3 { (config.width - 3) as usize } else { 0 }
    } else if selected == 1 {
        if config.height >= 3 { (config.height - 3) as usize } else { 0 }
    } else if selected == 2 {
        if config.swap_rule { 0 } else { 1 }
    } else if selected == 3 {
        if config.first_player == Player::Red { 0 } else { 1 }
    } else if selected == 4 {
        agent_position(config.agent1@)
    } else if selected == 5 {
        agent_position(config.agent2@)
    } else {
        0
    }
}

/// The drop-down entry that shows the current value of menu item `selected`.
pub fn config_to_dropdown_idx(config: &AppConfig, selected: usize) -> (idx: usize)
    ensures
        idx == dropdown_index_of(*config, selected),
{
    match selected {
        0 => config.width.saturating_sub(3),
        1 => config.height.saturating_sub(3),
        2 => if config.swap_rule { 0 } else { 1 },
        3 => if config.first_player == Player::Red { 0 } else { 1 },
        4 => agent_index(config.agent1.as_str()),
        5 => agent_index(config.agent2.as_str()),
        _ => 0,
    }
}

/// `after` is `before` with menu item `selected` set to drop-down entry `idx`: sizes count from
/// 3, the swap rule is on at entry 0, Red moves first at entry 0, and agents are taken by place
/// when there is one at `idx`.
pub open spec fn dropdown_applied(before: AppConfig, after: AppConfig, selected: usize, idx: usize) -> bool {
    &&& after.width == (if selected == 0 { (idx + 3) as usize } else { before.width })
    &&& after.height == (if selected == 1 { (idx + 3) as usize } else { before.height })
    &&& after.swap_rule == (if selected == 2 { idx == 0 } else { before.swap_rule })
    &&& after.first_player == (if selected == 3 {
        if idx == 0 { Player::Red } else { Player::Blue }
    } else {
        before.first_player
    })
    &&& after.agent1@ == (if selected == 4 && idx < agent_names().len() {
        agent_names()[idx as int]
    } else {
        before.agent1@
    })
    &&& after.agent2@ == (if selected == 5 && idx < agent_names().len() {
        agent_names()[idx as int]
    } else {
        before.agent2@
    })
}

/// Sets the value of menu item `selected` to drop-down entry `idx` (see `dropdown_applied`).
pub fn apply_dropdown_selection(config: &mut AppConfig, selected: usize, idx: usize)
    requires
        selected <= 1 ==> idx <= usize::MAX - 3,
    ensures
        dropdown_applied(*old(config), *final(config), selected, idx),
{
    match selected {
        0 => config.width = idx + 3,
        1 => config.height = idx + 3,
        2 => config.swap_rule = idx == 0,
        3 => config.first_player = if idx == 0 { Player::Red } else { Player::Blue },
        4 => {
            if let Some(name) = agent_name(idx) {
                config.agent1 = String::from_str(name);
            }
        },
        5 => {
            if let Some(name) = agent_name(idx) {
                config.agent2 = String::from_str(name);
            }
        },
        _ => {},
    }
}

/// Choosing entry `idx` of a drop-down list changes only the setting of that list: a size
/// list sets the width or height to `idx + 3`; the swap list turns the rule on at entry 0 and
/// off otherwise; the first-player list gives Red at entry 0 and Blue otherwise; the Red agent
/// list sets the Red agent, and the Blue agent list the Blue agent, to the agent named at `idx`
/// (kept when there is none); every other setting and the other agent stay as they were.
pub proof fn lemma_dropdown_choice_sets_its_setting(before: AppConfig, after: AppConfig, selected: usize, idx: usize)
    requires
        selected <= 1 ==> idx <= usize::MAX - 3,
        dropdown_applied(before, after, selected, idx),
    ensures
        selected == 0 ==> after.width == idx + 3 && after.height == before.height,
        selected == 1 ==> after.height == idx + 3 && after.width == before.width,
        selected == 2 ==> (after.swap_rule <==> idx == 0),
        selected == 3 ==> (after.first_player == Player::Red <==> idx == 0),
        selected != 0 ==> after.width == before.width,
        selected != 1 ==> after.height == before.height,
        selected != 2 ==> after.swap_rule == before.swap_rule,
        selected != 3 ==> after.first_player == before.first_player,
        selected == 4 && idx < 2 ==> after.agent1@ == agent_names()[idx as int],
        selected == 5 && idx < 2 ==> after.agent2@ == agent_names()[idx as int],
        idx >= 2 ==> after.agent1@ == before.agent1@ && after.agent2@ == before.agent2@,
        selected != 4 ==> after.agent1@ == before.agent1@,
        selected != 5 ==> after.agent2@ == before.agent2@,
{
}

/// The last entry of each drop-down list is the one before its count: 28 sizes (3 to 30), one
/// entry per agent, and two entries for the swap rule and the first player.
pub proof fn lemma_dropdown_last_entry(selected: usize)
    ensures
        dropdown_last(selected) + 1 == dropdown_count(selected),
        selected <= 1 ==> dropdown_count(selected) == 28,
        selected == 4 || selected == 5 ==> dropdown_count(selected) == agent_names().len(),
        selected == 2 || selected == 3 ==> dropdown_count(selected) == 2,
{
}

/// The value of menu item `selected` is one of the entries of its drop-down list: sizes from
/// 3 to 30, and agents by one of their names.
pub open spec fn value_listed(config: AppConfig, selected: usize) -> bool {
    &&& selected == 0 ==> 3 <= config.width <= 30
    &&& selected == 1 ==> 3 <= config.height <= 30
    &&& selected == 4 ==> (config.agent1@ == agent_names()[0] || config.agent1@ == agent_names()[1])
    &&& selected == 5 ==> (config.agent2@ == agent_names()[0] || config.agent2@ == agent_names()[1])
}

/// Opening the drop-down list of a setting puts it on the entry of the current value: the entry
/// lies in the list, and choosing it at once leaves the whole configuration as it was.
pub proof fn lemma_dropdown_opens_on_current_value(before: AppConfig, after: AppConfig, selected: usize)
    requires
        selected <= 5,
        value_listed(before, selected),
        dropdown_applied(before, after, selected, dropdown_index_of(before, selected)),
    ensures
        dropdown_index_of(before, selected) < dropdown_count(selected),
        config_kept(before, after),
{
}

/// The menu item below `selected`, going round from the last item (7) to the first.
pub open spec fn item_below(selected: usize) -> usize {
    if selected >= 7 { 0 } else { (selected + 1) as usize }
}

/// The menu item above `selected`, going round from the first item to the last (7).
pub open spec fn item_above(selected: usize) -> usize {
    if selected == 0 { 7 } else { (selected - 1) as usize }
}

/// The menu item below `selected` (see `item_below`).
pub fn next_menu_item(selected: usize) -> (next: usize)
    ensures
        next == item_below(selected),
{
    if selected >= 7 { 0 } else { selected + 1 }
}

/// The menu item above `selected` (see `item_above`).
pub fn previous_menu_item(selected: usize) -> (prev: usize)
    ensures
        prev == item_above(selected),
{
    if selected == 0 { 7 } else { selected - 1 }
}

/// Moving the highlight down and then up (or up and then down) comes back to the item one
/// started from, for each of the eight menu items.
pub proof fn lemma_menu_moves_undo(selected: usize)
    requires
        selected <= 7,
    ensures
        item_above(item_below(selected)) == selected,
        item_below(item_above(selected)) == selected,
{
}

/// The settings item reached by scrolling from `selected`, going round among items 0 to 5.
pub fn scroll_menu_item(selected: usize, up: bool) -> (next: usize)
    ensures
        next == (if up {
            if selected == 0 { 5 } else { (selected - 1) as usize }
        } else {
            if selected >= 5 { 0 } else { (selected + 1) as usize }
        }),
{
    if up {
        if selected == 0 { 5 } else { selected - 1 }
    } else {
        if selected >= 5 { 0 } else { selected + 1 }
    }
}

/// The drop-down entry above `i` (the first entry stays).
pub fn dropdown_up(i: usize) -> (j: usize)
    ensures
        j == (if i == 0 { 0 } else { (i - 1) as usize }),
{
    i.saturating_sub(1)
}

/// The drop-down entry below `i`, when `i` is before `max`.
pub fn dropdown_down(i: usize, max: usize) -> (j: usize)
    ensures
        j == (if i < max { (i + 1) as usize } else { i }),
{
    if i < max { i + 1 } else { i }
}

/// The menu item shown on line `row` of the menu: the settings on lines 0 to 5, a blank line,
/// then "Reset to Defaults" (item 6) and "Start Game" (item 7).
pub fn menu_item_at_row(row: usize) -> (item: Option<usize>)
    ensures
        item == (if row <= 5 {
            Some(row)
        } else if row == 7 || row == 8 {
            Some((row - 1) as usize)
        } else {
            None::<usize>
        }),
{
    if row <= 5 {
        Some(row)
    } else if row == 7 || row == 8 {
        Some(row - 1)
    } else {
        None
    }
}

/// Whether the cell `(col, row)` lies inside `area`.
pub fn rect_contains(area: Area, col: u16, row: u16) -> (inside: bool)
    ensures
        inside == area_holds(area, col, row),
{
    let right = area.x as u32 + area.width as u32;
    let bottom = area.y as u32 + area.height as u32;
    col >= area.x && (col as u32) < right && row >= area.y && (row as u32) < bottom
}

/// What a key press on a `width` by `height` board asks for, with the cursor on
/// `(cursor_x, cursor_y)`: q or Esc leaves, m goes to the menu, r starts again, the arrows move
/// the cursor one cell while it stays on the board, and Enter plays the cell under the cursor.
pub open spec fn key_action(key: Key, width: usize, height: usize, cursor_x: usize, cursor_y: usize) -> Option<GameAction> {
    match key {
        Key::Char(c) => if c == 'q' {
            Some(GameAction::Quit)
        } else if c == 'm' {
            Some(GameAction::GoToMenu)
        } else if c == 'r' {
            Some(GameAction::Reset)
        } else {
            None
        },
        Key::Esc => Some(GameAction::Quit),
        Key::Up => if cursor_y > 0 { Some(GameAction::MoveCursor(cursor_x, (cursor_y - 1) as usize)) } else { None },
        Key::Down => if cursor_y < height - 1 { Some(GameAction::MoveCursor(cursor_x, (cursor_y + 1) as usize)) } else { None },
        Key::Left => if cursor_x > 0 { Some(GameAction::MoveCursor((cursor_x - 1) as usize, cursor_y)) } else { None },
        Key::Right => if cursor_x < width - 1 { Some(GameAction::MoveCursor((cursor_x + 1) as usize, cursor_y)) } else { None },
        Key::Enter => Some(GameAction::PlaceMove(cursor_x, cursor_y)),
        Key::Other => None,
    }
}

/// The arrows move the cursor by exactly one cell in their direction and keep it on the board
/// (at the edge they do nothing); an arrow and the opposite arrow undo each other; only Enter
/// plays, and it plays the cell under the cursor.
pub proof fn lemma_arrow_keys_step_on_the_board(key: Key, width: usize, height: usize, cursor_x: usize, cursor_y: usize)
    requires
        cursor_x < width,
        cursor_y < height,
    ensures
        key_action(key, width, height, cursor_x, cursor_y) matches Some(GameAction::MoveCursor(x, y)) ==> {
            &&& x < width && y < height
            &&& key == Key::Up ==> x == cursor_x && y + 1 == cursor_y
            &&& key == Key::Down ==> x == cursor_x && y == cursor_y + 1
            &&& key == Key::Left ==> x + 1 == cursor_x && y == cursor_y
            &&& key == Key::Right ==> x == cursor_x + 1 && y == cursor_y
            &&& key_action(
                match key {
                    Key::Up => Key::Down,
                    Key::Down => Key::Up,
                    Key::Left => Key::Right,
                    _ => Key::Left,
                },
                width,
                height,
                x,
                y,
            ) == Some(GameAction::MoveCursor(cursor_x, cursor_y))
        },
        key_action(key, width, height, cursor_x, cursor_y) matches Some(GameAction::MoveCursor(_, _)) <==> (
        key == Key::Up && cursor_y > 0) || (key == Key::Down && cursor_y + 1 < height) || (key == Key::Left
            && cursor_x > 0) || (key == Key::Right && cursor_x + 1 < width),
        key_action(key, width, height, cursor_x, cursor_y) matches Some(GameAction::PlaceMove(x, y)) ==> key
            == Key::Enter && x == cursor_x && y == cursor_y,
        key == Key::Enter ==> key_action(key, width, height, cursor_x, cursor_y) is Some,
        key == Key::Esc || key == Key::Char('q') ==> key_action(key, width, height, cursor_x, cursor_y) == Some(
            GameAction::Quit,
        ),
{
}

/// What a key press on the board asks for (see `key_action`).
pub fn handle_game_key(key: Key, board: &HexBoard, cursor_x: usize, cursor_y: usize) -> (action: Option<GameAction>)
    requires
        key == Key::Down ==> board.height >= 1,
        key == Key::Right ==> board.width >= 1,
    ensures
        action == key_action(key, board.width, board.height, cursor_x, cursor_y),
{
    match key {
        Key::Char(c) => {
            if c == 'q' {
                Some(GameAction::Quit)
            } else if c == 'm' {
                Some(GameAction::GoToMenu)
            } else if c == 'r' {
                Some(GameAction::Reset)
            } else {
                None
            }
        },
        Key::Esc => Some(GameAction::Quit),
        Key::Up => if cursor_y > 0 { Some(GameAction::MoveCursor(cursor_x, cursor_y - 1)) } else { None },
        Key::Down => if cursor_y < board.height - 1 { Some(GameAction::MoveCursor(cursor_x, cursor_y + 1)) } else { None },
        Key::Left => if cursor_x > 0 { Some(GameAction::MoveCursor(cursor_x - 1, cursor_y)) } else { None },
        Key::Right => if cursor_x < board.width - 1 { Some(GameAction::MoveCursor(cursor_x + 1, cursor_y)) } else { None },
        Key::Enter => Some(GameAction::PlaceMove(cursor_x, cursor_y)),
        Key::Other => None,
    }
}

/// The history entry that scrolling starts from: the one chosen, or else the last of `total`.
pub open spec fn history_start(selected: Option<usize>, total: usize) -> usize {
    match selected {
        Some(s) => s,
        None => (total - 1) as usize,
    }
}

/// The entry of the move history chosen after scrolling by `delta` from `history_start`, kept
/// between 0 and the last of the `total` entries, positions being taken as `i32`; `None` when
/// there are no entries.
pub fn scroll_history(selected: Option<usize>, total: usize, delta: i32) -> (next: Option<usize>)
    requires
        total > 0 ==> (total - 1) as i32 >= 0,
        total > 0 ==> i32::MIN <= history_start(selected, total) as i32 + delta <= i32::MAX,
    ensures
        total == 0 ==> next is None,
        total > 0 ==> next == Some({
            let moved = history_start(selected, total) as i32 + delta;
            let last = (total - 1) as i32;
            if moved < 0 { 0usize } else if moved > last { last as usize } else { moved as usize }
        }),
{
    if total == 0 {
        return None;
    }
    let current: usize = match selected {
        Some(s) => s,
        None => total - 1,
    };
    let moved: i32 = current as i32 + delta;
    let last: i32 = (total - 1) as i32;
    let next: i32 = if moved < 0 { 0 } else if moved > last { last } else { moved };
    Some(next as usize)
}

/// What the menu asks the program to do.
#[derive(Debug, Clone, Copy, PartialEq, Eq, Structural)]
pub enum MenuAction {
    StartGame,
    Quit,
}

/// What handling one event in the menu asks of the program: an action, and whether the
/// configuration changed and is to be saved.
#[derive(Debug, Clone, Copy, PartialEq, Eq, Structural)]
pub struct MenuOutcome {
    pub action: Option<MenuAction>,
    pub save: bool,
}

/// The state of the settings menu: the highlighted item (0 to 5 for the settings, 6 for
/// "Reset to Defaults", 7 for "Start Game"), and the drop-down list of the highlighted item.
#[derive(Debug, Clone, Copy, PartialEq, Eq, Structural)]
pub struct MenuState {
    pub selected: usize,
    pub dropdown_open: bool,
    pub dropdown_selected: Option<usize>,
}

/// `after` holds the default configuration.
pub open spec fn config_reset(after: AppConfig) -> bool {
    &&& after.settings() == default_settings()
    &&& after.agent1@ == default_agent()
    &&& after.agent2@ == default_agent()
}

/// `after` is `before`, field by field.
pub open spec fn config_kept(before: AppConfig, after: AppConfig) -> bool {
    &&& after.settings() == before.settings()
    &&& after.agent1@ == before.agent1@
    &&& after.agent2@ == before.agent2@
}

/// A rectangle at `(x, y)`, cut so that it stays within the `u16` range (`Rect::new`).
pub open spec fn area_of(x: u16, y: u16, width: u16, height: u16) -> Area {
    Area {
        x,
        y,
        width: if width > u16::MAX - x { (u16::MAX - x) as u16 } else { width },
        height: if height > u16::MAX - y { (u16::MAX - y) as u16 } else { height },
    }
}

/// The drop-down rectangle of menu item `selected`, below and to the right of the menu item.
pub open spec fn dropdown_area(inner: Area, selected: usize) -> Area {
    area_of((inner.x + 16) as u16, (inner.y + (selected as u16) + 1) as u16, 14, 6)
}

/// A rectangle at `(x, y)`, cut so that it stays within the `u16` range.
pub fn new_area(x: u16, y: u16, width: u16, height: u16) -> (a: Area)
    ensures
        a == area_of(x, y, width, height),
{
    let max_width = u16::MAX - x;
    let max_height = u16::MAX - y;
    Area {
        x,
        y,
        width: if width > max_width { max_width } else { width },
        height: if height > max_height { max_height } else { height },
    }
}

/// Whether the cell `(col, row)` lies inside `area`.
pub open spec fn area_holds(area: Area, col: u16, row: u16) -> bool {
    area.x <= col < area.x + area.width && area.y <= row < area.y + area.height
}

impl MenuState {
    /// The first item highlighted, no drop-down list open.
    pub fn new() -> (m: Self)
        ensures
            m == (MenuState { selected: 0, dropdown_open: false, dropdown_selected: None }),
    {
        MenuState { selected: 0, dropdown_open: false, dropdown_selected: None }
    }

    /// Opens the drop-down list of the highlighted item at the entry of its current value.
    pub fn open_dropdown(&mut self, config: &AppConfig)
        ensures
            *final(self) == (MenuState {
                dropdown_open: true,
                dropdown_selected: Some(dropdown_index_of(*config, old(self).selected)),
                ..*old(self)
            }),
    {
        self.dropdown_open = true;
        self.dropdown_selected = Some(config_to_dropdown_idx(config, self.selected));
    }

    /// Closes the drop-down list.
    pub fn close_dropdown(&mut self)
        ensures
            *final(self) == (MenuState { dropdown_open: false, ..*old(self) }),
    {
        self.dropdown_open = false;
    }
}

/// What a key does to an open drop-down list (`before` to `after`), to the configuration
/// (`cfg0` to `cfg1`), and whether the configuration is to be saved: Esc closes the list, the
/// arrows move its entry within its bounds, Enter sets the highlighted item to the entry and
/// closes the list; other keys change nothing.
pub open spec fn dropdown_key_effect(
    key: Key,
    before: MenuState,
    after: MenuState,
    cfg0: AppConfig,
    cfg1: AppConfig,
    save: bool,
) -> bool {
    &&& after.selected == before.selected
    &&& after.dropdown_open == (before.dropdown_open && key != Key::Esc && key != Key::Enter)
    &&& after.dropdown_selected == (match before.dropdown_selected {
        Some(i) => if key == Key::Up {
            Some(if i == 0 { 0 } else { (i - 1) as usize })
        } else if key == Key::Down {
            Some(if i < dropdown_last(before.selected) { (i + 1) as usize } else { i })
        } else {
            Some(i)
        },
        None => None,
    })
    &&& save == (key == Key::Enter && before.dropdown_selected is Some)
    &&& save ==> dropdown_applied(cfg0, cfg1, before.selected, before.dropdown_selected->0)
    &&& !save ==> config_kept(cfg0, cfg1)
}

/// A key pressed while a drop-down list is open: Esc closes it, the arrows move its entry,
/// Enter sets the highlighted item to the entry and closes the list. Returns whether the
/// configuration changed.
pub fn handle_dropdown_key(key: Key, config: &mut AppConfig, menu: &mut MenuState) -> (save: bool)
    requires
        key == Key::Enter && old(menu).selected <= 1 ==> (old(menu).dropdown_selected matches Some(i)
            ==> i <= usize::MAX - 3),
    ensures
        dropdown_key_effect(key, *old(menu), *final(menu), *old(config), *final(config), save),
{
    match key {
        Key::Esc => {
            menu.close_dropdown();
            false
        },
        Key::Up => {
            if let Some(i) = menu.dropdown_selected {
                menu.dropdown_selected = Some(dropdown_up(i));
            }
            false
        },
        Key::Down => {
            if let Some(i) = menu.dropdown_selected {
                let max = dropdown_max(menu.selected);
                menu.dropdown_selected = Some(dropdown_down(i, max));
            }
            false
        },
        Key::Enter => {
            let save = if let Some(i) = menu.dropdown_selected {
                apply_dropdown_selection(config, menu.selected, i);
                true
            } else {
                false
            };
            menu.close_dropdown();
            save
        },
        _ => false,
    }
}

/// Keys on an open drop-down list: the arrows move the entry by one within the list, as the
/// mouse wheel does, keep the list open and change no setting, and an arrow undoes the opposite
/// arrow; Esc closes the list and changes nothing; Enter closes it and sets the item to the
/// entry.
pub proof fn lemma_dropdown_keys(key: Key, before: MenuState, after: MenuState, cfg0: AppConfig, cfg1: AppConfig, save: bool)
    requires
        before.dropdown_open,
        before.dropdown_selected is Some,
        dropdown_key_effect(key, before, after, cfg0, cfg1, save),
    ensures
        after.selected == before.selected,
        key == Key::Up || key == Key::Down ==> after.dropdown_open && !save && config_kept(cfg0, cfg1),
        key == Key::Up ==> after == menu_scroll_effect(true, before),
        key == Key::Down ==> after == menu_scroll_effect(false, before),
        key == Key::Up && before.dropdown_selected.unwrap() > 0 ==> after.dropdown_selected.unwrap() + 1
            == before.dropdown_selected.unwrap(),
        key == Key::Down && before.dropdown_selected.unwrap() < dropdown_last(before.selected)
            ==> after.dropdown_selected.unwrap() == before.dropdown_selected.unwrap() + 1,
        key == Key::Up && 0 < before.dropdown_selected.unwrap() <= dropdown_last(before.selected)
            ==> menu_scroll_effect(false, after) == before,
        key == Key::Esc ==> !after.dropdown_open && after.dropdown_selected == before.dropdown_selected && !save
            && config_kept(cfg0, cfg1),
        key == Key::Enter ==> !after.dropdown_open && save && dropdown_applied(
            cfg0,
            cfg1,
            before.selected,
            before.dropdown_selected.unwrap(),
        ),
        key != Key::Up && key != Key::Down && key != Key::Esc && key != Key::Enter ==> after == before && !save
            && config_kept(cfg0, cfg1),
{
}

/// Enter on a menu item: a setting opens its drop-down list, "Reset to Defaults" restores the
/// default configuration (to be saved), "Start Game" asks to start.
pub fn handle_menu_enter(config: &mut AppConfig, menu: &mut MenuState) -> (out: MenuOutcome)
    ensures
        old(menu).selected <= 5 ==> *final(menu) == (MenuState {
            dropdown_open: true,
            dropdown_selected: Some(dropdown_index_of(*old(config), old(menu).selected)),
            ..*old(menu)
        }),
        old(menu).selected > 5 ==> *final(menu) == *old(menu),
        old(menu).selected == 6 ==> config_reset(*final(config)),
        old(menu).selected != 6 ==> config_kept(*old(config), *final(config)),
        out == (MenuOutcome {
            action: if old(menu).selected == 7 { Some(MenuAction::StartGame) } else { None },
            save: old(menu).selected == 6,
        }),
{
    if menu.selected <= 5 {
        menu.open_dropdown(config);
        MenuOutcome { action: None, save: false }
    } else if menu.selected == 6 {
        *config = AppConfig::default();
        MenuOutcome { action: None, save: true }
    } else if menu.selected == 7 {
        MenuOutcome { action: Some(MenuAction::StartGame), save: false }
    } else {
        MenuOutcome { action: None, save: false }
    }
}

/// A key pressed in the menu: with a drop-down list open the key goes to the list; otherwise
/// `q` and Esc quit, the arrows move the highlight round the items, and Enter acts on the item.
pub fn handle_menu_key(key: Key, config: &mut AppConfig, menu: &mut MenuState) -> (out: MenuOutcome)
    requires
        old(menu).dropdown_open && key == Key::Enter && old(menu).selected <= 1 ==> (old(
            menu,
        ).dropdown_selected matches Some(i) ==> i <= usize::MAX - 3),
    ensures
        old(menu).dropdown_open ==> out.action is None && dropdown_key_effect(
            key,
            *old(menu),
            *final(menu),
            *old(config),
            *final(config),
            out.save,
        ),
        !old(menu).dropdown_open ==> {
            &&& (key == Key::Char('q') || key == Key::Esc) ==> out == (MenuOutcome {
                action: Some(MenuAction::Quit),
                save: false,
            }) && *final(menu) == *old(menu) && config_kept(*old(config), *final(config))
            &&& key == Key::Down ==> *final(menu) == (MenuState {
                selected: item_below(old(menu).selected),
                ..*old(menu)
            }) && out == (MenuOutcome { action: None, save: false }) && config_kept(*old(config), *final(config))
            &&& key == Key::Up ==> *final(menu) == (MenuState {
                selected: item_above(old(menu).selected),
                ..*old(menu)
            }) && out == (MenuOutcome { action: None, save: false }) && config_kept(*old(config), *final(config))
            &&& key == Key::Enter ==> out == (MenuOutcome {
                action: if old(menu).selected == 7 { Some(MenuAction::StartGame) } else { None },
                save: old(menu).selected == 6,
            }) && (old(menu).selected <= 5 ==> *final(menu) == (MenuState {
                dropdown_open: true,
                dropdown_selected: Some(dropdown_index_of(*old(config), old(menu).selected)),
                ..*old(menu)
            })) && (old(menu).selected > 5 ==> *final(menu) == *old(menu)) && (old(menu).selected == 6
                ==> config_reset(*final(config))) && (old(menu).selected != 6 ==> config_kept(
                *old(config),
                *final(config),
            ))
            &&& (key != Key::Char('q') && key != Key::Esc && key != Key::Down && key != Key::Up && key
                != Key::Enter) ==> out == (MenuOutcome { action: None, save: false }) && *final(menu)
                == *old(menu) && config_kept(*old(config), *final(config))
        },
{
    if menu.dropdown_open {
        let save = handle_dropdown_key(key, config, menu);
        return MenuOutcome { action: None, save };
    }
    match key {
        Key::Char(c) => {
            if c == 'q' {
                MenuOutcome { action: Some(MenuAction::Quit), save: false }
            } else {
                MenuOutcome { action: None, save: false }
            }
        },
        Key::Esc => MenuOutcome { action: Some(MenuAction::Quit), save: false },
        Key::Down => {
            menu.selected = next_menu_item(menu.selected);
            MenuOutcome { action: None, save: false }
        },
        Key::Up => {
            menu.selected = previous_menu_item(menu.selected);
            MenuOutcome { action: None, save: false }
        },
        Key::Enter => handle_menu_enter(config, menu),
        _ => MenuOutcome { action: None, save: false },
    }
}

/// The menu after a scroll (`up` or down): with a drop-down list open the list's entry moves
/// one step within its bounds; otherwise the highlight moves round the six settings.
pub open spec fn menu_scroll_effect(up: bool, before: MenuState) -> MenuState {
    if before.dropdown_open {
        MenuState {
            dropdown_selected: match before.dropdown_selected {
                Some(i) => Some(if up {
                    if i == 0 { 0 } else { (i - 1) as usize }
                } else {
                    if i < dropdown_last(before.selected) { (i + 1) as usize } else { i }
                }),
                None => None,
            },
            ..before
        }
    } else {
        MenuState {
            selected: if up {
                if before.selected == 0 { 5 } else { (before.selected - 1) as usize }
            } else {
                if before.selected >= 5 { 0 } else { (before.selected + 1) as usize }
            },
            ..before
        }
    }
}

/// A scroll in the menu (see `menu_scroll_effect`).
pub fn handle_menu_scroll(up: bool, menu: &mut MenuState)
    ensures
        *final(menu) == menu_scroll_effect(up, *old(menu)),
{
    if menu.dropdown_open {
        if let Some(i) = menu.dropdown_selected {
            if up {
                menu.dropdown_selected = Some(dropdown_up(i));
            } else {
                menu.dropdown_selected = Some(dropdown_down(i, dropdown_max(menu.selected)));
            }
        }
        return;
    }
    menu.selected = scroll_menu_item(menu.selected, up);
}

/// A scroll moves by one step, and a scroll the other way undoes it: in an open drop-down list
/// the entry goes up or down by one within the list (up from the first entry and down from the
/// last change nothing); with no list open the highlight goes round the six settings. Scrolling
/// never opens or closes a list.
pub proof fn lemma_scroll_steps_and_undoes(before: MenuState)
    ensures
        menu_scroll_effect(true, before).dropdown_open == before.dropdown_open,
        menu_scroll_effect(false, before).dropdown_open == before.dropdown_open,
        before.dropdown_open ==> menu_scroll_effect(true, before).selected == before.selected
            && menu_scroll_effect(false, before).selected == before.selected,
        before.dropdown_open && before.dropdown_selected is None ==> menu_scroll_effect(true, before) == before
            && menu_scroll_effect(false, before) == before,
        before.dropdown_open && before.dropdown_selected is Some ==> ({
            let i = before.dropdown_selected.unwrap();
            let up = menu_scroll_effect(true, before).dropdown_selected;
            let down = menu_scroll_effect(false, before).dropdown_selected;
            &&& up is Some && down is Some
            &&& i > 0 ==> up.unwrap() + 1 == i
            &&& i == 0 ==> up.unwrap() == 0
            &&& i < dropdown_last(before.selected) ==> down.unwrap() == i + 1
            &&& i >= dropdown_last(before.selected) ==> down.unwrap() == i
            &&& 0 < i <= dropdown_last(before.selected) ==> menu_scroll_effect(
                false,
                menu_scroll_effect(true, before),
            ) == before
            &&& i < dropdown_last(before.selected) ==> menu_scroll_effect(true, menu_scroll_effect(false, before))
                == before
        }),
        !before.dropdown_open && before.selected <= 5 ==> ({
            let up = menu_scroll_effect(true, before);
            let down = menu_scroll_effect(false, before);
            &&& up.selected <= 5 && down.selected <= 5
            &&& up.selected != before.selected && down.selected != before.selected
            &&& up.dropdown_selected == before.dropdown_selected
            &&& menu_scroll_effect(false, up) == before
            &&& menu_scroll_effect(true, down) == before
        }),
{
}

/// The entry number of a click on the drop-down list of item `selected` fits in a `usize`.
pub open spec fn dropdown_click_fits(inner: Area, selected: usize, mx: u16, my: u16, offset: usize) -> bool {
    let area = dropdown_area(inner, selected);
    area_holds(area, mx, my) && area.y + 1 <= my < area.y + area.height - 1 ==> (my - (area.y + 1)) + offset
        <= usize::MAX
}

/// What a click at `(mx, my)` does to an open drop-down list of the menu drawn in `inner`,
/// scrolled by `offset` entries: outside the list it closes the list; on an entry it sets the
/// highlighted item to that entry and closes the list (the configuration is then to be saved);
/// on the list's frame or below its entries nothing happens.
pub open spec fn dropdown_click_effect(
    mx: u16,
    my: u16,
    inner: Area,
    offset: usize,
    before: MenuState,
    after: MenuState,
    cfg0: AppConfig,
    cfg1: AppConfig,
    save: bool,
) -> bool {
    let area = dropdown_area(inner, before.selected);
    let top = area.y + 1;
    let bottom = area.y + area.height - 1;
    let idx = (my - top) + offset;
    if !area_holds(area, mx, my) {
        &&& !save
        &&& after == (MenuState { dropdown_open: false, ..before })
        &&& config_kept(cfg0, cfg1)
    } else if my < top || my >= bottom || idx >= dropdown_count(before.selected) {
        &&& !save
        &&& after == before
        &&& config_kept(cfg0, cfg1)
    } else {
        &&& save
        &&& after == (MenuState { dropdown_open: false, dropdown_selected: Some(idx as usize), ..before })
        &&& dropdown_applied(cfg0, cfg1, before.selected, idx as usize)
    }
}

/// A click while a drop-down list is open, with the list scrolled by `offset` entries: outside
/// the list it closes the list; on an entry it sets the highlighted item to that entry and
/// closes the list; on the list's frame or below its entries nothing happens. Returns whether
/// the configuration changed.
pub fn handle_dropdown_click(
    mx: u16,
    my: u16,
    config: &mut AppConfig,
    menu: &mut MenuState,
    inner: Area,
    offset: usize,
) -> (save: bool)
    requires
        inner.x + 16 <= u16::MAX,
        inner.y + (old(menu).selected as u16) + 1 <= u16::MAX,
        dropdown_click_fits(inner, old(menu).selected, mx, my, offset),
    ensures
        dropdown_click_effect(mx, my, inner, offset, *old(menu), *final(menu), *old(config), *final(config), save),
{
    let area = new_area(inner.x + 16, inner.y + menu.selected as u16 + 1, 14, 6);
    if !rect_contains(area, mx, my) {
        menu.close_dropdown();
        return false;
    }
    let top = area.y + 1;
    let bottom = area.y + area.height - 1;
    if my < top || my >= bottom {
        return false;
    }
    let clicked = (my - top) as usize + offset;
    if clicked < dropdown_len(menu.selected) {
        menu.dropdown_selected = Some(clicked);
        apply_dropdown_selection(config, menu.selected, clicked);
        menu.close_dropdown();
        true
    } else {
        false
    }
}

/// A left click on the menu can be handled: with a drop-down list open, the list's rectangle
/// and the number of the entry clicked stay within their integer ranges.
pub open spec fn menu_click_ready(inner: Area, before: MenuState, mx: u16, my: u16, offset: usize) -> bool {
    before.dropdown_open ==> inner.x + 16 <= u16::MAX && inner.y + (before.selected as u16) + 1 <= u16::MAX
        && dropdown_click_fits(inner, before.selected, mx, my, offset)
}

/// What a left click at `(mx, my)` on the menu drawn in `inner` does (menu `before` to `after`,
/// configuration `cfg0` to `cfg1`, outcome `out`): with a drop-down list open it goes to the
/// list (see `dropdown_click_effect`); otherwise a click on a menu item highlights it and acts on
/// it as Enter does, and a click elsewhere changes nothing.
pub open spec fn menu_click_effect(
    mx: u16,
    my: u16,
    inner: Area,
    offset: usize,
    before: MenuState,
    after: MenuState,
    cfg0: AppConfig,
    cfg1: AppConfig,
    out: MenuOutcome,
) -> bool {
    if before.dropdown_open {
        out.action is None && dropdown_click_effect(mx, my, inner, offset, before, after, cfg0, cfg1, out.save)
    } else if !area_holds(inner, mx, my) {
        &&& out == (MenuOutcome { action: None, save: false })
        &&& after == before
        &&& config_kept(cfg0, cfg1)
    } else {
        let row = (my - inner.y) as usize;
        if row <= 5 || row == 7 || row == 8 {
            let item = if row <= 5 { row } else { (row - 1) as usize };
            &&& out == (MenuOutcome {
                action: if item == 7 { Some(MenuAction::StartGame) } else { None },
                save: item == 6,
            })
            &&& (item <= 5 ==> after == (MenuState {
                selected: item,
                dropdown_open: true,
                dropdown_selected: Some(dropdown_index_of(cfg0, item)),
            }))
            &&& (item > 5 ==> after == (MenuState { selected: item, ..before }))
            &&& (item == 6 ==> config_reset(cfg1))
            &&& (item != 6 ==> config_kept(cfg0, cfg1))
        } else {
            &&& out == (MenuOutcome { action: None, save: false })
            &&& after == before
            &&& config_kept(cfg0, cfg1)
        }
    }
}

/// A left click in the menu, with the drop-down list scrolled by `offset` entries (see
/// `menu_click_effect`).
pub fn handle_menu_click(
    mx: u16,
    my: u16,
    config: &mut AppConfig,
    menu: &mut MenuState,
    inner: Area,
    offset: usize,
) -> (out: MenuOutcome)
    requires
        menu_click_ready(inner, *old(menu), mx, my, offset),
    ensures
        menu_click_effect(mx, my, inner, offset, *old(menu), *final(menu), *old(config), *final(config), out),
{
    if menu.dropdown_open {
        let save = handle_dropdown_click(mx, my, config, menu, inner, offset);
        return MenuOutcome { action: None, save };
    }
    if !rect_contains(inner, mx, my) {
        return MenuOutcome { action: None, save: false };
    }
    match menu_item_at_row((my - inner.y) as usize) {
        Some(target) => {
            menu.selected = target;
            handle_menu_enter(config, menu)
        },
        None => MenuOutcome { action: None, save: false },
    }
}

/// The kind of a mouse event, as far as the menu and the board screen read it.
#[derive(Debug, Clone, Copy, PartialEq, Eq, Structural)]
pub enum MouseKind {
    LeftDown,
    ScrollUp,
    ScrollDown,
    Other,
}

/// What a mouse event at `(col, row)` on the board screen asks for, checked in this order: a
/// scroll over the move history scrolls it; a left click on a button resets the game or goes to
/// the menu; inside the non-empty board area, the cell `hex` nearest to the pointer (if one is
/// near enough) is played on a left click and gets the cursor otherwise.
pub open spec fn mouse_action(
    kind: MouseKind,
    col: u16,
    row: u16,
    history: Area,
    reset: Area,
    menu_btn: Area,
    canvas: Area,
    hex: Option<(usize, usize)>,
) -> Option<GameAction> {
    if area_holds(history, col, row) && kind == MouseKind::ScrollDown {
        Some(GameAction::ScrollHistory(1i32))
    } else if area_holds(history, col, row) && kind == MouseKind::ScrollUp {
        Some(GameAction::ScrollHistory(-1i32))
    } else if kind == MouseKind::LeftDown && area_holds(reset, col, row) {
        Some(GameAction::Reset)
    } else if kind == MouseKind::LeftDown && area_holds(menu_btn, col, row) {
        Some(GameAction::GoToMenu)
    } else if canvas.width == 0 || !area_holds(canvas, col, row) {
        None
    } else {
        match hex {
            None => None,
            Some((x, y)) => if kind == MouseKind::LeftDown {
                Some(GameAction::PlaceMove(x, y))
            } else {
                Some(GameAction::MoveCursor(x, y))
            },
        }
    }
}

/// Only a left click places a stone, and it places it on the nearest cell; any other mouse
/// event over the board (outside a scroll of the history) moves the cursor there instead.
pub proof fn lemma_only_left_click_places(
    kind: MouseKind,
    col: u16,
    row: u16,
    history: Area,
    reset: Area,
    menu_btn: Area,
    canvas: Area,
    hex: Option<(usize, usize)>,
)
    ensures
        mouse_action(kind, col, row, history, reset, menu_btn, canvas, hex) matches Some(GameAction::PlaceMove(x, y))
            ==> kind == MouseKind::LeftDown && hex == Some((x, y)),
        mouse_action(kind, col, row, history, reset, menu_btn, canvas, hex) matches Some(GameAction::MoveCursor(x, y))
            ==> kind != MouseKind::LeftDown && hex == Some((x, y)),
        kind != MouseKind::LeftDown && !(area_holds(history, col, row) && (kind == MouseKind::ScrollUp || kind
            == MouseKind::ScrollDown)) && canvas.width != 0 && area_holds(canvas, col, row) && hex is Some
            ==> mouse_action(kind, col, row, history, reset, menu_btn, canvas, hex) == Some(
            GameAction::MoveCursor(hex.unwrap().0, hex.unwrap().1),
        ),
        area_holds(history, col, row) && kind == MouseKind::ScrollDown ==> mouse_action(
            kind,
            col,
            row,
            history,
            reset,
            menu_btn,
            canvas,
            hex,
        ) == Some(GameAction::ScrollHistory(1i32)),
        area_holds(history, col, row) && kind == MouseKind::ScrollUp ==> mouse_action(
            kind,
            col,
            row,
            history,
            reset,
            menu_btn,
            canvas,
            hex,
        ) == Some(GameAction::ScrollHistory(-1i32)),
        mouse_action(kind, col, row, history, reset, menu_btn, canvas, hex) matches Some(GameAction::ScrollHistory(d))
            ==> area_holds(history, col, row) && ((kind == MouseKind::ScrollDown && d == 1) || (kind
            == MouseKind::ScrollUp && d == -1)),
        mouse_action(kind, col, row, history, reset, menu_btn, canvas, hex) == Some(GameAction::Reset)
            ==> kind == MouseKind::LeftDown && area_holds(reset, col, row),
        mouse_action(kind, col, row, history, reset, menu_btn, canvas, hex) == Some(GameAction::GoToMenu)
            ==> kind == MouseKind::LeftDown && area_holds(menu_btn, col, row) && !area_holds(reset, col, row),
        kind == MouseKind::LeftDown && area_holds(reset, col, row) ==> mouse_action(
            kind,
            col,
            row,
            history,
            reset,
            menu_btn,
            canvas,
            hex,
        ) == Some(GameAction::Reset),
        (mouse_action(kind, col, row, history, reset, menu_btn, canvas, hex) matches Some(GameAction::MoveCursor(_, _)))
            || (mouse_action(kind, col, row, history, reset, menu_btn, canvas, hex) matches Some(
            GameAction::PlaceMove(_, _),
        )) ==> canvas.width != 0 && area_holds(canvas, col, row),
        kind == MouseKind::LeftDown && !area_holds(reset, col, row) && !area_holds(menu_btn, col, row)
            && canvas.width != 0 && area_holds(canvas, col, row) && hex is Some ==> mouse_action(
            kind,
            col,
            row,
            history,
            reset,
            menu_btn,
            canvas,
            hex,
        ) == Some(GameAction::PlaceMove(hex.unwrap().0, hex.unwrap().1)),
{
}

/// What a mouse event on the board screen asks for (see `mouse_action`); `hex` is the cell
/// nearest to the pointer when it lies inside the board area.
pub fn game_mouse_action(
    kind: MouseKind,
    col: u16,
    row: u16,
    history: Area,
    reset: Area,
    menu_btn: Area,
    canvas: Area,
    hex: Option<(usize, usize)>,
) -> (a: Option<GameAction>)
    ensures
        a == mouse_action(kind, col, row, history, reset, menu_btn, canvas, hex),
{
    let is_click = kind == MouseKind::LeftDown;
    if rect_contains(history, col, row) {
        if kind == MouseKind::ScrollDown {
            return Some(GameAction::ScrollHistory(1));
        }
        if kind == MouseKind::ScrollUp {
            return Some(GameAction::ScrollHistory(-1));
        }
    }
    if is_click {
        if rect_contains(reset, col, row) {
            return Some(GameAction::Reset);
        }
        if rect_contains(menu_btn, col, row) {
            return Some(GameAction::GoToMenu);
        }
    }
    if canvas.width == 0 || !rect_contains(canvas, col, row) {
        return None;
    }
    match hex {
        None => None,
        Some((x, y)) => if is_click {
            Some(GameAction::PlaceMove(x, y))
        } else {
            Some(GameAction::MoveCursor(x, y))
        },
    }
}

/// `a - b`, or zero when `b` exceeds `a`.
pub open spec fn cut(a: u16, b: u16) -> u16 {
    if a > b { (a - b) as u16 } else { 0 }
}

/// The menu's frame and the area inside it on a screen of the given size: a 40 by 20 frame
/// centred on the screen (cut to the screen when it is smaller), and inside it the frame less a
/// margin of 2 cells on each side.
pub open spec fn menu_frames(screen: Area) -> (Area, Area) {
    let outer = area_of(
        (cut(screen.width, 40) / 2) as u16,
        (cut(screen.height, 20) / 2) as u16,
        if screen.width < 40 { screen.width } else { 40 },
        if screen.height < 20 { screen.height } else { 20 },
    );
    let inner = area_of((outer.x + 2) as u16, (outer.y + 2) as u16, cut(outer.width, 4), cut(outer.height, 4));
    (outer, inner)
}

/// The menu's frame and the area inside it (see `menu_frames`).
pub fn menu_rects(screen: Area) -> (r: (Area, Area))
    ensures
        r == menu_frames(screen),
{
    let x: u16 = if screen.width > 40 { screen.width - 40 } else { 0 };
    let y: u16 = if screen.height > 20 { screen.height - 20 } else { 0 };
    let w: u16 = if screen.width < 40 { screen.width } else { 40 };
    let h: u16 = if screen.height < 20 { screen.height } else { 20 };
    let outer = new_area(x / 2, y / 2, w, h);
    let iw: u16 = if outer.width > 4 { outer.width - 4 } else { 0 };
    let ih: u16 = if outer.height > 4 { outer.height - 4 } else { 0 };
    let inner = new_area(outer.x + 2, outer.y + 2, iw, ih);
    (outer, inner)
}

/// How a line of the menu list is shown.
#[derive(Debug, Clone, Copy, PartialEq, Eq, Structural)]
pub enum ItemLook {
    /// Not highlighted (and the blank line between the settings and the commands).
    Plain,
    /// The highlighted item, no drop-down list open.
    Highlighted,
    /// The highlighted item, its drop-down list open.
    Opened,
}

/// How line `line` of the menu list is shown: line 6 is blank, lines 7 and 8 are items 6 and
/// 7; the highlighted item stands out, in another way while its drop-down list is open.
pub open spec fn item_look(line: usize, menu: MenuState) -> ItemLook {
    if line == 6 {
        ItemLook::Plain
    } else {
        let item = if line > 6 { (line - 1) as usize } else { line };
        if item != menu.selected {
            ItemLook::Plain
        } else if menu.dropdown_open {
            ItemLook::Opened
        } else {
            ItemLook::Highlighted
        }
    }
}

/// How line `line` of the menu list is shown (see `item_look`).
pub fn menu_item_look(line: usize, menu: &MenuState) -> (look: ItemLook)
    ensures
        look == item_look(line, *menu),
{
    if line == 6 {
        return ItemLook::Plain;
    }
    let item = if line > 6 { line - 1 } else { line };
    if item != menu.selected {
        ItemLook::Plain
    } else if menu.dropdown_open {
        ItemLook::Opened
    } else {
        ItemLook::Highlighted
    }
}

/// A mouse event on the menu of a screen of the given size, the drop-down list scrolled by
/// `offset` entries: a left click goes to the menu area (see `menu_click_effect`), a scroll moves
/// the highlight or the list's entry (see `menu_scroll_effect`), and anything else changes nothing.
pub fn handle_menu_mouse(
    kind: MouseKind,
    col: u16,
    row: u16,
    config: &mut AppConfig,
    menu: &mut MenuState,
    screen: Area,
    offset: usize,
) -> (out: MenuOutcome)
    requires
        kind == MouseKind::LeftDown ==> menu_click_ready(menu_frames(screen).1, *old(menu), col, row, offset),
    ensures
        kind == MouseKind::LeftDown ==> menu_click_effect(
            col,
            row,
            menu_frames(screen).1,
            offset,
            *old(menu),
            *final(menu),
            *old(config),
            *final(config),
            out,
        ),
        kind == MouseKind::ScrollUp || kind == MouseKind::ScrollDown ==> out == (MenuOutcome {
            action: None,
            save: false,
        }) && *final(menu) == menu_scroll_effect(kind == MouseKind::ScrollUp, *old(menu)) && config_kept(
            *old(config),
            *final(config),
        ),
        kind == MouseKind::Other ==> out == (MenuOutcome { action: None, save: false }) && *final(menu)
            == *old(menu) && config_kept(*old(config), *final(config)),
{
    let (_, inner) = menu_rects(screen);
    match kind {
        MouseKind::LeftDown => handle_menu_click(col, row, config, menu, inner, offset),
        MouseKind::ScrollUp => {
            handle_menu_scroll(true, menu);
            MenuOutcome { action: None, save: false }
        },
        MouseKind::ScrollDown => {
            handle_menu_scroll(false, menu);
            MenuOutcome { action: None, save: false }
        },
        MouseKind::Other => MenuOutcome { action: None, save: false },
    }
}

} // verus!
