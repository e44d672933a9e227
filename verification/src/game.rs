use vstd::prelude::*;
use vstd::string::*;
use crate::connectivity::{lemma_connects_depends_on_cells, lemma_empty_board_no_winner, lemma_only_mover_can_win};
use crate::text::{decimal, push_char, push_decimal};

verus! {

/// One of the two sides of a Hex game.
#[derive(Debug, Clone, Copy, PartialEq, Eq, Structural)]
pub enum Player {
    Red,
    Blue,
}

/// The other side.
pub open spec fn opponent(p: Player) -> Player {
    match p {
        Player::Red => Player::Blue,
        Player::Blue => Player::Red,
    }
}

impl Player {
    /// Returns the other side.
    pub fn opposite(&self) -> (r: Self)
        ensures
            r == opponent(*self),
    {
        match self {
            Player::Red => Player::Blue,
            Player::Blue => Player::Red,
        }
    }
}

/// Switching sides twice gives the side one started with, and no side is its own opponent.
pub proof fn lemma_opponent_involutive(p: Player)
    ensures
        opponent(opponent(p)) == p,
        opponent(p) != p,
{
}

/// The content of one cell of the board.
#[derive(Debug, Clone, Copy, PartialEq, Eq, Structural)]
pub enum HexCell {
    Empty,
    Occupied(Player),
}

/// A cell chosen by a player: column `x`, row `y`, both counted from zero.
#[derive(Debug, Clone, Copy, PartialEq, Eq, Structural)]
pub struct HexMove {
    pub x: usize,
    pub y: usize,
}

/// How a move is written: a letter for the column, counted from `a`, then the row counted from 1.
pub open spec fn move_notation(m: HexMove) -> Seq<char> {
    seq![(97 + m.x % 256) as char] + decimal((m.y + 1) as nat)
}

impl HexMove {
    /// How this move is written (see `move_notation`).
    pub fn notation(&self) -> (s: String)
        requires
            self.x % 256 < 159,
            self.y < usize::MAX,
        ensures
            s@ == move_notation(*self),
    {
        let x = self.x;
        let low: u8 = (x % 256) as u8;
        let col = (97u8 + low) as char;
        let mut s = String::new();
        push_char(&mut s, col);
        push_decimal(&mut s, self.y + 1);
        proof {
            assert(s@ =~= move_notation(*self));
        }
        s
    }
}

/// What the game reports to the screen: the position after a move, or why a move was refused.
pub enum GameUpdate {
    State(HexBoard),
    Error(String),
}

/// The message given for a move that may not be played.
pub open spec fn invalid_move_text(m: HexMove) -> Seq<char> {
    "WARNING: Invalid move: HexMove { x: "@ + decimal(m.x as nat) + ", y: "@ + decimal(m.y as nat) + " }"@
}

/// The message given for a move once the game has a winner.
pub open spec fn game_over_text() -> Seq<char> {
    "Game is already over"@
}

fn invalid_move_message(m: &HexMove) -> (s: String)
    ensures
        s@ == invalid_move_text(*m),
{
    let mut s = String::from_str("WARNING: Invalid move: HexMove { x: ");
    push_decimal(&mut s, m.x);
    s.append(", y: ");
    push_decimal(&mut s, m.y);
    s.append(" }");
    s
}

/// A Hex position: the grid of cells (row by row), whose turn it is, and what has been played.
#[derive(Debug, Clone)]
pub struct HexBoard {
    pub width: usize,
    pub height: usize,
    pub grid: Vec<Vec<HexCell>>,
    pub current_player: Player,
    pub move_count: usize,
    pub swap_rule: bool,
    pub winner: Option<Player>,
    pub move_history: Vec<HexMove>,
}

impl HexBoard {
    /// The cell in column `x` of row `y`.
    pub open spec fn cell(&self, x: int, y: int) -> HexCell {
        self.grid@[y]@[x]
    }

    /// Every cell of the `width` by `height` board is in the grid.
    pub open spec fn has_cells(&self) -> bool {
        &&& self.grid@.len() >= self.height
        &&& forall|y: int| 0 <= y < self.height ==> #[trigger] self.grid@[y]@.len() >= self.width
    }

    /// When `m` lies on the board, its cell is in the grid.
    pub open spec fn has_cell_for(&self, m: HexMove) -> bool {
        m.x < self.width && m.y < self.height ==> m.y < self.grid@.len() && m.x < self.grid@[m.y as int]@.len()
    }

    /// Every cell is in the grid, and the cells and the four board edges can be numbered in a `usize`.
    pub open spec fn wf(&self) -> bool {
        &&& self.has_cells()
        &&& self.width * self.height + 4 <= usize::MAX
    }

    /// Whether `m` may be played now: on the board, and on an empty cell, except that with the
    /// swap rule the second move may also take the cell of the first.
    pub open spec fn move_allowed(&self, m: HexMove) -> bool {
        &&& m.x < self.width
        &&& m.y < self.height
        &&& if self.move_count == 1 && self.swap_rule {
            self.cell(m.x as int, m.y as int) == HexCell::Empty || self.cell(m.x as int, m.y as int)
                == HexCell::Occupied(opponent(self.current_player))
        } else {
            self.cell(m.x as int, m.y as int) == HexCell::Empty
        }
    }

    /// An empty `width` by `height` board on which `first_player` moves first.
    pub fn new(width: usize, height: usize, first_player: Player, swap_rule: bool) -> (b: Self)
        ensures
            b.grid@.len() == height,
            forall|y: int| 0 <= y < height ==> #[trigger] b.grid@[y]@.len() == width,
            b.has_cells(),
            b.wf() <==> width * height + 4 <= usize::MAX,
            b.width == width,
            b.height == height,
            forall|x: int, y: int|
                0 <= x < width && 0 <= y < height ==> #[trigger] b.cell(x, y) == HexCell::Empty,
            b.current_player == first_player,
            b.move_count == 0,
            b.swap_rule == swap_rule,
            b.winner is None,
            b.winner_of() is None,
            b.move_history@.len() == 0,
            b.game_inv(first_player),
    {
        let mut grid: Vec<Vec<HexCell>> = Vec::new();
        let mut r: usize = 0;
        while r < height
            invariant
                r <= height,
                grid@.len() == r,
                forall|k: int| 0 <= k < r ==> #[trigger] grid@[k]@ == Seq::new(width as nat, |i: int| HexCell::Empty),
            decreases height - r,
        {
            let mut row: Vec<HexCell> = Vec::new();
            let mut c: usize = 0;
            while c < width
                invariant
                    c <= width,
                    row@ == Seq::new(c as nat, |i: int| HexCell::Empty),
                decreases width - c,
            {
                row.push(HexCell::Empty);
                c = c + 1;
                proof {
                    assert(row@ =~= Seq::new(c as nat, |i: int| HexCell::Empty));
                }
            }
            grid.push(row);
            r = r + 1;
        }
        let b = HexBoard {
            width,
            height,
            grid,
            current_player: first_player,
            move_count: 0,
            swap_rule,
            winner: None,
            move_history: Vec::new(),
        };
        proof {
            assert forall|x: int, y: int| 0 <= x < width && 0 <= y < height implies #[trigger] b.cell(x, y)
                == HexCell::Empty by {
                assert(b.grid@[y]@ == Seq::new(width as nat, |i: int| HexCell::Empty));
            }
            lemma_empty_board_no_winner(b);
            lemma_new_board_game_inv(b, first_player);
        }
        b
    }

    /// Whether `m` may be played now (see `move_allowed`).
    pub fn is_valid_move(&self, m: &HexMove) -> (ok: bool)
        requires
            self.has_cell_for(*m),
        ensures
            ok == self.move_allowed(*m),
    {
        if m.x >= self.width || m.y >= self.height {
            return false;
        }
        let cell = self.grid[m.y][m.x];
        if self.move_count == 1 && self.swap_rule {
            return cell == HexCell::Empty || cell == HexCell::Occupied(self.current_player.opposite());
        }
        cell == HexCell::Empty
    }

    /// `after` is `before` with `m` played by the side to move: the stone placed on the cell of
    /// `m` (every other cell and the grid's shape kept), the move recorded, the winner settled,
    /// and the turn passed unless the move won.
    pub open spec fn played(before: HexBoard, after: HexBoard, m: HexMove) -> bool {
        &&& after.wf()
        &&& after.width == before.width
        &&& after.height == before.height
        &&& after.swap_rule == before.swap_rule
        &&& after.grid@.len() == before.grid@.len()
        &&& forall|y: int| 0 <= y < before.grid@.len() ==> #[trigger] after.grid@[y]@.len() == before.grid@[y]@.len()
        &&& forall|x: int, y: int|
            0 <= x < before.width && 0 <= y < before.height ==> #[trigger] after.cell(x, y) == (if x == m.x
                && y == m.y {
                HexCell::Occupied(before.current_player)
            } else {
                before.cell(x, y)
            })
        &&& after.move_count == before.move_count + 1
        &&& after.move_history@ == before.move_history@.push(m)
        &&& after.winner == after.winner_of()
        &&& (before.winner_of() is None ==> after.winner is None || after.winner == Some(before.current_player))
        &&& after.current_player == (if after.winner is None {
            opponent(before.current_player)
        } else {
            before.current_player
        })
    }

    /// Plays `m` for the side to move, records it, and settles the winner; the turn passes
    /// unless the move wins. Once the game is won, or when `m` may not be played, nothing
    /// changes and the error says why.
    pub fn apply_move(&mut self, m: &HexMove) -> (r: Result<(), String>)
        requires
            old(self).winner is None ==> old(self).has_cell_for(*m),
            old(self).winner is None && old(self).move_allowed(*m) ==> old(self).wf() && old(self).move_count
                < usize::MAX,
        ensures
            old(self).winner is Some ==> *final(self) == *old(self) && (r matches Err(e) && e@ == game_over_text()),
            old(self).winner is None && !old(self).move_allowed(*m) ==> *final(self) == *old(self) && (r matches Err(e)
                && e@ == invalid_move_text(*m)),
            old(self).move_count == old(self).move_history@.len() ==> final(self).move_count
                == final(self).move_history@.len(),
            old(self).winner == old(self).winner_of() ==> final(self).winner == final(self).winner_of(),
            old(self).winner is None && old(self).move_allowed(*m) ==> r is Ok && Self::played(
                *old(self),
                *final(self),
                *m,
            ),
            forall|first: Player| #[trigger] old(self).game_inv(first) ==> final(self).game_inv(first),
    {
        if self.winner.is_some() {
            return Err(String::from_str("Game is already over"));
        }
        if !self.is_valid_move(m) {
            return Err(invalid_move_message(m));
        }
        let ghost before = *self;
        let mut row: Vec<HexCell> = Vec::new();
        self.grid.set_and_swap(m.y, &mut row);
        row.set(m.x, HexCell::Occupied(self.current_player));
        self.grid.set_and_swap(m.y, &mut row);
        self.move_history.push(*m);
        self.move_count = self.move_count + 1;
        proof {
            assert forall|y: int| 0 <= y < self.height implies #[trigger] self.grid@[y]@.len() >= self.width by {
                assert(before.grid@[y]@.len() >= self.width);
            }
        }
        let ghost placed = *self;
        self.check_win();
        if self.winner.is_none() {
            self.current_player = self.current_player.opposite();
        }
        proof {
            lemma_connects_depends_on_cells(placed, *self, Player::Red);
            if before.winner_of() is None {
                lemma_only_mover_can_win(before, placed, m.x as int, m.y as int, before.current_player);
            }
            assert forall|x: int, y: int|
                0 <= x < before.width && 0 <= y < before.height implies #[trigger] self.cell(x, y)
                    == (if x == m.x && y == m.y {
                    HexCell::Occupied(before.current_player)
                } else {
                    before.cell(x, y)
                }) by {
                assert(self.grid@[y] == placed.grid@[y]);
            }
            assert(Self::played(before, *self, *m));
            assert forall|first: Player| #[trigger] before.game_inv(first) implies self.game_inv(first) by {
                lemma_played_keeps_game_inv(before, *self, *m, first);
            }
        }
        Ok(())
    }
}

impl HexBoard {
    /// `a` and `b` show the same position: the same fields, grid rows and history.
    pub open spec fn same_position(a: HexBoard, b: HexBoard) -> bool {
        &&& a.width == b.width
        &&& a.height == b.height
        &&& a.current_player == b.current_player
        &&& a.move_count == b.move_count
        &&& a.swap_rule == b.swap_rule
        &&& a.winner == b.winner
        &&& a.grid@.len() == b.grid@.len()
        &&& forall|y: int| 0 <= y < a.grid@.len() ==> #[trigger] a.grid@[y]@ == b.grid@[y]@
        &&& a.move_history@ == b.move_history@
    }

    /// A copy of this position, for sending to the screen.
    pub fn copy(&self) -> (c: HexBoard)
        ensures
            Self::same_position(c, *self),
    {
        let mut grid: Vec<Vec<HexCell>> = Vec::new();
        let mut r: usize = 0;
        while r < self.grid.len()
            invariant
                r <= self.grid@.len(),
                grid@.len() == r,
                forall|k: int| 0 <= k < r ==> #[trigger] grid@[k]@ == self.grid@[k]@,
            decreases self.grid@.len() - r,
        {
            let src = &self.grid[r];
            let mut row: Vec<HexCell> = Vec::new();
            let mut c: usize = 0;
            while c < src.len()
                invariant
                    c <= src@.len(),
                    row@ == src@.subrange(0, c as int),
                decreases src@.len() - c,
            {
                row.push(src[c]);
                c = c + 1;
                proof {
                    assert(row@ =~= src@.subrange(0, c as int));
                }
            }
            proof {
                assert(row@ =~= src@);
            }
            grid.push(row);
            r = r + 1;
        }
        let mut history: Vec<HexMove> = Vec::new();
        let mut k: usize = 0;
        while k < self.move_history.len()
            invariant
                k <= self.move_history@.len(),
                history@ == self.move_history@.subrange(0, k as int),
            decreases self.move_history@.len() - k,
        {
            history.push(self.move_history[k]);
            k = k + 1;
            proof {
                assert(history@ =~= self.move_history@.subrange(0, k as int));
            }
        }
        proof {
            assert(history@ =~= self.move_history@);
        }
        HexBoard {
            width: self.width,
            height: self.height,
            grid,
            current_player: self.current_player,
            move_count: self.move_count,
            swap_rule: self.swap_rule,
            winner: self.winner,
            move_history: history,
        }
    }
}

/// The side that makes move number `k` (counted from zero) of a game that `first` opens.
pub open spec fn mover(first: Player, k: int) -> Player {
    if k % 2 == 0 {
        first
    } else {
        opponent(first)
    }
}

impl HexBoard {
    /// The number of stones among the first `n` cells of row `y`.
    pub open spec fn row_stones(&self, y: int, n: int) -> nat
        decreases n,
    {
        if n <= 0 {
            0
        } else {
            self.row_stones(y, n - 1) + (if self.cell(n - 1, y) is Occupied { 1nat } else { 0nat })
        }
    }

    /// The number of stones in the first `k` rows of the board.
    pub open spec fn rows_stones(&self, k: int) -> nat
        decreases k,
    {
        if k <= 0 {
            0
        } else {
            self.rows_stones(k - 1) + self.row_stones(k - 1, self.width as int)
        }
    }

    /// The number of stones on the board.
    pub open spec fn stones(&self) -> nat {
        self.rows_stones(self.height as int)
    }

    /// What holds at every point of a game that `first` opened: the grid is exactly `height`
    /// rows of `width` cells, every move is in the history, there are no more stones than
    /// moves, the recorded winner is the side that connects its edges, and while nobody has won
    /// it is the turn of the side whose move number has come; once a side has won, it is that
    /// side, and it made the last move.
    pub open spec fn game_inv(&self, first: Player) -> bool {
        &&& self.grid@.len() == self.height
        &&& forall|y: int| 0 <= y < self.height ==> #[trigger] self.grid@[y]@.len() == self.width
        &&& self.move_count == self.move_history@.len()
        &&& self.stones() <= self.move_count
        &&& self.winner == self.winner_of()
        &&& match self.winner {
            None => self.current_player == mover(first, self.move_count as int),
            Some(w) => {
                &&& w == self.current_player
                &&& self.move_count >= 1
                &&& w == mover(first, self.move_count - 1)
            },
        }
    }
}

proof fn lemma_empty_rows_no_stones(b: HexBoard, k: int)
    requires
        0 <= k <= b.height,
        forall|x: int, y: int| 0 <= x < b.width && 0 <= y < b.height ==> #[trigger] b.cell(x, y) == HexCell::Empty,
    ensures
        b.rows_stones(k) == 0,
    decreases k,
{
    if k > 0 {
        lemma_empty_rows_no_stones(b, k - 1);
        lemma_empty_row_no_stones(b, k - 1, b.width as int);
    }
}

proof fn lemma_empty_row_no_stones(b: HexBoard, y: int, n: int)
    requires
        0 <= y < b.height,
        n <= b.width,
        forall|x: int, y: int| 0 <= x < b.width && 0 <= y < b.height ==> #[trigger] b.cell(x, y) == HexCell::Empty,
    ensures
        b.row_stones(y, n) == 0,
    decreases n,
{
    if n > 0 {
        lemma_empty_row_no_stones(b, y, n - 1);
        assert(b.cell(n - 1, y) == HexCell::Empty);
    }
}

/// Boards `a` and `b` of the same size that differ at most in the cell `(mx, my)`.
spec fn differ_at_most_at(a: HexBoard, b: HexBoard, mx: int, my: int) -> bool {
    &&& a.width == b.width
    &&& a.height == b.height
    &&& forall|x: int, y: int|
        0 <= x < a.width && 0 <= y < a.height && !(x == mx && y == my) ==> #[trigger] b.cell(x, y) == a.cell(x, y)
}

proof fn lemma_row_stones_one_more(a: HexBoard, b: HexBoard, mx: int, my: int, y: int, n: int)
    requires
        differ_at_most_at(a, b, mx, my),
        0 <= y < a.height,
        n <= a.width,
    ensures
        b.row_stones(y, n) <= a.row_stones(y, n) + (if y == my && 0 <= mx < n { 1nat } else { 0nat }),
    decreases n,
{
    if n > 0 {
        lemma_row_stones_one_more(a, b, mx, my, y, n - 1);
        if !(n - 1 == mx && y == my) {
            assert(b.cell(n - 1, y) == a.cell(n - 1, y));
        }
    }
}

proof fn lemma_rows_stones_one_more(a: HexBoard, b: HexBoard, mx: int, my: int, k: int)
    requires
        differ_at_most_at(a, b, mx, my),
        0 <= k <= a.height,
        0 <= mx < a.width,
    ensures
        b.rows_stones(k) <= a.rows_stones(k) + (if 0 <= my < k { 1nat } else { 0nat }),
    decreases k,
{
    if k > 0 {
        lemma_rows_stones_one_more(a, b, mx, my, k - 1);
        lemma_row_stones_one_more(a, b, mx, my, k - 1, a.width as int);
    }
}

proof fn lemma_row_stones_one_added(a: HexBoard, b: HexBoard, mx: int, my: int, y: int, n: int)
    requires
        differ_at_most_at(a, b, mx, my),
        0 <= y < a.height,
        n <= a.width,
        a.cell(mx, my) == HexCell::Empty,
        b.cell(mx, my) is Occupied,
    ensures
        b.row_stones(y, n) == a.row_stones(y, n) + (if y == my && 0 <= mx < n { 1nat } else { 0nat }),
    decreases n,
{
    if n > 0 {
        lemma_row_stones_one_added(a, b, mx, my, y, n - 1);
        if !(n - 1 == mx && y == my) {
            assert(b.cell(n - 1, y) == a.cell(n - 1, y));
        }
    }
}

proof fn lemma_rows_stones_one_added(a: HexBoard, b: HexBoard, mx: int, my: int, k: int)
    requires
        differ_at_most_at(a, b, mx, my),
        0 <= k <= a.height,
        0 <= mx < a.width,
        a.cell(mx, my) == HexCell::Empty,
        b.cell(mx, my) is Occupied,
    ensures
        b.rows_stones(k) == a.rows_stones(k) + (if 0 <= my < k { 1nat } else { 0nat }),
    decreases k,
{
    if k > 0 {
        lemma_rows_stones_one_added(a, b, mx, my, k - 1);
        lemma_row_stones_one_added(a, b, mx, my, k - 1, a.width as int);
    }
}

/// A move may be played only on the board, and only on an empty cell, except the second move
/// of a game with the swap rule, which may also take the first player's stone.
pub proof fn lemma_moves_go_on_empty_cells(b: HexBoard, m: HexMove)
    requires
        b.move_allowed(m),
    ensures
        m.x < b.width && m.y < b.height,
        b.move_count != 1 || !b.swap_rule ==> b.cell(m.x as int, m.y as int) == HexCell::Empty,
        b.cell(m.x as int, m.y as int) == HexCell::Empty || b.cell(m.x as int, m.y as int) == HexCell::Occupied(
            opponent(b.current_player),
        ),
{
}

/// Every accepted move but the swap puts one more stone on the board: apart from the second
/// move of a game with the swap rule, the board after a move has exactly one stone more, on the
/// cell played, in the colour of the side that moved.
pub proof fn lemma_move_adds_one_stone(before: HexBoard, after: HexBoard, m: HexMove)
    requires
        before.move_allowed(m),
        HexBoard::played(before, after, m),
        before.move_count != 1 || !before.swap_rule,
    ensures
        before.cell(m.x as int, m.y as int) == HexCell::Empty,
        after.cell(m.x as int, m.y as int) == HexCell::Occupied(before.current_player),
        after.stones() == before.stones() + 1,
{
    assert(differ_at_most_at(before, after, m.x as int, m.y as int));
    lemma_rows_stones_one_added(before, after, m.x as int, m.y as int, before.height as int);
}

/// A fresh board is the start of a game that `first` opens.
pub proof fn lemma_new_board_game_inv(b: HexBoard, first: Player)
    requires
        b.grid@.len() == b.height,
        forall|y: int| 0 <= y < b.height ==> #[trigger] b.grid@[y]@.len() == b.width,
        forall|x: int, y: int| 0 <= x < b.width && 0 <= y < b.height ==> #[trigger] b.cell(x, y) == HexCell::Empty,
        b.current_player == first,
        b.move_count == 0,
        b.move_history@.len() == 0,
        b.winner is None,
        b.winner_of() is None,
    ensures
        b.game_inv(first),
{
    lemma_empty_rows_no_stones(b, b.height as int);
}

/// Playing a move keeps what holds over a game: the grid's shape, one more move in the
/// history and at most one more stone, the winner settled, and the turn passed to the side
/// whose move comes next unless the move won, in which case the mover is the winner.
pub proof fn lemma_played_keeps_game_inv(before: HexBoard, after: HexBoard, m: HexMove, first: Player)
    requires
        before.game_inv(first),
        before.winner is None,
        before.move_allowed(m),
        HexBoard::played(before, after, m),
    ensures
        after.game_inv(first),
{
    assert(differ_at_most_at(before, after, m.x as int, m.y as int));
    lemma_rows_stones_one_more(before, after, m.x as int, m.y as int, before.height as int);
    assert(forall|y: int| 0 <= y < after.height ==> #[trigger] after.grid@[y]@.len() == after.width) by {
        assert forall|y: int| 0 <= y < after.height implies #[trigger] after.grid@[y]@.len() == after.width by {
            assert(before.grid@[y]@.len() == before.width);
        }
    }
    let k = before.move_count as int;
    assert(mover(first, k + 1) == opponent(mover(first, k)));
}

/// The side whose agent is asked for the next move: the side to move, or none once the game
/// has a winner.
pub fn side_to_ask(b: &HexBoard) -> (s: Option<Player>)
    ensures
        s == (if b.winner is Some { None } else { Some(b.current_player) }),
{
    if b.winner.is_some() {
        None
    } else {
        Some(b.current_player)
    }
}

/// One turn of a game: plays `m` and reports the new position, or reports why the move was
/// refused (the board then unchanged).
pub fn play_turn(board: &mut HexBoard, m: &HexMove) -> (update: GameUpdate)
    requires
        old(board).winner is None ==> old(board).has_cell_for(*m),
        old(board).winner is None && old(board).move_allowed(*m) ==> old(board).wf() && old(board).move_count
            < usize::MAX,
    ensures
        old(board).winner is Some ==> *final(board) == *old(board) && (update matches GameUpdate::Error(e)
            && e@ == game_over_text()),
        old(board).winner is None && !old(board).move_allowed(*m) ==> *final(board) == *old(board) && (
        update matches GameUpdate::Error(e) && e@ == invalid_move_text(*m)),
        old(board).winner is None && old(board).move_allowed(*m) ==> HexBoard::played(*old(board), *final(board), *m)
            && (update matches GameUpdate::State(s) && HexBoard::same_position(s, *final(board))),
        forall|first: Player| #[trigger] old(board).game_inv(first) ==> final(board).game_inv(first),
{
    match board.apply_move(m) {
        Ok(()) => GameUpdate::State(board.copy()),
        Err(e) => GameUpdate::Error(e),
    }
}

} // verus!
