use vstd::prelude::*;
use vstd::arithmetic::div_mod::lemma_fundamental_div_mod_converse;
use crate::game::{opponent, HexBoard, HexCell, Player};
use crate::union_find::UnionFind;

verus! {

/// `(nx, ny)` is one of the six neighbours of `(x, y)` on the rhombic Hex grid.
pub open spec fn hex_adjacent(x: int, y: int, nx: int, ny: int) -> bool {
    let dx = nx - x;
    let dy = ny - y;
    ||| dx == 0 && dy == -1
    ||| dx == 1 && dy == -1
    ||| dx == -1 && dy == 0
    ||| dx == 1 && dy == 0
    ||| dx == -1 && dy == 1
    ||| dx == 0 && dy == 1
}

/// Consecutive cells `i` and `i + 1` of `path` are neighbours.
pub open spec fn steps_adjacent(path: Seq<(int, int)>, i: int) -> bool {
    hex_adjacent(path[i].0, path[i].1, path[i + 1].0, path[i + 1].1)
}

impl HexBoard {
    /// A stone of `p` lies on the board at `(x, y)`.
    pub open spec fn stone_at(&self, x: int, y: int, p: Player) -> bool {
        &&& 0 <= x < self.width
        &&& 0 <= y < self.height
        &&& self.cell(x, y) == HexCell::Occupied(p)
    }

    /// `(x, y)` lies on the edge that `p` starts from: the top row for Red, the left column for Blue.
    pub open spec fn on_first_edge(&self, p: Player, x: int, y: int) -> bool {
        match p {
            Player::Red => y == 0,
            Player::Blue => x == 0,
        }
    }

    /// `(x, y)` lies on the edge that `p` must reach: the bottom row for Red, the right column for Blue.
    pub open spec fn on_second_edge(&self, p: Player, x: int, y: int) -> bool {
        match p {
            Player::Red => y == self.height - 1,
            Player::Blue => x == self.width - 1,
        }
    }

    /// `path` is a non-empty sequence of stones of `p`, each a neighbour of the one before.
    pub open spec fn is_chain(&self, p: Player, path: Seq<(int, int)>) -> bool {
        &&& path.len() > 0
        &&& forall|i: int| #![trigger path[i]] 0 <= i < path.len() ==> self.stone_at(path[i].0, path[i].1, p)
        &&& forall|i: int| 0 <= i < path.len() - 1 ==> #[trigger] steps_adjacent(path, i)
    }

    /// `p` has a chain of its stones that joins its two edges.
    pub open spec fn connects(&self, p: Player) -> bool {
        exists|path: Seq<(int, int)>|
            #[trigger] self.is_chain(p, path) && self.on_first_edge(p, path[0].0, path[0].1)
                && self.on_second_edge(p, path.last().0, path.last().1)
    }

    /// The side whose edges are joined, Red looked at first.
    pub open spec fn winner_of(&self) -> Option<Player> {
        if self.connects(Player::Red) {
            Some(Player::Red)
        } else if self.connects(Player::Blue) {
            Some(Player::Blue)
        } else {
            None
        }
    }

    /// The number given to the cell `(x, y)`: cells are counted row by row.
    pub open spec fn node(&self, x: int, y: int) -> int {
        y * self.width + x
    }

    /// Cells, then the four edges: Red's first and second, Blue's first and second.
    spec fn node_count(&self) -> int {
        self.width * self.height + 4
    }

    spec fn first_node(&self, p: Player) -> int {
        match p {
            Player::Red => self.width * self.height,
            Player::Blue => self.width * self.height + 2,
        }
    }

    spec fn second_node(&self, p: Player) -> int {
        match p {
            Player::Red => self.width * self.height + 1,
            Player::Blue => self.width * self.height + 3,
        }
    }

    /// A chain of `p` runs from `p`'s first edge (or second edge, when `from_second`) to `(x, y)`.
    spec fn reached(&self, p: Player, x: int, y: int, from_second: bool) -> bool {
        exists|path: Seq<(int, int)>|
            #[trigger] self.is_chain(p, path) && (if from_second {
                self.on_second_edge(p, path[0].0, path[0].1)
            } else {
                self.on_first_edge(p, path[0].0, path[0].1)
            }) && path.last() == (x, y)
    }

    /// The node lies in the group of `p`'s first edge: the edge itself, the stones of `p`
    /// joined to it, and, when `p` connects, the second edge and the stones joined to that.
    spec fn in_component(&self, p: Player, n: int) -> bool {
        ||| n == self.first_node(p)
        ||| n == self.second_node(p) && self.connects(p)
        ||| 0 <= n < self.width * self.height && {
            let x = n % (self.width as int);
            let y = n / (self.width as int);
            &&& self.stone_at(x, y, p)
            &&& (self.reached(p, x, y, false) || (self.connects(p) && self.reached(p, x, y, true)))
        }
    }

    /// Two nodes lie in the same groups, for both sides.
    spec fn same_groups(&self, a: int, b: int) -> bool {
        &&& self.in_component(Player::Red, a) == self.in_component(Player::Red, b)
        &&& self.in_component(Player::Blue, a) == self.in_component(Player::Blue, b)
    }

    /// Every set of `uf` keeps within the groups.
    spec fn groups_respected(&self, uf: UnionFind) -> bool {
        forall|a: int, b: int|
            0 <= a < self.node_count() && 0 <= b < self.node_count() && #[trigger] uf.same_set(a, b)
                ==> self.same_groups(a, b)
    }

    /// Every link of the stone at `(x, y)` (to its edges, to its neighbours of its colour) is in `uf`.
    spec fn cell_joined(&self, uf: UnionFind, x: int, y: int) -> bool {
        match self.cell(x, y) {
            HexCell::Empty => true,
            HexCell::Occupied(p) => {
                &&& (self.on_first_edge(p, x, y) ==> uf.same_set(self.node(x, y), self.first_node(p)))
                &&& (self.on_second_edge(p, x, y) ==> uf.same_set(self.node(x, y), self.second_node(p)))
                &&& forall|nx: int, ny: int|
                    #![trigger self.node(nx, ny)]
                    self.stone_at(nx, ny, p) && hex_adjacent(x, y, nx, ny) ==> uf.same_set(
                        self.node(x, y),
                        self.node(nx, ny),
                    )
            },
        }
    }

    proof fn lemma_node_coords(&self, x: int, y: int)
        requires
            0 <= x < self.width,
            0 <= y < self.height,
        ensures
            0 <= self.node(x, y) < self.width * self.height,
            self.node(x, y) % (self.width as int) == x,
            self.node(x, y) / (self.width as int) == y,
    {
        let w = self.width as int;
        let h = self.height as int;
        assert(0 <= y * w + x < w * h) by (nonlinear_arith)
            requires
                0 <= x < w,
                0 <= y < h,
        ;
        lemma_fundamental_div_mod_converse(y * w + x, w, y, x);
    }

    proof fn lemma_singleton_chain(&self, p: Player, x: int, y: int)
        requires
            self.stone_at(x, y, p),
        ensures
            self.is_chain(p, seq![(x, y)]),
    {
        let path = seq![(x, y)];
        assert forall|i: int| #![trigger path[i]] 0 <= i < path.len() implies self.stone_at(path[i].0, path[i].1, p) by {
        }
    }

    proof fn lemma_chain_push(&self, p: Player, path: Seq<(int, int)>, nx: int, ny: int)
        requires
            self.is_chain(p, path),
            self.stone_at(nx, ny, p),
            hex_adjacent(path.last().0, path.last().1, nx, ny),
        ensures
            self.is_chain(p, path.push((nx, ny))),
    {
        let q = path.push((nx, ny));
        assert forall|i: int| #![trigger q[i]] 0 <= i < q.len() implies self.stone_at(q[i].0, q[i].1, p) by {
            if i < path.len() {
                assert(q[i] == path[i]);
            }
        }
        assert forall|i: int| 0 <= i < q.len() - 1 implies #[trigger] steps_adjacent(q, i) by {
            if i < path.len() - 1 {
                assert(steps_adjacent(path, i));
            }
        }
    }

    /// A stone next to a reached stone of the same side is reached too.
    proof fn lemma_reached_step(&self, p: Player, x: int, y: int, nx: int, ny: int, from_second: bool)
        requires
            self.reached(p, x, y, from_second),
            self.stone_at(nx, ny, p),
            hex_adjacent(x, y, nx, ny),
        ensures
            self.reached(p, nx, ny, from_second),
    {
        let path = choose|path: Seq<(int, int)>|
            #[trigger] self.is_chain(p, path) && (if from_second {
                self.on_second_edge(p, path[0].0, path[0].1)
            } else {
                self.on_first_edge(p, path[0].0, path[0].1)
            }) && path.last() == (x, y);
        self.lemma_chain_push(p, path, nx, ny);
        let q = path.push((nx, ny));
        assert(q[0] == path[0]);
        assert(q.last() == (nx, ny));
    }

    /// A stone on an edge of its side is reached from that edge.
    proof fn lemma_reached_edge(&self, p: Player, x: int, y: int, from_second: bool)
        requires
            self.stone_at(x, y, p),
            from_second ==> self.on_second_edge(p, x, y),
            !from_second ==> self.on_first_edge(p, x, y),
        ensures
            self.reached(p, x, y, from_second),
    {
        self.lemma_singleton_chain(p, x, y);
        let path = seq![(x, y)];
        assert(path.last() == (x, y));
        assert(path[0] == (x, y));
    }

    /// A stone on the second edge reached from the first edge makes its side connect.
    proof fn lemma_reached_connects(&self, p: Player, x: int, y: int)
        requires
            self.reached(p, x, y, false),
            self.on_second_edge(p, x, y),
        ensures
            self.connects(p),
    {
        let path = choose|path: Seq<(int, int)>|
            #[trigger] self.is_chain(p, path) && self.on_first_edge(p, path[0].0, path[0].1)
                && path.last() == (x, y);
        assert(self.is_chain(p, path));
    }

    /// Two neighbouring stones of one side lie in the same groups.
    proof fn lemma_groups_neighbours(&self, p: Player, x: int, y: int, nx: int, ny: int)
        requires
            self.stone_at(x, y, p),
            self.stone_at(nx, ny, p),
            hex_adjacent(x, y, nx, ny),
        ensures
            self.same_groups(self.node(x, y), self.node(nx, ny)),
    {
        self.lemma_node_coords(x, y);
        self.lemma_node_coords(nx, ny);
        if self.reached(p, x, y, false) {
            self.lemma_reached_step(p, x, y, nx, ny, false);
        }
        if self.reached(p, nx, ny, false) {
            self.lemma_reached_step(p, nx, ny, x, y, false);
        }
        if self.reached(p, x, y, true) {
            self.lemma_reached_step(p, x, y, nx, ny, true);
        }
        if self.reached(p, nx, ny, true) {
            self.lemma_reached_step(p, nx, ny, x, y, true);
        }
    }

    /// A stone on the first edge of its side lies in the same groups as that edge.
    proof fn lemma_groups_first_edge(&self, p: Player, x: int, y: int)
        requires
            self.stone_at(x, y, p),
            self.on_first_edge(p, x, y),
        ensures
            self.same_groups(self.node(x, y), self.first_node(p)),
    {
        self.lemma_node_coords(x, y);
        self.lemma_reached_edge(p, x, y, false);
    }

    /// A stone on the second edge of its side lies in the same groups as that edge.
    proof fn lemma_groups_second_edge(&self, p: Player, x: int, y: int)
        requires
            self.stone_at(x, y, p),
            self.on_second_edge(p, x, y),
        ensures
            self.same_groups(self.node(x, y), self.second_node(p)),
    {
        self.lemma_node_coords(x, y);
        self.lemma_reached_edge(p, x, y, true);
        if self.reached(p, x, y, false) {
            self.lemma_reached_connects(p, x, y);
        }
    }

    /// Every pair of nodes joined in `before` is still joined in `after`.
    spec fn grows(&self, before: UnionFind, after: UnionFind) -> bool {
        forall|a: int, b: int|
            0 <= a < self.node_count() && 0 <= b < self.node_count() && #[trigger] before.same_set(a, b)
                ==> after.same_set(a, b)
    }

    proof fn lemma_cell_joined_grows(&self, before: UnionFind, after: UnionFind, x: int, y: int)
        requires
            self.wf(),
            0 <= x < self.width,
            0 <= y < self.height,
            self.cell_joined(before, x, y),
            self.grows(before, after),
        ensures
            self.cell_joined(after, x, y),
    {
        self.lemma_node_coords(x, y);
        if let HexCell::Occupied(p) = self.cell(x, y) {
            assert forall|nx: int, ny: int|
                #![trigger self.node(nx, ny)]
                self.stone_at(nx, ny, p) && hex_adjacent(x, y, nx, ny) implies after.same_set(
                self.node(x, y),
                self.node(nx, ny),
            ) by {
                self.lemma_node_coords(nx, ny);
                assert(before.same_set(self.node(x, y), self.node(nx, ny)));
            }
        }
    }

    /// Joins the sets of `u` and `v`, two nodes that lie in the same groups.
    fn join(&self, uf: &mut UnionFind, u: usize, v: usize)
        requires
            self.wf(),
            old(uf).wf(),
            old(uf).size() == self.node_count(),
            u < self.node_count(),
            v < self.node_count(),
            self.groups_respected(*old(uf)),
            self.same_groups(u as int, v as int),
        ensures
            final(uf).wf(),
            final(uf).size() == old(uf).size(),
            self.groups_respected(*final(uf)),
            final(uf).same_set(u as int, v as int),
            self.grows(*old(uf), *final(uf)),
    {
        let ghost before = *uf;
        uf.union(u, v);
        proof {
            let n = self.node_count();
            assert forall|a: int, b: int|
                0 <= a < n && 0 <= b < n && #[trigger] uf.same_set(a, b) implies self.same_groups(a, b) by {
                if before.same_set(a, b) {
                } else if before.same_set(a, u as int) && before.same_set(b, v as int) {
                    assert(before.same_set(a, u as int));
                    assert(before.same_set(b, v as int));
                } else {
                    assert(before.same_set(a, v as int));
                    assert(before.same_set(b, u as int));
                }
            }
            assert(uf.same_set(u as int, v as int)) by {
                assert(before.same_set(u as int, u as int));
                assert(before.same_set(v as int, v as int));
            }
        }
    }

    /// Joins the stone of `p` at `(x, y)` with the neighbour `(nx, ny)` when that holds a stone of `p`.
    fn join_if_same(&self, uf: &mut UnionFind, x: usize, y: usize, nx: usize, ny: usize, p: Player)
        requires
            self.wf(),
            old(uf).wf(),
            old(uf).size() == self.node_count(),
            self.groups_respected(*old(uf)),
            self.stone_at(x as int, y as int, p),
            nx < self.width,
            ny < self.height,
            hex_adjacent(x as int, y as int, nx as int, ny as int),
        ensures
            final(uf).wf(),
            final(uf).size() == old(uf).size(),
            self.groups_respected(*final(uf)),
            self.grows(*old(uf), *final(uf)),
            self.stone_at(nx as int, ny as int, p) ==> final(uf).same_set(
                self.node(x as int, y as int),
                self.node(nx as int, ny as int),
            ),
    {
        proof {
            self.lemma_node_coords(x as int, y as int);
            self.lemma_node_coords(nx as int, ny as int);
        }
        if self.grid[ny][nx] == HexCell::Occupied(p) {
            let a = y * self.width + x;
            let b = ny * self.width + nx;
            proof {
                self.lemma_groups_neighbours(p, x as int, y as int, nx as int, ny as int);
            }
            self.join(uf, a, b);
        }
    }

    /// Joins the stone of `p` at `(x, y)` with its edges and with its neighbours of colour `p`.
    fn join_cell(&self, uf: &mut UnionFind, x: usize, y: usize, p: Player)
        requires
            self.wf(),
            old(uf).wf(),
            old(uf).size() == self.node_count(),
            self.groups_respected(*old(uf)),
            x < self.width,
            y < self.height,
            self.cell(x as int, y as int) == HexCell::Occupied(p),
        ensures
            final(uf).wf(),
            final(uf).size() == old(uf).size(),
            self.groups_respected(*final(uf)),
            self.grows(*old(uf), *final(uf)),
            self.cell_joined(*final(uf), x as int, y as int),
    {
        proof {
            self.lemma_node_coords(x as int, y as int);
        }
        let size = self.width * self.height;
        let idx = y * self.width + x;
        if p == Player::Red {
            if y == 0 {
                proof {
                    self.lemma_groups_first_edge(p, x as int, y as int);
                }
                self.join(uf, idx, size);
            }
            if y == self.height - 1 {
                proof {
                    self.lemma_groups_second_edge(p, x as int, y as int);
                }
                self.join(uf, idx, size + 1);
            }
        } else {
            if x == 0 {
                proof {
                    self.lemma_groups_first_edge(p, x as int, y as int);
                }
                self.join(uf, idx, size + 2);
            }
            if x == self.width - 1 {
                proof {
                    self.lemma_groups_second_edge(p, x as int, y as int);
                }
                self.join(uf, idx, size + 3);
            }
        }
        let ghost edges_done = *uf;
        if y > 0 {
            self.join_if_same(uf, x, y, x, y - 1, p);
            let ghost up = *uf;
            if x + 1 < self.width {
                self.join_if_same(uf, x, y, x + 1, y - 1, p);
            }
            proof {
                if self.stone_at(x as int, y - 1, p) {
                    self.lemma_node_coords(x as int, y - 1);
                    assert(up.same_set(self.node(x as int, y as int), self.node(x as int, y - 1)));
                    assert(self.grows(up, *uf));
                    assert(uf.same_set(self.node(x as int, y as int), self.node(x as int, y - 1)));
                }
            }
        }
        let ghost s1 = *uf;
        proof {
            assert(self.grows(edges_done, s1));
        }
        if x > 0 {
            self.join_if_same(uf, x, y, x - 1, y, p);
        }
        let ghost s2 = *uf;
        if x + 1 < self.width {
            self.join_if_same(uf, x, y, x + 1, y, p);
        }
        let ghost s3 = *uf;
        if y + 1 < self.height {
            if x > 0 {
                self.join_if_same(uf, x, y, x - 1, y + 1, p);
            }
            let ghost down = *uf;
            self.join_if_same(uf, x, y, x, y + 1, p);
            proof {
                if x > 0 && self.stone_at(x - 1, y + 1, p) {
                    self.lemma_node_coords(x - 1, y + 1);
                    assert(down.same_set(self.node(x as int, y as int), self.node(x - 1, y + 1)));
                    assert(self.grows(down, *uf));
                    assert(uf.same_set(self.node(x as int, y as int), self.node(x - 1, y + 1)));
                }
            }
        }
        proof {
            let fin = *uf;
            let n0 = self.node(x as int, y as int);
            assert(self.grows(s1, s2));
            assert(self.grows(s2, s3));
            assert(self.grows(s3, fin));
            if y > 0 && self.stone_at(x as int, y - 1, p) {
                self.lemma_node_coords(x as int, y - 1);
                assert(s1.same_set(n0, self.node(x as int, y - 1)));
                assert(s2.same_set(n0, self.node(x as int, y - 1)));
                assert(s3.same_set(n0, self.node(x as int, y - 1)));
            }
            if y > 0 && self.stone_at(x + 1, y - 1, p) {
                self.lemma_node_coords(x + 1, y - 1);
                assert(s1.same_set(n0, self.node(x + 1, y - 1)));
                assert(s2.same_set(n0, self.node(x + 1, y - 1)));
                assert(s3.same_set(n0, self.node(x + 1, y - 1)));
            }
        }
        proof {
            let fin = *uf;
            let xi = x as int;
            let yi = y as int;
            assert(self.grows(edges_done, fin));
            if self.on_first_edge(p, xi, yi) {
                assert(edges_done.same_set(self.node(xi, yi), self.first_node(p)));
            }
            if self.on_second_edge(p, xi, yi) {
                assert(edges_done.same_set(self.node(xi, yi), self.second_node(p)));
            }
            assert forall|nx: int, ny: int|
                #![trigger self.node(nx, ny)]
                self.stone_at(nx, ny, p) && hex_adjacent(xi, yi, nx, ny) implies fin.same_set(
                self.node(xi, yi),
                self.node(nx, ny),
            ) by {
                self.lemma_node_coords(nx, ny);
                if nx == xi && ny == yi - 1 {
                    assert(fin.same_set(self.node(xi, yi), self.node(xi, yi - 1)));
                } else if nx == xi + 1 && ny == yi - 1 {
                    assert(fin.same_set(self.node(xi, yi), self.node(xi + 1, yi - 1)));
                } else if nx == xi - 1 && ny == yi {
                    assert(fin.same_set(self.node(xi, yi), self.node(xi - 1, yi)));
                } else if nx == xi + 1 && ny == yi {
                    assert(fin.same_set(self.node(xi, yi), self.node(xi + 1, yi)));
                } else if nx == xi - 1 && ny == yi + 1 {
                    assert(fin.same_set(self.node(xi, yi), self.node(xi - 1, yi + 1)));
                } else {
                    assert(fin.same_set(self.node(xi, yi), self.node(xi, yi + 1)));
                }
            }
        }
    }

    /// Every cell of the board has all its links in `uf`.
    spec fn all_joined(&self, uf: UnionFind) -> bool {
        forall|x: int, y: int|
            0 <= x < self.width && 0 <= y < self.height ==> #[trigger] self.cell_joined(uf, x, y)
    }

    /// Along a chain, every stone is in the set of the first one.
    proof fn lemma_chain_joined(&self, uf: UnionFind, p: Player, path: Seq<(int, int)>, i: int)
        requires
            self.wf(),
            uf.size() == self.node_count(),
            self.all_joined(uf),
            self.is_chain(p, path),
            0 <= i < path.len(),
        ensures
            uf.same_set(self.node(path[0].0, path[0].1), self.node(path[i].0, path[i].1)),
        decreases i,
    {
        if i > 0 {
            self.lemma_chain_joined(uf, p, path, i - 1);
            let (ax, ay) = path[i - 1];
            let (bx, by) = path[i];
            assert(steps_adjacent(path, i - 1));
            assert(self.stone_at(ax, ay, p));
            assert(self.stone_at(bx, by, p));
            assert(self.cell_joined(uf, ax, ay));
            assert(uf.same_set(self.node(ax, ay), self.node(bx, by)));
        }
    }

    /// When every link is in `uf`, a side that connects has its two edges in one set.
    proof fn lemma_connects_joined(&self, uf: UnionFind, p: Player)
        requires
            self.wf(),
            uf.size() == self.node_count(),
            self.all_joined(uf),
            self.connects(p),
        ensures
            uf.same_set(self.first_node(p), self.second_node(p)),
    {
        let path = choose|path: Seq<(int, int)>|
            #[trigger] self.is_chain(p, path) && self.on_first_edge(p, path[0].0, path[0].1)
                && self.on_second_edge(p, path.last().0, path.last().1);
        let last = path.len() - 1;
        self.lemma_chain_joined(uf, p, path, last);
        assert(self.stone_at(path[0].0, path[0].1, p));
        assert(self.stone_at(path[last].0, path[last].1, p));
        assert(self.cell_joined(uf, path[0].0, path[0].1));
        assert(self.cell_joined(uf, path[last].0, path[last].1));
    }

    /// When the sets of `uf` keep within the groups, a side whose edges share a set connects.
    proof fn lemma_joined_connects(&self, uf: UnionFind, p: Player)
        requires
            self.wf(),
            self.groups_respected(uf),
            uf.same_set(self.first_node(p), self.second_node(p)),
        ensures
            self.connects(p),
    {
        assert(self.same_groups(self.first_node(p), self.second_node(p)));
    }

    /// The side, Red looked at first, whose two edges are joined by a chain of its stones.
    fn winning_player(&self) -> (w: Option<Player>)
        requires
            self.wf(),
        ensures
            w == self.winner_of(),
    {
        let size = self.width * self.height;
        let mut uf = UnionFind::new(size + 4);
        let mut y: usize = 0;
        while y < self.height
            invariant
                self.wf(),
                size == self.width * self.height,
                y <= self.height,
                uf.wf(),
                uf.size() == self.node_count(),
                self.groups_respected(uf),
                forall|cx: int, cy: int|
                    0 <= cx < self.width && 0 <= cy < y ==> #[trigger] self.cell_joined(uf, cx, cy),
            decreases self.height - y,
        {
            let mut x: usize = 0;
            while x < self.width
                invariant
                    self.wf(),
                    size == self.width * self.height,
                    y < self.height,
                    x <= self.width,
                    uf.wf(),
                    uf.size() == self.node_count(),
                    self.groups_respected(uf),
                    forall|cx: int, cy: int|
                        0 <= cx < self.width && 0 <= cy < self.height && (cy < y || (cy == y && cx < x))
                            ==> #[trigger] self.cell_joined(uf, cx, cy),
                decreases self.width - x,
            {
                let ghost before = uf;
                if let HexCell::Occupied(p) = self.grid[y][x] {
                    self.join_cell(&mut uf, x, y, p);
                    proof {
                        assert forall|cx: int, cy: int|
                            0 <= cx < self.width && 0 <= cy < self.height && (cy < y || (cy == y && cx < x))
                                implies #[trigger] self.cell_joined(uf, cx, cy) by {
                            assert(self.cell_joined(before, cx, cy));
                            self.lemma_cell_joined_grows(before, uf, cx, cy);
                        }
                    }
                }
                x = x + 1;
            }
            y = y + 1;
        }
        proof {
            assert(self.all_joined(uf));
            if self.connects(Player::Red) {
                self.lemma_connects_joined(uf, Player::Red);
            }
            if self.connects(Player::Blue) {
                self.lemma_connects_joined(uf, Player::Blue);
            }
        }
        let ghost done = uf;
        let red_top = uf.find(size);
        let red_bottom = uf.find(size + 1);
        if red_top == red_bottom {
            proof {
                self.lemma_joined_connects(done, Player::Red);
            }
            return Some(Player::Red);
        }
        let blue_left = uf.find(size + 2);
        let blue_right = uf.find(size + 3);
        if blue_left == blue_right {
            proof {
                self.lemma_joined_connects(done, Player::Blue);
            }
            Some(Player::Blue)
        } else {
            None
        }
    }

    /// Records the side whose edges are joined, if there is one; nothing else changes.
    pub(crate) fn check_win(&mut self)
        requires
            old(self).wf(),
        ensures
            final(self).width == old(self).width,
            final(self).height == old(self).height,
            final(self).grid == old(self).grid,
            final(self).current_player == old(self).current_player,
            final(self).move_count == old(self).move_count,
            final(self).swap_rule == old(self).swap_rule,
            final(self).move_history == old(self).move_history,
            final(self).winner == (if old(self).winner_of() is Some {
                old(self).winner_of()
            } else {
                old(self).winner
            }),
    {
        if let Some(p) = self.winning_player() {
            self.winner = Some(p);
        }
    }
}

/// A chain of `p` on one board is a chain on any board of the same size and cells, so a side
/// that connects on the first connects on the second.
proof fn lemma_connects_carries_over(a: HexBoard, b: HexBoard, p: Player)
    requires
        a.width == b.width,
        a.height == b.height,
        a.grid@ == b.grid@,
    ensures
        a.connects(p) ==> b.connects(p),
{
    assert forall|path: Seq<(int, int)>| a.is_chain(p, path) implies b.is_chain(p, path) by {
        assert forall|i: int| #![trigger path[i]] 0 <= i < path.len() implies b.stone_at(path[i].0, path[i].1, p) by {
            assert(a.stone_at(path[i].0, path[i].1, p));
        }
    }
    if a.connects(p) {
        let path = choose|path: Seq<(int, int)>|
            #[trigger] a.is_chain(p, path) && a.on_first_edge(p, path[0].0, path[0].1)
                && a.on_second_edge(p, path.last().0, path.last().1);
        assert(b.is_chain(p, path));
    }
}

/// Whether a side connects depends on the size of the board and its cells alone.
pub proof fn lemma_connects_depends_on_cells(a: HexBoard, b: HexBoard, p: Player)
    requires
        a.width == b.width,
        a.height == b.height,
        a.grid@ == b.grid@,
    ensures
        a.connects(p) == b.connects(p),
        a.winner_of() == b.winner_of(),
{
    let q = opponent(p);
    lemma_connects_carries_over(a, b, p);
    lemma_connects_carries_over(b, a, p);
    lemma_connects_carries_over(a, b, q);
    lemma_connects_carries_over(b, a, q);
}

/// A board with no stones has no winner.
pub proof fn lemma_empty_board_no_winner(b: HexBoard)
    requires
        forall|x: int, y: int| 0 <= x < b.width && 0 <= y < b.height ==> #[trigger] b.cell(x, y) == HexCell::Empty,
    ensures
        b.winner_of() is None,
{
    assert forall|p: Player| !b.connects(p) by {
        if b.connects(p) {
            let path = choose|path: Seq<(int, int)>|
                #[trigger] b.is_chain(p, path) && b.on_first_edge(p, path[0].0, path[0].1)
                    && b.on_second_edge(p, path.last().0, path.last().1);
            assert(b.stone_at(path[0].0, path[0].1, p));
        }
    }
}

/// Only the side that moves can win by its move: when nobody connected before, a move that
/// puts a stone of `p` on one cell and leaves every other cell as it was never makes the other
/// side connect.
pub proof fn lemma_only_mover_can_win(before: HexBoard, after: HexBoard, mx: int, my: int, p: Player)
    requires
        !before.connects(opponent(p)),
        after.width == before.width,
        after.height == before.height,
        forall|x: int, y: int|
            0 <= x < before.width && 0 <= y < before.height ==> #[trigger] after.cell(x, y) == (if x == mx
                && y == my {
                HexCell::Occupied(p)
            } else {
                before.cell(x, y)
            }),
    ensures
        !after.connects(opponent(p)),
{
    let q = opponent(p);
    if after.connects(q) {
        let path = choose|path: Seq<(int, int)>|
            #[trigger] after.is_chain(q, path) && after.on_first_edge(q, path[0].0, path[0].1)
                && after.on_second_edge(q, path.last().0, path.last().1);
        assert forall|i: int| #![trigger path[i]] 0 <= i < path.len() implies before.stone_at(path[i].0, path[i].1, q) by {
            assert(after.stone_at(path[i].0, path[i].1, q));
        }
        assert(before.is_chain(q, path));
    }
}

} // verus!
