use vstd::prelude::*;
use vstd::arithmetic::power2::{lemma_pow2_strictly_increases, lemma_pow2_unfold, pow2};
use vstd::set_lib::*;

verus! {

/// Disjoint sets over the elements `0..n`, joined by rank and compressed on lookup.
#[derive(Clone)]
pub struct UnionFind {
    parent: Vec<usize>,
    rank: Vec<usize>,
    /// The representative (root) of each element's set.
    rep: Ghost<Seq<int>>,
    /// Distance-like measure: zero at roots, strictly larger than the parent's elsewhere.
    height: Ghost<Seq<nat>>,
}

proof fn lemma_pow2_zero()
    ensures
        pow2(0) == 1,
{
    vstd::arithmetic::power2::lemma2_to64();
}

/// `2^k` exceeds `k`.
proof fn lemma_pow2_exceeds(k: nat)
    ensures
        pow2(k) > k,
    decreases k,
{
    if k == 0 {
        lemma_pow2_zero();
    } else {
        lemma_pow2_exceeds((k - 1) as nat);
        lemma_pow2_unfold(k);
    }
}

impl UnionFind {
    /// Number of elements.
    pub closed spec fn size(&self) -> nat {
        self.parent@.len()
    }

    /// The representative of the set that holds `i`.
    pub closed spec fn rep_of(&self, i: int) -> int {
        self.rep@[i]
    }

    /// The element that `i` points at (itself for a representative).
    pub closed spec fn parent_of(&self, i: int) -> int {
        self.parent@[i] as int
    }

    /// The rank of `i`: an upper bound on the height of its tree while `i` is a representative.
    pub closed spec fn rank_of(&self, i: int) -> int {
        self.rank@[i] as int
    }

    /// `i` and `j` lie in the same set.
    pub open spec fn same_set(&self, i: int, j: int) -> bool {
        self.rep_of(i) == self.rep_of(j)
    }

    /// The elements whose representative is `r`.
    spec fn class(&self, r: int) -> Set<int> {
        Set::new(|k: int| 0 <= k < self.size() && self.rep@[k] == r)
    }

    spec fn node_ok(&self, i: int) -> bool {
        let n = self.size() as int;
        let p = self.parent@[i] as int;
        let r = self.rep@[i];
        &&& p < n
        &&& 0 <= r < n
        &&& self.parent@[r] as int == r
        &&& self.rep@[p] == r
        &&& (p == i ==> r == i && self.height@[i] == 0 && pow2(self.rank@[i] as nat) <= self.class(i).len())
        &&& (p != i ==> self.height@[p] < self.height@[i] && self.rank@[i] < self.rank@[p] && self.rank@[i]
            < self.rank@[r])
    }

    /// Well-formedness: every element leads to its representative through its parents, ranks
    /// grow from an element to its parent, and a representative of rank `k` has at least `2^k`
    /// elements in its set.
    pub closed spec fn wf(&self) -> bool {
        &&& self.rank@.len() == self.size()
        &&& self.rep@.len() == self.size()
        &&& self.height@.len() == self.size()
        &&& forall|i: int| 0 <= i < self.size() ==> #[trigger] self.node_ok(i)
    }

    proof fn lemma_class_finite(&self, r: int)
        ensures
            self.class(r).finite(),
            self.class(r).len() <= self.size(),
    {
        lemma_int_range(0, self.size() as int);
        assert(self.class(r).subset_of(set_int_range(0, self.size() as int)));
        lemma_len_subset(self.class(r), set_int_range(0, self.size() as int));
    }

    /// The shape of a well-formed union-find: every element points inside, to an element of
    /// higher rank unless it is a representative, its representative points at itself, and no
    /// rank `k` occurs with fewer than `2^k` elements (so ranks, and the parent chains they
    /// order, stay below `log2` of the size).
    pub proof fn lemma_rank_bounds(&self)
        requires
            self.wf(),
        ensures
            forall|k: int| 0 <= k < self.size() ==> 0 <= #[trigger] self.parent_of(k) < self.size(),
            forall|k: int| 0 <= k < self.size() ==> 0 <= #[trigger] self.rep_of(k) < self.size(),
            forall|k: int|
                0 <= k < self.size() ==> self.parent_of(#[trigger] self.rep_of(k)) == self.rep_of(k),
            forall|k: int|
                0 <= k < self.size() && #[trigger] self.parent_of(k) != k ==> self.rank_of(k) < self.rank_of(
                    self.parent_of(k),
                ),
            forall|k: int| 0 <= k < self.size() ==> 0 <= #[trigger] self.rank_of(k),
            forall|k: int| 0 <= k < self.size() ==> pow2(#[trigger] self.rank_of(k) as nat) <= self.size(),
    {
        assert forall|k: int| 0 <= k < self.size() implies pow2(#[trigger] self.rank_of(k) as nat) <= self.size() by {
            assert(self.node_ok(k));
            let r = self.rep@[k];
            assert(self.node_ok(r));
            self.lemma_class_finite(r);
            if self.parent@[k] as int != k {
                lemma_pow2_strictly_increases(self.rank@[k] as nat, self.rank@[r] as nat);
            }
        }
        assert forall|k: int| 0 <= k < self.size() implies self.parent_of(#[trigger] self.rep_of(k)) == self.rep_of(k) by {
            assert(self.node_ok(k));
        }
        assert forall|k: int| 0 <= k < self.size() implies 0 <= #[trigger] self.parent_of(k) < self.size() by {
            assert(self.node_ok(k));
        }
        assert forall|k: int| 0 <= k < self.size() implies 0 <= #[trigger] self.rep_of(k) < self.size() by {
            assert(self.node_ok(k));
        }
        assert forall|k: int|
            0 <= k < self.size() && #[trigger] self.parent_of(k) != k implies self.rank_of(k) < self.rank_of(
            self.parent_of(k),
        ) by {
            assert(self.node_ok(k));
        }
    }

    /// The element reached from `k` by following parents `steps` times.
    pub open spec fn ancestor(&self, k: int, steps: nat) -> int
        decreases steps,
    {
        if steps == 0 {
            k
        } else {
            self.ancestor(self.parent_of(k), (steps - 1) as nat)
        }
    }

    /// Following parents from `k` reaches its representative within as many steps as the
    /// representative's rank exceeds the rank of `k`; with `lemma_rank_bounds`, every parent
    /// chain is therefore at most `log2` of the size long.
    pub proof fn lemma_chain_reaches_root(&self, k: int, steps: nat)
        requires
            self.wf(),
            0 <= k < self.size(),
            steps + self.rank_of(k) >= self.rank_of(self.rep_of(k)),
        ensures
            self.ancestor(k, steps) == self.rep_of(k),
        decreases steps,
    {
        assert(self.node_ok(k));
        let p = self.parent@[k] as int;
        if p != k {
            assert(self.node_ok(p));
            self.lemma_chain_reaches_root(p, (steps - 1) as nat);
        } else {
            self.lemma_root_fixed(k, steps);
        }
    }

    /// From any element, following parents `r` times reaches its representative, where `r` is
    /// the representative's rank and `2^r` is at most the size: every parent chain, and so the
    /// work of `find`, is at most `log2` of the size long.
    pub proof fn lemma_chain_within_log_size(&self, k: int)
        requires
            self.wf(),
            0 <= k < self.size(),
        ensures
            0 <= self.rank_of(self.rep_of(k)),
            pow2(self.rank_of(self.rep_of(k)) as nat) <= self.size(),
            self.ancestor(k, self.rank_of(self.rep_of(k)) as nat) == self.rep_of(k),
    {
        self.lemma_rank_bounds();
        assert(0 <= self.rep_of(k) < self.size());
        assert(0 <= self.rank_of(k));
        self.lemma_chain_reaches_root(k, self.rank_of(self.rep_of(k)) as nat);
    }

    proof fn lemma_root_fixed(&self, k: int, steps: nat)
        requires
            self.parent_of(k) == k,
        ensures
            self.ancestor(k, steps) == k,
        decreases steps,
    {
        if steps > 0 {
            self.lemma_root_fixed(k, (steps - 1) as nat);
        }
    }

    /// Creates `size` singleton sets, each element its own representative, all of rank 0.
    pub fn new(size: usize) -> (uf: Self)
        ensures
            uf.wf(),
            uf.size() == size,
            forall|k: int| 0 <= k < size ==> #[trigger] uf.rep_of(k) == k,
            forall|k: int| 0 <= k < size ==> #[trigger] uf.parent_of(k) == k,
            forall|k: int| 0 <= k < size ==> #[trigger] uf.rank_of(k) == 0,
            forall|x: int, y: int|
                0 <= x < size && 0 <= y < size ==> (#[trigger] uf.same_set(x, y) <==> x == y),
    {
        let mut parent: Vec<usize> = Vec::new();
        let mut rank: Vec<usize> = Vec::new();
        let mut k: usize = 0;
        while k < size
            invariant
                k <= size,
                parent@.len() == k,
                rank@.len() == k,
                forall|m: int| 0 <= m < k ==> parent@[m] as int == m && rank@[m] == 0,
            decreases size - k,
        {
            parent.push(k);
            rank.push(0);
            k = k + 1;
        }
        let uf = UnionFind {
            parent,
            rank,
            rep: Ghost(Seq::new(size as nat, |m: int| m)),
            height: Ghost(Seq::new(size as nat, |m: int| 0nat)),
        };
        proof {
            lemma_pow2_zero();
        }
        assert forall|i: int| 0 <= i < uf.size() implies #[trigger] uf.node_ok(i) by {
            assert(uf.class(i).contains(i));
            uf.lemma_class_finite(i);
            vstd::set::axiom_set_contains_len(uf.class(i), i);
        }
        uf
    }

    /// Returns the representative of `i`, pointing every element on the way directly at it.
    /// The sets and the ranks stay as they were.
    pub fn find(&mut self, i: usize) -> (r: usize)
        requires
            old(self).wf(),
            i < old(self).size(),
        ensures
            final(self).wf(),
            final(self).size() == old(self).size(),
            r < final(self).size(),
            r as int == old(self).rep_of(i as int),
            forall|k: int| 0 <= k < old(self).size() ==> #[trigger] final(self).rep_of(k) == old(self).rep_of(k),
            forall|k: int| 0 <= k < old(self).size() ==> #[trigger] final(self).rank_of(k) == old(self).rank_of(k),
            final(self).rep_of(r as int) == r as int,
            final(self).parent_of(i as int) == r as int,
    {
        self.find_compress(i)
    }

    /// `find`, with the ghost state it keeps unchanged spelled out for the recursion.
    fn find_compress(&mut self, i: usize) -> (r: usize)
        requires
            old(self).wf(),
            i < old(self).size(),
        ensures
            final(self).wf(),
            final(self).size() == old(self).size(),
            r < final(self).size(),
            r as int == old(self).rep_of(i as int),
            final(self).rep_of(r as int) == r as int,
            final(self).parent_of(i as int) == r as int,
            final(self).rep@ == old(self).rep@,
            final(self).rank@ == old(self).rank@,
            final(self).height@ == old(self).height@,
        decreases old(self).height@[i as int],
    {
        proof {
            assert(self.node_ok(i as int));
        }
        let p = self.parent[i];
        if p != i {
            proof {
                assert(self.node_ok(p as int));
            }
            let r = self.find_compress(p);
            proof {
                assert(self.node_ok(i as int));
                assert(self.node_ok(r as int));
            }
            let ghost mid = *self;
            self.parent.set(i, r);
            proof {
                assert forall|k: int| 0 <= k < self.size() implies #[trigger] self.node_ok(k) by {
                    assert(mid.node_ok(k));
                    assert(self.class(k) =~= mid.class(k));
                    assert(mid.node_ok(mid.rep@[k]));
                }
            }
            r
        } else {
            proof {
                assert(self.node_ok(i as int));
            }
            i
        }
    }

    /// Hangs the root `a` under the root `b`, adding one to the rank of `b` when `bump` holds.
    fn link(&mut self, a: usize, b: usize, bump: bool)
        requires
            old(self).wf(),
            a < old(self).size(),
            b < old(self).size(),
            a != b,
            old(self).rep_of(a as int) == a,
            old(self).rep_of(b as int) == b,
            bump ==> old(self).rank@[a as int] == old(self).rank@[b as int],
            !bump ==> old(self).rank@[a as int] < old(self).rank@[b as int],
        ensures
            final(self).wf(),
            final(self).size() == old(self).size(),
            forall|k: int|
                0 <= k < old(self).size() ==> #[trigger] final(self).rep_of(k) == (if old(self).rep_of(k) == a {
                    b as int
                } else {
                    old(self).rep_of(k)
                }),
            forall|k: int|
                0 <= k < old(self).size() ==> #[trigger] final(self).rank_of(k) == (if bump && k == b {
                    old(self).rank_of(k) + 1
                } else {
                    old(self).rank_of(k)
                }),
    {
        let ghost old_uf = *self;
        let ghost n = self.size() as int;
        proof {
            assert(self.node_ok(a as int));
            assert(self.node_ok(b as int));
            old_uf.lemma_class_finite(a as int);
            old_uf.lemma_class_finite(b as int);
            lemma_pow2_exceeds(old_uf.rank@[b as int] as nat);
        }
        let _len = self.parent.len();
        self.parent.set(a, b);
        if bump {
            let rb = self.rank[b];
            self.rank.set(b, rb + 1);
        }
        proof {
            self.rep@ = Seq::new(n as nat, |k: int| if old_uf.rep@[k] == a { b as int } else { old_uf.rep@[k] });
            self.height@ = Seq::new(n as nat, |k: int| if old_uf.rep@[k] == a { old_uf.height@[k] + 1 } else { old_uf.height@[k] });
            assert(self.class(b as int) =~= old_uf.class(a as int) + old_uf.class(b as int));
            assert(old_uf.class(a as int).disjoint(old_uf.class(b as int)));
            lemma_set_disjoint_lens(old_uf.class(a as int), old_uf.class(b as int));
            if bump {
                lemma_pow2_unfold((old_uf.rank@[b as int] + 1) as nat);
            }
            assert forall|k: int| 0 <= k < self.size() implies #[trigger] self.node_ok(k) by {
                assert(old_uf.node_ok(k));
                let r = old_uf.rep@[k];
                assert(old_uf.node_ok(r));
                let p = old_uf.parent@[k] as int;
                assert(old_uf.node_ok(p));
                if r != a && r != b {
                    assert(self.class(r) =~= old_uf.class(r));
                }
            }
        }
    }

    /// Joins the sets that hold `i` and `j`. The representative of the lower rank goes under
    /// the other; on equal ranks the representative of `i` stays and its rank grows by one.
    pub fn union(&mut self, i: usize, j: usize)
        requires
            old(self).wf(),
            i < old(self).size(),
            j < old(self).size(),
        ensures
            final(self).wf(),
            final(self).size() == old(self).size(),
            forall|x: int, y: int|
                0 <= x < old(self).size() && 0 <= y < old(self).size() ==> (#[trigger] final(self).same_set(x, y)
                    <==> (old(self).same_set(x, y)
                    || (old(self).same_set(x, i as int) && old(self).same_set(y, j as int))
                    || (old(self).same_set(x, j as int) && old(self).same_set(y, i as int)))),
            final(self).same_set(i as int, j as int),
            ({
                let ri = old(self).rep_of(i as int);
                let rj = old(self).rep_of(j as int);
                let keep = if old(self).rank_of(ri) < old(self).rank_of(rj) { rj } else { ri };
                let gone = if keep == ri { rj } else { ri };
                let bump = ri != rj && old(self).rank_of(ri) == old(self).rank_of(rj);
                &&& forall|k: int|
                    0 <= k < old(self).size() ==> #[trigger] final(self).rep_of(k) == (if ri != rj
                        && old(self).rep_of(k) == gone {
                        keep
                    } else {
                        old(self).rep_of(k)
                    })
                &&& forall|k: int|
                    0 <= k < old(self).size() ==> #[trigger] final(self).rank_of(k) == (if bump && k == keep {
                        old(self).rank_of(k) + 1
                    } else {
                        old(self).rank_of(k)
                    })
            }),
    {
        let ghost old_uf = *self;
        let root_i = self.find(i);
        let root_j = self.find(j);
        proof {
            assert(old_uf.node_ok(i as int));
            assert(old_uf.node_ok(j as int));
        }
        let ghost found = *self;
        proof {
            assert forall|k: int| 0 <= k < old_uf.size() implies found.rep_of(k) == old_uf.rep_of(k)
                && found.rank_of(k) == old_uf.rank_of(k) by {
                assert(found.rep_of(k) == old_uf.rep_of(k));
                assert(found.rank_of(k) == old_uf.rank_of(k));
            }
        }
        if root_i != root_j {
            let ri = self.rank[root_i];
            let rj = self.rank[root_j];
            if ri < rj {
                self.link(root_i, root_j, false);
            } else if ri > rj {
                self.link(root_j, root_i, false);
            } else {
                self.link(root_j, root_i, true);
            }
        }
    }
}

} // verus!
