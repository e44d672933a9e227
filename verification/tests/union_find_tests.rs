use hex_rs::UnionFind;

#[test]
fn new_sets_are_singletons() {
    let mut uf = UnionFind::new(5);
    for i in 0..5 {
        assert_eq!(uf.find(i), i);
    }
}

#[test]
fn union_joins_two_sets() {
    let mut uf = UnionFind::new(6);
    uf.union(1, 4);
    assert_eq!(uf.find(1), uf.find(4));
    assert_ne!(uf.find(1), uf.find(2));
    assert_eq!(uf.find(0), 0);
}

#[test]
fn union_is_transitive() {
    let mut uf = UnionFind::new(8);
    uf.union(0, 1);
    uf.union(2, 3);
    assert_ne!(uf.find(0), uf.find(3));
    uf.union(1, 2);
    let r = uf.find(0);
    for i in 0..4 {
        assert_eq!(uf.find(i), r);
    }
    for i in 4..8 {
        assert_eq!(uf.find(i), i);
    }
}

#[test]
fn union_within_a_set_changes_nothing() {
    let mut uf = UnionFind::new(4);
    uf.union(0, 1);
    let r = uf.find(0);
    uf.union(1, 0);
    uf.union(0, 0);
    assert_eq!(uf.find(0), r);
    assert_eq!(uf.find(1), r);
    assert_eq!(uf.find(2), 2);
    assert_eq!(uf.find(3), 3);
}

#[test]
fn long_chain_of_unions() {
    let n = 200;
    let mut uf = UnionFind::new(n);
    for i in 1..n {
        uf.union(i - 1, i);
    }
    let r = uf.find(n - 1);
    for i in 0..n {
        assert_eq!(uf.find(i), r);
    }
}

#[test]
fn representative_is_its_own_representative() {
    let mut uf = UnionFind::new(10);
    uf.union(3, 7);
    uf.union(7, 9);
    uf.union(2, 5);
    let r = uf.find(9);
    assert_eq!(uf.find(r), r);
    let s = uf.find(2);
    assert_eq!(uf.find(s), s);
    assert_ne!(r, s);
}

#[test]
fn empty_union_find() {
    let _uf = UnionFind::new(0);
}

#[test]
fn equal_ranks_keep_the_first_representative() {
    let mut u = UnionFind::new(4);
    u.union(0, 1);
    u.union(2, 3);
    assert_eq!(u.find(0), 0);
    assert_eq!(u.find(1), 0);
    assert_eq!(u.find(2), 2);
    assert_eq!(u.find(3), 2);
    assert_ne!(u.find(0), u.find(2));
}

#[test]
fn lower_rank_goes_under_higher_rank() {
    let mut u = UnionFind::new(3);
    u.union(1, 0);
    assert_eq!(u.find(0), 1);
    assert_eq!(u.find(1), 1);
    assert_eq!(u.find(2), 2);
    u.union(2, 0);
    assert_eq!(u.find(2), 1);
}

#[test]
fn find_of_a_representative_is_itself() {
    let mut u = UnionFind::new(6);
    u.union(4, 5);
    u.union(3, 4);
    let r = u.find(3);
    assert_eq!(u.find(r), r);
    assert_eq!(u.find(3), r);
}

#[test]
fn cloned_union_find_is_independent() {
    let mut u = UnionFind::new(3);
    u.union(0, 1);
    let mut v = u.clone();
    v.union(1, 2);
    assert_eq!(u.find(2), 2);
    assert_eq!(v.find(2), v.find(0));
}
