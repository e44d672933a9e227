use vstd::prelude::*;
use rand::prelude::IndexedRandom;
use rand::rngs::ThreadRng;
use crate::agents::{move_or_none, no_move, Agent};
use crate::game::{HexBoard, HexMove};

verus! {

#[verifier::external_type_specification]
#[verifier::external_body]
pub struct ExThreadRng(rand::rngs::ThreadRng);

/// The generator of this thread (`rand::rng`), seeded by the system; `rand` panics when the
/// system offers no randomness to seed it, which no precondition can rule out.
#[verifier::external_body]
fn thread_rng() -> ThreadRng {
    rand::rng()
}

/// One of `moves` picked at random (`IndexedRandom::choose`): `None` exactly when `moves` is
/// empty. Which one comes back depends on the generator, so no more is stated of it.
#[verifier::external_body]
fn choose_move(moves: &Vec<HexMove>, rng: &mut ThreadRng) -> (picked: Option<HexMove>)
    ensures
        picked is None <==> moves@.len() == 0,
        picked matches Some(m) ==> moves@.contains(m),
{
    moves.as_slice().choose(rng).copied()
}

/// `a` comes before `b` when the board is read row by row.
pub open spec fn reading_order(a: HexMove, b: HexMove) -> bool {
    a.y < b.y || (a.y == b.y && a.x < b.x)
}

/// Every move allowed on `board`, in reading order.
pub fn valid_moves(board: &HexBoard) -> (moves: Vec<HexMove>)
    requires
        board.has_cells(),
    ensures
        forall|i: int| 0 <= i < moves@.len() ==> #[trigger] board.move_allowed(moves@[i]),
        forall|m: HexMove| board.move_allowed(m) ==> #[trigger] moves@.contains(m),
        forall|i: int, j: int|
            0 <= i < j < moves@.len() ==> reading_order(#[trigger] moves@[i], #[trigger] moves@[j]),
{
    let mut moves: Vec<HexMove> = Vec::new();
    let mut y: usize = 0;
    while y < board.height
        invariant
            board.has_cells(),
            y <= board.height,
            forall|i: int| 0 <= i < moves@.len() ==> #[trigger] board.move_allowed(moves@[i]),
            forall|i: int| 0 <= i < moves@.len() ==> (#[trigger] moves@[i]).y < y,
            forall|m: HexMove| board.move_allowed(m) && m.y < y ==> #[trigger] moves@.contains(m),
            forall|i: int, j: int|
                0 <= i < j < moves@.len() ==> reading_order(#[trigger] moves@[i], #[trigger] moves@[j]),
        decreases board.height - y,
    {
        let mut x: usize = 0;
        while x < board.width
            invariant
                board.has_cells(),
                y < board.height,
                x <= board.width,
                forall|i: int| 0 <= i < moves@.len() ==> #[trigger] board.move_allowed(moves@[i]),
                forall|i: int|
                    0 <= i < moves@.len() ==> (#[trigger] moves@[i]).y < y || (moves@[i].y == y
                        && moves@[i].x < x),
                forall|m: HexMove|
                    board.move_allowed(m) && (m.y < y || (m.y == y && m.x < x)) ==> #[trigger] moves@.contains(m),
                forall|i: int, j: int|
                    0 <= i < j < moves@.len() ==> reading_order(#[trigger] moves@[i], #[trigger] moves@[j]),
            decreases board.width - x,
        {
            let m = HexMove { x, y };
            let ghost before = moves@;
            if board.is_valid_move(&m) {
                moves.push(m);
                proof {
                    assert forall|k: HexMove|
                        board.move_allowed(k) && (k.y < y || (k.y == y && k.x < x + 1)) implies #[trigger] moves@.contains(k) by {
                        if k.y == y && k.x == x {
                            assert(moves@[moves@.len() - 1] == k);
                        } else {
                            assert(before.contains(k));
                            let i = choose|i: int| 0 <= i < before.len() && before[i] == k;
                            assert(moves@[i] == k);
                        }
                    }
                }
            }
            x = x + 1;
        }
        y = y + 1;
    }
    moves
}

/// An agent that plays a move chosen at random among the moves allowed.
pub struct RandomAgent;

impl RandomAgent {
    /// A new random agent.
    pub fn new() -> (agent: Self)
        ensures
            agent == RandomAgent,
    {
        RandomAgent
    }
}

impl Default for RandomAgent {
    /// A new random agent.
    fn default() -> (agent: Self)
        ensures
            agent == RandomAgent,
    {
        RandomAgent
    }
}

impl Agent for RandomAgent {
    /// A move allowed on `board`, or the off-board move when none is.
    fn get_move(&mut self, board: &HexBoard) -> (m: HexMove)
        ensures
            (exists|k: HexMove| board.move_allowed(k)) ==> board.move_allowed(m),
            !(exists|k: HexMove| board.move_allowed(k)) ==> m == no_move(),
    {
        let moves = valid_moves(board);
        let mut rng = thread_rng();
        let picked = choose_move(&moves, &mut rng);
        proof {
            if exists|k: HexMove| board.move_allowed(k) {
                let k = choose|k: HexMove| board.move_allowed(k);
                assert(moves@.contains(k));
            }
            if let Some(p) = picked {
                let i = choose|i: int| 0 <= i < moves@.len() && moves@[i] == p;
                assert(board.move_allowed(moves@[i]));
            }
        }
        move_or_none(picked)
    }
}

} // verus!
