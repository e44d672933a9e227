use vstd::prelude::*;
use std::sync::mpsc::Receiver;
use crate::game::{HexBoard, HexMove};

pub mod click;
pub mod random;

verus! {

#[verifier::external_type_specification]
#[verifier::external_body]
#[verifier::reject_recursive_types(T)]
pub struct ExReceiver<T>(std::sync::mpsc::Receiver<T>);

/// A source of moves for one side.
pub trait Agent: Send {
    /// The move this agent makes on `board`.
    fn get_move(&mut self, board: &HexBoard) -> HexMove
        requires
            board.has_cells(),
    ;
}

/// The move given when no move can be had: it lies off every board, so playing it is refused.
pub open spec fn no_move() -> HexMove {
    HexMove { x: usize::MAX, y: usize::MAX }
}

/// The move received, or the off-board move when there is none.
pub fn move_or_none(received: Option<HexMove>) -> (m: HexMove)
    ensures
        m == (match received {
            Some(r) => r,
            None => no_move(),
        }),
{
    match received {
        Some(r) => r,
        None => HexMove { x: usize::MAX, y: usize::MAX },
    }
}

/// Waits for the next move on the channel (`Receiver::recv`): `None` once every sender is gone.
/// What arrives depends on the other end of the channel, so nothing is stated of it.
#[verifier::external_body]
pub(crate) fn receive_move(rx: &Receiver<HexMove>) -> Option<HexMove> {
    rx.recv().ok()
}

/// An agent that plays the moves sent to it over a channel, such as clicks on the board.
pub struct ClickAgent {
    move_receiver: Receiver<HexMove>,
}

impl ClickAgent {
    /// The channel this agent takes its moves from.
    pub closed spec fn receiver(&self) -> Receiver<HexMove> {
        self.move_receiver
    }

    /// An agent that plays the moves arriving on `move_receiver`.
    pub fn new(move_receiver: Receiver<HexMove>) -> (agent: Self)
        ensures
            agent.receiver() == move_receiver,
    {
        Self { move_receiver }
    }
}

impl Agent for ClickAgent {
    /// The next move received, or the off-board move once the channel is closed.
    fn get_move(&mut self, board: &HexBoard) -> HexMove {
        move_or_none(receive_move(&self.move_receiver))
    }
}

} // verus!
