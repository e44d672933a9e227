use vstd::prelude::*;
use std::sync::mpsc::Receiver;
use std::sync::{Arc, Mutex, MutexGuard};
use crate::agents::{move_or_none, receive_move, Agent};
use crate::game::{HexBoard, HexMove};

verus! {

#[verifier::external_type_specification]
#[verifier::external_body]
#[verifier::reject_recursive_types(T)]
pub struct ExMutex<T: ?Sized>(std::sync::Mutex<T>);

#[verifier::external_type_specification]
#[verifier::external_body]
#[verifier::reject_recursive_types(T)]
pub struct ExMutexGuard<'a, T: ?Sized + 'a>(std::sync::MutexGuard<'a, T>);

/// Waits for the lock on the shared receiver (`Mutex::lock`): `None` when another holder of the
/// lock panicked while holding it. That depends on other threads, so nothing is stated of it.
#[verifier::external_body]
fn lock_receiver(shared: &Mutex<Receiver<HexMove>>) -> Option<MutexGuard<'_, Receiver<HexMove>>> {
    shared.lock().ok()
}

/// The receiver that a lock guards (`Deref::deref` of `MutexGuard`); nothing is stated of it.
#[verifier::external_body]
fn locked_receiver<'a>(guard: &'a MutexGuard<'_, Receiver<HexMove>>) -> &'a Receiver<HexMove> {
    &**guard
}

/// An agent that plays the moves sent over a channel shared with other agents.
pub struct ClickAgent {
    move_receiver: Arc<Mutex<Receiver<HexMove>>>,
}

impl ClickAgent {
    /// The shared channel this agent takes its moves from.
    pub closed spec fn receiver(&self) -> Arc<Mutex<Receiver<HexMove>>> {
        self.move_receiver
    }

    /// An agent that plays the moves arriving on the shared `move_receiver`.
    pub fn new(move_receiver: Arc<Mutex<Receiver<HexMove>>>) -> (agent: Self)
        ensures
            agent.receiver() == move_receiver,
    {
        Self { move_receiver }
    }
}

impl Agent for ClickAgent {
    /// The next move received, or the off-board move once the channel is closed or its lock poisoned.
    fn get_move(&mut self, board: &HexBoard) -> HexMove {
        let received = match lock_receiver(&*self.move_receiver) {
            Some(guard) => receive_move(locked_receiver(&guard)),
            None => None,
        };
        move_or_none(received)
    }
}

} // verus!
