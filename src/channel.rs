use std::sync::mpsc::{Receiver, Sender};
use vstd::prelude::*;

verus! {

#[verifier::external_type_specification]
#[verifier::external_body]
#[verifier::reject_recursive_types(T)]
pub struct ExSender<T>(Sender<T>);

#[verifier::external_type_specification]
#[verifier::external_body]
#[verifier::reject_recursive_types(T)]
pub struct ExReceiver<T>(Receiver<T>);

/// Relies on std::sync::mpsc::channel: a fresh unbounded FIFO queue, as its
/// sending and its receiving end.
#[verifier::external_body]
fn open_queue<T>() -> (Sender<T>, Receiver<T>) {
    std::sync::mpsc::channel()
}

/// Relies on Sender::send: enqueues without blocking; `false` when the
/// receiving end is gone.
#[verifier::external_body]
fn enqueue<T>(s: &Sender<T>, v: T) -> (delivered: bool)
    opens_invariants none
    no_unwind
{
    s.send(v).is_ok()
}

/// Relies on Receiver::recv: blocks until a value arrives; `None` when the
/// sending end is gone and the queue is empty.
#[verifier::external_body]
fn dequeue<T>(r: &Receiver<T>) -> Option<T> {
    r.recv().ok()
}

/// Relies on Receiver::try_recv: the next value if one is queued, without
/// blocking.
#[verifier::external_body]
fn poll_one<T>(r: &Receiver<T>) -> Option<T> {
    r.try_recv().ok()
}

/// Relies on Receiver::try_iter: every value queued at the time of the call,
/// in FIFO order, without blocking.
#[verifier::external_body]
fn poll_all<T>(r: &Receiver<T>) -> Vec<T> {
    r.try_iter().collect()
}

/// One endpoint of a full-duplex pipe: it sends to its peer and receives from
/// it, over two one-way FIFO queues.
#[verifier::reject_recursive_types(T)]
pub struct Channel<T: Send> {
    pub sender: Sender<T>,
    pub receiver: Receiver<T>,
}

impl<T: Send> Channel<T> {
    /// Two endpoints wired to each other: what one sends, the other receives.
    pub fn new() -> (Self, Self) {
        let (s1, r1) = open_queue();
        let (s2, r2) = open_queue();
        (Channel { sender: s1, receiver: r2 }, Channel { sender: s2, receiver: r1 })
    }

    /// Enqueues `data` for the peer without blocking; `false` when the peer
    /// endpoint has been dropped.
    pub fn send(&self, data: T) -> (delivered: bool)
        opens_invariants none
        no_unwind
    {
        enqueue(&self.sender, data)
    }

    /// Blocks until the peer sends a value; `None` once the peer is gone and
    /// nothing is left to receive.
    pub fn recv(&self) -> Option<T> {
        dequeue(&self.receiver)
    }

    /// The next value from the peer, if one is already queued.
    pub fn try_recv(&self) -> Option<T> {
        poll_one(&self.receiver)
    }

    /// Every value from the peer that is already queued, oldest first.
    pub fn try_recv_all(&self) -> Vec<T> {
        poll_all(&self.receiver)
    }
}

} // verus!
