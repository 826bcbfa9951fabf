use vstd::prelude::*;

use crossbeam_channel::{Receiver, Sender};

verus! {

// The interthread chunk queues are crossbeam channels. A channel endpoint
// carries shared, concurrently changing state, so nothing is stated here
// about a channel's contents: every contract in this crate accounts for
// chunks with its own ghost state, and holds for whatever these calls
// return or accept.

#[verifier::external_type_specification]
#[verifier::external_body]
#[verifier::reject_recursive_types(T)]
pub struct ExSender<T>(Sender<T>);

#[verifier::external_type_specification]
#[verifier::external_body]
#[verifier::reject_recursive_types(T)]
pub struct ExReceiver<T>(Receiver<T>);

/// Relies on crossbeam_channel::bounded: a queue that holds at most `cap`
/// messages; senders block while it is full.
#[verifier::external_body]
pub(crate) fn new_bounded<T>(cap: usize) -> (Sender<T>, Receiver<T>) {
    crossbeam_channel::bounded(cap)
}

/// Relies on crossbeam_channel::unbounded: a queue without a bound.
#[verifier::external_body]
pub(crate) fn new_unbounded<T>() -> (Sender<T>, Receiver<T>) {
    crossbeam_channel::unbounded()
}

/// Relies on crossbeam_channel::Sender::send: blocks until the message is
/// in the queue, and fails only when every receiver is gone; the message
/// comes back inside the error and is dropped here.
#[verifier::external_body]
pub(crate) fn send_msg<T>(tx: &Sender<T>, msg: T) -> (r: Result<(), ()>) {
    match tx.send(msg) {
        Ok(()) => Ok(()),
        Err(_) => Err(()),
    }
}

/// Relies on crossbeam_channel::Receiver::recv: blocks until a message
/// arrives, and fails only when the queue is empty and every sender gone.
#[verifier::external_body]
pub(crate) fn recv_msg<T>(rx: &Receiver<T>) -> (r: Result<T, ()>) {
    match rx.recv() {
        Ok(v) => Ok(v),
        Err(_) => Err(()),
    }
}

/// Relies on crossbeam_channel::Receiver::try_recv: a message if one is
/// ready, and nothing when the queue is momentarily empty or closed.
#[verifier::external_body]
pub(crate) fn try_recv_msg<T>(rx: &Receiver<T>) -> (r: Option<T>) {
    match rx.try_recv() {
        Ok(v) => Some(v),
        Err(_) => None,
    }
}

/// Relies on crossbeam_channel::Sender::len: how many messages sit in the
/// queue at the moment of the call.
#[verifier::external_body]
pub(crate) fn sender_queue_len<T>(tx: &Sender<T>) -> (n: usize) {
    tx.len()
}

/// Relies on crossbeam_channel::Receiver::len: how many messages sit in
/// the queue at the moment of the call.
#[verifier::external_body]
pub(crate) fn receiver_queue_len<T>(rx: &Receiver<T>) -> (n: usize) {
    rx.len()
}

/// Relies on crossbeam_channel::Receiver::clone: another receiving handle
/// on the same queue.
#[verifier::external_body]
pub(crate) fn clone_receiver<T>(rx: &Receiver<T>) -> (r: Receiver<T>) {
    rx.clone()
}

} // verus!
