use vstd::prelude::*;
use crossbeam_channel::Receiver;
use crossbeam_channel::Sender;
use crossbeam_channel::TryRecvError;

verus! {

/// What a single non-blocking probe of the result channel yielded.
pub enum Probe<T> {
    /// A message was waiting and has been taken out.
    Message(T),
    /// The channel held no message at the instant of the probe.
    Empty,
    /// Every sender is gone and the channel is drained: the worker side has
    /// torn down.
    Disconnected,
}

#[verifier::external_type_specification]
#[verifier::external_body]
#[verifier::reject_recursive_types(T)]
pub struct ExSender<T>(Sender<T>);

#[verifier::external_type_specification]
#[verifier::external_body]
#[verifier::reject_recursive_types(T)]
pub struct ExReceiver<T>(Receiver<T>);

/// Relies on crossbeam_channel::unbounded: a connected multi-producer,
/// single-consumer pair whose sends never block.  What the channel holds at
/// any instant depends on the threads sending into it, so nothing is stated
/// of the pair.
#[verifier::external_body]
pub(crate) fn channel<T>() -> (Sender<T>, Receiver<T>) {
    crossbeam_channel::unbounded()
}

/// Relies on crossbeam_channel::Sender::clone: another handle sending into
/// the same channel.
#[verifier::external_body]
pub(crate) fn clone_sender<T>(tx: &Sender<T>) -> Sender<T> {
    tx.clone()
}

/// Relies on crossbeam_channel::Sender::send: on an unbounded channel the
/// call never blocks; it delivers `msg` unless every receiver is gone, in
/// which case the message is dropped.
#[verifier::external_body]
pub(crate) fn send<T>(tx: &Sender<T>, msg: T) {
    let _ = tx.send(msg);
}

/// Relies on crossbeam_channel::Receiver::try_recv: a single non-blocking
/// probe that reports a waiting message, emptiness, or disconnection of all
/// senders.  Which of the three comes back depends on the sending threads,
/// so nothing is stated of the result.
#[verifier::external_body]
pub(crate) fn try_recv<T>(rx: &Receiver<T>) -> Probe<T> {
    match rx.try_recv() {
        Ok(m) => Probe::Message(m),
        Err(TryRecvError::Empty) => Probe::Empty,
        Err(TryRecvError::Disconnected) => Probe::Disconnected,
    }
}

} // verus!
