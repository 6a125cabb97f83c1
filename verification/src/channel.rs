//! The channels between the control thread and the workers, and the host's
//! processor count: the calls whose outcome the library takes on trust.

use vstd::prelude::*;

verus! {

/// The sending half of a `std::sync::mpsc` channel; opaque to the verifier.
#[verifier::external_type_specification]
#[verifier::external_body]
#[verifier::reject_recursive_types(T)]
pub struct ExSender<T>(std::sync::mpsc::Sender<T>);

/// The receiving half of a `std::sync::mpsc` channel; opaque to the verifier.
#[verifier::external_type_specification]
#[verifier::external_body]
#[verifier::reject_recursive_types(T)]
pub struct ExReceiver<T>(std::sync::mpsc::Receiver<T>);

/// What a receive that does not wait found on a channel.
#[derive(Debug, PartialEq, Eq)]
pub enum Polled<T> {
    /// A message was waiting.
    Ready(T),
    /// Nothing is waiting right now; a sender is still connected.
    Empty,
    /// Nothing is waiting and every sender is gone.
    Disconnected,
}

/// Calls `std::sync::mpsc::channel`, which makes a new channel without a
/// bound on the messages it holds. Nothing is claimed about the two halves.
#[verifier::external_body]
pub(crate) fn open_channel<T>() -> (ends: (std::sync::mpsc::Sender<T>, std::sync::mpsc::Receiver<T>)) {
    std::sync::mpsc::channel()
}

/// Calls `Sender::send`, which never blocks. The answer is `true` when the
/// message was queued and `false` when the receiver is gone; which of the two
/// happens is not claimed.
#[verifier::external_body]
pub(crate) fn send_message<T>(sender: &std::sync::mpsc::Sender<T>, message: T) -> (sent: bool) {
    sender.send(message).is_ok()
}

/// Calls `Receiver::recv`, which waits until a message is there or every
/// sender is gone. The answer is `None` when the channel is empty and every
/// sender is gone; nothing is claimed about the message.
#[verifier::external_body]
pub(crate) fn recv_message<T>(receiver: &std::sync::mpsc::Receiver<T>) -> (message: Option<T>) {
    receiver.recv().ok()
}

/// Calls `Receiver::try_recv`, which does not wait. Nothing is claimed about
/// which of the three answers comes back, nor about the message.
#[verifier::external_body]
pub(crate) fn try_recv_message<T>(receiver: &std::sync::mpsc::Receiver<T>) -> (polled: Polled<T>) {
    match receiver.try_recv() {
        Ok(message) => Polled::Ready(message),
        Err(std::sync::mpsc::TryRecvError::Empty) => Polled::Empty,
        Err(std::sync::mpsc::TryRecvError::Disconnected) => Polled::Disconnected,
    }
}

/// Calls `num_cpus::get`, the number of logical processors that the host
/// offers to this process. Its documentation promises a count of at least 1,
/// which is all that is claimed here.
#[verifier::external_body]
pub(crate) fn logical_cpus() -> (count: usize)
    ensures
        count >= 1,
{
    num_cpus::get()
}

} // verus!
