//! The channel through which one participant is told of events.

use crate::message::Message;
use std::sync::mpsc::Sender;
use vstd::prelude::*;

verus! {

/// `std::sync::mpsc::Sender`, the sending half of a channel. Nothing is
/// claimed of what it holds.
#[verifier::external_type_specification]
#[verifier::external_body]
#[verifier::reject_recursive_types(T)]
pub struct ExSender<T>(Sender<T>);

/// Hands `message` to `sink` through `Sender::send`, which queues it without
/// waiting, and says whether the channel took it: it does not once the
/// receiving half is gone, and the message is then lost. Nothing is claimed
/// of the outcome.
#[verifier::external_body]
pub(crate) fn deliver(sink: &Sender<Message>, message: Message) -> (taken: bool) {
    sink.send(message).is_ok()
}

} // verus!
