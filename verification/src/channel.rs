//! The bounded channels (tokio) that carry events and bans between tasks.
use tokio::sync::mpsc::Sender;
use vstd::prelude::*;

verus! {

/// `tokio::sync::mpsc::Sender`, carried as an opaque value.
#[verifier::external_type_specification]
#[verifier::external_body]
#[verifier::reject_recursive_types(T)]
pub struct ExSender<T>(tokio::sync::mpsc::Sender<T>);

/// `tokio::sync::mpsc::Receiver`, carried as an opaque value.
#[verifier::external_type_specification]
#[verifier::external_body]
#[verifier::reject_recursive_types(T)]
pub struct ExReceiver<T>(tokio::sync::mpsc::Receiver<T>);

/// The record of one message offered on a channel: the message, the channel,
/// and whether the channel queued it. Only `try_send` makes one.
#[verifier::reject_recursive_types(T)]
pub struct Offer<T> {
    message: Ghost<T>,
    channel: Ghost<Sender<T>>,
    /// The channel queued the message (it was neither full nor closed).
    pub queued: bool,
}

impl<T> Offer<T> {
    /// The message that was offered.
    pub closed spec fn message(&self) -> T {
        self.message@
    }

    /// The channel it was offered on.
    pub closed spec fn channel(&self) -> Sender<T> {
        self.channel@
    }
}

/// `Sender::try_send` (tokio): offers `message` on `tx` without waiting, and
/// records the offer. `queued` is true when the channel took the message,
/// false when it was full or closed; which of the two happens depends on the
/// channel's state, so nothing is stated of it.
#[verifier::external_body]
pub(crate) fn try_send<T>(tx: &Sender<T>, message: T) -> (r: Offer<T>)
    ensures
        r.message() == message,
        r.channel() == *tx,
{
    let message_record = Ghost(message);
    let channel_record = Ghost(*tx);
    let queued = tx.try_send(message).is_ok();
    Offer { message: message_record, channel: channel_record, queued }
}

} // verus!
