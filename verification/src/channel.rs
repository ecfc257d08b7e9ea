//! The channel behind an output queue.
//!
//! A channel is known by a number, which its sending half, its receiving half, its
//! slots and its record have in common.

use vstd::prelude::*;

use tokio::sync::mpsc;

use crate::control::{ControlMessage, ControlModel};

verus! {

/// The sending half of a channel of the tokio crate.
#[verifier::external_type_specification]
#[verifier::external_body]
#[verifier::reject_recursive_types(T)]
pub struct ExSender<T>(tokio::sync::mpsc::Sender<T>);

/// The receiving half of a channel of the tokio crate.
#[verifier::external_type_specification]
#[verifier::external_body]
#[verifier::reject_recursive_types(T)]
pub struct ExReceiver<T>(tokio::sync::mpsc::Receiver<T>);

/// A reserved slot in a channel of the tokio crate.
#[verifier::external_type_specification]
#[verifier::external_body]
#[verifier::reject_recursive_types(T)]
pub struct ExPermit<'a, T>(tokio::sync::mpsc::Permit<'a, T>);

/// How many messages a channel was made for.
pub uninterp spec fn channel_limit(sender: mpsc::Sender<ControlMessage>) -> nat;

/// The channel that a sending half feeds.
pub uninterp spec fn fed_channel(sender: mpsc::Sender<ControlMessage>) -> int;

/// The channel that a receiving half drains.
pub uninterp spec fn drained_channel(receiver: mpsc::Receiver<ControlMessage>) -> int;

/// The channel in which a slot is reserved.
pub uninterp spec fn permit_channel(permit: mpsc::Permit<'_, ControlMessage>) -> int;

/// Why a slot could not be had.
#[derive(Debug, Clone, Copy, PartialEq, Eq, Structural)]
pub enum Unavailable {
    Full,
    Closed,
}

/// The messages that were handed to one channel, in order. It is made with the
/// channel, and only a call that hands a message to that channel makes it longer.
pub struct Sent {
    channel: Ghost<int>,
    log: Ghost<Seq<ControlModel>>,
}

impl View for Sent {
    type V = Seq<ControlModel>;

    closed spec fn view(&self) -> Seq<ControlModel> {
        self.log@
    }
}

impl Sent {
    /// The channel that the messages were handed to.
    pub closed spec fn channel(&self) -> int {
        self.channel@
    }
}

/// Calls `channel` of tokio: what is sent into the first half comes out of the
/// second, and nothing was sent yet. The channel holds as many messages as asked
/// for; how many it may hold at most is tokio's own limit.
#[verifier::external_body]
pub(crate) fn make_channel(capacity: usize) -> (made: (
    mpsc::Sender<ControlMessage>,
    mpsc::Receiver<ControlMessage>,
    Sent,
))
    requires
        0 < capacity <= usize::MAX / 8,
    ensures
        channel_limit(made.0) == capacity,
        fed_channel(made.0) == drained_channel(made.1),
        made.2.channel() == fed_channel(made.0),
        made.2@ == Seq::<ControlModel>::empty(),
{
    let (sender, receiver) = mpsc::channel(capacity);
    (sender, receiver, Sent { channel: Ghost(0), log: Ghost(Seq::empty()) })
}

/// Calls `max_capacity` of tokio's sender: what the channel was made for.
#[verifier::external_body]
pub(crate) fn max_capacity(sender: &mpsc::Sender<ControlMessage>) -> (capacity: usize)
    ensures
        capacity == channel_limit(*sender),
{
    sender.max_capacity()
}

/// Calls `capacity` of tokio's sender: the slots that are free at this moment,
/// which the receiver and other senders change at any time.
#[verifier::external_body]
pub(crate) fn free_capacity(sender: &mpsc::Sender<ControlMessage>) -> (capacity: usize)
    ensures
        capacity <= channel_limit(*sender),
{
    sender.capacity()
}

/// Calls `try_reserve` of tokio's sender: a slot in the sender's own channel, or
/// none. Whether there is one depends on the receiver.
#[verifier::external_body]
pub(crate) fn reserve<'a>(sender: &'a mpsc::Sender<ControlMessage>) -> (slot: Result<
    mpsc::Permit<'a, ControlMessage>,
    Unavailable,
>)
    ensures
        slot matches Ok(permit) ==> permit_channel(permit) == fed_channel(*sender),
{
    match sender.try_reserve() {
        Ok(permit) => Ok(permit),
        Err(mpsc::error::TrySendError::Full(())) => Err(Unavailable::Full),
        Err(mpsc::error::TrySendError::Closed(())) => Err(Unavailable::Closed),
    }
}

/// Calls `send` of tokio's permit, which fills the reserved slot: the message is
/// the next one of the slot's channel, whose record this has to be.
#[verifier::external_body]
pub(crate) fn fill<'a>(
    permit: mpsc::Permit<'a, ControlMessage>,
    message: ControlMessage,
    sent: &mut Sent,
)
    requires
        permit_channel(permit) == old(sent).channel(),
    ensures
        final(sent)@ == old(sent)@.push(message@),
        final(sent).channel() == old(sent).channel(),
{
    permit.send(message);
}

/// Calls `try_send` of tokio's sender: the message is the next one of the sender's
/// channel, whose record this has to be, or it is not sent at all. Whether there is
/// room depends on the receiver.
#[verifier::external_body]
pub(crate) fn offer(
    sender: &mpsc::Sender<ControlMessage>,
    message: ControlMessage,
    sent: &mut Sent,
) -> (result: Result<(), Unavailable>)
    requires
        fed_channel(*sender) == old(sent).channel(),
    ensures
        final(sent)@ == if result is Ok {
            old(sent)@.push(message@)
        } else {
            old(sent)@
        },
        final(sent).channel() == old(sent).channel(),
{
    match sender.try_send(message) {
        Ok(()) => Ok(()),
        Err(mpsc::error::TrySendError::Full(_)) => Err(Unavailable::Full),
        Err(mpsc::error::TrySendError::Closed(_)) => Err(Unavailable::Closed),
    }
}

} // verus!
