//! One connection's bounded output queue.
//!
//! What is accepted into the queue is committed: the stream underneath delivers
//! in order or not at all. A transition is therefore admitted as a whole: every
//! slot is reserved before anything is written. Admission never blocks.

use vstd::prelude::*;

use tokio::sync::mpsc;

use crate::channel::{
    channel_limit, drained_channel, fed_channel, fill, free_capacity, make_channel, max_capacity,
    offer, permit_channel, reserve, Sent, Unavailable,
};
use crate::control::{ControlMessage, ControlModel};
use crate::text::{decimal, decimal_text, join_text, views};

verus! {

/// How many messages one connection's queue holds.
pub const CAPACITY: usize = 1024;

/// The depth past which tunnelled voice is refused. Voice is bounded in latency:
/// a packet that has to wait behind this many messages is worth nothing.
pub const MAX_DEPTH_FOR_VOICE: usize = 64;

/// What became of a tunnelled voice packet.
#[derive(Debug, Clone, Copy, PartialEq, Eq, Structural)]
pub enum VoiceAdmission {
    Accepted,
    /// The queue was too deep for the packet to still be worth hearing, or the
    /// writer is gone.
    Dropped,
}

/// Why a transition could not be admitted. Nothing of it was queued.
#[derive(Debug, Clone, Copy, PartialEq, Eq, Structural)]
pub enum Refused {
    /// Not enough free slots right now. Ordinary backpressure.
    Congested { needed: usize, free: usize },
    /// Larger than the queue can ever hold.
    TooLarge { needed: usize, capacity: usize },
    /// The connection's writer has ended.
    Closed,
}

impl Refused {
    pub open spec fn text(self) -> Seq<char> {
        match self {
            Refused::Congested { needed, free } => "output queue has "@ + decimal(free as nat)
                + " free slots, "@ + decimal(needed as nat) + " were needed"@,
            Refused::TooLarge { needed, capacity } => "transition of "@ + decimal(needed as nat)
                + " messages exceeds the queue capacity of "@ + decimal(capacity as nat),
            Refused::Closed => "the connection's writer has ended"@,
        }
    }

    /// The refusal in words.
    pub fn message(&self) -> (message: String)
        ensures
            message@ == self.text(),
    {
        proof {
            reveal_strlit("");
        }
        let message = match self {
            Refused::Congested { needed, free } => {
                let free = decimal_text(*free as u64);
                let needed = decimal_text(*needed as u64);
                let start = join_text("output queue has ", free.as_str(), " free slots, ");
                join_text(start.as_str(), needed.as_str(), " were needed")
            },
            Refused::TooLarge { needed, capacity } => {
                let needed = decimal_text(*needed as u64);
                let capacity = decimal_text(*capacity as u64);
                let start = join_text(
                    "transition of ",
                    needed.as_str(),
                    " messages exceeds the queue capacity of ",
                );
                join_text(start.as_str(), capacity.as_str(), "")
            },
            Refused::Closed => "the connection's writer has ended".to_owned(),
        };
        assert(message@ =~= self.text());
        message
    }
}

/// What a reservation of several slots came to.
#[derive(Debug, Clone, Copy, PartialEq, Eq, Structural)]
pub enum Reservation {
    /// All slots are there.
    Complete,
    /// The queue was full after `taken` slots.
    Full { taken: usize },
    /// The writer has ended.
    Closed,
}

/// What a transition of `needed` messages is answered, and whether the
/// connection has to be closed.
pub open spec fn admitted(needed: usize, capacity: nat, reservation: Reservation) -> (
    Result<(), Refused>,
    bool,
) {
    if needed == 0 {
        (Ok(()), false)
    } else if needed > capacity {
        (Err(Refused::TooLarge { needed, capacity: capacity as usize }), true)
    } else {
        match reservation {
            Reservation::Complete => (Ok(()), false),
            Reservation::Full { taken } => (
                Err(Refused::Congested { needed, free: taken }),
                false,
            ),
            Reservation::Closed => (Err(Refused::Closed), true),
        }
    }
}

/// What a transition is answered, given what its reservation came to.
pub fn admission(needed: usize, capacity: usize, reservation: Reservation) -> (answer: (
    Result<(), Refused>,
    bool,
))
    ensures
        answer == admitted(needed, capacity as nat, reservation),
{
    if needed == 0 {
        return (Ok(()), false);
    }
    if needed > capacity {
        return (Err(Refused::TooLarge { needed, capacity }), true);
    }
    match reservation {
        Reservation::Complete => (Ok(()), false),
        Reservation::Full { taken } => (Err(Refused::Congested { needed, free: taken }), false),
        Reservation::Closed => (Err(Refused::Closed), true),
    }
}

/// What becomes of a voice packet, and whether the connection has to be closed.
pub open spec fn voice_admitted(depth: nat, offered: Result<(), Unavailable>) -> (
    VoiceAdmission,
    bool,
) {
    if depth >= MAX_DEPTH_FOR_VOICE {
        (VoiceAdmission::Dropped, false)
    } else {
        match offered {
            Ok(_) => (VoiceAdmission::Accepted, false),
            Err(Unavailable::Full) => (VoiceAdmission::Dropped, false),
            Err(Unavailable::Closed) => (VoiceAdmission::Dropped, true),
        }
    }
}

/// What becomes of a voice packet, given what its offer came to.
pub fn voice_admission(depth: usize, offered: Result<(), Unavailable>) -> (answer: (
    VoiceAdmission,
    bool,
))
    ensures
        answer == voice_admitted(depth as nat, offered),
{
    if depth >= MAX_DEPTH_FOR_VOICE {
        return (VoiceAdmission::Dropped, false);
    }
    match offered {
        Ok(_) => (VoiceAdmission::Accepted, false),
        Err(Unavailable::Full) => (VoiceAdmission::Dropped, false),
        Err(Unavailable::Closed) => (VoiceAdmission::Dropped, true),
    }
}

/// How many messages a queue holds in which `free` slots are free.
pub open spec fn in_queue(capacity: nat, free: nat) -> nat {
    if free <= capacity {
        (capacity - free) as nat
    } else {
        0
    }
}

/// How many messages a queue holds, given how many of its slots are free.
pub fn queued(capacity: usize, free: usize) -> (depth: usize)
    ensures
        depth == in_queue(capacity as nat, free as nat),
{
    capacity.saturating_sub(free)
}

/// Reserves a slot for each message, and fills all of them once all are there.
fn send_reserved(
    sender: &mpsc::Sender<ControlMessage>,
    messages: Vec<ControlMessage>,
    sent: &mut Sent,
) -> (reservation: Reservation)
    requires
        fed_channel(*sender) == old(sent).channel(),
    ensures
        final(sent).channel() == old(sent).channel(),
        reservation matches Reservation::Full { taken } ==> taken < messages@.len(),
        final(sent)@ == if reservation is Complete {
            old(sent)@ + views(messages@)
        } else {
            old(sent)@
        },
{
    let ghost all = views(messages@);
    let ghost before = sent@;
    let needed: usize = messages.len();
    let mut permits: Vec<mpsc::Permit<'_, ControlMessage>> = Vec::new();
    let mut i: usize = 0;
    while i < needed
        invariant
            needed == messages@.len(),
            i <= needed,
            permits@.len() == i,
            forall|k: int|
                0 <= k < i ==> permit_channel(#[trigger] permits@[k]) == fed_channel(*sender),
            sent@ == before,
            sent.channel() == fed_channel(*sender),
        decreases needed - i,
    {
        match reserve(sender) {
            Ok(permit) => {
                permits.push(permit);
            },
            Err(Unavailable::Full) => {
                return Reservation::Full { taken: i };
            },
            Err(Unavailable::Closed) => {
                return Reservation::Closed;
            },
        }
        i = i + 1;
    }
    let mut waiting = messages;
    assert(before + all =~= sent@ + views(waiting@));
    while waiting.len() > 0
        invariant
            permits@.len() == waiting@.len(),
            forall|k: int|
                0 <= k < permits@.len() ==> permit_channel(#[trigger] permits@[k])
                    == sent.channel(),
            sent.channel() == fed_channel(*sender),
            before + all == sent@ + views(waiting@),
        decreases waiting@.len(),
    {
        let ghost was = waiting@;
        let ghost gone = sent@;
        let message = waiting.remove(0);
        let permit = permits.remove(0);
        fill(permit, message, sent);
        proof {
            assert(gone + views(was) =~= sent@ + views(waiting@));
        }
    }
    assert(sent@ + views(waiting@) =~= sent@);
    Reservation::Complete
}

/// The sending half of one connection's output queue.
pub struct OutboundQueue {
    sender: mpsc::Sender<ControlMessage>,
    must_close: bool,
    sent: Sent,
}

impl OutboundQueue {
    /// The record is that of the queue's own channel.
    pub closed spec fn wf(&self) -> bool {
        self.sent.channel() == fed_channel(self.sender)
    }

    /// The channel that the messages go into.
    pub closed spec fn channel(&self) -> int {
        fed_channel(self.sender)
    }

    /// How many messages the queue holds.
    pub closed spec fn limit(&self) -> nat {
        channel_limit(self.sender)
    }

    /// Whether the connection has to end.
    pub closed spec fn closing(&self) -> bool {
        self.must_close
    }

    /// The messages that were queued so far, in order.
    pub closed spec fn sent(&self) -> Seq<ControlModel> {
        self.sent@
    }

    /// A queue, and the receiving half for the connection's writer.
    pub fn new() -> (made: (OutboundQueue, mpsc::Receiver<ControlMessage>))
        ensures
            made.0.wf(),
            made.0.channel() == drained_channel(made.1),
            made.0.limit() == CAPACITY,
            !made.0.closing(),
            made.0.sent() == Seq::<ControlModel>::empty(),
    {
        Self::with_capacity(CAPACITY)
    }

    /// A queue of a given depth; at least one.
    pub fn with_capacity(capacity: usize) -> (made: (
        OutboundQueue,
        mpsc::Receiver<ControlMessage>,
    ))
        requires
            capacity <= usize::MAX / 8,
        ensures
            made.0.wf(),
            made.0.channel() == drained_channel(made.1),
            made.0.limit() == if capacity == 0 {
                1
            } else {
                capacity as nat
            },
            !made.0.closing(),
            made.0.sent() == Seq::<ControlModel>::empty(),
    {
        let capacity: usize = if capacity == 0 {
            1
        } else {
            capacity
        };
        let (sender, receiver, sent) = make_channel(capacity);
        (OutboundQueue { sender, must_close: false, sent }, receiver)
    }

    /// Admits a whole transition, all of it or none of it. Every slot is reserved
    /// before anything is sent; a reservation that is not filled is given back.
    pub fn try_send_all(&mut self, messages: Vec<ControlMessage>) -> (result: Result<(), Refused>)
        requires
            old(self).wf(),
        ensures
            final(self).wf(),
            final(self).channel() == old(self).channel(),
            final(self).limit() == old(self).limit(),
            final(self).sent() == if result is Ok {
                old(self).sent() + views(messages@)
            } else {
                old(self).sent()
            },
            exists|reservation: Reservation|
                {
                    let answer = #[trigger] admitted(
                        messages@.len() as usize,
                        old(self).limit(),
                        reservation,
                    );
                    &&& result == answer.0
                    &&& final(self).closing() == (old(self).closing() || answer.1)
                    &&& reservation matches Reservation::Full { taken } ==> taken
                        < messages@.len()
                },
    {
        let needed: usize = messages.len();
        let ghost count = messages@.len();
        let capacity: usize = max_capacity(&self.sender);
        let mut reservation = Reservation::Complete;
        if needed <= capacity {
            reservation = send_reserved(&self.sender, messages, &mut self.sent);
        }
        proof {
            if count == 0 {
                assert(old(self).sent() + views(messages@) =~= old(self).sent());
            }
        }
        let (result, fatal) = admission(needed, capacity, reservation);
        assert(admitted(count as usize, old(self).limit(), reservation) == (result, fatal));
        if fatal {
            self.must_close = true;
        }
        result
    }

    /// Offers one tunnelled voice packet, which is dropped where the queue is too
    /// deep for it to arrive in time.
    pub fn push_voice(&mut self, message: ControlMessage) -> (admission: VoiceAdmission)
        requires
            old(self).wf(),
        ensures
            final(self).wf(),
            final(self).channel() == old(self).channel(),
            final(self).limit() == old(self).limit(),
            final(self).sent() == if admission == VoiceAdmission::Accepted {
                old(self).sent().push(message@)
            } else {
                old(self).sent()
            },
            exists|free: usize, offered: Result<(), Unavailable>|
                {
                    let answer = #[trigger] voice_admitted(
                        in_queue(old(self).limit(), free as nat),
                        offered,
                    );
                    &&& free <= old(self).limit()
                    &&& admission == answer.0
                    &&& final(self).closing() == (old(self).closing() || answer.1)
                },
    {
        let depth: usize = self.depth();
        let ghost free = choose|free: usize|
            free <= self.limit() && depth == #[trigger] in_queue(self.limit(), free as nat);
        let mut offered: Result<(), Unavailable> = Err(Unavailable::Full);
        if depth < MAX_DEPTH_FOR_VOICE {
            offered = offer(&self.sender, message, &mut self.sent);
        }
        let (admission, fatal) = voice_admission(depth, offered);
        assert(voice_admitted(in_queue(old(self).limit(), free as nat), offered) == (
            admission,
            fatal,
        ));
        if fatal {
            self.must_close = true;
        }
        admission
    }

    /// Whether the owner has to end this connection.
    pub fn must_close(&self) -> (closing: bool)
        ensures
            closing == self.closing(),
    {
        self.must_close
    }

    /// Marks this connection for its end.
    pub fn mark_fatal(&mut self)
        ensures
            final(self).closing(),
            final(self).wf() == old(self).wf(),
            final(self).channel() == old(self).channel(),
            final(self).limit() == old(self).limit(),
            final(self).sent() == old(self).sent(),
    {
        self.must_close = true;
    }

    /// The messages that are queued at this moment: the slots that are not free.
    pub fn depth(&self) -> (depth: usize)
        ensures
            depth <= self.limit(),
            exists|free: usize|
                free <= self.limit() && depth == #[trigger] in_queue(self.limit(), free as nat),
    {
        let capacity: usize = max_capacity(&self.sender);
        let free: usize = free_capacity(&self.sender);
        let depth: usize = queued(capacity, free);
        assert(depth == in_queue(self.limit(), free as nat));
        depth
    }
}

/// Backpressure is no reason to end a connection; what can never fit, and a
/// writer that is gone, are.
pub proof fn only_hopeless_transitions_end_a_connection(
    needed: usize,
    capacity: nat,
    reservation: Reservation,
)
    requires
        capacity <= usize::MAX,
    ensures
        admitted(needed, capacity, reservation).1 <==> needed > 0 && (needed > capacity
            || reservation == Reservation::Closed),
        needed == 0 ==> admitted(needed, capacity, reservation).0 is Ok,
        admitted(needed, capacity, reservation).0 matches Err(Refused::Congested { .. })
            ==> !admitted(needed, capacity, reservation).1,
{
}

/// Voice is refused long before a queue of the usual depth is full, and that is
/// no reason to end a connection.
pub proof fn late_voice_is_dropped(depth: nat, offered: Result<(), Unavailable>)
    requires
        depth >= MAX_DEPTH_FOR_VOICE,
    ensures
        voice_admitted(depth, offered) == (VoiceAdmission::Dropped, false),
        MAX_DEPTH_FOR_VOICE < CAPACITY,
{
}

/// A transition is taken where it is empty, or fits and every slot was there. One that is
/// refused is told how much it needed, and how much there was.
pub proof fn a_transition_is_taken_where_it_fits(
    needed: usize,
    capacity: nat,
    reservation: Reservation,
)
    requires
        capacity <= usize::MAX,
    ensures
        ({
            let answer = admitted(needed, capacity, reservation).0;
            &&& answer is Ok <==> needed == 0 || (needed <= capacity && reservation
                == Reservation::Complete)
            &&& answer matches Err(Refused::TooLarge { needed: told, capacity: held }) ==> needed
                > capacity && told == needed && held == capacity
            &&& answer matches Err(Refused::Congested { needed: told, free }) ==> told == needed
                && reservation == (Reservation::Full { taken: free })
            &&& answer matches Err(Refused::Closed) ==> reservation == Reservation::Closed
        }),
{
}

/// A voice packet is queued where fewer than 64 messages wait and there is a slot. A
/// writer that is gone ends the connection, and nothing else does. A queue of the usual
/// depth holds 1024 messages.
pub proof fn voice_is_queued_while_it_is_timely(depth: nat, offered: Result<(), Unavailable>)
    ensures
        voice_admitted(depth, offered).0 == VoiceAdmission::Accepted <==> depth < 64 && offered is Ok,
        voice_admitted(depth, offered).1 <==> depth < 64 && offered == Err::<(), Unavailable>(
            Unavailable::Closed,
        ),
        CAPACITY == 1024,
{
}

/// The messages in a queue and its free slots make up its depth.
pub proof fn a_queue_is_full_of_what_is_not_free(capacity: nat, free: nat)
    requires
        free <= capacity,
    ensures
        in_queue(capacity, free) + free == capacity,
{
}

} // verus!
