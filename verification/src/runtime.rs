//! Several shards, one runtime, and the only operation that touches two shards
//! at once: moving a connection.

use vstd::prelude::*;

use crate::host::{ConnectionId, ShardId};
use crate::ordered::{in_order, SortedMap};
use crate::text::{decimal, decimal_text, join_text};

verus! {

/// How many runtime commands queue before a caller is refused.
pub const MAILBOX_DEPTH: usize = 256;

/// How many identifiers there are.
pub open spec fn identifiers() -> nat {
    0x1_0000_0000_0000_0000
}

/// The identifier that follows `next` by `draws`.
pub open spec fn drawn(next: u64, draws: nat) -> u64 {
    ((next + draws) % identifiers() as int) as u64
}

/// What an operator can see of one shard.
#[derive(Debug, Clone, Copy, PartialEq, Eq, Structural)]
pub struct ShardStatus {
    pub shard: ShardId,
    pub connections: usize,
    /// How far the last connection is behind the first, in journal versions.
    pub worst_lag: u64,
}

/// Where a connection stands: its shard, and the journal version it has seen.
#[derive(Debug, Clone, Copy, PartialEq, Eq, Structural)]
pub struct PeerPosition {
    pub connection: ConnectionId,
    pub shard: ShardId,
    pub cursor: u64,
}

/// The connections that stand on a shard, in the given order.
pub open spec fn on_shard(peers: Seq<PeerPosition>, shard: ShardId) -> Seq<PeerPosition>
    decreases peers.len(),
{
    if peers.len() == 0 {
        Seq::empty()
    } else {
        let rest = on_shard(peers.drop_last(), shard);
        if peers.last().shard == shard {
            rest.push(peers.last())
        } else {
            rest
        }
    }
}

/// `lag` is the largest distance between two of the cursors; zero without any.
pub open spec fn is_worst_lag(peers: Seq<PeerPosition>, lag: u64) -> bool {
    if peers.len() == 0 {
        lag == 0
    } else {
        &&& exists|ahead: int, behind: int|
            0 <= ahead < peers.len() && 0 <= behind < peers.len() && lag == #[trigger] (
            peers[ahead]).cursor - #[trigger] (peers[behind]).cursor
        &&& forall|ahead: int, behind: int|
            0 <= ahead < peers.len() && 0 <= behind < peers.len() ==> (#[trigger] peers[ahead]).cursor
                - (#[trigger] peers[behind]).cursor <= lag
    }
}

/// The status of one shard, among the peers of a runtime.
pub open spec fn is_status(status: ShardStatus, shard: ShardId, peers: Seq<PeerPosition>) -> bool {
    &&& status.shard == shard
    &&& status.connections == on_shard(peers, shard).len()
    &&& is_worst_lag(on_shard(peers, shard), status.worst_lag)
}

/// The status of one shard.
pub fn shard_status(shard: ShardId, peers: &[PeerPosition]) -> (status: ShardStatus)
    ensures
        is_status(status, shard, peers@),
{
    let mut connections: usize = 0;
    let mut ahead: u64 = 0;
    let mut behind: u64 = 0;
    let ghost mut first: int = 0;
    let ghost mut last: int = 0;
    let mut i: usize = 0;
    assert(peers@.take(0) =~= Seq::empty());
    while i < peers.len()
        invariant
            i <= peers@.len(),
            connections == on_shard(peers@.take(i as int), shard).len(),
            connections <= i,
            connections == 0 ==> ahead == 0 && behind == 0,
            connections > 0 ==> {
                let here = on_shard(peers@.take(i as int), shard);
                &&& 0 <= first < here.len()
                &&& 0 <= last < here.len()
                &&& here[first].cursor == ahead
                &&& here[last].cursor == behind
                &&& forall|k: int|
                    0 <= k < here.len() ==> behind <= (#[trigger] here[k]).cursor <= ahead
            },
        decreases peers@.len() - i,
    {
        let peer = peers[i];
        let ghost before = on_shard(peers@.take(i as int), shard);
        proof {
            let next = peers@.take(i + 1);
            assert(next.drop_last() =~= peers@.take(i as int));
            assert(next.last() == peer);
        }
        if peer.shard == shard {
            let ghost here = before.push(peer);
            assert(on_shard(peers@.take(i + 1), shard) == here);
            if connections == 0 || peer.cursor > ahead {
                proof {
                    first = before.len() as int;
                }
                ahead = peer.cursor;
            }
            if connections == 0 || peer.cursor < behind {
                proof {
                    last = before.len() as int;
                }
                behind = peer.cursor;
            }
            connections = connections + 1;
            assert forall|k: int| 0 <= k < here.len() implies behind <= (
            #[trigger] here[k]).cursor <= ahead by {
                if k < before.len() {
                    assert(here[k] == before[k]);
                }
            }
        }
        i = i + 1;
    }
    assert(peers@.take(i as int) =~= peers@);
    let ghost here = on_shard(peers@, shard);
    if connections > 0 {
        assert(here[first].cursor - here[last].cursor == ahead - behind);
        assert(behind <= ahead);
    }
    ShardStatus { shard, connections, worst_lag: ahead - behind }
}

/// Why a connection could not reach a shard.
#[derive(Debug, Clone, Copy, PartialEq, Eq, Structural)]
pub enum AttachError {
    NoSuchShard(ShardId),
    Unreachable(ShardId),
}

/// How a shard is named in messages.
pub open spec fn shard_name(shard: ShardId) -> Seq<char> {
    "ShardId("@ + decimal(shard.0 as nat) + ")"@
}

fn shard_text(shard: ShardId) -> (text: String)
    ensures
        text@ == shard_name(shard),
{
    let number = decimal_text(shard.0);
    join_text("ShardId(", number.as_str(), ")")
}

impl AttachError {
    pub open spec fn text(self) -> Seq<char> {
        match self {
            AttachError::NoSuchShard(shard) => "shard "@ + shard_name(shard) + " does not exist"@,
            AttachError::Unreachable(shard) => "shard "@ + shard_name(shard)
                + " is not taking commands"@,
        }
    }

    pub fn message(&self) -> (message: String)
        ensures
            message@ == self.text(),
    {
        match self {
            AttachError::NoSuchShard(shard) => {
                let name = shard_text(*shard);
                join_text("shard ", name.as_str(), " does not exist")
            },
            AttachError::Unreachable(shard) => {
                let name = shard_text(*shard);
                join_text("shard ", name.as_str(), " is not taking commands")
            },
        }
    }
}

/// How a shard's mailbox answered a command.
pub fn delivered(shard: ShardId, taken: bool) -> (result: Result<(), AttachError>)
    ensures
        result == if taken {
            Ok::<(), AttachError>(())
        } else {
            Err(AttachError::Unreachable(shard))
        },
{
    if taken {
        Ok(())
    } else {
        Err(AttachError::Unreachable(shard))
    }
}

/// The directory of a runtime: which shards exist, and the next identifiers.
#[verifier::ext_equal]
pub struct RuntimeModel {
    pub shards: Set<u64>,
    pub next_shard: u64,
    pub next_connection: u64,
}

pub struct RuntimeHandle {
    shards: SortedMap<u64, ()>,
    next_shard: u64,
    next_connection: u64,
}

impl View for RuntimeHandle {
    type V = RuntimeModel;

    closed spec fn view(&self) -> RuntimeModel {
        RuntimeModel {
            shards: self.shards@.dom(),
            next_shard: self.next_shard,
            next_connection: self.next_connection,
        }
    }
}

impl RuntimeHandle {
    pub closed spec fn wf(&self) -> bool {
        self.shards.wf()
    }

    /// A runtime without shards. Identifiers start at one.
    pub fn new() -> (runtime: Self)
        ensures
            runtime.wf(),
            runtime@ == (RuntimeModel { shards: Set::empty(), next_shard: 1, next_connection: 1 }),
    {
        let runtime = RuntimeHandle { shards: SortedMap::new(), next_shard: 1, next_connection: 1 };
        assert(runtime@.shards =~= Set::empty());
        runtime
    }

    /// Reserves the next connection identifier.
    pub fn next_connection(&mut self) -> (connection: ConnectionId)
        requires
            old(self).wf(),
        ensures
            final(self).wf(),
            connection@ == old(self)@.next_connection,
            final(self)@ == (RuntimeModel {
                next_connection: drawn(old(self)@.next_connection, 1),
                ..old(self)@
            }),
    {
        let connection = ConnectionId(self.next_connection);
        self.next_connection = self.next_connection.wrapping_add(1);
        connection
    }

    /// Reserves the next shard identifier, and enters the shard.
    pub fn create_shard(&mut self) -> (shard: ShardId)
        requires
            old(self).wf(),
        ensures
            final(self).wf(),
            shard.0 == old(self)@.next_shard,
            final(self)@ == (RuntimeModel {
                shards: old(self)@.shards.insert(shard.0),
                next_shard: drawn(old(self)@.next_shard, 1),
                ..old(self)@
            }),
    {
        let ghost before = self@;
        let shard = ShardId(self.next_shard);
        self.next_shard = self.next_shard.wrapping_add(1);
        self.shards.insert(shard.0, ());
        assert(self@.shards =~= before.shards.insert(shard.0));
        shard
    }

    /// Removes a shard. Its connections are to be closed: nothing can render
    /// them any more.
    pub fn destroy_shard(&mut self, shard: ShardId, peers: &[PeerPosition]) -> (closing: Vec<
        PeerPosition,
    >)
        requires
            old(self).wf(),
        ensures
            final(self).wf(),
            closing@ == on_shard(peers@, shard),
            final(self)@ == (RuntimeModel {
                shards: old(self)@.shards.remove(shard.0),
                ..old(self)@
            }),
    {
        let ghost before = self@;
        let mut closing: Vec<PeerPosition> = Vec::new();
        let mut i: usize = 0;
        assert(peers@.take(0) =~= Seq::empty());
        while i < peers.len()
            invariant
                i <= peers@.len(),
                closing@ == on_shard(peers@.take(i as int), shard),
            decreases peers@.len() - i,
        {
            let peer = peers[i];
            proof {
                let next = peers@.take(i + 1);
                assert(next.drop_last() =~= peers@.take(i as int));
                assert(next.last() == peer);
            }
            if peer.shard == shard {
                closing.push(peer);
            }
            i = i + 1;
        }
        assert(peers@.take(i as int) =~= peers@);
        self.shards.remove(&shard.0);
        assert(self@.shards =~= before.shards.remove(shard.0));
        closing
    }

    /// The shard, if it exists.
    pub fn shard_handle(&self, shard: ShardId) -> (found: Option<ShardId>)
        requires
            self.wf(),
        ensures
            found == if self@.shards.contains(shard.0) {
                Some(shard)
            } else {
                None
            },
    {
        if self.shards.contains_key(&shard.0) {
            Some(shard)
        } else {
            None
        }
    }

    /// Puts a connection on a shard, which is then told of it.
    pub fn attach(&self, peer: &mut PeerPosition, shard: ShardId) -> (result: Result<
        (),
        AttachError,
    >)
        requires
            self.wf(),
        ensures
            result == if self@.shards.contains(shard.0) {
                Ok::<(), AttachError>(())
            } else {
                Err(AttachError::NoSuchShard(shard))
            },
            *final(peer) == if result is Ok {
                PeerPosition { shard, ..*old(peer) }
            } else {
                *old(peer)
            },
    {
        if !self.shards.contains_key(&shard.0) {
            return Err(AttachError::NoSuchShard(shard));
        }
        peer.shard = shard;
        Ok(())
    }

    /// Whether a command can be forwarded to a shard.
    pub fn send(&self, shard: ShardId) -> (result: Result<(), AttachError>)
        requires
            self.wf(),
        ensures
            result == if self@.shards.contains(shard.0) {
                Ok::<(), AttachError>(())
            } else {
                Err(AttachError::NoSuchShard(shard))
            },
    {
        if self.shards.contains_key(&shard.0) {
            Ok(())
        } else {
            Err(AttachError::NoSuchShard(shard))
        }
    }

    /// Whether a shard is told that a connection is gone: one that does not exist
    /// is not.
    pub fn detach(&self, shard: ShardId) -> (told: bool)
        requires
            self.wf(),
        ensures
            told == self@.shards.contains(shard.0),
    {
        self.shards.contains_key(&shard.0)
    }

    /// The status of every shard, by identifier.
    pub fn status(&self, peers: &[PeerPosition]) -> (status: Vec<ShardStatus>)
        requires
            self.wf(),
        ensures
            status@.len() == in_order::<u64>(self@.shards).len(),
            forall|i: int|
                0 <= i < status@.len() ==> is_status(
                    #[trigger] status@[i],
                    ShardId(in_order::<u64>(self@.shards)[i]),
                    peers@,
                ),
    {
        proof {
            self.shards.lemma_in_order();
        }
        let ghost keys = in_order::<u64>(self@.shards);
        let mut status: Vec<ShardStatus> = Vec::new();
        let mut i: usize = 0;
        while i < self.shards.len()
            invariant
                self.wf(),
                keys == self.shards.keys(),
                i <= keys.len(),
                status@.len() == i,
                forall|k: int|
                    0 <= k < i ==> is_status(#[trigger] status@[k], ShardId(keys[k]), peers@),
            decreases keys.len() - i,
        {
            status.push(shard_status(ShardId(*self.shards.key_at(i)), peers));
            i = i + 1;
        }
        status
    }

    /// Starts to move a connection: `peer` is the shard it stands on, if it is
    /// still there.
    pub fn move_connection(&self, peer: Option<ShardId>, to: ShardId) -> (step: MigrationStep)
        requires
            self.wf(),
        ensures
            step == self@.migration_start(peer, to),
    {
        match peer {
            None => MigrationStep::Finished,
            Some(from) => if from == to {
                MigrationStep::Finished
            } else if !self.shards.contains_key(&to.0) {
                MigrationStep::NoSuchShard
            } else if self.shards.contains_key(&from.0) {
                MigrationStep::TakeView { from }
            } else {
                MigrationStep::Close
            },
        }
    }
}

/// What a migration does next.
#[derive(Debug, Clone, Copy, PartialEq, Eq, Structural)]
pub enum MigrationStep {
    /// Nothing more.
    Finished,
    /// The destination does not exist: the connection stays where it is.
    NoSuchShard,
    /// The connection is closed: nobody can say what its client shows.
    Close,
    /// The source hands over the view that the client holds.
    TakeView { from: ShardId },
    /// The connection's routes change to the destination's, which then plans one
    /// transition from the view that the client holds.
    HandOver,
}

/// How a source answered when it was asked for a view.
#[derive(Debug, Clone, Copy, PartialEq, Eq, Structural)]
pub enum ViewAnswer {
    /// It did not take the command.
    Refused,
    /// It stopped before it answered.
    Dropped,
    Held,
}

/// What follows once the source answered.
pub open spec fn migration_view(answer: ViewAnswer) -> MigrationStep {
    match answer {
        ViewAnswer::Refused => MigrationStep::Close,
        ViewAnswer::Dropped => MigrationStep::Close,
        ViewAnswer::Held => MigrationStep::HandOver,
    }
}

/// What follows once the destination answered.
pub open spec fn migration_handed(taken: bool) -> MigrationStep {
    if taken {
        MigrationStep::Finished
    } else {
        MigrationStep::Close
    }
}

impl RuntimeModel {
    /// How a migration starts.
    pub open spec fn migration_start(self, peer: Option<ShardId>, to: ShardId) -> MigrationStep {
        match peer {
            None => MigrationStep::Finished,
            Some(from) => if from == to {
                MigrationStep::Finished
            } else if !self.shards.contains(to.0) {
                MigrationStep::NoSuchShard
            } else if self.shards.contains(from.0) {
                MigrationStep::TakeView { from }
            } else {
                MigrationStep::Close
            },
        }
    }
}

/// Goes on with a migration once its source answered.
pub fn view_answered(answer: ViewAnswer) -> (step: MigrationStep)
    ensures
        step == migration_view(answer),
{
    match answer {
        ViewAnswer::Held => MigrationStep::HandOver,
        _ => MigrationStep::Close,
    }
}

/// Goes on with a migration once its destination answered. A connection that was
/// not taken is attached nowhere.
pub fn handed_over(taken: bool) -> (step: MigrationStep)
    ensures
        step == migration_handed(taken),
{
    if taken {
        MigrationStep::Finished
    } else {
        MigrationStep::Close
    }
}

/// The reason that a source is given when a connection leaves it for another shard.
pub fn moving_reason(to: ShardId) -> (reason: String)
    ensures
        reason@ == "moving to "@ + shard_name(to),
{
    let name = shard_text(to);
    let reason = join_text("moving to ", name.as_str(), "");
    proof {
        reveal_strlit("");
        assert(reason@ =~= "moving to "@ + shard_name(to));
    }
    reason
}

/// Where a connection is once its migration is over.
pub enum Whereabouts {
    /// As it was.
    Unmoved,
    /// On the destination.
    Arrived,
    Closed,
}

/// Where a migration ends, given how both shards answered.
pub open spec fn migrated(
    runtime: RuntimeModel,
    peer: Option<ShardId>,
    to: ShardId,
    answer: ViewAnswer,
    taken: bool,
) -> Whereabouts {
    match runtime.migration_start(peer, to) {
        MigrationStep::TakeView { .. } => match migration_view(answer) {
            MigrationStep::HandOver => match migration_handed(taken) {
                MigrationStep::Close => Whereabouts::Closed,
                _ => Whereabouts::Arrived,
            },
            _ => Whereabouts::Closed,
        },
        MigrationStep::Close => Whereabouts::Closed,
        _ => Whereabouts::Unmoved,
    }
}

/// A connection moves only where its source handed its view over and its
/// destination took it; without the view it is never handed to another shard.
pub proof fn a_connection_moves_with_its_view(
    runtime: RuntimeModel,
    peer: Option<ShardId>,
    to: ShardId,
    answer: ViewAnswer,
    taken: bool,
)
    ensures
        migrated(runtime, peer, to, answer, taken) is Arrived <==> {
            &&& peer matches Some(from)
            &&& from != to
            &&& runtime.shards.contains(from.0)
            &&& runtime.shards.contains(to.0)
            &&& answer is Held
            &&& taken
        },
{
}

/// A connection that does not arrive either stays as it was, or is closed: it is
/// never left between two shards.
pub proof fn a_failed_move_strands_nobody(
    runtime: RuntimeModel,
    peer: Option<ShardId>,
    to: ShardId,
    answer: ViewAnswer,
    taken: bool,
)
    ensures
        migrated(runtime, peer, to, answer, taken) is Unmoved <==> match peer {
            None => true,
            Some(from) => from == to || !runtime.shards.contains(to.0),
        },
{
}

/// Identifiers are never reused, until all of them were drawn.
pub proof fn identifiers_are_never_reused(next: u64, i: nat, j: nat)
    requires
        i < j < identifiers(),
    ensures
        drawn(next, i) != drawn(next, j),
{
}

/// A destroyed shard takes no connection, and no command.
pub proof fn a_destroyed_shard_is_gone(runtime: RuntimeModel, shard: ShardId, peer: Option<ShardId>)
    ensures
        ({
            let after = RuntimeModel { shards: runtime.shards.remove(shard.0), ..runtime };
            &&& !after.shards.contains(shard.0)
            &&& !(after.migration_start(peer, shard) is TakeView)
        }),
{
}

/// The connections of a shard are those that stand on it, in the order in which they are
/// given, and no others.
pub proof fn a_shard_has_the_connections_that_stand_on_it(
    peers: Seq<PeerPosition>,
    shard: ShardId,
    peer: PeerPosition,
)
    ensures
        on_shard(peers, shard).contains(peer) <==> peers.contains(peer) && peer.shard == shard,
        on_shard(peers, shard) == peers.filter(|peer: PeerPosition| peer.shard == shard),
    decreases peers.len(),
{
    reveal(Seq::filter);
    if peers.len() > 0 {
        a_shard_has_the_connections_that_stand_on_it(peers.drop_last(), shard, peer);
    }
    crate::ordered::lemma_filter_members(
        peers,
        |peer: PeerPosition| peer.shard == shard,
        peer,
    );
}

/// An identifier that is drawn next is the one after, and after the last one the first.
pub proof fn identifiers_count_up(next: u64)
    ensures
        drawn(next, 0) == next,
        next < u64::MAX ==> drawn(next, 1) == next + 1,
        next == u64::MAX ==> drawn(next, 1) == 0,
{
}

} // verus!
