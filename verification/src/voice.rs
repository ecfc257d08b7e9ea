//! The voice plane: who a datagram is from, what it asks for, who is to hear it,
//! and on which transport.
//!
//! A packet reaches a listener only once the listener's view is far enough along
//! to know the speaker. Revocation needs no such gate: a route that is gone is
//! simply absent.

use vstd::prelude::*;

use ring::rand::SecureRandom;

use crate::config::SocketAddress;
use crate::control::{ControlMessage, ControlModel};
use crate::framing::TcpMessageType;
use crate::ocb2::{received, Block, CryptModel, CryptState};
use crate::text::{copy_bytes, views};

verus! {

/// The target that asks the server to send the voice back.
pub const LOOPBACK_TARGET: u32 = 31;

/// The target of normal speech.
pub const NORMAL_TARGET: u32 = 0;

/// The context of normal speech, server to client.
pub const NORMAL_CONTEXT: u32 = 0;

/// The session under which a connection is shown.
#[derive(Debug, Clone, Copy, PartialEq, Eq, Structural)]
pub struct SessionId(pub u32);

/// Where a packet goes, client to server, or how it was meant, server to client.
#[derive(Debug, Clone, Copy, PartialEq, Eq, Structural)]
pub enum AudioHeader {
    Target(u32),
    Context(u32),
}

/// A voice packet. Coordinates and volume stand as the bits of their numbers.
#[derive(Debug, PartialEq, Eq)]
pub struct Audio {
    pub header: Option<AudioHeader>,
    pub sender_session: u32,
    pub frame_number: u64,
    pub opus_data: Vec<u8>,
    pub positional_data: Vec<u32>,
    pub volume_adjustment: u32,
    pub is_terminator: bool,
}

#[verifier::ext_equal]
pub struct AudioModel {
    pub header: Option<AudioHeader>,
    pub sender_session: u32,
    pub frame_number: u64,
    pub opus_data: Seq<u8>,
    pub positional_data: Seq<u32>,
    pub volume_adjustment: u32,
    pub is_terminator: bool,
}

impl View for Audio {
    type V = AudioModel;

    open spec fn view(&self) -> AudioModel {
        AudioModel {
            header: self.header,
            sender_session: self.sender_session,
            frame_number: self.frame_number,
            opus_data: self.opus_data@,
            positional_data: self.positional_data@,
            volume_adjustment: self.volume_adjustment,
            is_terminator: self.is_terminator,
        }
    }
}

/// A connectivity ping and its reply.
#[derive(Debug, Clone, Copy, PartialEq, Eq, Structural)]
pub struct Ping {
    pub timestamp: u64,
    pub request_extended_information: bool,
    pub server_version_v2: u64,
    pub user_count: u32,
    pub max_user_count: u32,
    pub max_bandwidth_per_user: u32,
}

/// What a datagram holds.
#[derive(Debug, PartialEq, Eq)]
pub enum UdpMessage {
    Ping(Ping),
    Audio(Audio),
}

/// What a ping is told of the server.
#[derive(Debug, Clone, Copy, PartialEq, Eq, Structural)]
pub struct ServerStatistics {
    pub version_v2: u64,
    pub users: usize,
    pub max_users: u32,
    pub max_bandwidth: u32,
}

// Keys.

/// The random source of the ring crate.
#[verifier::external_type_specification]
#[verifier::external_body]
pub struct ExSystemRandom(ring::rand::SystemRandom);

/// The error of the ring crate.
#[verifier::external_type_specification]
#[verifier::external_body]
pub struct ExUnspecified(ring::error::Unspecified);

/// Calls `SecureRandom::fill` of ring on a block. Nothing is claimed of the bytes.
#[verifier::external_body]
fn random_block(rng: &ring::rand::SystemRandom) -> (block: Result<Block, ring::error::Unspecified>) {
    let mut block: Block = [0u8;16];
    rng.fill(&mut block)?;
    Ok(block)
}

/// Which draw failed.
#[derive(Debug, Clone, Copy, PartialEq, Eq, Structural)]
pub enum CryptSetupError {
    Key,
    ServerNonce,
    ClientNonce,
}

impl CryptSetupError {
    pub open spec fn text(self) -> Seq<char> {
        match self {
            CryptSetupError::Key => "rng failed for the OCB2 key"@,
            CryptSetupError::ServerNonce => "rng failed for the server nonce"@,
            CryptSetupError::ClientNonce => "rng failed for the client nonce"@,
        }
    }

    /// The error in words.
    pub fn message(&self) -> (message: String)
        ensures
            message@ == self.text(),
    {
        match self {
            CryptSetupError::Key => "rng failed for the OCB2 key".to_owned(),
            CryptSetupError::ServerNonce => "rng failed for the server nonce".to_owned(),
            CryptSetupError::ClientNonce => "rng failed for the client nonce".to_owned(),
        }
    }
}

/// What a client is told of the encryption of its packets.
#[derive(Debug, PartialEq, Eq)]
pub struct CryptSetup {
    pub key: Option<Vec<u8>>,
    pub client_nonce: Option<Vec<u8>>,
    pub server_nonce: Option<Vec<u8>>,
}

impl CryptSetup {
    /// Whether this setup tells a client all that the server's state holds.
    pub open spec fn describes(self, state: CryptModel) -> bool {
        &&& self.key matches Some(key) && key@ == state.key
        &&& self.server_nonce matches Some(nonce) && nonce@ == state.encrypt_iv
        &&& self.client_nonce matches Some(nonce) && nonce@ == state.decrypt_iv
    }
}

/// A state that has sent and received nothing.
pub open spec fn fresh_state(key: Seq<u8>, encrypt_iv: Seq<u8>, decrypt_iv: Seq<u8>) -> CryptModel {
    CryptModel {
        key,
        encrypt_iv,
        decrypt_iv,
        decrypt_history: Seq::new(256, |i: int| 0u8),
        good: 0,
        late: 0,
        lost: 0,
    }
}

/// The setup and the server's state for a key and two nonces. The server encrypts
/// from the server nonce on, and decrypts from the client nonce on.
pub fn crypt_setup(key: &Block, server_nonce: &Block, client_nonce: &Block) -> (made: (
    CryptSetup,
    CryptState,
))
    ensures
        made.1@ == fresh_state(key@, server_nonce@, client_nonce@),
        made.0.describes(made.1@),
{
    let state = CryptState::new(key, server_nonce, client_nonce);
    let setup = CryptSetup {
        key: Some(block_bytes(key)),
        client_nonce: Some(block_bytes(client_nonce)),
        server_nonce: Some(block_bytes(server_nonce)),
    };
    (setup, state)
}

fn block_bytes(block: &Block) -> (bytes: Vec<u8>)
    ensures
        bytes@ == block@,
{
    let mut bytes: Vec<u8> = Vec::new();
    let mut i: usize = 0;
    while i < 16
        invariant
            i <= 16,
            bytes@ == block@.take(i as int),
        decreases 16 - i,
    {
        bytes.push(block[i]);
        assert(bytes@ =~= block@.take(i + 1));
        i = i + 1;
    }
    assert(bytes@ =~= block@);
    bytes
}

/// A fresh key and nonces for a new connection.
pub fn generate_crypt_setup(rng: &ring::rand::SystemRandom) -> (result: Result<
    (CryptSetup, CryptState),
    CryptSetupError,
>)
    ensures
        result matches Ok(made) ==> {
            &&& made.1@ == fresh_state(made.1@.key, made.1@.encrypt_iv, made.1@.decrypt_iv)
            &&& made.1@.wf()
            &&& made.0.describes(made.1@)
        },
{
    let key = match random_block(rng) {
        Ok(key) => key,
        Err(_) => {
            return Err(CryptSetupError::Key);
        },
    };
    let server_nonce = match random_block(rng) {
        Ok(nonce) => nonce,
        Err(_) => {
            return Err(CryptSetupError::ServerNonce);
        },
    };
    let client_nonce = match random_block(rng) {
        Ok(nonce) => nonce,
        Err(_) => {
            return Err(CryptSetupError::ClientNonce);
        },
    };
    let (setup, state) = crypt_setup(&key, &server_nonce, &client_nonce);
    proof {
        state.lemma_wf();
    }
    Ok((setup, state))
}

/// A client that mirrors the nonces of the setup it was told is in step with the
/// server: it has the key, and decrypts from where the server encrypts on.
pub proof fn a_mirrored_client_is_in_step(server: CryptModel)
    requires
        server.wf(),
    ensures
        ({
            let client = fresh_state(server.key, server.decrypt_iv, server.encrypt_iv);
            &&& client.wf()
            &&& client.key == server.key
            &&& client.decrypt_iv == server.encrypt_iv
        }),
{
}

// Who a datagram is from.

/// What became of a datagram.
#[derive(Debug, PartialEq, Eq)]
pub enum Association {
    /// It decrypts under the connection that its address is bound to.
    Bound { peer: usize, plaintext: Vec<u8> },
    /// Its address is bound to a connection, under which it does not decrypt: a
    /// replay, a forgery or a nonce out of step.
    Undecryptable { peer: usize },
    /// It decrypts under a connection from the same host, to which its address
    /// is now to be bound.
    Fresh { peer: usize, plaintext: Vec<u8> },
    /// It is encrypted for no connection.
    Unassociated,
}

pub enum AssociationModel {
    Bound { peer: int, plaintext: Seq<u8> },
    Undecryptable { peer: int },
    Fresh { peer: int, plaintext: Seq<u8> },
    Unassociated,
}

impl View for Association {
    type V = AssociationModel;

    open spec fn view(&self) -> AssociationModel {
        match self {
            Association::Bound { peer, plaintext } => AssociationModel::Bound {
                peer: *peer as int,
                plaintext: plaintext@,
            },
            Association::Undecryptable { peer } => AssociationModel::Undecryptable {
                peer: *peer as int,
            },
            Association::Fresh { peer, plaintext } => AssociationModel::Fresh {
                peer: *peer as int,
                plaintext: plaintext@,
            },
            Association::Unassociated => AssociationModel::Unassociated,
        }
    }
}

/// The first of the candidates that accepts a datagram.
pub open spec fn first_accepting(
    states: Seq<CryptModel>,
    candidates: Seq<int>,
    datagram: Seq<u8>,
) -> Option<int>
    decreases candidates.len(),
{
    if candidates.len() == 0 {
        None
    } else if states[candidates[0]].accepts(datagram) {
        Some(candidates[0])
    } else {
        first_accepting(states, candidates.drop_first(), datagram)
    }
}

/// A datagram from a bound address is tried under that connection alone. Another
/// one is tried under each connection from the same host, in turn.
pub open spec fn associated(
    states: Seq<CryptModel>,
    bound: Option<int>,
    candidates: Seq<int>,
    datagram: Seq<u8>,
) -> (Seq<CryptModel>, AssociationModel) {
    match bound {
        Some(peer) => if states[peer].accepts(datagram) {
            (
                states.update(peer, states[peer].decrypted(datagram)),
                AssociationModel::Bound { peer, plaintext: states[peer].content(datagram).bytes },
            )
        } else {
            (states, AssociationModel::Undecryptable { peer })
        },
        None => match first_accepting(states, candidates, datagram) {
            Some(peer) => (
                states.update(peer, states[peer].decrypted(datagram)),
                AssociationModel::Fresh { peer, plaintext: states[peer].content(datagram).bytes },
            ),
            None => (states, AssociationModel::Unassociated),
        },
    }
}

pub open spec fn models(states: Seq<CryptState>) -> Seq<CryptModel> {
    Seq::new(states.len(), |i: int| states[i]@)
}

pub open spec fn positions(candidates: Seq<usize>) -> Seq<int> {
    Seq::new(candidates.len(), |i: int| candidates[i] as int)
}

/// Finds the connection that a datagram belongs to, and decrypts it there. `bound`
/// is the connection that its address is bound to, `candidates` are those from
/// the same host.
pub fn associate(
    states: &mut Vec<CryptState>,
    bound: Option<usize>,
    candidates: &[usize],
    datagram: &[u8],
) -> (association: Association)
    requires
        bound matches Some(peer) ==> peer < old(states)@.len(),
        forall|i: int| 0 <= i < candidates@.len() ==> #[trigger] candidates@[i] < old(states)@.len(),
    ensures
        (models(final(states)@), association@) == associated(
            models(old(states)@),
            match bound {
                Some(peer) => Some(peer as int),
                None => None,
            },
            positions(candidates@),
            datagram@,
        ),
{
    let ghost before = models(states@);
    if let Some(peer) = bound {
        let state = &mut states[peer];
        match state.decrypt(datagram) {
            Some(plaintext) => {
                assert(models(states@) =~= before.update(
                    peer as int,
                    before[peer as int].decrypted(datagram@),
                ));
                return Association::Bound { peer, plaintext };
            },
            None => {
                assert(models(states@) =~= before);
                return Association::Undecryptable { peer };
            },
        }
    }
    let ghost all = positions(candidates@);
    assert(all.skip(0) =~= all);
    let mut i: usize = 0;
    while i < candidates.len()
        invariant
            i <= candidates@.len(),
            bound is None,
            all == positions(candidates@),
            models(states@) == before,
            before.len() == states@.len(),
            before == models(old(states)@),
            forall|k: int|
                0 <= k < candidates@.len() ==> #[trigger] candidates@[k] < states@.len(),
            first_accepting(before, all, datagram@) == first_accepting(
                before,
                all.skip(i as int),
                datagram@,
            ),
        decreases candidates@.len() - i,
    {
        let peer: usize = candidates[i];
        assert(all.skip(i as int)[0] == peer);
        assert(all.skip(i as int).drop_first() =~= all.skip(i + 1));
        assert(before[peer as int] == states@[peer as int]@);
        let state = &mut states[peer];
        match state.decrypt(datagram) {
            Some(plaintext) => {
                assert(models(states@) =~= before.update(
                    peer as int,
                    before[peer as int].decrypted(datagram@),
                ));
                return Association::Fresh { peer, plaintext };
            },
            None => {
                assert(models(states@) =~= before);
            },
        }
        i = i + 1;
    }
    Association::Unassociated
}

// What a packet asks for.

/// The sizes that a packet may have.
#[derive(Debug, Clone, Copy, PartialEq, Eq, Structural)]
pub struct SizeBand {
    pub minimum: usize,
    pub maximum: usize,
}

/// What is done with a decrypted packet.
#[derive(Debug, PartialEq, Eq)]
pub enum Dispatch {
    /// It lies outside the band, and is dropped.
    OutOfBand,
    /// It is no packet, and is dropped.
    BadEnvelope,
    /// The ping is answered.
    Answer(Ping),
    /// The voice is routed. Its sender is reachable over UDP.
    Route(Audio),
}

pub enum DispatchModel {
    OutOfBand,
    BadEnvelope,
    Answer(Ping),
    Route(AudioModel),
}

impl View for Dispatch {
    type V = DispatchModel;

    open spec fn view(&self) -> DispatchModel {
        match self {
            Dispatch::OutOfBand => DispatchModel::OutOfBand,
            Dispatch::BadEnvelope => DispatchModel::BadEnvelope,
            Dispatch::Answer(ping) => DispatchModel::Answer(*ping),
            Dispatch::Route(audio) => DispatchModel::Route(audio@),
        }
    }
}

pub open spec fn reply_to(request: Ping, server: ServerStatistics) -> Ping {
    Ping {
        timestamp: request.timestamp,
        request_extended_information: false,
        server_version_v2: server.version_v2,
        user_count: if server.users > u32::MAX {
            u32::MAX
        } else {
            server.users as u32
        },
        max_user_count: server.max_users,
        max_bandwidth_per_user: server.max_bandwidth,
    }
}

/// The reply to a ping: its timestamp, and what there is to know of the server.
pub fn ping_reply(request: &Ping, server: &ServerStatistics) -> (reply: Ping)
    ensures
        reply == reply_to(*request, *server),
{
    Ping {
        timestamp: request.timestamp,
        request_extended_information: false,
        server_version_v2: server.version_v2,
        user_count: if server.users > u32::MAX as usize {
            u32::MAX
        } else {
            server.users as u32
        },
        max_user_count: server.max_users,
        max_bandwidth_per_user: server.max_bandwidth,
    }
}

/// What is done with a packet of `len` bytes that holds `message`, where it holds
/// one.
pub fn dispatch(
    band: &SizeBand,
    len: usize,
    message: Option<UdpMessage>,
    server: &ServerStatistics,
) -> (decision: Dispatch)
    ensures
        decision@ == if len < band.minimum || len > band.maximum {
            DispatchModel::OutOfBand
        } else {
            match message {
                None => DispatchModel::BadEnvelope,
                Some(UdpMessage::Ping(ping)) => DispatchModel::Answer(reply_to(ping, *server)),
                Some(UdpMessage::Audio(audio)) => DispatchModel::Route(audio@),
            }
        },
{
    if len < band.minimum || len > band.maximum {
        return Dispatch::OutOfBand;
    }
    match message {
        None => Dispatch::BadEnvelope,
        Some(UdpMessage::Ping(ping)) => Dispatch::Answer(ping_reply(&ping, server)),
        Some(UdpMessage::Audio(audio)) => Dispatch::Route(audio),
    }
}

/// A datagram that is encrypted for nobody is answered where it is a ping.
pub fn dispatch_unassociated(
    message: Option<UdpMessage>,
    server: &ServerStatistics,
) -> (reply: Option<Ping>)
    ensures
        reply == match message {
            Some(UdpMessage::Ping(ping)) => Some(reply_to(ping, *server)),
            _ => None,
        },
{
    match message {
        Some(UdpMessage::Ping(ping)) => Some(ping_reply(&ping, server)),
        _ => None,
    }
}

// Who is to hear it.

/// What the routing table holds of one speaker.
#[derive(Debug, PartialEq, Eq)]
pub struct SpeakerRoute {
    pub session: SessionId,
    pub may_speak: bool,
    /// The version of the view in which the speaker appeared.
    pub since: Option<u64>,
    pub receivers: Vec<SessionId>,
}

/// Why a packet is not routed.
#[derive(Debug, Clone, Copy, PartialEq, Eq, Structural)]
pub enum VoiceDrop {
    BudgetExhausted,
    /// It says nothing of where it goes, or is of the other direction.
    NoTarget,
    /// Its target was never registered. To route it as normal speech would
    /// deliver it to listeners that were never addressed.
    UnregisteredTarget(u32),
    /// It asks for its echo, and its speaker is muted.
    Muted,
}

/// The receivers that are connected and know the speaker, in the table's order.
pub open spec fn hearing(
    receivers: Seq<SessionId>,
    cursors: Seq<Option<u64>>,
    since: u64,
) -> Seq<SessionId>
    decreases receivers.len(),
{
    if receivers.len() == 0 {
        Seq::empty()
    } else {
        let rest = hearing(receivers.drop_last(), cursors.drop_last(), since);
        match cursors.last() {
            Some(cursor) => if cursor >= since {
                rest.push(receivers.last())
            } else {
                rest
            },
            None => rest,
        }
    }
}

/// Who hears a packet, or why nobody does.
pub open spec fn routed(
    route: SpeakerRoute,
    cursors: Seq<Option<u64>>,
    allowed: bool,
    header: Option<AudioHeader>,
) -> Result<Seq<SessionId>, VoiceDrop> {
    if !allowed {
        Err(VoiceDrop::BudgetExhausted)
    } else {
        match header {
            Some(AudioHeader::Target(target)) => if target == LOOPBACK_TARGET {
                if route.may_speak {
                    Ok(seq![route.session])
                } else {
                    Err(VoiceDrop::Muted)
                }
            } else if target == NORMAL_TARGET {
                Ok(
                    hearing(
                        route.receivers@,
                        cursors,
                        match route.since {
                            Some(since) => since,
                            None => 0,
                        },
                    ),
                )
            } else {
                Err(VoiceDrop::UnregisteredTarget(target))
            },
            _ => Err(VoiceDrop::NoTarget),
        }
    }
}

/// Normal speech: everyone the table names who is connected and whose view is far
/// enough along. `cursors` holds the view of each receiver, where it is connected.
fn speak(route: &SpeakerRoute, cursors: &[Option<u64>]) -> (listeners: Vec<SessionId>)
    requires
        cursors@.len() == route.receivers@.len(),
    ensures
        listeners@ == hearing(
            route.receivers@,
            cursors@,
            match route.since {
                Some(since) => since,
                None => 0,
            },
        ),
{
    let since: u64 = match route.since {
        Some(since) => since,
        None => 0,
    };
    let mut listeners: Vec<SessionId> = Vec::new();
    let mut i: usize = 0;
    while i < route.receivers.len()
        invariant
            i <= route.receivers@.len(),
            cursors@.len() == route.receivers@.len(),
            since == match route.since {
                Some(since) => since,
                None => 0,
            },
            listeners@ == hearing(
                route.receivers@.take(i as int),
                cursors@.take(i as int),
                since,
            ),
        decreases route.receivers@.len() - i,
    {
        proof {
            let next = route.receivers@.take(i + 1);
            assert(next.drop_last() =~= route.receivers@.take(i as int));
            assert(cursors@.take(i + 1).drop_last() =~= cursors@.take(i as int));
        }
        if let Some(cursor) = cursors[i] {
            if cursor >= since {
                listeners.push(route.receivers[i]);
            }
        }
        i = i + 1;
    }
    assert(route.receivers@.take(i as int) =~= route.receivers@);
    assert(cursors@.take(i as int) =~= cursors@);
    listeners
}

/// Who hears a packet, whichever transport it came on. `allowed` says whether the
/// speaker's budget has room for it.
pub fn route(
    speaker: &SpeakerRoute,
    cursors: &[Option<u64>],
    allowed: bool,
    audio: &Audio,
) -> (result: Result<Vec<SessionId>, VoiceDrop>)
    requires
        cursors@.len() == speaker.receivers@.len(),
    ensures
        match routed(*speaker, cursors@, allowed, audio.header) {
            Ok(listeners) => result matches Ok(found) && found@ == listeners,
            Err(reason) => result matches Err(found) && found == reason,
        },
{
    if !allowed {
        return Err(VoiceDrop::BudgetExhausted);
    }
    match audio.header {
        Some(AudioHeader::Target(target)) => {
            if target == LOOPBACK_TARGET {
                if !speaker.may_speak {
                    return Err(VoiceDrop::Muted);
                }
                let mut listeners: Vec<SessionId> = Vec::new();
                listeners.push(speaker.session);
                assert(listeners@ =~= seq![speaker.session]);
                Ok(listeners)
            } else if target == NORMAL_TARGET {
                Ok(speak(speaker, cursors))
            } else {
                Err(VoiceDrop::UnregisteredTarget(target))
            }
        },
        _ => Err(VoiceDrop::NoTarget),
    }
}

/// A listener hears normal speech only where the table names it, it is connected,
/// and it has been told that the speaker exists.
pub proof fn only_listeners_that_know_the_speaker_hear_it(
    receivers: Seq<SessionId>,
    cursors: Seq<Option<u64>>,
    since: u64,
    listener: SessionId,
)
    requires
        cursors.len() == receivers.len(),
    ensures
        hearing(receivers, cursors, since).contains(listener) <==> exists|i: int|
            0 <= i < receivers.len() && #[trigger] receivers[i] == listener && (
            cursors[i] matches Some(cursor) && cursor >= since),
    decreases receivers.len(),
{
    if receivers.len() > 0 {
        let n = receivers.len() - 1;
        let fewer = receivers.drop_last();
        let rest = hearing(fewer, cursors.drop_last(), since);
        only_listeners_that_know_the_speaker_hear_it(
            fewer,
            cursors.drop_last(),
            since,
            listener,
        );
        let last = cursors.last() matches Some(cursor) && cursor >= since;
        let all = hearing(receivers, cursors, since);
        if all.contains(listener) {
            if rest.contains(listener) {
                let i = choose|i: int|
                    0 <= i < fewer.len() && #[trigger] fewer[i] == listener && (
                    cursors.drop_last()[i] matches Some(cursor) && cursor >= since);
                assert(receivers[i] == listener);
            } else {
                let k = choose|k: int| 0 <= k < all.len() && all[k] == listener;
                if k < rest.len() {
                    assert(rest[k] == listener);
                }
                assert(receivers[n] == listener);
            }
        }
        if exists|i: int|
            0 <= i < receivers.len() && #[trigger] receivers[i] == listener && (
            cursors[i] matches Some(cursor) && cursor >= since) {
            let i = choose|i: int|
                0 <= i < receivers.len() && #[trigger] receivers[i] == listener && (
                cursors[i] matches Some(cursor) && cursor >= since);
            if i < n {
                assert(fewer[i] == listener);
                assert(rest.contains(listener));
                let k = choose|k: int| 0 <= k < rest.len() && rest[k] == listener;
                assert(all[k] == listener);
            } else {
                assert(all[rest.len() as int] == listener);
            }
        }
    }
}

/// A muted speaker is not even echoed.
pub proof fn a_muted_speaker_is_not_echoed(
    route: SpeakerRoute,
    cursors: Seq<Option<u64>>,
    allowed: bool,
)
    requires
        !route.may_speak,
    ensures
        routed(route, cursors, allowed, Some(AudioHeader::Target(LOOPBACK_TARGET))) is Err,
{
}

// What is delivered.

/// A packet as listeners get it.
pub open spec fn rewritten(source: AudioModel, sender: SessionId) -> AudioModel {
    AudioModel {
        header: Some(AudioHeader::Context(NORMAL_CONTEXT)),
        sender_session: sender.0,
        frame_number: source.frame_number,
        opus_data: source.opus_data,
        positional_data: Seq::empty(),
        volume_adjustment: 0,
        is_terminator: source.is_terminator,
    }
}

/// Rewrites a packet into its server-to-client form. The voice travels untouched;
/// coordinates do not travel.
pub fn outgoing(source: &Audio, sender: SessionId) -> (audio: Audio)
    ensures
        audio@ == rewritten(source@, sender),
        audio.frame_number == source.frame_number,
        audio.opus_data@ == source.opus_data@,
        audio.is_terminator == source.is_terminator,
        audio.sender_session == sender.0,
        audio.header == Some(AudioHeader::Context(0)),
        audio.positional_data@.len() == 0,
        audio.volume_adjustment == 0,
{
    let audio = Audio {
        header: Some(AudioHeader::Context(NORMAL_CONTEXT)),
        sender_session: sender.0,
        frame_number: source.frame_number,
        opus_data: copy_bytes(source.opus_data.as_slice()),
        positional_data: Vec::new(),
        volume_adjustment: 0,
        is_terminator: source.is_terminator,
    };
    assert(audio@.positional_data =~= Seq::empty());
    audio
}

/// How a packet reaches one listener.
#[derive(Debug, PartialEq, Eq)]
pub enum Delivery {
    /// Sealed under the listener's key, to its address.
    Datagram { sealed: Vec<u8>, address: SocketAddress },
    /// In the clear, on the listener's queue.
    Tunnel(ControlMessage),
    /// Not at all: there is no usable crypto state.
    Unsealable,
}

/// Seals a packet for one listener on the transport that the listener last used:
/// `destination` is its address where that was UDP.
pub fn deliver(
    destination: Option<SocketAddress>,
    crypt: &mut CryptState,
    plaintext: Vec<u8>,
) -> (delivery: Delivery)
    ensures
        match destination {
            Some(to) => {
                &&& final(crypt)@ == old(crypt)@.encrypted()
                &&& delivery matches Delivery::Datagram { sealed, address } && address == to
                    && sealed@ == old(crypt)@.packet(plaintext@) && sealed@.len()
                    == plaintext@.len() + 4
                &&& delivery matches Delivery::Datagram { sealed, .. } ==> forall|
                    peer: CryptModel,
                |
                    #![trigger peer.content(sealed@)]
                    peer.wf() && peer.key == old(crypt)@.key && peer.decrypt_iv == old(
                        crypt,
                    )@.encrypt_iv ==> peer.content(sealed@).bytes == received(plaintext@, true)
            },
            None => {
                &&& final(crypt)@ == old(crypt)@
                &&& delivery matches Delivery::Tunnel(message) && message@ == (ControlModel {
                    message_type: TcpMessageType::UdpTunnel,
                    payload: plaintext@,
                })
            },
        },
{
    match destination {
        Some(address) => match crypt.encrypt(plaintext.as_slice()) {
            Some(sealed) => Delivery::Datagram { sealed, address },
            None => Delivery::Unsealable,
        },
        None => Delivery::Tunnel(ControlMessage::UdpTunnel(plaintext)),
    }
}

pub enum DeliveryModel {
    Datagram { sealed: Seq<u8>, address: SocketAddress },
    Tunnel(ControlModel),
    Unsealable,
}

impl View for Delivery {
    type V = DeliveryModel;

    open spec fn view(&self) -> DeliveryModel {
        match self {
            Delivery::Datagram { sealed, address } => DeliveryModel::Datagram {
                sealed: sealed@,
                address: *address,
            },
            Delivery::Tunnel(message) => DeliveryModel::Tunnel(message@),
            Delivery::Unsealable => DeliveryModel::Unsealable,
        }
    }
}

/// A connection, as voice is delivered to it: its address where it last used UDP,
/// and its key.
pub struct Listener {
    pub session: SessionId,
    pub destination: Option<SocketAddress>,
    pub crypt: CryptState,
}

#[verifier::ext_equal]
pub struct ListenerModel {
    pub session: SessionId,
    pub destination: Option<SocketAddress>,
    pub crypt: CryptModel,
}

impl View for Listener {
    type V = ListenerModel;

    open spec fn view(&self) -> ListenerModel {
        ListenerModel {
            session: self.session,
            destination: self.destination,
            crypt: self.crypt@,
        }
    }
}

/// What one listener gets, and what becomes of its key.
pub open spec fn delivered_to(listener: ListenerModel, plaintext: Seq<u8>) -> (
    ListenerModel,
    DeliveryModel,
) {
    match listener.destination {
        Some(address) => (
            ListenerModel { crypt: listener.crypt.encrypted(), ..listener },
            DeliveryModel::Datagram { sealed: listener.crypt.packet(plaintext), address },
        ),
        None => (
            listener,
            DeliveryModel::Tunnel(
                ControlModel { message_type: TcpMessageType::UdpTunnel, payload: plaintext },
            ),
        ),
    }
}

/// Where a session stands in a list.
pub open spec fn place_of(listeners: Seq<ListenerModel>, session: SessionId) -> Option<int>
    decreases listeners.len(),
{
    if listeners.len() == 0 {
        None
    } else {
        match place_of(listeners.drop_last(), session) {
            Some(place) => Some(place),
            None => if listeners.last().session == session {
                Some(listeners.len() - 1)
            } else {
                None
            },
        }
    }
}

/// What becomes of the keys, and what goes out, when a packet is delivered to each
/// of `addressed` in turn. Who is no longer connected is passed over.
pub open spec fn relayed(
    listeners: Seq<ListenerModel>,
    addressed: Seq<SessionId>,
    plaintext: Seq<u8>,
) -> (Seq<ListenerModel>, Seq<DeliveryModel>)
    decreases addressed.len(),
{
    if addressed.len() == 0 {
        (listeners, Seq::empty())
    } else {
        let (before, out) = relayed(listeners, addressed.drop_last(), plaintext);
        match place_of(before, addressed.last()) {
            None => (before, out),
            Some(place) => {
                let (listener, delivery) = delivered_to(before[place], plaintext);
                (before.update(place, listener), out.push(delivery))
            },
        }
    }
}

fn find_listener(listeners: &Vec<Listener>, session: SessionId) -> (place: Option<usize>)
    ensures
        match place {
            Some(place) => place < listeners@.len() && place_of(views(listeners@), session) == Some(
                place as int,
            ),
            None => place_of(views(listeners@), session) is None,
        },
{
    let ghost all = views(listeners@);
    let mut i: usize = 0;
    while i < listeners.len()
        invariant
            i <= listeners@.len(),
            all == views(listeners@),
            place_of(all.take(i as int), session) is None,
        decreases listeners@.len() - i,
    {
        assert(all.take(i + 1).drop_last() =~= all.take(i as int));
        if listeners[i].session == session {
            proof {
                lemma_first_place(all, session, i as int);
            }
            return Some(i);
        }
        i = i + 1;
    }
    assert(all.take(i as int) =~= all);
    None
}

proof fn lemma_first_place(listeners: Seq<ListenerModel>, session: SessionId, place: int)
    requires
        0 <= place < listeners.len(),
        place_of(listeners.take(place + 1), session) == Some(place),
    ensures
        place_of(listeners, session) == Some(place),
    decreases listeners.len(),
{
    if place + 1 < listeners.len() {
        let fewer = listeners.drop_last();
        assert(fewer.take(place + 1) =~= listeners.take(place + 1));
        lemma_first_place(fewer, session, place);
    } else {
        assert(listeners.take(place + 1) =~= listeners);
    }
}

/// Routes a packet and delivers it to all who are to hear it, each under its own key
/// and on its own transport. `plaintext` is the packet as [`outgoing`] rewrites it,
/// encoded.
pub fn relay(
    speaker: &SpeakerRoute,
    cursors: &[Option<u64>],
    allowed: bool,
    audio: &Audio,
    plaintext: &[u8],
    listeners: &mut Vec<Listener>,
) -> (result: Result<Vec<Delivery>, VoiceDrop>)
    requires
        cursors@.len() == speaker.receivers@.len(),
    ensures
        match routed(*speaker, cursors@, allowed, audio.header) {
            Ok(addressed) => {
                let (after, out) = relayed(views(old(listeners)@), addressed, plaintext@);
                &&& views(final(listeners)@) == after
                &&& result matches Ok(deliveries) && views(deliveries@) == out
            },
            Err(reason) => {
                &&& final(listeners)@ == old(listeners)@
                &&& result matches Err(found) && found == reason
            },
        },
{
    let addressed = match route(speaker, cursors, allowed, audio) {
        Ok(addressed) => addressed,
        Err(reason) => {
            return Err(reason);
        },
    };
    let ghost before = views(listeners@);
    let mut deliveries: Vec<Delivery> = Vec::new();
    let mut i: usize = 0;
    assert(addressed@.take(0) =~= Seq::empty());
    assert(views(deliveries@) =~= Seq::empty());
    while i < addressed.len()
        invariant
            i <= addressed@.len(),
            (views(listeners@), views(deliveries@)) == relayed(
                before,
                addressed@.take(i as int),
                plaintext@,
            ),
        decreases addressed@.len() - i,
    {
        let ghost now = views(listeners@);
        let ghost out = views(deliveries@);
        assert(addressed@.take(i + 1).drop_last() =~= addressed@.take(i as int));
        if let Some(place) = find_listener(listeners, addressed[i]) {
            let listener = &mut listeners[place];
            let delivery = deliver(
                listener.destination,
                &mut listener.crypt,
                copy_bytes(plaintext),
            );
            let ghost made = delivery@;
            deliveries.push(delivery);
            proof {
                let expected = delivered_to(now[place as int], plaintext@);
                assert(made == expected.1);
                assert(views(listeners@) =~= now.update(place as int, expected.0));
                assert(views(deliveries@) =~= out.push(made));
            }
        }
        i = i + 1;
    }
    assert(addressed@.take(i as int) =~= addressed@);
    Ok(deliveries)
}

/// Who a packet is not addressed to keeps its key as it is, and nobody's session,
/// address or secret is touched.
pub proof fn who_is_not_addressed_is_left_alone(
    listeners: Seq<ListenerModel>,
    addressed: Seq<SessionId>,
    plaintext: Seq<u8>,
    place: int,
)
    requires
        0 <= place < listeners.len(),
    ensures
        ({
            let after = relayed(listeners, addressed, plaintext).0;
            &&& after.len() == listeners.len()
            &&& after[place].session == listeners[place].session
            &&& after[place].destination == listeners[place].destination
            &&& after[place].crypt.key == listeners[place].crypt.key
            &&& !addressed.contains(listeners[place].session) ==> after[place] == listeners[place]
        }),
    decreases addressed.len(),
{
    if addressed.len() > 0 {
        let fewer = addressed.drop_last();
        who_is_not_addressed_is_left_alone(listeners, fewer, plaintext, place);
        let before = relayed(listeners, fewer, plaintext).0;
        lemma_place(before, addressed.last());
        assert(addressed[addressed.len() - 1] == addressed.last());
        if fewer.contains(listeners[place].session) {
            let k = choose|k: int| 0 <= k < fewer.len() && fewer[k] == listeners[place].session;
            assert(addressed[k] == listeners[place].session);
        }
    }
}

proof fn lemma_place(listeners: Seq<ListenerModel>, session: SessionId)
    ensures
        place_of(listeners, session) matches Some(place) ==> 0 <= place < listeners.len()
            && listeners[place].session == session,
    decreases listeners.len(),
{
    if listeners.len() > 0 {
        lemma_place(listeners.drop_last(), session);
    }
}

/// A listener gets the voice as it was spoken: the frame's number, the Opus bytes, and
/// whether it is the last one. It learns who spoke, and neither where the speaker
/// stands nor whom the packet was aimed at.
pub proof fn a_voice_travels_untouched(
    source: AudioModel,
    sender: SessionId,
    other: AudioModel,
    listener: AudioModel,
)
    requires
        listener == rewritten(source, sender),
    ensures
        listener.is_terminator == source.is_terminator,
        listener.frame_number == source.frame_number,
        listener.opus_data == source.opus_data,
        listener.sender_session == sender.0,
        listener.header == Some(AudioHeader::Context(0)),
        listener.positional_data.len() == 0,
        listener.volume_adjustment == 0,
        rewritten(other, sender) == listener <==> other.frame_number == source.frame_number
            && other.opus_data == source.opus_data && other.is_terminator == source.is_terminator,
{
}

/// A ping is answered with its own timestamp, and with the server's version, users and
/// limits. The answer asks for nothing, so that no two servers answer each other.
pub proof fn a_ping_gets_its_timestamp_back(request: Ping, server: ServerStatistics)
    ensures
        ({
            let reply = reply_to(request, server);
            &&& reply.timestamp == request.timestamp
            &&& !reply.request_extended_information
            &&& reply.server_version_v2 == server.version_v2
            &&& server.users <= u32::MAX ==> reply.user_count == server.users
            &&& server.users > u32::MAX ==> reply.user_count == u32::MAX
            &&& reply.max_user_count == server.max_users
            &&& reply.max_bandwidth_per_user == server.max_bandwidth
        }),
{
}

/// A packet goes to someone exactly where the budget allows it, and it is normal speech
/// or an echo that an unmuted speaker asked for. An echo goes to its speaker alone, and
/// normal speech to nobody that the table does not name.
pub proof fn a_packet_goes_where_its_target_says(
    route: SpeakerRoute,
    cursors: Seq<Option<u64>>,
    allowed: bool,
    header: Option<AudioHeader>,
    listener: SessionId,
)
    requires
        cursors.len() == route.receivers@.len(),
    ensures
        ({
            let result = routed(route, cursors, allowed, header);
            &&& result is Ok <==> allowed && (header == Some(AudioHeader::Target(0)) || (header == Some(
                AudioHeader::Target(31),
            ) && route.may_speak))
            &&& !allowed ==> result == Err::<Seq<SessionId>, VoiceDrop>(VoiceDrop::BudgetExhausted)
            &&& allowed && header == Some(AudioHeader::Target(31)) && !route.may_speak ==> result
                == Err::<Seq<SessionId>, VoiceDrop>(VoiceDrop::Muted)
            &&& allowed && !(header matches Some(AudioHeader::Target(_))) ==> result == Err::<
                Seq<SessionId>,
                VoiceDrop,
            >(VoiceDrop::NoTarget)
            &&& allowed ==> (header matches Some(AudioHeader::Target(target)) ==> target != 0
                && target != 31 ==> result == Err::<Seq<SessionId>, VoiceDrop>(
                VoiceDrop::UnregisteredTarget(target),
            ))
            &&& result is Ok && header == Some(AudioHeader::Target(31)) ==> result->Ok_0.len() == 1
                && result->Ok_0[0] == route.session
            &&& result is Ok && header == Some(AudioHeader::Target(0)) ==> (
            result->Ok_0.contains(listener) <==> exists|i: int|
                0 <= i < route.receivers@.len() && #[trigger] route.receivers@[i] == listener && (
                cursors[i] matches Some(cursor) && (route.since matches Some(since) ==> cursor
                    >= since)))
        }),
{
    only_listeners_that_know_the_speaker_hear_it(
        route.receivers@,
        cursors,
        match route.since {
            Some(since) => since,
            None => 0,
        },
        listener,
    );
}

/// A listener is reached where it was last heard: in a datagram under its own key, of
/// which the counter moves on by one, or in the clear through its tunnel. Its session, its
/// address and the counter that it sends under stay as they are.
pub proof fn a_listener_is_reached_where_it_was_heard(
    listener: ListenerModel,
    plaintext: Seq<u8>,
)
    requires
        listener.crypt.wf(),
    ensures
        ({
            let (after, delivery) = delivered_to(listener, plaintext);
            &&& after.session == listener.session
            &&& after.destination == listener.destination
            &&& after.crypt.key == listener.crypt.key
            &&& after.crypt.decrypt_iv == listener.crypt.decrypt_iv
            &&& (delivery matches DeliveryModel::Datagram { sealed, address }
                && listener.destination == Some(address) && sealed == listener.crypt.packet(plaintext)
                && crate::ocb2::counter_value(after.crypt.encrypt_iv) == (
            crate::ocb2::counter_value(listener.crypt.encrypt_iv) + 1)
                % crate::ocb2::counter_range(16)) || (delivery matches DeliveryModel::Tunnel(message) && listener.destination is None
                && message.message_type == TcpMessageType::UdpTunnel && message.payload == plaintext
                && after == listener)
        }),
{
    crate::ocb2::the_counter_counts(listener.crypt.encrypt_iv);
}

/// Of the connections from one host, a datagram goes to the first that accepts it; it
/// goes to none only where none does. The address of a bound connection is not tried
/// under another one, and no connection but the one that accepts is touched.
pub proof fn a_datagram_goes_to_the_first_that_accepts_it(
    states: Seq<CryptModel>,
    bound: Option<int>,
    candidates: Seq<int>,
    datagram: Seq<u8>,
    other: int,
)
    requires
        0 <= other < states.len(),
        bound matches Some(peer) ==> 0 <= peer < states.len(),
        forall|i: int| 0 <= i < candidates.len() ==> 0 <= #[trigger] candidates[i] < states.len(),
    ensures
        ({
            let (after, outcome) = associated(states, bound, candidates, datagram);
            &&& after.len() == states.len()
            &&& match outcome {
                AssociationModel::Bound { peer, plaintext } => {
                    &&& bound == Some(peer)
                    &&& states[peer].accepts(datagram)
                    &&& plaintext == states[peer].content(datagram).bytes
                    &&& after[peer] == states[peer].decrypted(datagram)
                    &&& other != peer ==> after[other] == states[other]
                },
                AssociationModel::Undecryptable { peer } => {
                    &&& bound == Some(peer)
                    &&& !states[peer].accepts(datagram)
                    &&& after == states
                },
                AssociationModel::Fresh { peer, plaintext } => {
                    &&& bound is None
                    &&& states[peer].accepts(datagram)
                    &&& plaintext == states[peer].content(datagram).bytes
                    &&& after[peer] == states[peer].decrypted(datagram)
                    &&& other != peer ==> after[other] == states[other]
                    &&& exists|i: int|
                        0 <= i < candidates.len() && #[trigger] candidates[i] == peer && forall|
                            j: int,
                        |
                            0 <= j < i ==> !states[#[trigger] candidates[j]].accepts(datagram)
                },
                AssociationModel::Unassociated => {
                    &&& bound is None
                    &&& after == states
                    &&& forall|j: int|
                        0 <= j < candidates.len() ==> !states[#[trigger] candidates[j]].accepts(
                            datagram,
                        )
                },
            }
        }),
{
    if bound is None {
        lemma_first_accepting(states, candidates, datagram);
    }
}

proof fn lemma_first_accepting(states: Seq<CryptModel>, candidates: Seq<int>, datagram: Seq<u8>)
    ensures
        match first_accepting(states, candidates, datagram) {
            Some(peer) => states[peer].accepts(datagram) && exists|i: int|
                0 <= i < candidates.len() && #[trigger] candidates[i] == peer && forall|j: int|
                    0 <= j < i ==> !states[#[trigger] candidates[j]].accepts(datagram),
            None => forall|j: int|
                0 <= j < candidates.len() ==> !states[#[trigger] candidates[j]].accepts(datagram),
        },
    decreases candidates.len(),
{
    if candidates.len() > 0 {
        if states[candidates[0]].accepts(datagram) {
            assert(candidates[0] == candidates[0]);
        } else {
            let rest = candidates.drop_first();
            lemma_first_accepting(states, rest, datagram);
            assert forall|j: int| 0 < j < candidates.len() implies #[trigger] candidates[j] == rest[j
                - 1] by {}
            if first_accepting(states, rest, datagram) is Some {
                let peer = first_accepting(states, rest, datagram)->Some_0;
                let i = choose|i: int|
                    0 <= i < rest.len() && #[trigger] rest[i] == peer && forall|j: int|
                        0 <= j < i ==> !states[#[trigger] rest[j]].accepts(datagram);
                assert(candidates[i + 1] == peer);
            }
        }
    }
}

/// A packet whose size lies in the band, both ends included, is looked into; another one
/// is dropped. A ping is answered with its own timestamp, and voice is routed as it came.
pub proof fn a_packet_in_the_band_is_looked_into(
    band: SizeBand,
    len: usize,
    message: Option<UdpMessage>,
    server: ServerStatistics,
    decision: Dispatch,
)
    requires
        call_ensures(dispatch, (&band, len, message, &server), decision),
    ensures
        decision is OutOfBand <==> !(band.minimum <= len <= band.maximum),
        band.minimum <= len <= band.maximum ==> match message {
            None => decision is BadEnvelope,
            Some(UdpMessage::Ping(ping)) => decision matches Dispatch::Answer(reply)
                && reply.timestamp == ping.timestamp && !reply.request_extended_information,
            Some(UdpMessage::Audio(audio)) => decision matches Dispatch::Route(routed)
                && routed.header == audio.header && routed.frame_number == audio.frame_number
                && routed.opus_data@ == audio.opus_data@ && routed.is_terminator
                == audio.is_terminator,
        },
{
}

/// A stranger is answered where it sent a ping, and not otherwise.
pub proof fn a_stranger_is_answered_its_ping(
    message: Option<UdpMessage>,
    server: ServerStatistics,
    reply: Option<Ping>,
)
    requires
        call_ensures(dispatch_unassociated, (message, &server), reply),
    ensures
        reply is Some <==> (message matches Some(UdpMessage::Ping(_))),
        message matches Some(UdpMessage::Ping(ping)) ==> reply->0.timestamp == ping.timestamp,
{
}

/// The server encrypts from the server nonce on and decrypts from the client nonce on,
/// under the key; the client is told all three, each as what it is.
pub proof fn both_ends_are_told_the_same_secrets(
    key: Block,
    server_nonce: Block,
    client_nonce: Block,
    made: (CryptSetup, CryptState),
)
    requires
        call_ensures(crypt_setup, (&key, &server_nonce, &client_nonce), made),
    ensures
        made.0.key matches Some(told) && told@ == key@,
        made.0.server_nonce matches Some(told) && told@ == server_nonce@,
        made.0.client_nonce matches Some(told) && told@ == client_nonce@,
        made.1@.key == key@,
        made.1@.encrypt_iv == server_nonce@,
        made.1@.decrypt_iv == client_nonce@,
        made.1@.good == 0 && made.1@.late == 0 && made.1@.lost == 0,
        forall|i: int| 0 <= i < 256 ==> #[trigger] made.1@.decrypt_history[i] == 0,
{
}

/// A session stands in a list where one of that session is, and at the first such place.
pub proof fn a_session_is_found_at_its_first_place(
    listeners: Seq<ListenerModel>,
    session: SessionId,
)
    ensures
        match place_of(listeners, session) {
            Some(place) => 0 <= place < listeners.len() && listeners[place].session == session
                && forall|k: int| 0 <= k < place ==> (#[trigger] listeners[k]).session != session,
            None => forall|k: int|
                0 <= k < listeners.len() ==> (#[trigger] listeners[k]).session != session,
        },
    decreases listeners.len(),
{
    if listeners.len() > 0 {
        let fewer = listeners.drop_last();
        a_session_is_found_at_its_first_place(fewer, session);
        assert forall|k: int| 0 <= k < fewer.len() implies #[trigger] listeners[k] == fewer[k] by {}
    }
}

/// Whoever is addressed and connected gets the packet, in the order of the addresses: at
/// its address in a datagram, or through its tunnel as it is.
pub proof fn whoever_is_addressed_gets_the_packet(
    listeners: Seq<ListenerModel>,
    addressed: Seq<SessionId>,
    plaintext: Seq<u8>,
    i: int,
)
    requires
        forall|k: int|
            0 <= k < addressed.len() ==> exists|place: int|
                0 <= place < listeners.len() && (#[trigger] listeners[place]).session
                    == #[trigger] addressed[k],
        0 <= i < addressed.len(),
    ensures
        ({
            let (after, out) = relayed(listeners, addressed, plaintext);
            &&& out.len() == addressed.len()
            &&& exists|place: int|
                {
                    &&& 0 <= place < listeners.len()
                    &&& (#[trigger] listeners[place]).session == addressed[i]
                    &&& match listeners[place].destination {
                        Some(to) => out[i] matches DeliveryModel::Datagram { address, .. }
                            && address == to,
                        None => out[i] matches DeliveryModel::Tunnel(message)
                            && message.message_type == TcpMessageType::UdpTunnel
                            && message.payload == plaintext,
                    }
                }
        }),
    decreases addressed.len(),
{
    let fewer = addressed.drop_last();
    let n = addressed.len() - 1;
    assert(addressed.last() == addressed[n]);
    assert forall|k: int| 0 <= k < fewer.len() implies exists|place: int|
        0 <= place < listeners.len() && (#[trigger] listeners[place]).session
            == #[trigger] fewer[k] by {
        assert(fewer[k] == addressed[k]);
    }
    let (before, earlier) = relayed(listeners, fewer, plaintext);
    if n > 0 {
        let j: int = if i < n {
            i
        } else {
            0
        };
        whoever_is_addressed_gets_the_packet(listeners, fewer, plaintext, j);
        if i < n {
            assert(fewer[i] == addressed[i]);
        }
    }
    a_session_is_found_at_its_first_place(before, addressed[n]);
    let there = choose|place: int|
        0 <= place < listeners.len() && (#[trigger] listeners[place]).session == addressed[n];
    who_is_not_addressed_is_left_alone(listeners, fewer, plaintext, there);
    assert(before[there].session == addressed[n]);
    assert(place_of(before, addressed[n]) is Some);
    let place = place_of(before, addressed[n])->Some_0;
    lemma_relayed_len(listeners, fewer, plaintext);
    who_is_not_addressed_is_left_alone(listeners, fewer, plaintext, place);
    assert(listeners[place].session == addressed[n]);
    let (after, out) = relayed(listeners, addressed, plaintext);
    assert(out.len() == earlier.len() + 1);
    if i < n {
        assert(out[i] == earlier[i]);
    }
}

proof fn lemma_relayed_len(
    listeners: Seq<ListenerModel>,
    addressed: Seq<SessionId>,
    plaintext: Seq<u8>,
)
    ensures
        relayed(listeners, addressed, plaintext).0.len() == listeners.len(),
    decreases addressed.len(),
{
    if addressed.len() > 0 {
        let fewer = addressed.drop_last();
        lemma_relayed_len(listeners, fewer, plaintext);
        lemma_place(relayed(listeners, fewer, plaintext).0, addressed.last());
    }
}

/// Those who hear are listed in the table's order: who stands further down in the table
/// comes after all who hear and stand above.
pub proof fn those_who_hear_are_listed_in_order(
    receivers: Seq<SessionId>,
    cursors: Seq<Option<u64>>,
    since: u64,
    k: int,
)
    requires
        cursors.len() == receivers.len(),
        0 <= k <= receivers.len(),
    ensures
        ({
            let above = hearing(receivers.take(k), cursors.take(k), since);
            let all = hearing(receivers, cursors, since);
            &&& above.is_prefix_of(all)
            &&& k < receivers.len() && (cursors[k] matches Some(cursor) && cursor >= since)
                ==> above.len() < all.len() && all[above.len() as int] == receivers[k]
            &&& all.len() <= receivers.len()
        }),
    decreases receivers.len(),
{
    let all = hearing(receivers, cursors, since);
    if k < receivers.len() {
        let fewer = receivers.drop_last();
        those_who_hear_are_listed_in_order(fewer, cursors.drop_last(), since, k);
        assert(fewer.take(k) =~= receivers.take(k));
        assert(cursors.drop_last().take(k) =~= cursors.take(k));
        let above = hearing(receivers.take(k), cursors.take(k), since);
        let rest = hearing(fewer, cursors.drop_last(), since);
        if k == fewer.len() {
            assert(receivers.take(k) =~= fewer);
            assert(cursors.take(k) =~= cursors.drop_last());
        } else {
            assert(fewer[k] == receivers[k]);
        }
        assert(above.len() <= rest.len());
        assert(all.take(above.len() as int) =~= rest.take(above.len() as int));
        assert(above =~= all.take(above.len() as int));
    } else {
        assert(receivers.take(k) =~= receivers);
        assert(cursors.take(k) =~= cursors);
        if receivers.len() > 0 {
            those_who_hear_are_listed_in_order(
                receivers.drop_last(),
                cursors.drop_last(),
                since,
                0,
            );
        }
    }
}

} // verus!
