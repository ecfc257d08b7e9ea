//! The Controller server as a reducer: a command comes in, the state moves on,
//! and what is to be done outside is listed in order.

use vstd::prelude::*;

use crate::actor_model::{
    desired_spaces, registered_ids, registration_fault, registrations_fault, registrations_in,
    rejection, snapshot_fault, written_duration, ActorModel, AttachedModel, CommandModel,
    DrawsModel, EffectModel, RegistrationDrawsModel, StreamStatus,
};
use crate::clock::{reaches, Duration, Instant};
use crate::config::ControllerConfig;
use crate::entropy::{random_bytes, random_join_token, ActorStartError};
use crate::host::{ConnectionId, HostError, MumbleHost};
use crate::messages::{
    ClientFrame, ClientPayload, CommandErrorCode, CommandRejected, DesiredStateReconciled,
    DesiredStateSnapshot, FetchResult, FetchSpaceResult, LeaseDuration, ObservedSpacesAccepted,
    OpenSession, OwnershipRevocationReason, ParticipantOwnershipGranted,
    ParticipantOwnershipRevoked, ParticipantRegistration, ParticipantSpecAccepted,
    ParticipantStatus, ParticipantStatusChanged, RenewLease, ResyncRequired, ServerFrame,
    ServerFrameModel, ServerPayload, SessionClosing, SessionReady, SpaceAbsent, SpaceClosed,
    SpaceParticipant, SpaceSnapshot,
};
use crate::ordered::{in_order, SortedMap};
use crate::ownership::{
    ClaimMode, ClaimOutcome, ClaimRequest, OwnershipError, OwnershipModel, OwnershipRegistry,
    OwnershipState, RevisionOutcome,
};
use crate::profile;
use crate::reliable::{LogModel, ReliableCommands, ReliableModel};
use crate::session;
use crate::session::{
    ProfileRef, RenewOutcome, SessionCredentials, SessionError, SessionId, SessionRegistry,
};
use crate::spaces::{
    checked_spec, valid_space_key, MaterializedSpace, ParticipantSpec, ParticipantState,
    ReconcileReport, RenderParticipant, RenderState, SessionState, SpaceEvent, SpaceEventKind,
    SpaceKey, SpaceReport, SpacesValidationError,
};
use crate::text::{copy_bytes, optional, same_bytes, same_text, views};
use crate::text_set::{add_text, distinct_texts, TextSet};

verus! {

/// What is to be done outside the reducer.
pub enum Effect {
    /// Offer a frame to the stream of a session.
    Send { session_id: SessionId, stream_id: u64, frame: ServerFrame },
    /// Offer a frame to a stream without a session.
    Reply { stream_id: u64, frame: ServerFrame },
    /// End a stream with a status.
    EndStream { stream_id: u64, status: StreamStatus, message: String },
    /// Create the shard of a Space.
    CreateShard { space_key: String },
    /// Publish what a Space is to show, and wake its shard.
    Publish { desired: RenderState },
    /// Move a connection to the shard of a Space.
    MoveConnection { connection: ConnectionId, space_key: String },
    /// Close a connection.
    CloseConnection { connection: ConnectionId },
    /// Destroy the shard of a Space.
    DestroyShard { space_key: String, reason: String },
    /// Tell a connection the Space to which it belongs, or why to none.
    RouteReply { connection: ConnectionId, result: Result<String, String> },
}

/// A result whose two sides are texts, by their views.
pub open spec fn text_result(result: Result<String, String>) -> Result<Seq<char>, Seq<char>> {
    match result {
        Ok(text) => Ok(text@),
        Err(text) => Err(text@),
    }
}

/// The outcome of a check that fails with a text.
pub open spec fn check_result(result: Result<(), String>) -> Result<(), Seq<char>> {
    match result {
        Ok(_) => Ok(()),
        Err(text) => Err(text@),
    }
}

impl View for Effect {
    type V = EffectModel;

    open spec fn view(&self) -> EffectModel {
        match self {
            Effect::Send { session_id, stream_id, frame } => EffectModel::Send {
                session_id: *session_id,
                stream_id: *stream_id,
                frame: frame@,
            },
            Effect::Reply { stream_id, frame } => EffectModel::Reply {
                stream_id: *stream_id,
                frame: frame@,
            },
            Effect::EndStream { stream_id, status, message } => EffectModel::EndStream {
                stream_id: *stream_id,
                status: *status,
                message: message@,
            },
            Effect::CreateShard { space_key } => EffectModel::CreateShard {
                space_key: space_key@,
            },
            Effect::Publish { desired } => EffectModel::Publish { desired: desired@ },
            Effect::MoveConnection { connection, space_key } => EffectModel::MoveConnection {
                connection: connection@,
                space_key: space_key@,
            },
            Effect::CloseConnection { connection } => EffectModel::CloseConnection {
                connection: connection@,
            },
            Effect::DestroyShard { space_key, reason } => EffectModel::DestroyShard {
                space_key: space_key@,
                reason: reason@,
            },
            Effect::RouteReply { connection, result } => EffectModel::RouteReply {
                connection: connection@,
                result: text_result(*result),
            },
        }
    }
}

/// The random values that a registration may use up. A value is absent where
/// the random source failed.
pub struct RegistrationDraws {
    pub incarnation_id: Option<Vec<u8>>,
    pub ownership_token: Option<Vec<u8>>,
    pub join_token: Option<String>,
}

impl View for RegistrationDraws {
    type V = RegistrationDrawsModel;

    open spec fn view(&self) -> RegistrationDrawsModel {
        RegistrationDrawsModel {
            incarnation_id: optional(self.incarnation_id),
            ownership_token: optional(self.ownership_token),
            join_token: optional(self.join_token),
        }
    }
}

/// The random values that a command may use up.
pub struct Draws {
    pub session_token: Option<Vec<u8>>,
    pub resume_token: Option<Vec<u8>>,
    pub registrations: Vec<RegistrationDraws>,
}

impl View for Draws {
    type V = DrawsModel;

    open spec fn view(&self) -> DrawsModel {
        DrawsModel {
            session_token: optional(self.session_token),
            resume_token: optional(self.resume_token),
            registrations: views(self.registrations@),
        }
    }
}

/// What the actor is asked to do.
#[derive(Debug)]
pub enum ActorCommand {
    Open { stream_id: u64, frame: ClientFrame },
    Frame { stream_id: u64, frame: ClientFrame },
    StreamClosed { stream_id: u64 },
    Route { connection: ConnectionId, credential: Option<String> },
    SpaceEvent(SpaceReport),
    Reconciled { space_key: String, application_revision: u64, report: ReconcileReport },
}

impl View for ActorCommand {
    type V = CommandModel;

    open spec fn view(&self) -> CommandModel {
        match self {
            ActorCommand::Open { stream_id, frame } => CommandModel::Open {
                stream_id: *stream_id,
                frame: frame@,
            },
            ActorCommand::Frame { stream_id, frame } => CommandModel::Frame {
                stream_id: *stream_id,
                frame: frame@,
            },
            ActorCommand::StreamClosed { stream_id } => CommandModel::StreamClosed {
                stream_id: *stream_id,
            },
            ActorCommand::Route { connection, credential } => CommandModel::Route {
                connection: connection@,
                credential: optional(*credential),
            },
            ActorCommand::SpaceEvent(report) => CommandModel::SpaceEvent(report@),
            ActorCommand::Reconciled { space_key, application_revision, report } =>
                CommandModel::Reconciled {
                    space_key: space_key@,
                    application_revision: *application_revision,
                    report: report@,
                },
        }
    }
}

/// The frames that a command carries can register so many participants.
pub open spec fn command_registrations(command: CommandModel) -> nat {
    match command {
        CommandModel::Open { frame, .. } => registrations_in(frame.payload),
        CommandModel::Frame { frame, .. } => registrations_in(frame.payload),
        _ => 0,
    }
}

struct ControllerSession {
    stream_id: Option<u64>,
    spaces: SessionState,
}

impl ControllerSession {
    spec fn model(self) -> AttachedModel {
        AttachedModel { stream_id: self.stream_id, observations: self.spaces@ }
    }
}

/// The recorded results, by their views.
pub open spec fn frames(commands: ReliableModel<ServerFrame>) -> ReliableModel<ServerFrameModel> {
    ReliableModel {
        maximum_completed_per_session: commands.maximum_completed_per_session,
        sessions: commands.sessions.map_values(|log: LogModel<ServerFrame>| frame_log(log)),
    }
}

pub open spec fn frame_log(log: LogModel<ServerFrame>) -> LogModel<ServerFrameModel> {
    LogModel { order: log.order, results: log.results.map_values(|frame: ServerFrame| frame@) }
}

proof fn lemma_frames_completed(
    commands: ReliableModel<ServerFrame>,
    id: SessionId,
    request_id: Seq<u8>,
    frame: ServerFrame,
)
    ensures
        frames(commands.completed(id, request_id, frame).0) == frames(commands).completed(
            id,
            request_id,
            frame@,
        ).0,
        commands.completed(id, request_id, frame).1 == frames(commands).completed(
            id,
            request_id,
            frame@,
        ).1,
{
    let f = |frame: ServerFrame| frame@;
    let g = |log: LogModel<ServerFrame>| frame_log(log);
    if commands.sessions.dom().contains(id) && request_id.len() > 0 {
        let log = commands.sessions[id];
        let maximum = commands.maximum_completed_per_session;
        let done = log.completed(request_id, frame, maximum);
        crate::ordered::lemma_map_insert(log.results, request_id, frame, f);
        let order = if log.results.dom().contains(request_id) {
            log.order
        } else {
            log.order.push(request_id)
        };
        crate::ordered::lemma_map_remove(log.results.insert(request_id, frame), order[0], f);
        assert(frame_log(done) =~= frame_log(log).completed(request_id, frame@, maximum));
        crate::ordered::lemma_map_insert(commands.sessions, id, done, g);
    }
    assert(frames(commands.completed(id, request_id, frame).0) =~= frames(commands).completed(
        id,
        request_id,
        frame@,
    ).0);
}

proof fn lemma_frames_attached(commands: ReliableModel<ServerFrame>, id: SessionId)
    ensures
        frames(commands.attached(id)) == frames(commands).attached(id),
{
    let g = |log: LogModel<ServerFrame>| frame_log(log);
    crate::ordered::lemma_map_insert(commands.sessions, id, LogModel::empty(), g);
    assert(frame_log(LogModel::empty()) =~= LogModel::empty());
    assert(frames(commands.attached(id)) =~= frames(commands).attached(id));
}

proof fn lemma_frames_removed(commands: ReliableModel<ServerFrame>, id: SessionId)
    ensures
        frames(commands.removed(id)) == frames(commands).removed(id),
{
    let g = |log: LogModel<ServerFrame>| frame_log(log);
    crate::ordered::lemma_map_remove(commands.sessions, id, g);
    assert(frames(commands.removed(id)) =~= frames(commands).removed(id));
}

/// Filtering and mapping a longer sequence.
proof fn lemma_filter_map_push<A, B>(
    s: Seq<A>,
    a: A,
    pred: spec_fn(A) -> bool,
    f: spec_fn(A) -> B,
)
    ensures
        s.push(a).filter(pred).map_values(f) == (if pred(a) {
            s.filter(pred).map_values(f).push(f(a))
        } else {
            s.filter(pred).map_values(f)
        }),
{
    s.lemma_filter_push(a, pred);
    if pred(a) {
        assert(s.filter(pred).push(a).map_values(f) =~= s.filter(pred).map_values(f).push(f(a)));
    }
}

/// Whether the clock can express what a command at `now` schedules.
pub open spec fn timely(config: ControllerConfig, now: nat) -> bool {
    reaches(now, config.lease_duration@) && reaches(now, config.empty_space_grace@)
}

fn rejection_frame(request_id: Vec<u8>, code: CommandErrorCode, message: &str) -> (frame: ServerFrame)
    ensures
        frame@ == rejection(request_id@, code, message@),
{
    ServerFrame {
        request_id,
        payload: Some(
            ServerPayload::CommandRejected(
                CommandRejected { code: code.code(), message: message.to_owned() },
            ),
        ),
    }
}

fn duration_to_proto(duration: Duration) -> (message: LeaseDuration)
    ensures
        message@ == written_duration(duration@),
{
    let secs: u64 = duration.as_secs();
    let seconds: i64 = if secs > i64::MAX as u64 {
        i64::MAX
    } else {
        secs as i64
    };
    LeaseDuration { seconds, nanos: duration.subsec_nanos() as i32 }
}

/// Checks a Space key.
pub fn validate_space_key(key: &str) -> (result: Result<(), String>)
    ensures
        check_result(result) == (if valid_space_key(key@) {
            Ok(())
        } else {
            Err(SpacesValidationError::InvalidSpaceKey.text())
        }),
{
    match SpaceKey::new(key.to_owned()) {
        Ok(_) => Ok(()),
        Err(error) => Err(error.message()),
    }
}

/// Checks a participant payload off the wire.
pub fn decode_space_spec(spec: &crate::messages::ParticipantSpec) -> (result: Result<
    ParticipantSpec,
    SpacesValidationError,
>)
    ensures
        crate::text::outcome(result) == checked_spec(spec@),
{
    ParticipantSpec::new(
        spec.space_key.clone(),
        spec.display_name.clone(),
        spec.server_mute,
        spec.server_deaf,
    )
}

/// Checks a registration.
pub fn validate_registration(registration: &ParticipantRegistration) -> (result: Result<(), String>)
    ensures
        check_result(result) == registration_fault(registration@),
{
    let participant_id = registration.participant_id.as_str();
    if participant_id.is_empty() || participant_id.as_bytes().len() > 128 {
        return Err("participant_id must contain between 1 and 128 bytes".to_owned());
    }
    if registration.registration_id.is_empty() {
        return Err("registration_id must not be empty".to_owned());
    }
    match &registration.spec {
        None => Err("participant spec is missing".to_owned()),
        Some(spec) => match decode_space_spec(spec) {
            Ok(_) => Ok(()),
            Err(error) => Err(error.message()),
        },
    }
}

/// Checks a list of registrations, each for itself and against those before it.
fn validate_registrations(registrations: &Vec<ParticipantRegistration>) -> (result: Result<
    (),
    String,
>)
    ensures
        check_result(result) == registrations_fault(views(registrations@), Set::empty()),
{
    let ghost all = views(registrations@);
    let mut seen: TextSet = SortedMap::new();
    let mut i: usize = 0;
    assert(all.skip(0) =~= all);
    assert(seen@.dom() =~= Set::empty());
    while i < registrations.len()
        invariant
            all == views(registrations@),
            i <= all.len(),
            seen.wf(),
            registrations_fault(all.skip(i as int), seen@.dom()) == registrations_fault(
                all,
                Set::empty(),
            ),
        decreases all.len() - i,
    {
        let registration = &registrations[i];
        assert(all.skip(i as int)[0] == registration@);
        if let Err(message) = validate_registration(registration) {
            return Err(message);
        }
        if !add_text(&mut seen, registration.participant_id.as_str()) {
            return Err("desired snapshot contains a duplicate participant".to_owned());
        }
        assert(all.skip(i as int).drop_first() =~= all.skip(i + 1));
        i = i + 1;
    }
    Ok(())
}

/// The Spaces that a list of registrations asks for.
fn collect_spaces(registrations: &Vec<ParticipantRegistration>) -> (set: TextSet)
    ensures
        set.wf(),
        set@.dom() == desired_spaces(views(registrations@)),
{
    let ghost all = views(registrations@);
    let mut set: TextSet = SortedMap::new();
    let mut i: usize = 0;
    assert(set@.dom() =~= desired_spaces(all.take(0)));
    while i < registrations.len()
        invariant
            all == views(registrations@),
            i <= all.len(),
            set.wf(),
            set@.dom() == desired_spaces(all.take(i as int)),
        decreases all.len() - i,
    {
        assert(all.take(i + 1).drop_last() =~= all.take(i as int));
        if let Some(spec) = &registrations[i].spec {
            add_text(&mut set, spec.space_key.as_str());
        }
        i = i + 1;
    }
    assert(all.take(i as int) =~= all);
    set
}

/// Checks a full snapshot against the limits of the server.
pub fn validate_snapshot(
    config: &ControllerConfig,
    snapshot: &Option<DesiredStateSnapshot>,
) -> (result: Result<(), String>)
    ensures
        check_result(result) == snapshot_fault(*config, optional(*snapshot)),
{
    let snapshot = match snapshot {
        None => {
            return Err("desired state snapshot is missing".to_owned());
        },
        Some(snapshot) => snapshot,
    };
    if snapshot.participants.len() > config.max_participants_per_session {
        return Err("participant limit per session is exceeded".to_owned());
    }
    if snapshot.participants.len() > config.max_participants {
        return Err("global participant limit is exceeded".to_owned());
    }
    if snapshot.observed_space_keys.len() > config.max_observations_per_session {
        return Err("observation limit per session is exceeded".to_owned());
    }
    if let Err(message) = validate_registrations(&snapshot.participants) {
        return Err(message);
    }
    let spaces = collect_spaces(&snapshot.participants);
    if spaces.len() > config.max_spaces {
        return Err("materialized Space limit is exceeded".to_owned());
    }
    if !distinct_texts(&snapshot.observed_space_keys) {
        return Err("desired snapshot contains a duplicate observation".to_owned());
    }
    if !all_valid_keys(&snapshot.observed_space_keys) {
        return Err(SpacesValidationError::InvalidSpaceKey.message());
    }
    Ok(())
}

/// Whether every text of a list is a valid Space key.
fn all_valid_keys(keys: &Vec<String>) -> (valid: bool)
    ensures
        valid == !(exists|i: int|
            0 <= i < keys@.len() && !valid_space_key(#[trigger] views(keys@)[i])),
{
    let ghost all = views(keys@);
    let mut i: usize = 0;
    while i < keys.len()
        invariant
            all == views(keys@),
            i <= all.len(),
            forall|k: int| 0 <= k < i ==> valid_space_key(#[trigger] all[k]),
        decreases all.len() - i,
    {
        if validate_space_key(keys[i].as_str()).is_err() {
            assert(!valid_space_key(all[i as int]));
            return false;
        }
        assert(valid_space_key(all[i as int]));
        i = i + 1;
    }
    true
}

/// The Controller server.
pub struct ControllerActor {
    config: ControllerConfig,
    profile: ProfileRef,
    control_epoch: Vec<u8>,
    core_sessions: SessionRegistry,
    ownership: OwnershipRegistry,
    reliable: ReliableCommands<ServerFrame>,
    sessions: SortedMap<SessionId, ControllerSession>,
    streams: SortedMap<u64, SessionId>,
    participants: SortedMap<String, ParticipantState>,
    host: MumbleHost,
    spaces: SortedMap<String, MaterializedSpace>,
    next_application_revision: u64,
    effects: Vec<Effect>,
}

impl View for ControllerActor {
    type V = ActorModel;

    closed spec fn view(&self) -> ActorModel {
        ActorModel {
            config: self.config,
            profile: self.profile@,
            control_epoch: self.control_epoch@,
            core_sessions: self.core_sessions@,
            ownership: self.ownership@,
            reliable: frames(self.reliable@),
            sessions: self.sessions@.map_values(|session: ControllerSession| session.model()),
            streams: self.streams@,
            participants: self.participants@.map_values(|p: ParticipantState| p@),
            host: self.host@,
            spaces: self.spaces@.map_values(|space: MaterializedSpace| space@),
            next_application_revision: self.next_application_revision,
            effects: views(self.effects@),
        }
    }
}

impl ControllerActor {
    pub closed spec fn wf(&self) -> bool {
        &&& self.core_sessions.wf()
        &&& self.core_sessions@.lease_duration == self.config.lease_duration@
        &&& self.ownership.wf()
        &&& self.reliable.wf()
        &&& self.sessions.wf()
        &&& self.streams.wf()
        &&& self.participants.wf()
        &&& self.host.wf()
        &&& self.spaces.wf()
        &&& forall|id: SessionId| #[trigger]
            self.sessions@.dom().contains(id) ==> self.sessions@[id].spaces.wf()
        &&& forall|p: Seq<char>| #[trigger]
            self.participants@.dom().contains(p) ==> self.participants@[p].participant_id@ == p
        &&& forall|key: Seq<char>| #[trigger]
            self.spaces@.dom().contains(key) ==> self.spaces@[key].wf()
    }

    proof fn lemma_domains(&self)
        ensures
            self@.sessions.dom() == self.sessions@.dom(),
            self@.participants.dom() == self.participants@.dom(),
            self@.spaces.dom() == self.spaces@.dom(),
    {
        assert(self@.sessions.dom() =~= self.sessions@.dom());
        assert(self@.participants.dom() =~= self.participants@.dom());
        assert(self@.spaces.dom() =~= self.spaces@.dom());
    }

    /// A server without sessions, participants and Spaces.
    pub fn new(config: ControllerConfig, profile: ProfileRef, control_epoch: Vec<u8>) -> (actor: Self)
        ensures
            actor.wf(),
            actor@ == (ActorModel {
                config,
                profile: profile@,
                control_epoch: control_epoch@,
                core_sessions: session::RegistryModel {
                    maximum_sessions: config.max_sessions as nat,
                    lease_duration: config.lease_duration@,
                    sessions: Map::empty(),
                    next_session_id: 1,
                },
                ownership: OwnershipModel {
                    maximum_entities: config.max_participants as nat,
                    maximum_entities_per_owner: config.max_participants_per_session as nat,
                    entries: Map::empty(),
                },
                reliable: ReliableModel {
                    maximum_completed_per_session: config.queue_capacity as nat,
                    sessions: Map::empty(),
                },
                sessions: Map::empty(),
                streams: Map::empty(),
                participants: Map::empty(),
                host: crate::host::BindingsModel { participants: Map::empty() },
                spaces: Map::empty(),
                next_application_revision: 1,
                effects: Seq::empty(),
            }),
    {
        let actor = ControllerActor {
            config,
            profile,
            control_epoch,
            core_sessions: SessionRegistry::new(config.max_sessions, config.lease_duration),
            ownership: OwnershipRegistry::new(
                config.max_participants,
                config.max_participants_per_session,
            ),
            reliable: ReliableCommands::new(config.queue_capacity),
            sessions: SortedMap::new(),
            streams: SortedMap::new(),
            participants: SortedMap::new(),
            host: MumbleHost::new(),
            spaces: SortedMap::new(),
            next_application_revision: 1,
            effects: Vec::new(),
        };
        proof {
            assert(actor@.reliable.sessions =~= Map::empty());
            assert(actor@.sessions =~= Map::empty());
            assert(actor@.participants =~= Map::empty());
            assert(actor@.spaces =~= Map::empty());
            assert(actor@.effects =~= Seq::empty());
            assert(actor@.host =~= crate::host::BindingsModel { participants: Map::empty() });
        }
        actor
    }

    /// Hands out what is to be done, oldest first, and forgets it.
    pub fn take_effects(&mut self) -> (effects: Vec<Effect>)
        requires
            old(self).wf(),
        ensures
            final(self).wf(),
            views(effects@) == old(self)@.effects,
            final(self)@ == (ActorModel { effects: Seq::empty(), ..old(self)@ }),
    {
        let mut effects: Vec<Effect> = Vec::new();
        std::mem::swap(&mut effects, &mut self.effects);
        assert(self@.effects =~= Seq::empty());
        effects
    }

    /// How many sessions, participants and Spaces there are.
    pub fn population(&self) -> (population: (usize, usize, usize))
        requires
            self.wf(),
        ensures
            population.0 == self@.sessions.len(),
            population.1 == self@.participants.len(),
            population.2 == self@.spaces.len(),
    {
        proof {
            self.lemma_domains();
        }
        (self.sessions.len(), self.participants.len(), self.spaces.len())
    }

    fn emit(&mut self, effect: Effect)
        requires
            old(self).wf(),
        ensures
            final(self).wf(),
            final(self)@ == old(self)@.emitted(effect@),
            final(self)@.config == old(self)@.config,
    {
        let ghost before = *self;
        self.effects.push(effect);
        assert(views(self.effects@) =~= views(before.effects@).push(effect@));
    }

    /// Sends a frame to a session that listens.
    fn send_session_uncached(&mut self, session_id: SessionId, frame: ServerFrame)
        requires
            old(self).wf(),
        ensures
            final(self).wf(),
            final(self)@ == old(self)@.sent_uncached(session_id, frame@),
            final(self)@.config == old(self)@.config,
    {
        proof {
            self.lemma_domains();
        }
        let stream = match self.sessions.get(&session_id) {
            None => None,
            Some(session) => session.stream_id,
        };
        if let Some(stream_id) = stream {
            self.emit(Effect::Send { session_id, stream_id, frame });
        }
    }

    /// Records the answer to a request, and sends it.
    fn send_session(&mut self, session_id: SessionId, frame: ServerFrame)
        requires
            old(self).wf(),
        ensures
            final(self).wf(),
            final(self)@ == old(self)@.sent(session_id, frame@),
            final(self)@.config == old(self)@.config,
    {
        let ghost before = *self;
        if !frame.request_id.is_empty() {
            let copy = frame.clone();
            proof {
                lemma_frames_completed(before.reliable@, session_id, frame.request_id@, copy);
            }
            if self.reliable.complete(
                session_id,
                copy_bytes(frame.request_id.as_slice()),
                copy,
            ).is_err() {
                self.core_sessions.mark_resync_required(session_id);
                return;
            }
        }
        self.send_session_uncached(session_id, frame);
    }

    fn send_to_each(&mut self, ids: &Vec<SessionId>, frame: &ServerFrame)
        requires
            old(self).wf(),
        ensures
            final(self).wf(),
            final(self)@ == old(self)@.sent_to_each(ids@, frame@),
            final(self)@.config == old(self)@.config,
    {
        let ghost start = self@;
        let mut i: usize = 0;
        assert(ids@.skip(0) =~= ids@);
        while i < ids.len()
            invariant
                self.wf(),
                i <= ids@.len(),
                self@.sent_to_each(ids@.skip(i as int), frame@) == start.sent_to_each(
                    ids@,
                    frame@,
                ),
                self@.config == start.config,
            decreases ids@.len() - i,
        {
            assert(ids@.skip(i as int).drop_first() =~= ids@.skip(i + 1));
            self.send_session(ids[i], frame.clone());
            i = i + 1;
        }
    }

    fn reject_session(
        &mut self,
        session_id: SessionId,
        request_id: Vec<u8>,
        code: CommandErrorCode,
        message: &str,
    )
        requires
            old(self).wf(),
        ensures
            final(self).wf(),
            final(self)@ == old(self)@.rejected(session_id, request_id@, code, message@),
            final(self)@.config == old(self)@.config,
    {
        self.send_session(session_id, rejection_frame(request_id, code, message));
    }

    fn reject_stream_id(
        &mut self,
        stream_id: u64,
        request_id: Vec<u8>,
        code: CommandErrorCode,
        message: &str,
    )
        requires
            old(self).wf(),
        ensures
            final(self).wf(),
            final(self)@ == old(self)@.stream_rejected(stream_id, request_id@, code, message@),
            final(self)@.config == old(self)@.config,
    {
        let session = match self.streams.get(&stream_id) {
            None => None,
            Some(session_id) => Some(*session_id),
        };
        if let Some(session_id) = session {
            self.reject_session(session_id, request_id, code, message);
        }
    }

    /// Rejects a stream that never became a session, then ends it.
    fn reject_stream(
        &mut self,
        stream_id: u64,
        request_id: Vec<u8>,
        code: CommandErrorCode,
        message: &str,
    )
        requires
            old(self).wf(),
        ensures
            final(self).wf(),
            final(self)@ == old(self)@.opening_rejected(stream_id, request_id@, code, message@),
            final(self)@.config == old(self)@.config,
    {
        self.emit(Effect::Reply { stream_id, frame: rejection_frame(request_id, code, message) });
        self.emit(
            Effect::EndStream {
                stream_id,
                status: StreamStatus::FailedPrecondition,
                message: "OpenSession was rejected; this Controller stream carries no session".to_owned(),
            },
        );
    }

    fn advance_desired_revision(&mut self, session_id: SessionId)
        requires
            old(self).wf(),
        ensures
            final(self).wf(),
            final(self)@ == old(self)@.advanced(session_id),
            final(self)@.config == old(self)@.config,
    {
        self.core_sessions.advance_desired_revision(session_id);
    }

    fn send_grant(
        &mut self,
        session_id: SessionId,
        participant: &ParticipantState,
        request_id: Vec<u8>,
    )
        requires
            old(self).wf(),
        ensures
            final(self).wf(),
            final(self)@ == old(self)@.granted(session_id, participant@, request_id@),
            final(self)@.config == old(self)@.config,
    {
        let ownership = match self.ownership.get(participant.participant_id.as_str()) {
            None => {
                self.reject_session(
                    session_id,
                    request_id,
                    CommandErrorCode::InternalError,
                    "participant Host state has no ownership state",
                );
                return;
            },
            Some(ownership) => ownership.clone(),
        };
        let join_token = match self.host.credential(participant.participant_id.as_str()) {
            None => {
                self.reject_session(
                    session_id,
                    request_id,
                    CommandErrorCode::InternalError,
                    "participant Host state has no Mumble credential",
                );
                return;
            },
            Some(token) => token.to_owned(),
        };
        self.send_session(
            session_id,
            ServerFrame {
                request_id,
                payload: Some(
                    ServerPayload::ParticipantOwnershipGranted(
                        ParticipantOwnershipGranted {
                            participant_id: participant.participant_id.clone(),
                            registration_id: ownership.registration_id,
                            ownership_token: ownership.fencing_token,
                            client_spec_revision: ownership.client_revision,
                            accepted_spec_revision: ownership.client_revision,
                            applied_spec_revision: participant.applied_spec_revision,
                            published_generation: participant.published_generation,
                            connection_credential: join_token,
                        },
                    ),
                ),
            },
        );
    }

    fn send_revocation(
        &mut self,
        session_id: SessionId,
        participant_id: &str,
        registration_id: Vec<u8>,
        reason: OwnershipRevocationReason,
        request_id: Vec<u8>,
    )
        requires
            old(self).wf(),
        ensures
            final(self).wf(),
            final(self)@ == old(self)@.revoked(
                session_id,
                participant_id@,
                registration_id@,
                reason,
                request_id@,
            ),
            final(self)@.config == old(self)@.config,
    {
        self.send_session(
            session_id,
            ServerFrame {
                request_id,
                payload: Some(
                    ServerPayload::ParticipantOwnershipRevoked(
                        ParticipantOwnershipRevoked {
                            participant_id: participant_id.to_owned(),
                            registration_id,
                            reason: reason.code(),
                        },
                    ),
                ),
            },
        );
    }

    fn send_status(&mut self, participant_id: &str)
        requires
            old(self).wf(),
        ensures
            final(self).wf(),
            final(self)@ == old(self)@.status_sent(participant_id@),
            final(self)@.config == old(self)@.config,
    {
        proof {
            self.lemma_domains();
        }
        let participant = match self.participants.get(participant_id) {
            None => {
                return;
            },
            Some(participant) => participant.clone(),
        };
        let (owner, client_revision): (SessionId, u64) = match self.ownership.get(participant_id) {
            None => {
                return;
            },
            Some(ownership) => (ownership.owner, ownership.client_revision),
        };
        let connected = self.host.connection(participant.participant_id.as_str()).is_some();
        let applied_space_key = match participant.applied_space_key {
            Some(key) => key,
            None => String::new(),
        };
        let request_id: Vec<u8> = Vec::new();
        self.send_session(
            owner,
            ServerFrame {
                request_id,
                payload: Some(
                    ServerPayload::ParticipantStatusChanged(
                        ParticipantStatusChanged {
                            participant_id: participant.participant_id,
                            status: Some(
                                ParticipantStatus {
                                    connected,
                                    applied_space_key,
                                    self_mute: participant.self_mute,
                                    self_deaf: participant.self_deaf,
                                    accepted_spec_revision: client_revision,
                                    applied_spec_revision: participant.applied_spec_revision,
                                    published_generation: participant.published_generation,
                                    application_error: participant.application_error,
                                },
                            ),
                        },
                    ),
                ),
            },
        );
    }

    /// What the observers of a Space are shown.
    fn space_snapshot(&self, space_key: &str) -> (snapshot: Option<SpaceSnapshot>)
        requires
            self.wf(),
        ensures
            optional(snapshot) == self@.snapshot_of(space_key@),
    {
        proof {
            self.lemma_domains();
            self.participants.lemma_in_order();
        }
        let space = match self.spaces.get(space_key) {
            None => {
                return None;
            },
            Some(space) => space,
        };
        let ghost keys = self.participants.keys();
        let ghost member = |p: Seq<char>| self@.participants[p].spec.space_key == space_key@;
        let ghost shown = |p: Seq<char>| self@.shown(p);
        let count: usize = self.participants.len();
        let mut participants: Vec<SpaceParticipant> = Vec::new();
        let mut i: usize = 0;
        assert(views(participants@) =~= keys.take(0).filter(member).map_values(shown)) by {
            reveal(Seq::filter);
        }
        while i < count
            invariant
                self.wf(),
                self@.participants.dom() == self.participants@.dom(),
                keys == self.participants.keys(),
                member == (|p: Seq<char>| self@.participants[p].spec.space_key == space_key@),
                shown == (|p: Seq<char>| self@.shown(p)),
                count == keys.len(),
                i <= count,
                views(participants@) == keys.take(i as int).filter(member).map_values(shown),
            decreases count - i,
        {
            let participant = self.participants.value_at(i);
            let ghost p = keys[i as int];
            proof {
                assert(keys.take(i + 1) =~= keys.take(i as int).push(p));
                lemma_filter_map_push(keys.take(i as int), p, member, shown);
            }
            if same_text(participant.spec.space_key().as_str(), space_key) {
                let ghost so_far = participants@;
                let connected = self.host.connection(
                    participant.participant_id.as_str(),
                ).is_some();
                participants.push(
                    SpaceParticipant {
                        participant_id: participant.participant_id.clone(),
                        display_name: participant.spec.display_name().to_owned(),
                        server_mute: participant.spec.server_mute(),
                        server_deaf: participant.spec.server_deaf(),
                        connected,
                    },
                );
                assert(views(participants@) =~= views(so_far).push(self@.shown(p)));
            }
            i = i + 1;
        }
        assert(keys.take(count as int) =~= keys);
        Some(
            SpaceSnapshot {
                space_key: space_key.to_owned(),
                incarnation_id: copy_bytes(space.incarnation_id()),
                space_revision: space.revision(),
                participants,
                published_generation: space.published_generation(),
            },
        )
    }

    /// Whether a session is to be told of a Space.
    fn session_observes(&self, session_id: SessionId, space_key: &str) -> (observed: bool)
        requires
            self.wf(),
        ensures
            observed == self@.observes(session_id, space_key@),
    {
        proof {
            self.lemma_domains();
            self.participants.lemma_in_order();
        }
        if let Some(session) = self.sessions.get(&session_id) {
            if session.spaces.observes(space_key) {
                return true;
            }
        }
        let ghost keys = self.participants.keys();
        let count: usize = self.participants.len();
        let mut i: usize = 0;
        while i < count
            invariant
                self.wf(),
                self@.participants.dom() == self.participants@.dom(),
                keys == self.participants.keys(),
                keys.to_set() == self@.participants.dom(),
                count == keys.len(),
                i <= count,
                forall|k: int|
                    0 <= k < i ==> {
                        let participant = self@.participants[#[trigger] keys[k]];
                        !(self@.ownership.entries.dom().contains(participant.participant_id)
                            && self@.ownership.entries[participant.participant_id].owner
                            == session_id && participant.spec.space_key == space_key@)
                    },
            decreases count - i,
        {
            let participant = self.participants.value_at(i);
            let owned = match self.ownership.get(participant.participant_id.as_str()) {
                None => false,
                Some(ownership) => ownership.owner == session_id,
            };
            if owned && same_text(participant.spec.space_key().as_str(), space_key) {
                assert(self@.participants.dom().contains(keys[i as int]));
                return true;
            }
            i = i + 1;
        }
        proof {
            assert forall|p: Seq<char>| #[trigger] self@.participants.dom().contains(p) implies !(
            self@.ownership.entries.dom().contains(self@.participants[p].participant_id)
                && self@.ownership.entries[self@.participants[p].participant_id].owner == session_id
                && self@.participants[p].spec.space_key == space_key@) by {
                assert(keys.to_set().contains(p));
                let k = choose|k: int| 0 <= k < keys.len() && keys[k] == p;
                assert(keys[k] == p);
            }
        }
        false
    }

    /// The sessions that are to be told of a Space.
    fn observers(&self, space_key: &str) -> (ids: Vec<SessionId>)
        requires
            self.wf(),
        ensures
            ids@ == self@.observers(space_key@),
    {
        proof {
            self.lemma_domains();
            self.sessions.lemma_in_order();
        }
        let ghost keys = self.sessions.keys();
        let ghost told = |id: SessionId| self@.observes(id, space_key@);
        let count: usize = self.sessions.len();
        let mut ids: Vec<SessionId> = Vec::new();
        let mut i: usize = 0;
        assert(ids@ =~= keys.take(0).filter(told)) by {
            reveal(Seq::filter);
        }
        while i < count
            invariant
                self.wf(),
                keys == self.sessions.keys(),
                told == (|id: SessionId| self@.observes(id, space_key@)),
                count == keys.len(),
                i <= count,
                ids@ == keys.take(i as int).filter(told),
            decreases count - i,
        {
            let id: SessionId = *self.sessions.key_at(i);
            proof {
                assert(keys.take(i + 1) =~= keys.take(i as int).push(id));
                keys.take(i as int).lemma_filter_push(id, told);
            }
            if self.session_observes(id, space_key) {
                ids.push(id);
            }
            i = i + 1;
        }
        assert(keys.take(count as int) =~= keys);
        ids
    }

    fn broadcast_space_snapshot(&mut self, space_key: &str)
        requires
            old(self).wf(),
        ensures
            final(self).wf(),
            final(self)@ == old(self)@.snapshot_broadcast(space_key@),
            final(self)@.config == old(self)@.config,
    {
        let snapshot = match self.space_snapshot(space_key) {
            None => {
                return;
            },
            Some(snapshot) => snapshot,
        };
        let ids = self.observers(space_key);
        let request_id: Vec<u8> = Vec::new();
        let frame = ServerFrame {
            request_id,
            payload: Some(ServerPayload::SpaceSnapshot(snapshot)),
        };
        self.send_to_each(&ids, &frame);
    }

    /// The materialized Spaces that a session is to be told of.
    fn observed_spaces(&self, session_id: SessionId) -> (observed: Vec<String>)
        requires
            self.wf(),
        ensures
            views(observed@) == self@.observed_spaces(session_id),
    {
        proof {
            self.lemma_domains();
            self.spaces.lemma_in_order();
        }
        let ghost keys = self.spaces.keys();
        let ghost told = |key: Seq<char>| self@.observes(session_id, key);
        let count: usize = self.spaces.len();
        let mut observed: Vec<String> = Vec::new();
        let mut i: usize = 0;
        assert(views(observed@) =~= keys.take(0).filter(told)) by {
            reveal(Seq::filter);
        }
        while i < count
            invariant
                self.wf(),
                keys == self.spaces.keys(),
                told == (|key: Seq<char>| self@.observes(session_id, key)),
                count == keys.len(),
                i <= count,
                views(observed@) == keys.take(i as int).filter(told),
            decreases count - i,
        {
            let key = self.spaces.key_at(i);
            proof {
                assert(keys.take(i + 1) =~= keys.take(i as int).push(key@));
                keys.take(i as int).lemma_filter_push(key@, told);
            }
            if self.session_observes(session_id, key.as_str()) {
                let ghost so_far = observed@;
                observed.push(key.clone());
                assert(views(observed@) =~= views(so_far).push(key@));
            }
            i = i + 1;
        }
        assert(keys.take(count as int) =~= keys);
        observed
    }

    fn send_effective_space_snapshots(&mut self, session_id: SessionId)
        requires
            old(self).wf(),
        ensures
            final(self).wf(),
            final(self)@ == old(self)@.effective_snapshots_sent(session_id),
            final(self)@.config == old(self)@.config,
    {
        let observed = self.observed_spaces(session_id);
        let ghost start = self@;
        let ghost all = views(observed@);
        let mut i: usize = 0;
        assert(all.skip(0) =~= all);
        while i < observed.len()
            invariant
                self.wf(),
                all == views(observed@),
                i <= all.len(),
                self@.snapshots_sent(session_id, all.skip(i as int)) == start.snapshots_sent(
                    session_id,
                    all,
                ),
                self@.config == start.config,
            decreases all.len() - i,
        {
            assert(all.skip(i as int).drop_first() =~= all.skip(i + 1));
            assert(all.skip(i as int)[0] == observed@[i as int]@);
            if let Some(snapshot) = self.space_snapshot(observed[i].as_str()) {
                let request_id: Vec<u8> = Vec::new();
                self.send_session(
                    session_id,
                    ServerFrame {
                        request_id,
                        payload: Some(ServerPayload::SpaceSnapshot(snapshot)),
                    },
                );
            }
            i = i + 1;
        }
    }

    fn broadcast_space_closed(&mut self, space_key: &str, space: &MaterializedSpace)
        requires
            old(self).wf(),
        ensures
            final(self).wf(),
            final(self)@ == old(self)@.closure_broadcast(space_key@, space@),
            final(self)@.config == old(self)@.config,
    {
        proof {
            self.lemma_domains();
            self.sessions.lemma_in_order();
        }
        let ghost start = self@;
        let ghost keys = self.sessions.keys();
        let ghost told = |id: SessionId|
            start.sessions[id].observations.explicit.contains(space_key@);
        let count: usize = self.sessions.len();
        let mut ids: Vec<SessionId> = Vec::new();
        let mut i: usize = 0;
        assert(ids@ =~= keys.take(0).filter(told)) by {
            reveal(Seq::filter);
        }
        while i < count
            invariant
                self.wf(),
                start == self@,
                start.sessions.dom() == self.sessions@.dom(),
                keys == self.sessions.keys(),
                told == (|id: SessionId|
                    start.sessions[id].observations.explicit.contains(space_key@)),
                count == keys.len(),
                i <= count,
                ids@ == keys.take(i as int).filter(told),
            decreases count - i,
        {
            let id: SessionId = *self.sessions.key_at(i);
            let session = self.sessions.value_at(i);
            proof {
                assert(keys.take(i + 1) =~= keys.take(i as int).push(id));
                keys.take(i as int).lemma_filter_push(id, told);
            }
            if session.spaces.observes(space_key) {
                ids.push(id);
            }
            i = i + 1;
        }
        assert(keys.take(count as int) =~= keys);
        let request_id: Vec<u8> = Vec::new();
        let frame = ServerFrame {
            request_id,
            payload: Some(
                ServerPayload::SpaceClosed(
                    SpaceClosed {
                        space_key: space_key.to_owned(),
                        incarnation_id: copy_bytes(space.incarnation_id()),
                        final_space_revision: space.revision(),
                    },
                ),
            ),
        };
        self.send_to_each(&ids, &frame);
    }

    /// What a Space is to show.
    fn render_list(&self, space_key: &str) -> (rendered: Vec<RenderParticipant>)
        requires
            self.wf(),
        ensures
            views(rendered@) == self@.render_list(space_key@),
    {
        proof {
            self.lemma_domains();
            self.participants.lemma_in_order();
        }
        let ghost keys = self.participants.keys();
        let ghost member = |p: Seq<char>|
            self@.participants[p].spec.space_key == space_key@
                && self@.ownership.entries.dom().contains(self@.participants[p].participant_id);
        let ghost shown = |p: Seq<char>| self@.rendered(p);
        let count: usize = self.participants.len();
        let mut rendered: Vec<RenderParticipant> = Vec::new();
        let mut i: usize = 0;
        assert(views(rendered@) =~= keys.take(0).filter(member).map_values(shown)) by {
            reveal(Seq::filter);
        }
        while i < count
            invariant
                self.wf(),
                self@.participants.dom() == self.participants@.dom(),
                keys == self.participants.keys(),
                member == (|p: Seq<char>|
                    self@.participants[p].spec.space_key == space_key@
                        && self@.ownership.entries.dom().contains(
                        self@.participants[p].participant_id,
                    )),
                shown == (|p: Seq<char>| self@.rendered(p)),
                count == keys.len(),
                i <= count,
                views(rendered@) == keys.take(i as int).filter(member).map_values(shown),
            decreases count - i,
        {
            let participant = self.participants.value_at(i);
            let ghost p = keys[i as int];
            proof {
                assert(keys.take(i + 1) =~= keys.take(i as int).push(p));
                lemma_filter_map_push(keys.take(i as int), p, member, shown);
            }
            if same_text(participant.spec.space_key().as_str(), space_key) {
                if let Some(ownership) = self.ownership.get(participant.participant_id.as_str()) {
                    let ghost so_far = rendered@;
                    rendered.push(
                        RenderParticipant {
                            participant_id: participant.participant_id.clone(),
                            connection: self.host.connection(participant.participant_id.as_str()),
                            display_name: participant.spec.display_name().to_owned(),
                            server_mute: participant.spec.server_mute(),
                            server_deaf: participant.spec.server_deaf(),
                            self_mute: participant.self_mute,
                            self_deaf: participant.self_deaf,
                            accepted_revision: ownership.client_revision,
                        },
                    );
                    assert(views(rendered@) =~= views(so_far).push(self@.rendered(p)));
                }
            }
            i = i + 1;
        }
        assert(keys.take(count as int) =~= keys);
        rendered
    }

    /// Renders a Space anew.
    fn refresh_space(&mut self, space_key: &str, now: Instant)
        requires
            old(self).wf(),
            timely(old(self)@.config, now@),
        ensures
            final(self).wf(),
            final(self)@ == old(self)@.space_refreshed(space_key@, now@),
            final(self)@.config == old(self)@.config,
    {
        let participants = self.render_list(space_key);
        let ghost before = *self;
        proof {
            before.lemma_domains();
        }
        let application_revision: u64 = self.next_application_revision;
        self.next_application_revision = self.next_application_revision.saturating_add(1);
        let grace = self.config.empty_space_grace;
        let desired = match self.spaces.get_mut(space_key) {
            None => {
                return;
            },
            Some(space) => space.refresh(
                application_revision,
                space_key,
                participants,
                now,
                grace,
            ),
        };
        proof {
            crate::ordered::lemma_map_insert(
                before.spaces@,
                space_key@,
                self.spaces@[space_key@],
                |space: MaterializedSpace| space@,
            );
            assert forall|key: Seq<char>| #[trigger]
                self.spaces@.dom().contains(key) implies self.spaces@[key].wf() by {
                if key != space_key@ {
                    assert(before.spaces@.dom().contains(key));
                }
            }
        }
        self.emit(Effect::Publish { desired });
        self.broadcast_space_snapshot(space_key);
    }

    /// Materializes a Space where there is room for it.
    fn ensure_space(&mut self, space_key: &str, incarnation_id: &Option<Vec<u8>>) -> (result: Result<
        (),
        String,
    >)
        requires
            old(self).wf(),
        ensures
            final(self).wf(),
            (final(self)@, check_result(result)) == old(self)@.space_ensured(
                space_key@,
                optional(*incarnation_id),
            ),
            final(self)@.config == old(self)@.config,
    {
        let ghost before = *self;
        proof {
            before.lemma_domains();
        }
        if self.spaces.contains_key(space_key) {
            return Ok(());
        }
        if self.spaces.len() >= self.config.max_spaces {
            return Err("the materialized Space limit is reached".to_owned());
        }
        let incarnation_id = match incarnation_id {
            None => {
                return Err(ActorStartError::Randomness.message());
            },
            Some(incarnation_id) => copy_bytes(incarnation_id.as_slice()),
        };
        let space = MaterializedSpace::new(incarnation_id);
        let ghost created = space;
        self.spaces.insert(space_key.to_owned(), space);
        proof {
            crate::ordered::lemma_map_insert(
                before.spaces@,
                space_key@,
                created,
                |space: MaterializedSpace| space@,
            );
            assert forall|key: Seq<char>| #[trigger]
                self.spaces@.dom().contains(key) implies self.spaces@[key].wf() by {
                if key != space_key@ {
                    assert(before.spaces@.dom().contains(key));
                }
            }
        }
        self.emit(Effect::CreateShard { space_key: space_key.to_owned() });
        Ok(())
    }

    /// Lets the connection of a participant follow it.
    fn move_connection(&mut self, participant_id: &str, space_key: &str)
        requires
            old(self).wf(),
        ensures
            final(self).wf(),
            final(self)@ == old(self)@.connection_moved(participant_id@, space_key@),
            final(self)@.config == old(self)@.config,
    {
        proof {
            self.lemma_domains();
        }
        if let Some(connection) = self.host.connection(participant_id) {
            if self.spaces.contains_key(space_key) {
                self.emit(
                    Effect::MoveConnection { connection, space_key: space_key.to_owned() },
                );
            }
        }
    }

    /// Stores the state of a participant.
    fn store_participant(&mut self, participant_id: &str, participant: ParticipantState)
        requires
            old(self).wf(),
            participant.participant_id@ == participant_id@,
        ensures
            final(self).wf(),
            final(self)@ == old(self)@.with_participant(participant_id@, participant@),
            final(self)@.config == old(self)@.config,
    {
        let ghost before = *self;
        self.participants.insert(participant_id.to_owned(), participant);
        proof {
            crate::ordered::lemma_map_insert(
                before.participants@,
                participant_id@,
                participant,
                |p: ParticipantState| p@,
            );
            assert forall|p: Seq<char>| #[trigger]
                self.participants@.dom().contains(p) implies self.participants@[p].participant_id@
                == p by {
                if p != participant_id@ {
                    assert(before.participants@.dom().contains(p));
                }
            }
        }
    }

    /// The state of a participant.
    fn participant(&self, participant_id: &str) -> (participant: Option<ParticipantState>)
        requires
            self.wf(),
        ensures
            match participant {
                Some(found) => {
                    &&& self@.participants.dom().contains(participant_id@)
                    &&& found@ == self@.participants[participant_id@]
                    &&& found.participant_id@ == participant_id@
                },
                None => !self@.participants.dom().contains(participant_id@),
            },
    {
        proof {
            self.lemma_domains();
        }
        match self.participants.get(participant_id) {
            None => None,
            Some(participant) => {
                assert(self.participants@.dom().contains(participant_id@));
                let copy = participant.clone();
                assert(copy@.participant_id == participant@.participant_id);
                Some(copy)
            },
        }
    }

    fn apply_spec(&mut self, participant_id: &str, spec: ParticipantSpec, now: Instant)
        requires
            old(self).wf(),
            timely(old(self)@.config, now@),
        ensures
            final(self).wf(),
            final(self)@ == old(self)@.spec_applied(participant_id@, spec@, now@),
            final(self)@.config == old(self)@.config,
    {
        let mut current = match self.participant(participant_id) {
            None => {
                return;
            },
            Some(current) => current,
        };
        let old_space = current.spec.space_key().as_str().to_owned();
        let new_space = spec.space_key().as_str().to_owned();
        current.spec = spec;
        self.store_participant(participant_id, current);
        self.refresh_space(old_space.as_str(), now);
        if !same_text(new_space.as_str(), old_space.as_str()) {
            self.refresh_space(new_space.as_str(), now);
            self.move_connection(participant_id, new_space.as_str());
        }
    }

    fn reject_optional(
        &mut self,
        session_id: SessionId,
        request_id: Option<Vec<u8>>,
        code: CommandErrorCode,
        message: &str,
    )
        requires
            old(self).wf(),
        ensures
            final(self).wf(),
            final(self)@ == old(self)@.maybe_rejected(
                session_id,
                optional(request_id),
                code,
                message@,
            ),
            final(self)@.config == old(self)@.config,
    {
        if let Some(request_id) = request_id {
            self.reject_session(session_id, request_id, code, message);
        }
    }

    /// Gives a participant up, under its current capability.
    fn release(
        &mut self,
        session_id: SessionId,
        participant_id: &str,
        registration_id: &[u8],
        ownership_token: &[u8],
        reason: OwnershipRevocationReason,
        request_id: Option<Vec<u8>>,
        now: Instant,
    )
        requires
            old(self).wf(),
            timely(old(self)@.config, now@),
        ensures
            final(self).wf(),
            final(self)@ == old(self)@.released(
                session_id,
                participant_id@,
                registration_id@,
                ownership_token@,
                reason,
                optional(request_id),
                now@,
            ),
            final(self)@.config == old(self)@.config,
    {
        let ghost before = *self;
        proof {
            before.lemma_domains();
        }
        if !self.participants.contains_key(participant_id) {
            if self.ownership.get(participant_id).is_some() {
                self.reject_optional(
                    session_id,
                    request_id,
                    CommandErrorCode::InternalError,
                    "ownership has no Host participant state",
                );
            } else {
                self.reject_optional(
                    session_id,
                    request_id,
                    CommandErrorCode::OwnershipLost,
                    "participant is no longer owned",
                );
            }
            return;
        }
        let released = match self.ownership.release(
            participant_id,
            session_id,
            registration_id,
            ownership_token,
        ) {
            Ok(released) => released,
            Err(_) => {
                self.reject_optional(
                    session_id,
                    request_id,
                    CommandErrorCode::OwnershipLost,
                    "participant ownership token is stale",
                );
                return;
            },
        };
        let current = match self.participants.remove(participant_id) {
            None => {
                return;
            },
            Some(current) => current,
        };
        let connection = self.host.revoke(participant_id);
        proof {
            crate::ordered::lemma_map_remove(
                before.participants@,
                participant_id@,
                |p: ParticipantState| p@,
            );
            assert forall|p: Seq<char>| #[trigger]
                self.participants@.dom().contains(p) implies self.participants@[p].participant_id@
                == p by {
                assert(before.participants@.dom().contains(p));
            }
            assert(current@ == before@.participants[participant_id@]);
        }
        if let Some(connection) = connection {
            self.emit(Effect::CloseConnection { connection });
        }
        self.refresh_space(current.spec.space_key().as_str(), now);
        let answered: Vec<u8> = match request_id {
            Some(request_id) => request_id,
            None => Vec::new(),
        };
        self.send_revocation(
            session_id,
            participant_id,
            released.registration_id,
            reason,
            answered,
        );
    }

    fn release_all(
        &mut self,
        session_id: SessionId,
        ids: &Vec<String>,
        reason: OwnershipRevocationReason,
        now: Instant,
    )
        requires
            old(self).wf(),
            timely(old(self)@.config, now@),
        ensures
            final(self).wf(),
            final(self)@ == old(self)@.all_released(session_id, views(ids@), reason, now@),
            final(self)@.config == old(self)@.config,
    {
        let ghost start = self@;
        let ghost all = views(ids@);
        let mut i: usize = 0;
        assert(all.skip(0) =~= all);
        while i < ids.len()
            invariant
                self.wf(),
                timely(self@.config, now@),
                all == views(ids@),
                i <= all.len(),
                self@.all_released(session_id, all.skip(i as int), reason, now@)
                    == start.all_released(session_id, all, reason, now@),
                self@.config == start.config,
            decreases all.len() - i,
        {
            assert(all.skip(i as int).drop_first() =~= all.skip(i + 1));
            assert(all.skip(i as int)[0] == ids@[i as int]@);
            let ownership = match self.ownership.get(ids[i].as_str()) {
                None => None,
                Some(ownership) => Some(ownership.clone()),
            };
            if let Some(ownership) = ownership {
                self.release(
                    session_id,
                    ids[i].as_str(),
                    ownership.registration_id.as_slice(),
                    ownership.fencing_token.as_slice(),
                    reason,
                    None,
                    now,
                );
            }
            i = i + 1;
        }
    }

    /// Resumes an own registration under its credentials.
    fn resume_registration(
        &mut self,
        session_id: SessionId,
        registration: &ParticipantRegistration,
        request_id: Vec<u8>,
        mode: ClaimMode,
        now: Instant,
    )
        requires
            old(self).wf(),
            timely(old(self)@.config, now@),
        ensures
            final(self).wf(),
            final(self)@ == old(self)@.resumed(
                session_id,
                registration@,
                request_id@,
                mode,
                now@,
            ),
            final(self)@.config == old(self)@.config,
    {
        proof {
            self.lemma_domains();
        }
        let participant_id = registration.participant_id.as_str();
        let spec = match &registration.spec {
            None => {
                self.reject_session(
                    session_id,
                    request_id,
                    CommandErrorCode::InvalidArgument,
                    "participant spec is missing",
                );
                return;
            },
            Some(spec) => match decode_space_spec(spec) {
                Ok(spec) => spec,
                Err(error) => {
                    self.reject_session(
                        session_id,
                        request_id,
                        CommandErrorCode::InvalidArgument,
                        error.message().as_str(),
                    );
                    return;
                },
            },
        };
        if !self.participants.contains_key(participant_id) {
            self.reject_session(
                session_id,
                request_id,
                CommandErrorCode::InternalError,
                "resumed ownership has no Host participant state",
            );
            return;
        }
        let new_fencing_token: Vec<u8> = Vec::new();
        let claim = self.ownership.claim(
            ClaimRequest {
                entity_id: participant_id,
                owner: session_id,
                registration_id: registration.registration_id.as_slice(),
                presented_fencing_token: registration.ownership_token.as_slice(),
                client_revision: registration.client_spec_revision,
                new_fencing_token,
                mode,
            },
        );
        let revision_advanced = match claim {
            Ok(ClaimOutcome::Resumed { revision_advanced, .. }) => revision_advanced,
            Ok(ClaimOutcome::Acquired { .. }) => {
                self.reject_session(
                    session_id,
                    request_id,
                    CommandErrorCode::InternalError,
                    "a resumed registration unexpectedly acquired ownership",
                );
                return;
            },
            Err(error) => {
                self.reject_session(
                    session_id,
                    request_id,
                    CommandErrorCode::InternalError,
                    error.message().as_str(),
                );
                return;
            },
        };
        if revision_advanced {
            self.apply_spec(participant_id, spec, now);
        }
        if let Some(participant) = self.participant(participant_id) {
            self.send_grant(session_id, &participant, request_id);
        }
    }

    /// The limits and indexes that an acquisition is checked against.
    fn acquisition_fault(&self, session_id: SessionId, participant_id: &str) -> (fault: Option<
        (CommandErrorCode, &'static str),
    >)
        requires
            self.wf(),
        ensures
            match fault {
                Some(found) => self@.acquisition_fault(session_id, participant_id@) == Some(
                    (found.0, found.1@),
                ),
                None => self@.acquisition_fault(session_id, participant_id@) is None,
            },
    {
        proof {
            self.lemma_domains();
        }
        let owner = match self.ownership.get(participant_id) {
            None => None,
            Some(ownership) => Some(ownership.owner),
        };
        if owner.is_some() != self.participants.contains_key(participant_id) || owner.is_some()
            != self.host.contains(participant_id) {
            return Some(
                (
                    CommandErrorCode::InternalError,
                    "Core ownership and Host participant state disagree",
                ),
            );
        }
        if owner.is_none() && self.participants.len() >= self.config.max_participants {
            return Some(
                (
                    CommandErrorCode::ResourceExhausted,
                    "the global participant limit is reached",
                ),
            );
        }
        let owned = self.ownership.owned_entities(session_id);
        let own = match owner {
            None => false,
            Some(owner) => owner == session_id,
        };
        if !own && owned.len() >= self.config.max_participants_per_session {
            return Some(
                (
                    CommandErrorCode::ResourceExhausted,
                    "the participant limit per session is reached",
                ),
            );
        }
        None
    }

    /// Gives a participant a new owner, or its first one.
    fn acquire(
        &mut self,
        session_id: SessionId,
        registration: &ParticipantRegistration,
        request_id: Vec<u8>,
        mode: ClaimMode,
        draws: &RegistrationDraws,
        now: Instant,
    )
        requires
            old(self).wf(),
            timely(old(self)@.config, now@),
        ensures
            final(self).wf(),
            final(self)@ == old(self)@.acquired(
                session_id,
                registration@,
                request_id@,
                mode,
                draws@,
                now@,
            ),
            final(self)@.config == old(self)@.config,
    {
        let spec = match &registration.spec {
            None => {
                self.reject_session(
                    session_id,
                    request_id,
                    CommandErrorCode::InvalidArgument,
                    "participant spec is missing",
                );
                return;
            },
            Some(spec) => match decode_space_spec(spec) {
                Ok(spec) => spec,
                Err(error) => {
                    self.reject_session(
                        session_id,
                        request_id,
                        CommandErrorCode::InvalidArgument,
                        error.message().as_str(),
                    );
                    return;
                },
            },
        };
        if let Some((code, message)) = self.acquisition_fault(
            session_id,
            registration.participant_id.as_str(),
        ) {
            self.reject_session(session_id, request_id, code, message);
            return;
        }
        if let Err(error) = self.ensure_space(spec.space_key().as_str(), &draws.incarnation_id) {
            self.reject_session(
                session_id,
                request_id,
                CommandErrorCode::ResourceExhausted,
                error.as_str(),
            );
            return;
        }
        self.acquire_in_space(session_id, registration, spec, request_id, mode, draws, now);
    }

    fn acquire_in_space(
        &mut self,
        session_id: SessionId,
        registration: &ParticipantRegistration,
        spec: ParticipantSpec,
        request_id: Vec<u8>,
        mode: ClaimMode,
        draws: &RegistrationDraws,
        now: Instant,
    )
        requires
            old(self).wf(),
            timely(old(self)@.config, now@),
        ensures
            final(self).wf(),
            final(self)@ == old(self)@.acquired_in_space(
                session_id,
                registration@,
                spec@,
                request_id@,
                mode,
                draws@,
                now@,
            ),
            final(self)@.config == old(self)@.config,
    {
        let (ownership_token, join_token) = match (&draws.ownership_token, &draws.join_token) {
            (Some(ownership_token), Some(join_token)) => (
                copy_bytes(ownership_token.as_slice()),
                join_token.clone(),
            ),
            _ => {
                self.reject_session(
                    session_id,
                    request_id,
                    CommandErrorCode::InternalError,
                    ActorStartError::Randomness.message().as_str(),
                );
                return;
            },
        };
        if !self.host.credential_available(join_token.as_str()) {
            self.reject_session(
                session_id,
                request_id,
                CommandErrorCode::InternalError,
                "generated Mumble credential collides with a live registration",
            );
            return;
        }
        let claim = self.ownership.claim(
            ClaimRequest {
                entity_id: registration.participant_id.as_str(),
                owner: session_id,
                registration_id: registration.registration_id.as_slice(),
                presented_fencing_token: registration.ownership_token.as_slice(),
                client_revision: registration.client_spec_revision,
                new_fencing_token: ownership_token,
                mode,
            },
        );
        match claim {
            Ok(ClaimOutcome::Acquired { previous, .. }) => {
                self.install(
                    session_id,
                    registration,
                    spec,
                    request_id,
                    previous,
                    join_token,
                    now,
                );
            },
            Ok(ClaimOutcome::Resumed { .. }) => {
                self.reject_session(
                    session_id,
                    request_id,
                    CommandErrorCode::InternalError,
                    "an ownership acquisition unexpectedly resumed a registration",
                );
            },
            Err(OwnershipError::GlobalLimit) | Err(OwnershipError::OwnerLimit) => {
                self.reject_session(
                    session_id,
                    request_id,
                    CommandErrorCode::ResourceExhausted,
                    "the ownership limit is reached",
                );
            },
            Err(OwnershipError::SnapshotConflict) => {
                self.send_revocation(
                    session_id,
                    registration.participant_id.as_str(),
                    copy_bytes(registration.registration_id.as_slice()),
                    OwnershipRevocationReason::RegistrationRejected,
                    request_id,
                );
            },
            Err(error) => {
                self.reject_session(
                    session_id,
                    request_id,
                    CommandErrorCode::InternalError,
                    error.message().as_str(),
                );
            },
        }
    }

    fn install(
        &mut self,
        session_id: SessionId,
        registration: &ParticipantRegistration,
        spec: ParticipantSpec,
        request_id: Vec<u8>,
        previous: Option<OwnershipState>,
        join_token: String,
        now: Instant,
    )
        requires
            old(self).wf(),
            timely(old(self)@.config, now@),
        ensures
            final(self).wf(),
            final(self)@ == old(self)@.installed(
                session_id,
                registration@,
                spec@,
                request_id@,
                optional(previous),
                join_token@,
                now@,
            ),
            final(self)@.config == old(self)@.config,
    {
        let participant_id = registration.participant_id.as_str();
        let mut self_mute = false;
        let mut self_deaf = false;
        let mut applied_space_key: Option<String> = None;
        let mut published_generation: u64 = 0;
        if let Some(ownership) = previous {
            let replaced = match self.participant(participant_id) {
                None => {
                    self.reject_session(
                        session_id,
                        request_id,
                        CommandErrorCode::InternalError,
                        "replaced ownership has no Host participant state",
                    );
                    return;
                },
                Some(replaced) => replaced,
            };
            self_mute = replaced.self_mute;
            self_deaf = replaced.self_deaf;
            applied_space_key = replaced.applied_space_key;
            published_generation = replaced.published_generation;
            self.advance_desired_revision(ownership.owner);
            self.send_revocation(
                ownership.owner,
                replaced.participant_id.as_str(),
                ownership.registration_id,
                OwnershipRevocationReason::OwnershipReplaced,
                Vec::new(),
            );
        }
        if let Err(error) = self.host.register(participant_id, join_token) {
            self.reject_session(
                session_id,
                request_id,
                CommandErrorCode::InternalError,
                error.message().as_str(),
            );
            return;
        }
        let old_space = match self.participant(participant_id) {
            None => None,
            Some(known) => Some(known.spec.space_key().as_str().to_owned()),
        };
        let new_space = spec.space_key().as_str().to_owned();
        let participant = ParticipantState {
            participant_id: registration.participant_id.clone(),
            applied_spec_revision: 0,
            applied_space_key,
            published_generation,
            spec,
            self_mute,
            self_deaf,
            application_error: String::new(),
        };
        self.store_participant(participant_id, participant.clone());
        let moved_from = match old_space {
            None => None,
            Some(old_space) => {
                if same_text(old_space.as_str(), new_space.as_str()) {
                    None
                } else {
                    Some(old_space)
                }
            },
        };
        match moved_from {
            Some(old_space) => {
                self.refresh_space(old_space.as_str(), now);
                self.refresh_space(new_space.as_str(), now);
                self.move_connection(participant_id, new_space.as_str());
            },
            None => {
                self.refresh_space(new_space.as_str(), now);
            },
        }
        self.send_grant(session_id, &participant, request_id);
        self.send_status(participant_id);
    }

    fn register_from_snapshot(
        &mut self,
        session_id: SessionId,
        registration: &ParticipantRegistration,
        request_id: Vec<u8>,
        draws: &RegistrationDraws,
        now: Instant,
    )
        requires
            old(self).wf(),
            timely(old(self)@.config, now@),
        ensures
            final(self).wf(),
            final(self)@ == old(self)@.registered_from_snapshot(
                session_id,
                registration@,
                request_id@,
                draws@,
                now@,
            ),
            final(self)@.config == old(self)@.config,
    {
        let held = match self.ownership.get(registration.participant_id.as_str()) {
            None => None,
            Some(current) => Some(
                current.owner == session_id && same_bytes(
                    current.registration_id.as_slice(),
                    registration.registration_id.as_slice(),
                ) && same_bytes(
                    current.fencing_token.as_slice(),
                    registration.ownership_token.as_slice(),
                ),
            ),
        };
        match held {
            None => {
                self.acquire(
                    session_id,
                    registration,
                    request_id,
                    ClaimMode::Snapshot,
                    draws,
                    now,
                );
            },
            Some(true) => {
                self.resume_registration(
                    session_id,
                    registration,
                    request_id,
                    ClaimMode::Snapshot,
                    now,
                );
            },
            Some(false) => {
                self.send_revocation(
                    session_id,
                    registration.participant_id.as_str(),
                    copy_bytes(registration.registration_id.as_slice()),
                    OwnershipRevocationReason::RegistrationRejected,
                    request_id,
                );
            },
        }
    }

    fn register_explicit(
        &mut self,
        session_id: SessionId,
        registration: &ParticipantRegistration,
        request_id: Vec<u8>,
        draws: &RegistrationDraws,
        now: Instant,
    )
        requires
            old(self).wf(),
            timely(old(self)@.config, now@),
        ensures
            final(self).wf(),
            final(self)@ == old(self)@.registered_explicitly(
                session_id,
                registration@,
                request_id@,
                draws@,
                now@,
            ),
            final(self)@.config == old(self)@.config,
    {
        let own = match self.ownership.get(registration.participant_id.as_str()) {
            None => false,
            Some(current) => current.owner == session_id && same_bytes(
                current.registration_id.as_slice(),
                registration.registration_id.as_slice(),
            ),
        };
        if own {
            self.resume_registration(
                session_id,
                registration,
                request_id,
                ClaimMode::Explicit,
                now,
            );
        } else {
            self.acquire(session_id, registration, request_id, ClaimMode::Explicit, draws, now);
        }
    }

    fn register_all(
        &mut self,
        session_id: SessionId,
        registrations: &Vec<ParticipantRegistration>,
        request_id: &[u8],
        draws: &Vec<RegistrationDraws>,
        now: Instant,
    )
        requires
            old(self).wf(),
            timely(old(self)@.config, now@),
            draws@.len() >= registrations@.len(),
        ensures
            final(self).wf(),
            final(self)@ == old(self)@.all_registered(
                session_id,
                views(registrations@),
                request_id@,
                views(draws@),
                now@,
            ),
            final(self)@.config == old(self)@.config,
    {
        let ghost start = self@;
        let ghost all = views(registrations@);
        let ghost drawn = views(draws@);
        let mut i: usize = 0;
        assert(all.skip(0) =~= all);
        assert(drawn.skip(0) =~= drawn);
        while i < registrations.len()
            invariant
                self.wf(),
                timely(self@.config, now@),
                all == views(registrations@),
                drawn == views(draws@),
                draws@.len() >= registrations@.len(),
                i <= all.len(),
                self@.all_registered(
                    session_id,
                    all.skip(i as int),
                    request_id@,
                    drawn.skip(i as int),
                    now@,
                ) == start.all_registered(session_id, all, request_id@, drawn, now@),
                self@.config == start.config,
            decreases all.len() - i,
        {
            assert(all.skip(i as int).drop_first() =~= all.skip(i + 1));
            assert(drawn.skip(i as int).drop_first() =~= drawn.skip(i + 1));
            assert(all.skip(i as int)[0] == registrations@[i as int]@);
            assert(drawn.skip(i as int)[0] == draws@[i as int]@);
            self.register_from_snapshot(
                session_id,
                &registrations[i],
                copy_bytes(request_id),
                &draws[i],
                now,
            );
            i = i + 1;
        }
    }

    /// The entities of a session that a snapshot no longer names.
    fn no_longer_desired(
        &self,
        session_id: SessionId,
        registrations: &Vec<ParticipantRegistration>,
    ) -> (dropped: Vec<String>)
        requires
            self.wf(),
        ensures
            views(dropped@) == self@.ownership.owned(session_id).filter(
                |p: Seq<char>| !registered_ids(views(registrations@)).contains(p),
            ),
    {
        let mut ids: Vec<String> = Vec::new();
        let mut i: usize = 0;
        while i < registrations.len()
            invariant
                i <= registrations@.len(),
                ids@.len() == i,
                forall|k: int|
                    0 <= k < i ==> ids@[k]@ == (#[trigger] registrations@[k]).participant_id@,
            decreases registrations@.len() - i,
        {
            ids.push(registrations[i].participant_id.clone());
            i = i + 1;
        }
        let ghost named = Seq::new(
            views(registrations@).len(),
            |i: int| views(registrations@)[i].participant_id,
        );
        assert(views(ids@) =~= named);
        let desired = crate::text_set::text_set(&ids);
        let owned = self.ownership.owned_entities(session_id);
        let ghost all = views(owned@);
        let ghost gone = |p: Seq<char>| !registered_ids(views(registrations@)).contains(p);
        let mut dropped: Vec<String> = Vec::new();
        let mut j: usize = 0;
        assert(views(dropped@) =~= all.take(0).filter(gone)) by {
            reveal(Seq::filter);
        }
        while j < owned.len()
            invariant
                all == views(owned@),
                j <= all.len(),
                desired.wf(),
                desired@.dom() == registered_ids(views(registrations@)),
                gone == (|p: Seq<char>| !registered_ids(views(registrations@)).contains(p)),
                views(dropped@) == all.take(j as int).filter(gone),
            decreases all.len() - j,
        {
            proof {
                assert(all.take(j + 1) =~= all.take(j as int).push(all[j as int]));
                all.take(j as int).lemma_filter_push(all[j as int], gone);
            }
            if !desired.contains_key(owned[j].as_str()) {
                let ghost so_far = dropped@;
                dropped.push(owned[j].clone());
                assert(views(dropped@) =~= views(so_far).push(all[j as int]));
            }
            j = j + 1;
        }
        assert(all.take(j as int) =~= all);
        dropped
    }

    /// Replaces all that a session holds by a full snapshot.
    fn reconcile_snapshot(
        &mut self,
        session_id: SessionId,
        snapshot: &DesiredStateSnapshot,
        request_id: Vec<u8>,
        draws: &Vec<RegistrationDraws>,
        now: Instant,
    )
        requires
            old(self).wf(),
            timely(old(self)@.config, now@),
            draws@.len() >= snapshot.participants@.len(),
        ensures
            final(self).wf(),
            final(self)@ == old(self)@.snapshot_reconciled(
                session_id,
                snapshot@,
                request_id@,
                views(draws@),
                now@,
            ),
            final(self)@.config == old(self)@.config,
    {
        let dropped = self.no_longer_desired(session_id, &snapshot.participants);
        self.release_all(
            session_id,
            &dropped,
            OwnershipRevocationReason::ParticipantReleased,
            now,
        );
        self.core_sessions.set_desired_revision(session_id, snapshot.desired_state_revision);
        let ghost revised = *self;
        proof {
            revised.lemma_domains();
        }
        if let Some(session) = self.sessions.get_mut(&session_id) {
            session.spaces.replace_snapshot_observations(&snapshot.observed_space_keys);
        }
        proof {
            if revised.sessions@.dom().contains(session_id) {
                crate::ordered::lemma_map_insert(
                    revised.sessions@,
                    session_id,
                    self.sessions@[session_id],
                    |session: ControllerSession| session.model(),
                );
                assert forall|id: SessionId| #[trigger]
                    self.sessions@.dom().contains(id) implies self.sessions@[id].spaces.wf() by {
                    if id != session_id {
                        assert(revised.sessions@.dom().contains(id));
                    }
                }
            }
        }
        self.register_all(
            session_id,
            &snapshot.participants,
            request_id.as_slice(),
            draws,
            now,
        );
        self.send_session(
            session_id,
            ServerFrame {
                request_id,
                payload: Some(
                    ServerPayload::DesiredStateReconciled(
                        DesiredStateReconciled {
                            desired_state_revision: snapshot.desired_state_revision,
                        },
                    ),
                ),
            },
        );
        self.send_effective_space_snapshots(session_id);
    }

    /// Changes the payload of a participant.
    fn set_spec(
        &mut self,
        session_id: SessionId,
        participant_id: String,
        ownership_token: &[u8],
        client_revision: u64,
        spec: ParticipantSpec,
        request_id: Vec<u8>,
        incarnation_id: &Option<Vec<u8>>,
        now: Instant,
    )
        requires
            old(self).wf(),
            timely(old(self)@.config, now@),
        ensures
            final(self).wf(),
            final(self)@ == old(self)@.spec_set(
                session_id,
                participant_id@,
                ownership_token@,
                client_revision,
                spec@,
                request_id@,
                optional(*incarnation_id),
                now@,
            ),
            final(self)@.config == old(self)@.config,
    {
        let ghost p = participant_id@;
        let current = match self.participant(participant_id.as_str()) {
            None => {
                self.reject_session(
                    session_id,
                    request_id,
                    CommandErrorCode::NotFound,
                    "participant is not registered",
                );
                return;
            },
            Some(current) => current,
        };
        let owned = match self.ownership.get(participant_id.as_str()) {
            None => {
                self.reject_session(
                    session_id,
                    request_id,
                    CommandErrorCode::InternalError,
                    "participant Host state has no ownership state",
                );
                return;
            },
            Some(owned) => owned.clone(),
        };
        if owned.owner != session_id || !same_bytes(
            owned.fencing_token.as_slice(),
            ownership_token,
        ) {
            self.reject_session(
                session_id,
                request_id,
                CommandErrorCode::OwnershipLost,
                "participant ownership token is stale",
            );
            return;
        }
        if client_revision < owned.client_revision {
            self.reject_session(
                session_id,
                request_id,
                CommandErrorCode::StaleRevision,
                "participant spec revision moved backwards",
            );
            return;
        }
        let unchanged = spec.same(&current.spec);
        if client_revision == owned.client_revision && !unchanged {
            self.reject_session(
                session_id,
                request_id,
                CommandErrorCode::StaleRevision,
                "a participant spec cannot change without advancing its revision",
            );
            return;
        }
        if let Err(error) = self.ensure_space(spec.space_key().as_str(), incarnation_id) {
            self.reject_session(
                session_id,
                request_id,
                CommandErrorCode::ResourceExhausted,
                error.as_str(),
            );
            return;
        }
        let revision = self.ownership.accept_revision(
            participant_id.as_str(),
            session_id,
            ownership_token,
            client_revision,
            unchanged,
        );
        match revision {
            Ok(RevisionOutcome::Advanced) => {
                proof {
                    self@.lemma_spec_applied(p, spec@, now@);
                }
                self.apply_spec(participant_id.as_str(), spec, now);
            },
            Ok(RevisionOutcome::Unchanged) => {},
            Err(error) => {
                self.reject_session(
                    session_id,
                    request_id,
                    CommandErrorCode::InternalError,
                    error.message().as_str(),
                );
                return;
            },
        }
        let participant = match self.participant(participant_id.as_str()) {
            None => {
                return;
            },
            Some(participant) => participant,
        };
        self.send_session(
            session_id,
            ServerFrame {
                request_id,
                payload: Some(
                    ServerPayload::ParticipantSpecAccepted(
                        ParticipantSpecAccepted {
                            participant_id,
                            client_spec_revision: client_revision,
                            accepted_spec_revision: client_revision,
                            applied_spec_revision: participant.applied_spec_revision,
                            published_generation: participant.published_generation,
                        },
                    ),
                ),
            },
        );
    }

    /// Replaces the Spaces that a session observes explicitly.
    fn replace_observations(
        &mut self,
        session_id: SessionId,
        revision: u64,
        keys: &Vec<String>,
        request_id: Vec<u8>,
    )
        requires
            old(self).wf(),
        ensures
            final(self).wf(),
            final(self)@ == old(self)@.observations_replaced(
                session_id,
                revision,
                views(keys@),
                request_id@,
            ),
            final(self)@.config == old(self)@.config,
    {
        let ghost before = *self;
        proof {
            before.lemma_domains();
        }
        if keys.len() > self.config.max_observations_per_session || !all_valid_keys(keys) {
            self.reject_session(
                session_id,
                request_id,
                CommandErrorCode::InvalidArgument,
                "invalid explicit observation set",
            );
            return;
        }
        if !distinct_texts(keys) {
            self.reject_session(
                session_id,
                request_id,
                CommandErrorCode::InvalidArgument,
                "explicit observation set contains a duplicate Space",
            );
            return;
        }
        let stale = match self.sessions.get_mut(&session_id) {
            None => false,
            Some(session) => session.spaces.replace_observations(revision, keys).is_err(),
        };
        proof {
            if before.sessions@.dom().contains(session_id) {
                crate::ordered::lemma_map_insert(
                    before.sessions@,
                    session_id,
                    self.sessions@[session_id],
                    |session: ControllerSession| session.model(),
                );
                assert forall|id: SessionId| #[trigger]
                    self.sessions@.dom().contains(id) implies self.sessions@[id].spaces.wf() by {
                    if id != session_id {
                        assert(before.sessions@.dom().contains(id));
                    }
                }
                if stale {
                    assert(self@.sessions =~= before@.sessions);
                }
            }
        }
        if stale {
            self.reject_session(
                session_id,
                request_id,
                CommandErrorCode::StaleRevision,
                "observation revision moved backwards",
            );
            return;
        }
        self.send_session(
            session_id,
            ServerFrame {
                request_id,
                payload: Some(
                    ServerPayload::ObservedSpacesAccepted(
                        ObservedSpacesAccepted { observed_spaces_revision: revision },
                    ),
                ),
            },
        );
        self.send_effective_space_snapshots(session_id);
    }

    /// Takes note of what a render of `space_key` did to one participant.
    fn apply_report(
        &mut self,
        space_key: &str,
        participant_id: &str,
        applied_revision: u64,
        report: &ReconcileReport,
    )
        requires
            old(self).wf(),
        ensures
            final(self).wf(),
            final(self)@ == old(self)@.report_applied(
                space_key@,
                participant_id@,
                applied_revision,
                report@,
            ),
            final(self)@.config == old(self)@.config,
    {
        let mut participant = match self.participant(participant_id) {
            None => {
                return;
            },
            Some(participant) => participant,
        };
        if !same_text(participant.spec.space_key().as_str(), space_key) {
            return;
        }
        match &report.refused {
            Some(error) => {
                participant.application_error = error.clone();
            },
            None => {
                if applied_revision > participant.applied_spec_revision {
                    participant.applied_spec_revision = applied_revision;
                }
                participant.applied_space_key = Some(space_key.to_owned());
                participant.published_generation = report.version;
                participant.application_error = String::new();
            },
        }
        self.store_participant(participant_id, participant);
    }

    fn apply_reports(
        &mut self,
        space_key: &str,
        revisions: &SortedMap<String, u64>,
        report: &ReconcileReport,
    )
        requires
            old(self).wf(),
            revisions.wf(),
        ensures
            final(self).wf(),
            final(self)@ == old(self)@.reports_applied(
                space_key@,
                in_order::<String>(revisions@.dom()),
                revisions@,
                report@,
            ),
            final(self)@.config == old(self)@.config,
    {
        proof {
            revisions.lemma_in_order();
        }
        let ghost start = self@;
        let ghost ids = revisions.keys();
        let count: usize = revisions.len();
        let mut i: usize = 0;
        assert(ids.skip(0) =~= ids);
        while i < count
            invariant
                self.wf(),
                revisions.wf(),
                ids == revisions.keys(),
                count == ids.len(),
                i <= count,
                self@.reports_applied(space_key@, ids.skip(i as int), revisions@, report@)
                    == start.reports_applied(space_key@, ids, revisions@, report@),
                self@.config == start.config,
            decreases count - i,
        {
            assert(ids.skip(i as int).drop_first() =~= ids.skip(i + 1));
            assert(ids.skip(i as int)[0] == ids[i as int]);
            let applied: u64 = *revisions.value_at(i);
            self.apply_report(space_key, revisions.key_at(i).as_str(), applied, report);
            i = i + 1;
        }
    }

    fn send_statuses(&mut self, revisions: &SortedMap<String, u64>)
        requires
            old(self).wf(),
            revisions.wf(),
        ensures
            final(self).wf(),
            final(self)@ == old(self)@.statuses_sent(in_order::<String>(revisions@.dom())),
            final(self)@.config == old(self)@.config,
    {
        proof {
            revisions.lemma_in_order();
        }
        let ghost start = self@;
        let ghost ids = revisions.keys();
        let count: usize = revisions.len();
        let mut i: usize = 0;
        assert(ids.skip(0) =~= ids);
        while i < count
            invariant
                self.wf(),
                revisions.wf(),
                ids == revisions.keys(),
                count == ids.len(),
                i <= count,
                self@.statuses_sent(ids.skip(i as int)) == start.statuses_sent(ids),
                self@.config == start.config,
            decreases count - i,
        {
            assert(ids.skip(i as int).drop_first() =~= ids.skip(i + 1));
            assert(ids.skip(i as int)[0] == ids[i as int]);
            self.send_status(revisions.key_at(i).as_str());
            i = i + 1;
        }
    }

    /// Takes note of a report on the render of a Space.
    pub fn reconciled(
        &mut self,
        space_key: &str,
        application_revision: u64,
        report: &ReconcileReport,
    )
        requires
            old(self).wf(),
        ensures
            final(self).wf(),
            final(self)@ == old(self)@.reconciled(space_key@, application_revision, report@),
            final(self)@.config == old(self)@.config,
    {
        let ghost before = *self;
        proof {
            before.lemma_domains();
        }
        let reconciliation = match self.spaces.get_mut(space_key) {
            None => {
                return;
            },
            Some(space) => space.reconcile(application_revision, report),
        };
        proof {
            crate::ordered::lemma_map_insert(
                before.spaces@,
                space_key@,
                self.spaces@[space_key@],
                |space: MaterializedSpace| space@,
            );
            assert forall|key: Seq<char>| #[trigger]
                self.spaces@.dom().contains(key) implies self.spaces@[key].wf() by {
                if key != space_key@ {
                    assert(before.spaces@.dom().contains(key));
                }
            }
        }
        let reconciliation = match reconciliation {
            None => {
                assert(self@.spaces =~= before@.spaces);
                return;
            },
            Some(reconciliation) => reconciliation,
        };
        self.apply_reports(space_key, &reconciliation.revisions, report);
        self.send_statuses(&reconciliation.revisions);
        self.broadcast_space_snapshot(space_key);
    }

    /// Binds a connection, and tells it the Space to which it belongs.
    pub fn route(
        &mut self,
        connection: ConnectionId,
        credential: Option<String>,
        now: Instant,
    ) -> (result: Result<String, String>)
        requires
            old(self).wf(),
            timely(old(self)@.config, now@),
        ensures
            final(self).wf(),
            (final(self)@, text_result(result)) == old(self)@.routed(
                connection@,
                optional(credential),
                now@,
            ),
            final(self)@.config == old(self)@.config,
    {
        let ghost before = *self;
        proof {
            before.lemma_domains();
        }
        let credential = match credential {
            None => {
                return Err("a Mumble join token is required".to_owned());
            },
            Some(credential) => credential,
        };
        let attachment = match self.host.attach(credential.as_str(), connection) {
            Ok(attachment) => attachment,
            Err(HostError::UnknownCredential) => {
                return Err("the Mumble join token is invalid or revoked".to_owned());
            },
            Err(error) => {
                return Err(error.message());
            },
        };
        if let Some(previous) = attachment.replaced_connection {
            self.emit(Effect::CloseConnection { connection: previous });
        }
        let current = match self.participant(attachment.participant_id.as_str()) {
            None => {
                return Err("the Mumble join token is invalid or revoked".to_owned());
            },
            Some(current) => current,
        };
        let key = current.spec.space_key().as_str().to_owned();
        proof {
            self@.lemma_space_refreshed(key@, now@);
        }
        self.refresh_space(key.as_str(), now);
        proof {
            self@.lemma_status_sent(attachment.participant_id@);
        }
        self.send_status(attachment.participant_id.as_str());
        proof {
            self.lemma_domains();
        }
        if self.spaces.contains_key(key.as_str()) {
            Ok(key)
        } else {
            Err("the participant Space is not materialized".to_owned())
        }
    }

    /// Takes note of what happened to a connection in a Space.
    pub fn space_event(&mut self, space_key: &str, event: SpaceEvent, now: Instant)
        requires
            old(self).wf(),
            timely(old(self)@.config, now@),
        ensures
            final(self).wf(),
            final(self)@ == old(self)@.space_event_applied(space_key@, event, now@),
            final(self)@.config == old(self)@.config,
    {
        let participant_id = match self.host.participant(event.connection) {
            None => {
                return;
            },
            Some(participant_id) => participant_id.to_owned(),
        };
        if let Some(known) = self.participant(participant_id.as_str()) {
            let mut participant = known;
            if !same_text(participant.spec.space_key().as_str(), space_key) {
                return;
            }
            match event.kind {
                SpaceEventKind::Connected => {},
                SpaceEventKind::Disconnected => {
                    self.host.disconnect(event.connection);
                    self.refresh_space(space_key, now);
                },
                SpaceEventKind::SelfState { self_mute, self_deaf } => {
                    participant.self_mute = self_mute;
                    participant.self_deaf = self_deaf;
                    self.store_participant(participant_id.as_str(), participant);
                    self.refresh_space(space_key, now);
                },
            }
        }
        self.send_status(participant_id.as_str());
    }

    /// Notes that a session listens no longer.
    fn detach(&mut self, session_id: SessionId)
        requires
            old(self).wf(),
            old(self)@.sessions.dom().contains(session_id),
        ensures
            final(self).wf(),
            final(self)@ == old(self)@.detached(session_id),
            final(self)@.config == old(self)@.config,
    {
        let ghost before = *self;
        proof {
            before.lemma_domains();
        }
        if let Some(session) = self.sessions.get_mut(&session_id) {
            session.stream_id = None;
        }
        proof {
            crate::ordered::lemma_map_insert(
                before.sessions@,
                session_id,
                self.sessions@[session_id],
                |session: ControllerSession| session.model(),
            );
            assert forall|id: SessionId| #[trigger]
                self.sessions@.dom().contains(id) implies self.sessions@[id].spaces.wf() by {
                if id != session_id {
                    assert(before.sessions@.dom().contains(id));
                }
            }
        }
    }

    fn stream_of(&self, session_id: SessionId) -> (stream_id: Option<u64>)
        requires
            self.wf(),
        ensures
            stream_id == self@.stream_of(session_id),
    {
        proof {
            self.lemma_domains();
        }
        match self.sessions.get(&session_id) {
            None => None,
            Some(session) => session.stream_id,
        }
    }

    /// Takes note of the end of a stream.
    pub fn stream_closed(&mut self, stream_id: u64)
        requires
            old(self).wf(),
        ensures
            final(self).wf(),
            final(self)@ == old(self)@.stream_ended(stream_id),
            final(self)@.config == old(self)@.config,
    {
        let session_id: SessionId = match self.streams.remove(&stream_id) {
            None => {
                return;
            },
            Some(session_id) => session_id,
        };
        if let Some(current) = self.stream_of(session_id) {
            if current == stream_id {
                self.detach(session_id);
            }
        }
    }

    /// Takes note that the queue of a stream was full. The stream stays: a
    /// full queue is not a dead stream.
    pub fn delivery_full(&mut self, session_id: SessionId)
        requires
            old(self).wf(),
        ensures
            final(self).wf(),
            final(self)@ == (ActorModel {
                core_sessions: old(self)@.core_sessions.resync_marked(session_id),
                ..old(self)@
            }),
    {
        self.core_sessions.mark_resync_required(session_id);
    }

    /// Takes note that the receiver of a session's frames is gone.
    pub fn delivery_closed(&mut self, session_id: SessionId)
        requires
            old(self).wf(),
        ensures
            final(self).wf(),
            final(self)@ == old(self)@.receiver_gone(session_id),
    {
        if let Some(stream_id) = self.stream_of(session_id) {
            self.streams.remove(&stream_id);
            self.detach(session_id);
        }
    }

    /// Ends a session: its participants are released, and it is forgotten.
    fn remove_session(
        &mut self,
        session_id: SessionId,
        reason: OwnershipRevocationReason,
        now: Instant,
    )
        requires
            old(self).wf(),
            timely(old(self)@.config, now@),
        ensures
            final(self).wf(),
            final(self)@ == old(self)@.session_removed(session_id, reason, now@),
            final(self)@.config == old(self)@.config,
    {
        let owned = self.ownership.owned_entities(session_id);
        self.release_all(session_id, &owned, reason, now);
        let ghost released = *self;
        proof {
            released.lemma_domains();
            lemma_frames_removed(released.reliable@, session_id);
            crate::ordered::lemma_map_remove(
                released.sessions@,
                session_id,
                |session: ControllerSession| session.model(),
            );
        }
        self.core_sessions.remove(session_id);
        self.reliable.remove_session(session_id);
        let removed = self.sessions.remove(&session_id);
        proof {
            assert forall|id: SessionId| #[trigger]
                self.sessions@.dom().contains(id) implies self.sessions@[id].spaces.wf() by {
                assert(released.sessions@.dom().contains(id));
            }
        }
        if let Some(session) = removed {
            if let Some(stream_id) = session.stream_id {
                self.streams.remove(&stream_id);
            }
        }
    }

    fn remove_sessions(
        &mut self,
        ids: &Vec<SessionId>,
        reason: OwnershipRevocationReason,
        now: Instant,
    )
        requires
            old(self).wf(),
            timely(old(self)@.config, now@),
        ensures
            final(self).wf(),
            final(self)@ == old(self)@.sessions_removed(ids@, reason, now@),
            final(self)@.config == old(self)@.config,
    {
        let ghost start = self@;
        let mut i: usize = 0;
        assert(ids@.skip(0) =~= ids@);
        while i < ids.len()
            invariant
                self.wf(),
                timely(self@.config, now@),
                i <= ids@.len(),
                self@.sessions_removed(ids@.skip(i as int), reason, now@)
                    == start.sessions_removed(ids@, reason, now@),
                self@.config == start.config,
            decreases ids@.len() - i,
        {
            assert(ids@.skip(i as int).drop_first() =~= ids@.skip(i + 1));
            self.remove_session(ids[i], reason, now);
            i = i + 1;
        }
    }

    /// Whether a participant is meant to be in the Space.
    fn is_inhabited(&self, space_key: &str) -> (inhabited: bool)
        requires
            self.wf(),
        ensures
            inhabited == self@.is_inhabited(space_key@),
    {
        proof {
            self.lemma_domains();
            self.participants.lemma_in_order();
        }
        let ghost keys = self.participants.keys();
        let count: usize = self.participants.len();
        let mut i: usize = 0;
        while i < count
            invariant
                self.wf(),
                self@.participants.dom() == self.participants@.dom(),
                keys == self.participants.keys(),
                keys.to_set() == self@.participants.dom(),
                count == keys.len(),
                i <= count,
                forall|k: int|
                    0 <= k < i ==> self@.participants[#[trigger] keys[k]].spec.space_key
                        != space_key@,
            decreases count - i,
        {
            let participant = self.participants.value_at(i);
            if same_text(participant.spec.space_key().as_str(), space_key) {
                assert(self@.participants.dom().contains(keys[i as int]));
                return true;
            }
            i = i + 1;
        }
        proof {
            assert forall|p: Seq<char>| #[trigger]
                self@.participants.dom().contains(p) implies self@.participants[p].spec.space_key
                != space_key@ by {
                assert(keys.to_set().contains(p));
                let k = choose|k: int| 0 <= k < keys.len() && keys[k] == p;
                assert(keys[k] == p);
            }
        }
        false
    }

    /// Destroys a Space that nobody is meant to be in.
    fn close_space(&mut self, space_key: &str)
        requires
            old(self).wf(),
        ensures
            final(self).wf(),
            final(self)@ == old(self)@.space_closed(space_key@),
            final(self)@.config == old(self)@.config,
    {
        let ghost before = *self;
        proof {
            before.lemma_domains();
        }
        if self.is_inhabited(space_key) {
            return;
        }
        let space = match self.spaces.remove(space_key) {
            None => {
                return;
            },
            Some(space) => space,
        };
        proof {
            crate::ordered::lemma_map_remove(
                before.spaces@,
                space_key@,
                |space: MaterializedSpace| space@,
            );
            assert forall|key: Seq<char>| #[trigger]
                self.spaces@.dom().contains(key) implies self.spaces@[key].wf() by {
                assert(before.spaces@.dom().contains(key));
            }
        }
        self.emit(
            Effect::DestroyShard {
                space_key: space_key.to_owned(),
                reason: "empty Space grace elapsed".to_owned(),
            },
        );
        self.broadcast_space_closed(space_key, &space);
    }

    /// The Spaces whose grace has elapsed.
    fn due_spaces(&self, now: Instant) -> (due: Vec<String>)
        requires
            self.wf(),
        ensures
            views(due@) == self@.due_spaces(now@),
    {
        proof {
            self.lemma_domains();
            self.spaces.lemma_in_order();
        }
        let ghost keys = self.spaces.keys();
        let ghost over = |key: Seq<char>|
            self@.spaces[key].close_deadline is Some && self@.spaces[key].close_deadline->0 <= now@;
        let count: usize = self.spaces.len();
        let mut due: Vec<String> = Vec::new();
        let mut i: usize = 0;
        assert(views(due@) =~= keys.take(0).filter(over)) by {
            reveal(Seq::filter);
        }
        while i < count
            invariant
                self.wf(),
                self@.spaces.dom() == self.spaces@.dom(),
                keys == self.spaces.keys(),
                over == (|key: Seq<char>|
                    self@.spaces[key].close_deadline is Some
                        && self@.spaces[key].close_deadline->0 <= now@),
                count == keys.len(),
                i <= count,
                views(due@) == keys.take(i as int).filter(over),
            decreases count - i,
        {
            let key = self.spaces.key_at(i);
            let space = self.spaces.value_at(i);
            proof {
                assert(keys.take(i + 1) =~= keys.take(i as int).push(key@));
                keys.take(i as int).lemma_filter_push(key@, over);
            }
            if let Some(deadline) = space.close_deadline() {
                if deadline.nanos <= now.nanos {
                    let ghost so_far = due@;
                    due.push(key.clone());
                    assert(views(due@) =~= views(so_far).push(key@));
                }
            }
            i = i + 1;
        }
        assert(keys.take(count as int) =~= keys);
        due
    }

    /// Ends the sessions and destroys the Spaces that have fallen due.
    pub fn expire_due(&mut self, now: Instant)
        requires
            old(self).wf(),
            timely(old(self)@.config, now@),
        ensures
            final(self).wf(),
            final(self)@ == old(self)@.due_expired(now@),
            final(self)@.config == old(self)@.config,
    {
        let expired = self.core_sessions.expired_sessions(now);
        self.remove_sessions(&expired, OwnershipRevocationReason::SessionExpired, now);
        let due = self.due_spaces(now);
        let ghost start = self@;
        let ghost all = views(due@);
        let mut i: usize = 0;
        assert(all.skip(0) =~= all);
        while i < due.len()
            invariant
                self.wf(),
                all == views(due@),
                i <= all.len(),
                self@.spaces_closed(all.skip(i as int)) == start.spaces_closed(all),
                self@.config == start.config,
            decreases all.len() - i,
        {
            assert(all.skip(i as int).drop_first() =~= all.skip(i + 1));
            assert(all.skip(i as int)[0] == due@[i as int]@);
            self.close_space(due[i].as_str());
            i = i + 1;
        }
    }

    /// The first point at which something falls due.
    pub fn next_deadline(&self) -> (deadline: Option<Instant>)
        requires
            self.wf(),
        ensures
            self@.first_deadline(optional(deadline)),
    {
        proof {
            self.lemma_domains();
            self.spaces.lemma_in_order();
            self.core_sessions.lemma_valid();
        }
        let sessions = self.core_sessions.next_deadline();
        let ghost keys = self.spaces.keys();
        let count: usize = self.spaces.len();
        let mut first: Option<Instant> = sessions;
        let mut i: usize = 0;
        while i < count
            invariant
                self.wf(),
                self@.spaces.dom() == self.spaces@.dom(),
                keys == self.spaces.keys(),
                keys.to_set() == self@.spaces.dom(),
                count == keys.len(),
                i <= count,
                self@.core_sessions.first_deadline(optional(sessions)),
                sessions is Some ==> first is Some && first->0@ <= sessions->0@,
                first is Some ==> first == sessions || exists|k: int|
                    0 <= k < i && self@.spaces[#[trigger] keys[k]].close_deadline == Some(
                        first->0@,
                    ),
                forall|k: int|
                    0 <= k < i ==> (self@.spaces[#[trigger] keys[k]].close_deadline matches Some(
                        deadline,
                    ) ==> first is Some && first->0@ <= deadline),
            decreases count - i,
        {
            let space = self.spaces.value_at(i);
            assert(self@.spaces[keys[i as int]] == space@);
            let ghost earlier = first;
            if let Some(deadline) = space.close_deadline() {
                first = match first {
                    None => Some(deadline),
                    Some(earliest) => {
                        if deadline.nanos < earliest.nanos {
                            Some(deadline)
                        } else {
                            Some(earliest)
                        }
                    },
                };
            }
            i = i + 1;
            proof {
                if first == earlier && first is Some && first != sessions {
                    let k = choose|k: int|
                        0 <= k < i - 1 && self@.spaces[#[trigger] keys[k]].close_deadline == Some(
                            first->0@,
                        );
                    assert(self@.spaces[keys[k]].close_deadline == Some(first->0@));
                } else if first != earlier {
                    assert(self@.spaces[keys[i - 1]].close_deadline == Some(first->0@));
                }
            }
        }
        proof {
            assert forall|key: Seq<char>| #[trigger] self@.spaces.dom().contains(key) implies (
            self@.spaces[key].close_deadline matches Some(deadline) ==> first is Some && first->0@
                <= deadline) by {
                assert(keys.to_set().contains(key));
                let k = choose|k: int| 0 <= k < keys.len() && keys[k] == key;
                assert(keys[k] == key);
            }
            if first is Some && first != sessions {
                let k = choose|k: int|
                    0 <= k < i && self@.spaces[#[trigger] keys[k]].close_deadline == Some(
                        first->0@,
                    );
                assert(self@.spaces.dom().contains(keys[k])) by {
                    assert(keys.to_set().contains(keys[k]));
                }
            }
        }
        first
    }

    /// Lets a session listen on a new stream.
    fn attach_stream(&mut self, session_id: SessionId, stream_id: u64, now: Instant)
        requires
            old(self).wf(),
            timely(old(self)@.config, now@),
        ensures
            final(self).wf(),
            final(self)@ == old(self)@.stream_attached(session_id, stream_id, now@),
            final(self)@.config == old(self)@.config,
    {
        let ghost before = *self;
        proof {
            before.lemma_domains();
        }
        if let Some(previous) = self.stream_of(session_id) {
            self.streams.remove(&previous);
        }
        self.streams.insert(stream_id, session_id);
        let known = match self.sessions.get_mut(&session_id) {
            None => false,
            Some(session) => {
                session.stream_id = Some(stream_id);
                true
            },
        };
        proof {
            if known {
                crate::ordered::lemma_map_insert(
                    before.sessions@,
                    session_id,
                    self.sessions@[session_id],
                    |session: ControllerSession| session.model(),
                );
                assert forall|id: SessionId| #[trigger]
                    self.sessions@.dom().contains(id) implies self.sessions@[id].spaces.wf() by {
                    if id != session_id {
                        assert(before.sessions@.dom().contains(id));
                    }
                }
            }
        }
        if known {
            self.core_sessions.refresh_lease(session_id, now);
        }
    }

    /// Opens or resumes a session on a stream.
    pub fn open(&mut self, stream_id: u64, frame: ClientFrame, draws: &Draws, now: Instant)
        requires
            old(self).wf(),
            timely(old(self)@.config, now@),
            draws.registrations@.len() >= registrations_in(frame@.payload),
        ensures
            final(self).wf(),
            final(self)@ == old(self)@.opened(stream_id, frame@, draws@, now@),
            final(self)@.config == old(self)@.config,
    {
        let request_id = frame.request_id;
        let open = match frame.payload {
            Some(ClientPayload::OpenSession(open)) => open,
            _ => {
                self.emit(
                    Effect::EndStream {
                        stream_id,
                        status: StreamStatus::InvalidArgument,
                        message: "the first Controller frame must be OpenSession".to_owned(),
                    },
                );
                return;
            },
        };
        if request_id.is_empty() || open.controller_id.as_str().is_empty()
            || open.controller_instance_id.is_empty() {
            self.reject_stream(
                stream_id,
                request_id,
                CommandErrorCode::InvalidArgument,
                "OpenSession requires request_id, controller_id and controller_instance_id",
            );
            return;
        }
        let requested = match &open.profile {
            None => {
                self.reject_stream(
                    stream_id,
                    request_id,
                    CommandErrorCode::InvalidArgument,
                    "OpenSession requires a negotiated profile",
                );
                return;
            },
            Some(requested) => requested,
        };
        let selected = match profile::negotiate(requested, &self.profile) {
            Ok(selected) => selected,
            Err(error) => {
                self.reject_stream(
                    stream_id,
                    request_id,
                    CommandErrorCode::InvalidArgument,
                    error.message().as_str(),
                );
                return;
            },
        };
        if let Err(message) = validate_snapshot(&self.config, &open.desired_state) {
            self.reject_stream(
                stream_id,
                request_id,
                CommandErrorCode::InvalidArgument,
                message.as_str(),
            );
            return;
        }
        self.open_checked(stream_id, request_id, &open, selected, draws, now);
    }

    fn open_checked(
        &mut self,
        stream_id: u64,
        request_id: Vec<u8>,
        open: &OpenSession,
        selected: ProfileRef,
        draws: &Draws,
        now: Instant,
    )
        requires
            old(self).wf(),
            timely(old(self)@.config, now@),
            open.desired_state is Some,
            draws.registrations@.len() >= open.desired_state->0.participants@.len(),
        ensures
            final(self).wf(),
            final(self)@ == old(self)@.open_checked(
                stream_id,
                request_id@,
                open@,
                selected@,
                draws@,
                now@,
            ),
            final(self)@.config == old(self)@.config,
    {
        let (session_token, resume_token) = match (&draws.session_token, &draws.resume_token) {
            (Some(session_token), Some(resume_token)) => (
                copy_bytes(session_token.as_slice()),
                copy_bytes(resume_token.as_slice()),
            ),
            _ => {
                self.reject_stream(
                    stream_id,
                    request_id,
                    CommandErrorCode::InternalError,
                    ActorStartError::Randomness.message().as_str(),
                );
                return;
            },
        };
        let credentials = match SessionCredentials::new(session_token, resume_token) {
            Ok(credentials) => credentials,
            Err(error) => {
                self.reject_stream(
                    stream_id,
                    request_id,
                    CommandErrorCode::InternalError,
                    error.message().as_str(),
                );
                return;
            },
        };
        let answer = self.core_sessions.open(
            session::OpenSession {
                controller_id: open.controller_id.as_str(),
                controller_instance_id: open.controller_instance_id.as_slice(),
                resume_token: open.resume_token.as_slice(),
                profile: selected,
                credentials,
                now,
            },
        );
        let ready = match answer {
            Ok(ready) => ready,
            Err(SessionError::ResourceExhausted) => {
                self.reject_stream(
                    stream_id,
                    request_id,
                    CommandErrorCode::ResourceExhausted,
                    "the Controller session limit is reached",
                );
                return;
            },
            Err(error) => {
                self.reject_stream(
                    stream_id,
                    request_id,
                    CommandErrorCode::InternalError,
                    error.message().as_str(),
                );
                return;
            },
        };
        if let Some(snapshot) = &open.desired_state {
            self.start_session(stream_id, request_id, ready, snapshot, &draws.registrations, now);
        }
    }

    fn start_session(
        &mut self,
        stream_id: u64,
        request_id: Vec<u8>,
        ready: session::SessionReady,
        snapshot: &DesiredStateSnapshot,
        draws: &Vec<RegistrationDraws>,
        now: Instant,
    )
        requires
            old(self).wf(),
            timely(old(self)@.config, now@),
            draws@.len() >= snapshot.participants@.len(),
        ensures
            final(self).wf(),
            final(self)@ == old(self)@.session_opened(
                stream_id,
                request_id@,
                ready@,
                snapshot@,
                views(draws@),
                now@,
            ),
            final(self)@.config == old(self)@.config,
    {
        let ghost before = *self;
        proof {
            before.lemma_domains();
        }
        let session_id: SessionId = ready.session_id;
        if ready.resumed {
            if !self.sessions.contains_key(&session_id) {
                self.reject_stream(
                    stream_id,
                    request_id,
                    CommandErrorCode::InternalError,
                    "the resumed Controller session has no Host state",
                );
                return;
            }
        } else {
            proof {
                lemma_frames_attached(before.reliable@, session_id);
            }
            self.reliable.attach_session(session_id);
            let session = ControllerSession { stream_id: None, spaces: SessionState::new() };
            let ghost started = session;
            self.sessions.insert(session_id, session);
            proof {
                crate::ordered::lemma_map_insert(
                    before.sessions@,
                    session_id,
                    started,
                    |session: ControllerSession| session.model(),
                );
                assert forall|id: SessionId| #[trigger]
                    self.sessions@.dom().contains(id) implies self.sessions@[id].spaces.wf() by {
                    if id != session_id {
                        assert(before.sessions@.dom().contains(id));
                    }
                }
            }
        }
        self.attach_stream(session_id, stream_id, now);
        let answer = SessionReady {
            session_token: ready.session_token,
            resume_token: ready.resume_token,
            control_epoch: copy_bytes(self.control_epoch.as_slice()),
            lease_duration: Some(duration_to_proto(self.config.lease_duration)),
            profile: Some(profile::to_protocol(&ready.profile)),
        };
        self.send_session(
            session_id,
            ServerFrame {
                request_id: copy_bytes(request_id.as_slice()),
                payload: Some(ServerPayload::SessionReady(answer)),
            },
        );
        self.reconcile_snapshot(session_id, snapshot, request_id, draws, now);
    }

    /// Handles a frame that is not the first of its stream.
    pub fn frame(&mut self, stream_id: u64, frame: ClientFrame, draws: &Draws, now: Instant)
        requires
            old(self).wf(),
            timely(old(self)@.config, now@),
            draws.registrations@.len() >= registrations_in(frame@.payload),
        ensures
            final(self).wf(),
            final(self)@ == old(self)@.framed_command(stream_id, frame@, draws@, now@),
            final(self)@.config == old(self)@.config,
    {
        let request_id = frame.request_id;
        if request_id.is_empty() {
            self.reject_stream_id(
                stream_id,
                request_id,
                CommandErrorCode::InvalidArgument,
                "request_id must not be empty",
            );
            return;
        }
        let payload = match frame.payload {
            None => {
                self.reject_stream_id(
                    stream_id,
                    request_id,
                    CommandErrorCode::InvalidArgument,
                    "ClientFrame has no payload",
                );
                return;
            },
            Some(ClientPayload::OpenSession(_)) => {
                self.reject_stream_id(
                    stream_id,
                    request_id,
                    CommandErrorCode::InvalidArgument,
                    "OpenSession is only valid as the first frame",
                );
                return;
            },
            Some(payload) => payload,
        };
        let session_id: SessionId = match self.streams.get(&stream_id) {
            None => {
                return;
            },
            Some(session_id) => *session_id,
        };
        if let Some(cached) = self.reliable.replay(session_id, request_id.as_slice()) {
            self.send_session_uncached(session_id, cached);
            return;
        }
        self.command(session_id, request_id, payload, draws, now);
    }

    /// The session token that a command presents.
    fn presented_token(payload: &ClientPayload) -> (token: &[u8])
        requires
            !(payload is OpenSession),
        ensures
            token@ == ActorModel::presented_token(payload@),
    {
        match payload {
            ClientPayload::RenewLease(command) => command.session_token.as_slice(),
            ClientPayload::SyncDesiredState(command) => command.session_token.as_slice(),
            ClientPayload::RegisterParticipant(command) => command.session_token.as_slice(),
            ClientPayload::SetParticipantSpec(command) => command.session_token.as_slice(),
            ClientPayload::ReleaseParticipant(command) => command.session_token.as_slice(),
            ClientPayload::ReplaceObservedSpaces(command) => command.session_token.as_slice(),
            ClientPayload::FetchSpace(command) => command.session_token.as_slice(),
            ClientPayload::CloseSession(command) => command.session_token.as_slice(),
            ClientPayload::OpenSession(open) => open.resume_token.as_slice(),
        }
    }

    /// Carries out a new command of a session.
    fn command(
        &mut self,
        session_id: SessionId,
        request_id: Vec<u8>,
        payload: ClientPayload,
        draws: &Draws,
        now: Instant,
    )
        requires
            old(self).wf(),
            timely(old(self)@.config, now@),
            !(payload is OpenSession),
            draws.registrations@.len() >= registrations_in(Some(payload@)),
        ensures
            final(self).wf(),
            final(self)@ == old(self)@.commanded(
                session_id,
                request_id@,
                payload@,
                draws@,
                now@,
            ),
            final(self)@.config == old(self)@.config,
    {
        if !self.core_sessions.authorize(session_id, Self::presented_token(&payload)) {
            self.reject_session(
                session_id,
                request_id,
                CommandErrorCode::SessionExpiredError,
                "session token is not current",
            );
            return;
        }
        match payload {
            ClientPayload::OpenSession(_) => {},
            ClientPayload::RenewLease(command) => {
                self.renew_lease(session_id, request_id, command, now);
            },
            ClientPayload::SyncDesiredState(command) => {
                if let Err(message) = validate_snapshot(&self.config, &command.desired_state) {
                    self.reject_session(
                        session_id,
                        request_id,
                        CommandErrorCode::InvalidArgument,
                        message.as_str(),
                    );
                    return;
                }
                if let Some(snapshot) = &command.desired_state {
                    self.reconcile_snapshot(
                        session_id,
                        snapshot,
                        request_id,
                        &draws.registrations,
                        now,
                    );
                }
            },
            ClientPayload::RegisterParticipant(command) => {
                let registration = match command.participant {
                    None => {
                        self.reject_session(
                            session_id,
                            request_id,
                            CommandErrorCode::InvalidArgument,
                            "participant registration is missing",
                        );
                        return;
                    },
                    Some(registration) => registration,
                };
                if let Err(message) = validate_registration(&registration) {
                    self.reject_session(
                        session_id,
                        request_id,
                        CommandErrorCode::InvalidArgument,
                        message.as_str(),
                    );
                    return;
                }
                self.advance_desired_revision(session_id);
                self.register_explicit(
                    session_id,
                    &registration,
                    request_id,
                    &draws.registrations[0],
                    now,
                );
            },
            ClientPayload::SetParticipantSpec(command) => {
                let spec = match &command.spec {
                    None => {
                        self.reject_session(
                            session_id,
                            request_id,
                            CommandErrorCode::InvalidArgument,
                            "participant spec is missing",
                        );
                        return;
                    },
                    Some(spec) => spec,
                };
                let spec = match decode_space_spec(spec) {
                    Ok(spec) => spec,
                    Err(error) => {
                        self.reject_session(
                            session_id,
                            request_id,
                            CommandErrorCode::InvalidArgument,
                            error.message().as_str(),
                        );
                        return;
                    },
                };
                self.advance_desired_revision(session_id);
                self.set_spec(
                    session_id,
                    command.participant_id,
                    command.ownership_token.as_slice(),
                    command.client_spec_revision,
                    spec,
                    request_id,
                    &draws.registrations[0].incarnation_id,
                    now,
                );
            },
            ClientPayload::ReleaseParticipant(command) => {
                self.advance_desired_revision(session_id);
                self.release(
                    session_id,
                    command.participant_id.as_str(),
                    command.registration_id.as_slice(),
                    command.ownership_token.as_slice(),
                    OwnershipRevocationReason::ParticipantReleased,
                    Some(request_id),
                    now,
                );
            },
            ClientPayload::ReplaceObservedSpaces(command) => {
                self.advance_desired_revision(session_id);
                self.replace_observations(
                    session_id,
                    command.observed_spaces_revision,
                    &command.space_keys,
                    request_id,
                );
            },
            ClientPayload::FetchSpace(command) => {
                let result = match self.space_snapshot(command.space_key.as_str()) {
                    Some(snapshot) => FetchResult::Snapshot(snapshot),
                    None => FetchResult::Absent(SpaceAbsent { space_key: command.space_key }),
                };
                self.send_session(
                    session_id,
                    ServerFrame {
                        request_id,
                        payload: Some(
                            ServerPayload::FetchSpaceResult(
                                FetchSpaceResult { result: Some(result) },
                            ),
                        ),
                    },
                );
            },
            ClientPayload::CloseSession(_) => {
                self.send_session(
                    session_id,
                    ServerFrame {
                        request_id,
                        payload: Some(
                            ServerPayload::SessionClosing(
                                SessionClosing {
                                    reason: "session closed by controller".to_owned(),
                                },
                            ),
                        ),
                    },
                );
                self.remove_session(
                    session_id,
                    OwnershipRevocationReason::ParticipantReleased,
                    now,
                );
            },
        }
    }

    fn renew_lease(
        &mut self,
        session_id: SessionId,
        request_id: Vec<u8>,
        command: RenewLease,
        now: Instant,
    )
        requires
            old(self).wf(),
            timely(old(self)@.config, now@),
            old(self)@.core_sessions.authorizes(session_id, command@.session_token),
        ensures
            final(self).wf(),
            final(self)@ == old(self)@.lease_renewed(session_id, request_id@, command@, now@),
            final(self)@.config == old(self)@.config,
    {
        let renewed = self.core_sessions.renew(
            session_id,
            command.session_token.as_slice(),
            command.desired_state_revision,
            now,
        );
        if let Ok(RenewOutcome::ResyncRequired) = renewed {
            self.send_session(
                session_id,
                ServerFrame {
                    request_id,
                    payload: Some(
                        ServerPayload::ResyncRequired(
                            ResyncRequired {
                                reason:
                                    "the server replica no longer matches this session".to_owned(),
                            },
                        ),
                    ),
                },
            );
        }
    }

    /// Carries out a command with the random values that it may use up.
    pub fn handle_with(&mut self, command: ActorCommand, draws: &Draws, now: Instant)
        requires
            old(self).wf(),
            timely(old(self)@.config, now@),
            draws.registrations@.len() >= command_registrations(command@),
        ensures
            final(self).wf(),
            final(self)@ == old(self)@.handled(command@, draws@, now@),
            final(self)@.config == old(self)@.config,
    {
        match command {
            ActorCommand::Open { stream_id, frame } => {
                self.open(stream_id, frame, draws, now);
            },
            ActorCommand::Frame { stream_id, frame } => {
                self.frame(stream_id, frame, draws, now);
            },
            ActorCommand::StreamClosed { stream_id } => {
                self.stream_closed(stream_id);
            },
            ActorCommand::Route { connection, credential } => {
                let result = self.route(connection, credential, now);
                self.emit(Effect::RouteReply { connection, result });
            },
            ActorCommand::SpaceEvent(report) => {
                self.space_event(report.space_key.as_str(), report.event, now);
            },
            ActorCommand::Reconciled { space_key, application_revision, report } => {
                self.reconciled(space_key.as_str(), application_revision, &report);
            },
        }
    }

    /// Carries out a command. The random values that it may use up are drawn
    /// beforehand: as many as the command asks for, each of its due length.
    pub fn handle(&mut self, command: ActorCommand, now: Instant)
        requires
            old(self).wf(),
            timely(old(self)@.config, now@),
        ensures
            final(self).wf(),
            final(self)@.config == old(self)@.config,
            exists|draws: DrawsModel|
                draws.sized() && draws.registrations.len() == command_registrations(command@)
                    && final(self)@ == #[trigger] old(self)@.handled(command@, draws, now@),
    {
        let draws = draw_for(&command);
        self.handle_with(command, &draws, now);
    }
}

/// Draws what one registration may use up.
fn draw_registration() -> (draws: RegistrationDraws)
    ensures
        draws@.sized(),
{
    let incarnation_id = match random_bytes(16) {
        Ok(bytes) => Some(bytes),
        Err(_) => None,
    };
    let ownership_token = match random_bytes(32) {
        Ok(bytes) => Some(bytes),
        Err(_) => None,
    };
    let join_token = match random_join_token() {
        Ok(token) => Some(token),
        Err(_) => None,
    };
    RegistrationDraws { incarnation_id, ownership_token, join_token }
}

/// How many registrations a frame can carry out.
fn count_registrations(frame: &ClientFrame) -> (count: usize)
    ensures
        count == registrations_in(frame@.payload),
{
    match &frame.payload {
        Some(ClientPayload::OpenSession(command)) => match &command.desired_state {
            Some(snapshot) => snapshot.participants.len(),
            None => 0,
        },
        Some(ClientPayload::SyncDesiredState(command)) => match &command.desired_state {
            Some(snapshot) => snapshot.participants.len(),
            None => 0,
        },
        Some(ClientPayload::RegisterParticipant(_)) => 1,
        Some(ClientPayload::SetParticipantSpec(_)) => 1,
        _ => 0,
    }
}

/// Draws what a command may use up.
pub fn draw_for(command: &ActorCommand) -> (draws: Draws)
    ensures
        draws@.registrations.len() == command_registrations(command@),
        draws@.sized(),
{
    let count: usize = match command {
        ActorCommand::Open { frame, .. } => count_registrations(frame),
        ActorCommand::Frame { frame, .. } => count_registrations(frame),
        _ => 0,
    };
    let mut registrations: Vec<RegistrationDraws> = Vec::new();
    let mut i: usize = 0;
    while i < count
        invariant
            i <= count,
            registrations@.len() == i,
            forall|k: int| 0 <= k < i ==> (#[trigger] registrations@[k])@.sized(),
        decreases count - i,
    {
        registrations.push(draw_registration());
        i = i + 1;
    }
    let session_token = match random_bytes(32) {
        Ok(bytes) => Some(bytes),
        Err(_) => None,
    };
    let resume_token = match random_bytes(32) {
        Ok(bytes) => Some(bytes),
        Err(_) => None,
    };
    Draws { session_token, resume_token, registrations }
}

} // verus!
