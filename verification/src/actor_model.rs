//! What a command does to the state of the Controller server, and what the
//! runtime and the controllers are told of it.

use vstd::prelude::*;

use crate::config::ControllerConfig;
use crate::entropy::{is_join_token, ActorStartError};
use crate::host::{BindingsModel, HostError};
use crate::messages::{
    ClientFrame, ClientFrameModel, ClientPayloadModel, CloseSession, CommandErrorCode, CommandRejected, CommandRejectedModel, DesiredStateReconciled, DesiredStateReconciledModel, DesiredStateSnapshotModel, FetchResultModel, FetchSpace, FetchSpaceResult, FetchSpaceResultModel, LeaseDurationModel, ObservedSpacesAccepted, ObservedSpacesAcceptedModel, OpenSession, OpenSessionModel, OwnershipRevocationReason, ParticipantOwnershipGranted, ParticipantOwnershipGrantedModel, ParticipantOwnershipRevoked, ParticipantOwnershipRevokedModel, ParticipantRegistrationModel, ParticipantSpecAccepted, ParticipantSpecAcceptedModel, ParticipantSpecModel, ParticipantStatusChanged, ParticipantStatusChangedModel, ParticipantStatusModel, RegisterParticipant, ReleaseParticipant, RenewLease, RenewLeaseModel, ReplaceObservedSpaces, ResyncRequired, ResyncRequiredModel, ServerFrameModel, ServerPayloadModel, SessionClosing, SessionClosingModel, SessionReady, SessionReadyModel, SetParticipantSpec, SpaceAbsentModel, SpaceClosed, SpaceClosedModel, SpaceParticipantModel, SpaceSnapshot, SpaceSnapshotModel, SyncDesiredState,
};
use crate::ordered::in_order;
use crate::ownership::{
    ClaimMode, ClaimModel, ClaimOutcomeModel, OwnedModel, OwnershipError, OwnershipModel,
};
use crate::profile::{requested_profile, written_profile};
use crate::reliable::ReliableModel;
use crate::session::{
    CredentialsModel, OpenModel, ProfileModel, ReadyModel, RegistryModel, RenewOutcome,
    SessionError, SessionId,
};
use crate::spaces::{
    checked_spec, valid_space_key, ObservationsModel, ParticipantModel, RenderParticipantModel,
    RenderStateModel, ReportModel, SpaceEvent, SpaceEventKind, SpaceModel, SpaceReportModel,
};

verus! {

/// How a response stream ends.
#[derive(Debug, Clone, Copy, PartialEq, Eq, Structural)]
pub enum StreamStatus {
    InvalidArgument,
    FailedPrecondition,
}

/// What is to be done outside, in order.
pub enum EffectModel {
    Send { session_id: SessionId, stream_id: u64, frame: ServerFrameModel },
    Reply { stream_id: u64, frame: ServerFrameModel },
    EndStream { stream_id: u64, status: StreamStatus, message: Seq<char> },
    CreateShard { space_key: Seq<char> },
    Publish { desired: RenderStateModel },
    MoveConnection { connection: u64, space_key: Seq<char> },
    CloseConnection { connection: u64 },
    DestroyShard { space_key: Seq<char>, reason: Seq<char> },
    RouteReply { connection: u64, result: Result<Seq<char>, Seq<char>> },
}

/// What the actor is asked to do.
pub enum CommandModel {
    Open { stream_id: u64, frame: ClientFrameModel },
    Frame { stream_id: u64, frame: ClientFrameModel },
    StreamClosed { stream_id: u64 },
    Route { connection: u64, credential: Option<Seq<char>> },
    SpaceEvent(SpaceReportModel),
    Reconciled { space_key: Seq<char>, application_revision: u64, report: ReportModel },
}

/// How many registrations a payload can carry out.
pub open spec fn registrations_in(payload: Option<ClientPayloadModel>) -> nat {
    match payload {
        Some(ClientPayloadModel::OpenSession(command)) => match command.desired_state {
            Some(snapshot) => snapshot.participants.len(),
            None => 0,
        },
        Some(ClientPayloadModel::SyncDesiredState(command)) => match command.desired_state {
            Some(snapshot) => snapshot.participants.len(),
            None => 0,
        },
        Some(ClientPayloadModel::RegisterParticipant(_)) => 1,
        Some(ClientPayloadModel::SetParticipantSpec(_)) => 1,
        _ => 0,
    }
}

/// The random values that a registration may use up. A value is absent where
/// the random source failed.
pub struct RegistrationDrawsModel {
    pub incarnation_id: Option<Seq<u8>>,
    pub ownership_token: Option<Seq<u8>>,
    pub join_token: Option<Seq<char>>,
}

impl RegistrationDrawsModel {
    /// Whether what was drawn is as long as it has to be.
    pub open spec fn sized(self) -> bool {
        &&& self.incarnation_id matches Some(id) ==> id.len() == 16
        &&& self.ownership_token matches Some(token) ==> token.len() == 32
        &&& self.join_token matches Some(token) ==> is_join_token(token)
    }
}

/// The random values that a command may use up.
pub struct DrawsModel {
    pub session_token: Option<Seq<u8>>,
    pub resume_token: Option<Seq<u8>>,
    pub registrations: Seq<RegistrationDrawsModel>,
}

impl DrawsModel {
    /// Whether what was drawn is as long as it has to be.
    pub open spec fn sized(self) -> bool {
        &&& self.session_token matches Some(token) ==> token.len() == 32
        &&& self.resume_token matches Some(token) ==> token.len() == 32
        &&& forall|i: int|
            0 <= i < self.registrations.len() ==> (#[trigger] self.registrations[i]).sized()
    }
}

/// What the actor keeps of one session.
#[verifier::ext_equal]
pub struct AttachedModel {
    pub stream_id: Option<u64>,
    pub observations: ObservationsModel,
}

/// The state of the Controller server, and what it has asked for.
#[verifier::ext_equal]
pub struct ActorModel {
    pub config: ControllerConfig,
    pub profile: ProfileModel,
    pub control_epoch: Seq<u8>,
    pub core_sessions: RegistryModel,
    pub ownership: OwnershipModel,
    pub reliable: ReliableModel<ServerFrameModel>,
    pub sessions: Map<SessionId, AttachedModel>,
    pub streams: Map<u64, SessionId>,
    pub participants: Map<Seq<char>, ParticipantModel>,
    pub host: BindingsModel,
    pub spaces: Map<Seq<char>, SpaceModel>,
    pub next_application_revision: u64,
    pub effects: Seq<EffectModel>,
}

pub open spec fn framed(request_id: Seq<u8>, payload: ServerPayloadModel) -> ServerFrameModel {
    ServerFrameModel { request_id, payload: Some(payload) }
}

pub open spec fn rejection(
    request_id: Seq<u8>,
    code: CommandErrorCode,
    message: Seq<char>,
) -> ServerFrameModel {
    framed(
        request_id,
        ServerPayloadModel::CommandRejected(
            CommandRejectedModel { code: code.number(), message },
        ),
    )
}

/// A span of time on the wire.
pub open spec fn written_duration(nanos: nat) -> LeaseDurationModel {
    LeaseDurationModel {
        seconds: if nanos / 1_000_000_000 > i64::MAX {
            i64::MAX
        } else {
            (nanos / 1_000_000_000) as i64
        },
        nanos: (nanos % 1_000_000_000) as i32,
    }
}

pub open spec fn saturating_next(revision: u64) -> u64 {
    if revision == u64::MAX {
        u64::MAX
    } else {
        (revision + 1) as u64
    }
}

// What a controller may ask for.

pub open spec fn registration_fault(registration: ParticipantRegistrationModel) -> Result<
    (),
    Seq<char>,
> {
    if registration.participant_id.len() == 0 || vstd::utf8::encode_utf8(
        registration.participant_id,
    ).len() > 128 {
        Err("participant_id must contain between 1 and 128 bytes"@)
    } else if registration.registration_id.len() == 0 {
        Err("registration_id must not be empty"@)
    } else {
        match registration.spec {
            None => Err("participant spec is missing"@),
            Some(spec) => match checked_spec(spec) {
                Ok(_) => Ok(()),
                Err(error) => Err(error.text()),
            },
        }
    }
}

/// The first fault in a list of registrations, given those before it.
pub open spec fn registrations_fault(
    registrations: Seq<ParticipantRegistrationModel>,
    seen: Set<Seq<char>>,
) -> Result<(), Seq<char>>
    decreases registrations.len(),
{
    if registrations.len() == 0 {
        Ok(())
    } else if registration_fault(registrations[0]) is Err {
        registration_fault(registrations[0])
    } else if seen.contains(registrations[0].participant_id) {
        Err("desired snapshot contains a duplicate participant"@)
    } else {
        registrations_fault(
            registrations.drop_first(),
            seen.insert(registrations[0].participant_id),
        )
    }
}

/// The Spaces that a list of registrations asks for.
pub open spec fn desired_spaces(registrations: Seq<ParticipantRegistrationModel>) -> Set<Seq<char>>
    decreases registrations.len(),
{
    if registrations.len() == 0 {
        Set::empty()
    } else {
        let rest = desired_spaces(registrations.drop_last());
        match registrations.last().spec {
            Some(spec) => rest.insert(spec.space_key),
            None => rest,
        }
    }
}

pub open spec fn snapshot_fault(
    config: ControllerConfig,
    snapshot: Option<DesiredStateSnapshotModel>,
) -> Result<(), Seq<char>> {
    match snapshot {
        None => Err("desired state snapshot is missing"@),
        Some(snapshot) => {
            if snapshot.participants.len() > config.max_participants_per_session {
                Err("participant limit per session is exceeded"@)
            } else if snapshot.participants.len() > config.max_participants {
                Err("global participant limit is exceeded"@)
            } else if snapshot.observed_space_keys.len() > config.max_observations_per_session {
                Err("observation limit per session is exceeded"@)
            } else if registrations_fault(snapshot.participants, Set::empty()) is Err {
                registrations_fault(snapshot.participants, Set::empty())
            } else if desired_spaces(snapshot.participants).len() > config.max_spaces {
                Err("materialized Space limit is exceeded"@)
            } else if !snapshot.observed_space_keys.no_duplicates() {
                Err("desired snapshot contains a duplicate observation"@)
            } else if exists|i: int|
                0 <= i < snapshot.observed_space_keys.len() && !valid_space_key(
                    #[trigger] snapshot.observed_space_keys[i],
                ) {
                Err(crate::spaces::SpacesValidationError::InvalidSpaceKey.text())
            } else {
                Ok(())
            }
        },
    }
}

pub open spec fn registered_ids(registrations: Seq<ParticipantRegistrationModel>) -> Set<Seq<char>> {
    Seq::new(registrations.len(), |i: int| registrations[i].participant_id).to_set()
}

impl ActorModel {
    pub open spec fn emitted(self, effect: EffectModel) -> Self {
        ActorModel { effects: self.effects.push(effect), ..self }
    }

    /// The stream on which a session listens.
    pub open spec fn stream_of(self, id: SessionId) -> Option<u64> {
        if self.sessions.dom().contains(id) {
            self.sessions[id].stream_id
        } else {
            None
        }
    }

    /// A frame goes to a session that listens, and nowhere otherwise.
    pub open spec fn sent_uncached(self, id: SessionId, frame: ServerFrameModel) -> Self {
        match self.stream_of(id) {
            Some(stream_id) => self.emitted(
                EffectModel::Send { session_id: id, stream_id, frame },
            ),
            None => self,
        }
    }

    /// An answer to a request is recorded before it is sent. One that cannot
    /// be recorded is not sent, and the session has to resynchronise.
    pub open spec fn sent(self, id: SessionId, frame: ServerFrameModel) -> Self {
        if frame.request_id.len() == 0 {
            self.sent_uncached(id, frame)
        } else {
            let recorded = self.reliable.completed(id, frame.request_id, frame);
            match recorded.1 {
                Ok(_) => (ActorModel { reliable: recorded.0, ..self }).sent_uncached(id, frame),
                Err(_) => ActorModel {
                    core_sessions: self.core_sessions.resync_marked(id),
                    ..self
                },
            }
        }
    }

    pub open spec fn sent_to_each(self, ids: Seq<SessionId>, frame: ServerFrameModel) -> Self
        decreases ids.len(),
    {
        if ids.len() == 0 {
            self
        } else {
            self.sent(ids[0], frame).sent_to_each(ids.drop_first(), frame)
        }
    }

    pub open spec fn rejected(
        self,
        id: SessionId,
        request_id: Seq<u8>,
        code: CommandErrorCode,
        message: Seq<char>,
    ) -> Self {
        self.sent(id, rejection(request_id, code, message))
    }

    /// A command that came on `stream_id` is rejected where that stream has a session.
    pub open spec fn stream_rejected(
        self,
        stream_id: u64,
        request_id: Seq<u8>,
        code: CommandErrorCode,
        message: Seq<char>,
    ) -> Self {
        if self.streams.dom().contains(stream_id) {
            self.rejected(self.streams[stream_id], request_id, code, message)
        } else {
            self
        }
    }

    /// A stream that never became a session gets its rejection, and ends.
    pub open spec fn opening_rejected(
        self,
        stream_id: u64,
        request_id: Seq<u8>,
        code: CommandErrorCode,
        message: Seq<char>,
    ) -> Self {
        self.emitted(
            EffectModel::Reply { stream_id, frame: rejection(request_id, code, message) },
        ).emitted(
            EffectModel::EndStream {
                stream_id,
                status: StreamStatus::FailedPrecondition,
                message:
                    "OpenSession was rejected; this Controller stream carries no session"@,
            },
        )
    }

    pub open spec fn advanced(self, id: SessionId) -> Self {
        ActorModel { core_sessions: self.core_sessions.advanced(id), ..self }
    }

    pub open spec fn granted(
        self,
        id: SessionId,
        participant: ParticipantModel,
        request_id: Seq<u8>,
    ) -> Self {
        let participant_id = participant.participant_id;
        let owned = self.ownership.entries[participant_id];
        if !self.ownership.entries.dom().contains(participant_id) {
            self.rejected(
                id,
                request_id,
                CommandErrorCode::InternalError,
                "participant Host state has no ownership state"@,
            )
        } else if !self.host.participants.dom().contains(participant_id) {
            self.rejected(
                id,
                request_id,
                CommandErrorCode::InternalError,
                "participant Host state has no Mumble credential"@,
            )
        } else {
            self.sent(
                id,
                framed(
                    request_id,
                    ServerPayloadModel::ParticipantOwnershipGranted(
                        ParticipantOwnershipGrantedModel {
                            participant_id,
                            registration_id: owned.registration_id,
                            ownership_token: owned.fencing_token,
                            client_spec_revision: owned.client_revision,
                            accepted_spec_revision: owned.client_revision,
                            applied_spec_revision: participant.applied_spec_revision,
                            published_generation: participant.published_generation,
                            connection_credential: self.host.participants[participant_id].credential,
                        },
                    ),
                ),
            )
        }
    }

    pub open spec fn revoked(
        self,
        id: SessionId,
        participant_id: Seq<char>,
        registration_id: Seq<u8>,
        reason: OwnershipRevocationReason,
        request_id: Seq<u8>,
    ) -> Self {
        self.sent(
            id,
            framed(
                request_id,
                ServerPayloadModel::ParticipantOwnershipRevoked(
                    ParticipantOwnershipRevokedModel {
                        participant_id,
                        registration_id,
                        reason: reason.number(),
                    },
                ),
            ),
        )
    }

    /// The owner of a participant is told its current status.
    pub open spec fn status_sent(self, participant_id: Seq<char>) -> Self {
        if self.participants.dom().contains(participant_id)
            && self.ownership.entries.dom().contains(participant_id) {
            let participant = self.participants[participant_id];
            let owned = self.ownership.entries[participant_id];
            self.sent(
                owned.owner,
                framed(
                    Seq::empty(),
                    ServerPayloadModel::ParticipantStatusChanged(
                        ParticipantStatusChangedModel {
                            participant_id: participant.participant_id,
                            status: Some(
                                ParticipantStatusModel {
                                    connected: self.host.connection_of(
                                        participant.participant_id,
                                    ) is Some,
                                    applied_space_key: match participant.applied_space_key {
                                        Some(key) => key,
                                        None => Seq::empty(),
                                    },
                                    self_mute: participant.self_mute,
                                    self_deaf: participant.self_deaf,
                                    accepted_spec_revision: owned.client_revision,
                                    applied_spec_revision: participant.applied_spec_revision,
                                    published_generation: participant.published_generation,
                                    application_error: participant.application_error,
                                },
                            ),
                        },
                    ),
                ),
            )
        } else {
            self
        }
    }

    pub open spec fn statuses_sent(self, participant_ids: Seq<Seq<char>>) -> Self
        decreases participant_ids.len(),
    {
        if participant_ids.len() == 0 {
            self
        } else {
            self.status_sent(participant_ids[0]).statuses_sent(participant_ids.drop_first())
        }
    }

    /// The participants of a Space, in ascending order.
    pub open spec fn members(self, space_key: Seq<char>) -> Seq<Seq<char>> {
        in_order::<String>(self.participants.dom()).filter(
            |p: Seq<char>| self.participants[p].spec.space_key == space_key,
        )
    }

    pub open spec fn shown(self, p: Seq<char>) -> SpaceParticipantModel {
        let participant = self.participants[p];
        SpaceParticipantModel {
            participant_id: participant.participant_id,
            display_name: participant.spec.display_name,
            server_mute: participant.spec.server_mute,
            server_deaf: participant.spec.server_deaf,
            connected: self.host.connection_of(participant.participant_id) is Some,
        }
    }

    pub open spec fn snapshot_of(self, space_key: Seq<char>) -> Option<SpaceSnapshotModel> {
        if self.spaces.dom().contains(space_key) {
            let space = self.spaces[space_key];
            Some(
                SpaceSnapshotModel {
                    space_key,
                    incarnation_id: space.incarnation_id,
                    space_revision: space.space_revision,
                    participants: self.members(space_key).map_values(
                        |p: Seq<char>| self.shown(p),
                    ),
                    published_generation: space.published_generation,
                },
            )
        } else {
            None
        }
    }

    /// A session observes the Spaces that it named and those of its participants.
    pub open spec fn observes(self, id: SessionId, space_key: Seq<char>) -> bool {
        ||| self.sessions.dom().contains(id) && self.sessions[id].observations.explicit.contains(
            space_key,
        )
        ||| exists|p: Seq<char>| #[trigger]
            self.participants.dom().contains(p) && self.ownership.entries.dom().contains(
                self.participants[p].participant_id,
            ) && self.ownership.entries[self.participants[p].participant_id].owner == id
                && self.participants[p].spec.space_key == space_key
    }

    pub open spec fn observers(self, space_key: Seq<char>) -> Seq<SessionId> {
        in_order::<SessionId>(self.sessions.dom()).filter(
            |id: SessionId| self.observes(id, space_key),
        )
    }

    pub open spec fn snapshot_broadcast(self, space_key: Seq<char>) -> Self {
        match self.snapshot_of(space_key) {
            None => self,
            Some(snapshot) => self.sent_to_each(
                self.observers(space_key),
                framed(Seq::empty(), ServerPayloadModel::SpaceSnapshot(snapshot)),
            ),
        }
    }

    /// The materialized Spaces that a session observes, in ascending order.
    pub open spec fn observed_spaces(self, id: SessionId) -> Seq<Seq<char>> {
        in_order::<String>(self.spaces.dom()).filter(|key: Seq<char>| self.observes(id, key))
    }

    pub open spec fn snapshots_sent(self, id: SessionId, keys: Seq<Seq<char>>) -> Self
        decreases keys.len(),
    {
        if keys.len() == 0 {
            self
        } else {
            let next = match self.snapshot_of(keys[0]) {
                None => self,
                Some(snapshot) => self.sent(
                    id,
                    framed(Seq::empty(), ServerPayloadModel::SpaceSnapshot(snapshot)),
                ),
            };
            next.snapshots_sent(id, keys.drop_first())
        }
    }

    pub open spec fn effective_snapshots_sent(self, id: SessionId) -> Self {
        self.snapshots_sent(id, self.observed_spaces(id))
    }

    pub open spec fn closure_broadcast(self, space_key: Seq<char>, space: SpaceModel) -> Self {
        self.sent_to_each(
            in_order::<SessionId>(self.sessions.dom()).filter(
                |id: SessionId| self.sessions[id].observations.explicit.contains(space_key),
            ),
            framed(
                Seq::empty(),
                ServerPayloadModel::SpaceClosed(
                    SpaceClosedModel {
                        space_key,
                        incarnation_id: space.incarnation_id,
                        final_space_revision: space.space_revision,
                    },
                ),
            ),
        )
    }

    pub open spec fn rendered(self, p: Seq<char>) -> RenderParticipantModel {
        let participant = self.participants[p];
        RenderParticipantModel {
            participant_id: participant.participant_id,
            connection: self.host.connection_of(participant.participant_id),
            display_name: participant.spec.display_name,
            server_mute: participant.spec.server_mute,
            server_deaf: participant.spec.server_deaf,
            self_mute: participant.self_mute,
            self_deaf: participant.self_deaf,
            accepted_revision: self.ownership.entries[participant.participant_id].client_revision,
        }
    }

    /// What a Space is to show: its participants that have an owner.
    pub open spec fn render_list(self, space_key: Seq<char>) -> Seq<RenderParticipantModel> {
        in_order::<String>(self.participants.dom()).filter(
            |p: Seq<char>|
                self.participants[p].spec.space_key == space_key
                    && self.ownership.entries.dom().contains(self.participants[p].participant_id),
        ).map_values(|p: Seq<char>| self.rendered(p))
    }

    /// A Space is rendered anew, and its observers are told.
    pub open spec fn space_refreshed(self, space_key: Seq<char>, now: nat) -> Self {
        let revision = self.next_application_revision;
        let counted = ActorModel { next_application_revision: saturating_next(revision), ..self };
        if !self.spaces.dom().contains(space_key) {
            counted
        } else {
            let participants = self.render_list(space_key);
            (ActorModel {
                spaces: self.spaces.insert(
                    space_key,
                    self.spaces[space_key].refreshed(
                        revision,
                        participants,
                        now,
                        self.config.empty_space_grace@,
                    ),
                ),
                ..counted
            }).emitted(
                EffectModel::Publish {
                    desired: RenderStateModel {
                        application_revision: revision,
                        space_key,
                        participants,
                    },
                },
            ).snapshot_broadcast(space_key)
        }
    }

    /// A Space is materialized where there is room for it.
    pub open spec fn space_ensured(self, space_key: Seq<char>, incarnation_id: Option<Seq<u8>>) -> (
        Self,
        Result<(), Seq<char>>,
    ) {
        if self.spaces.dom().contains(space_key) {
            (self, Ok(()))
        } else if self.spaces.len() >= self.config.max_spaces {
            (self, Err("the materialized Space limit is reached"@))
        } else {
            match incarnation_id {
                None => (self, Err(ActorStartError::Randomness.text())),
                Some(incarnation_id) => (
                    (ActorModel {
                        spaces: self.spaces.insert(space_key, SpaceModel::fresh(incarnation_id)),
                        ..self
                    }).emitted(EffectModel::CreateShard { space_key }),
                    Ok(()),
                ),
            }
        }
    }

    /// The connection of a participant follows it into a materialized Space.
    pub open spec fn connection_moved(self, participant_id: Seq<char>, space_key: Seq<char>) -> Self {
        match self.host.connection_of(participant_id) {
            Some(connection) => if self.spaces.dom().contains(space_key) {
                self.emitted(EffectModel::MoveConnection { connection, space_key })
            } else {
                self
            },
            None => self,
        }
    }

    pub open spec fn with_participant(self, p: Seq<char>, participant: ParticipantModel) -> Self {
        ActorModel { participants: self.participants.insert(p, participant), ..self }
    }

    pub open spec fn spec_applied(self, p: Seq<char>, spec: ParticipantSpecModel, now: nat) -> Self {
        if !self.participants.dom().contains(p) {
            self
        } else {
            let old_space = self.participants[p].spec.space_key;
            let changed = self.with_participant(
                p,
                ParticipantModel { spec, ..self.participants[p] },
            ).space_refreshed(old_space, now);
            if spec.space_key == old_space {
                changed
            } else {
                changed.space_refreshed(spec.space_key, now).connection_moved(p, spec.space_key)
            }
        }
    }

    /// An optional request is rejected, if there is one.
    pub open spec fn maybe_rejected(
        self,
        id: SessionId,
        request_id: Option<Seq<u8>>,
        code: CommandErrorCode,
        message: Seq<char>,
    ) -> Self {
        match request_id {
            Some(request_id) => self.rejected(id, request_id, code, message),
            None => self,
        }
    }

    pub open spec fn released(
        self,
        id: SessionId,
        p: Seq<char>,
        registration_id: Seq<u8>,
        token: Seq<u8>,
        reason: OwnershipRevocationReason,
        request_id: Option<Seq<u8>>,
        now: nat,
    ) -> Self {
        let outcome = self.ownership.released(p, id, registration_id, token);
        if !self.participants.dom().contains(p) {
            if self.ownership.entries.dom().contains(p) {
                self.maybe_rejected(
                    id,
                    request_id,
                    CommandErrorCode::InternalError,
                    "ownership has no Host participant state"@,
                )
            } else {
                self.maybe_rejected(
                    id,
                    request_id,
                    CommandErrorCode::OwnershipLost,
                    "participant is no longer owned"@,
                )
            }
        } else {
            match outcome.1 {
                Err(_) => self.maybe_rejected(
                    id,
                    request_id,
                    CommandErrorCode::OwnershipLost,
                    "participant ownership token is stale"@,
                ),
                Ok(owned) => {
                    let forgotten = ActorModel {
                        ownership: outcome.0,
                        participants: self.participants.remove(p),
                        host: self.host.removed(p),
                        ..self
                    };
                    let closed = match self.host.connection_of(p) {
                        Some(connection) => forgotten.emitted(
                            EffectModel::CloseConnection { connection },
                        ),
                        None => forgotten,
                    };
                    closed.space_refreshed(self.participants[p].spec.space_key, now).revoked(
                        id,
                        p,
                        owned.registration_id,
                        reason,
                        match request_id {
                            Some(request_id) => request_id,
                            None => Seq::empty(),
                        },
                    )
                },
            }
        }
    }

    /// Releases each entity under its current capability.
    pub open spec fn all_released(
        self,
        id: SessionId,
        ids: Seq<Seq<char>>,
        reason: OwnershipRevocationReason,
        now: nat,
    ) -> Self
        decreases ids.len(),
    {
        if ids.len() == 0 {
            self
        } else {
            let owned = self.ownership.entries[ids[0]];
            let next = if self.ownership.entries.dom().contains(ids[0]) {
                self.released(
                    id,
                    ids[0],
                    owned.registration_id,
                    owned.fencing_token,
                    reason,
                    None,
                    now,
                )
            } else {
                self
            };
            next.all_released(id, ids.drop_first(), reason, now)
        }
    }

    /// An own registration is resumed under its credentials.
    pub open spec fn resumed(
        self,
        id: SessionId,
        registration: ParticipantRegistrationModel,
        request_id: Seq<u8>,
        mode: ClaimMode,
        now: nat,
    ) -> Self {
        let p = registration.participant_id;
        let claim = self.ownership.claimed(
            ClaimModel {
                entity_id: p,
                owner: id,
                registration_id: registration.registration_id,
                presented_fencing_token: registration.ownership_token,
                client_revision: registration.client_spec_revision,
                new_fencing_token: Seq::empty(),
                mode,
            },
        );
        let claimed = ActorModel { ownership: claim.0, ..self };
        match registration.spec {
            None => self.rejected(
                id,
                request_id,
                CommandErrorCode::InvalidArgument,
                "participant spec is missing"@,
            ),
            Some(spec) => match checked_spec(spec) {
                Err(error) => self.rejected(
                    id,
                    request_id,
                    CommandErrorCode::InvalidArgument,
                    error.text(),
                ),
                Ok(spec) => if !self.participants.dom().contains(p) {
                    self.rejected(
                        id,
                        request_id,
                        CommandErrorCode::InternalError,
                        "resumed ownership has no Host participant state"@,
                    )
                } else {
                    match claim.1 {
                        Err(error) => self.rejected(
                            id,
                            request_id,
                            CommandErrorCode::InternalError,
                            error.text(),
                        ),
                        Ok(ClaimOutcomeModel::Acquired { .. }) => claimed.rejected(
                            id,
                            request_id,
                            CommandErrorCode::InternalError,
                            "a resumed registration unexpectedly acquired ownership"@,
                        ),
                        Ok(ClaimOutcomeModel::Resumed { revision_advanced, .. }) => {
                            let applied = if revision_advanced {
                                claimed.spec_applied(p, spec, now)
                            } else {
                                claimed
                            };
                            if applied.participants.dom().contains(p) {
                                applied.granted(id, applied.participants[p], request_id)
                            } else {
                                applied
                            }
                        },
                    }
                },
            },
        }
    }

    /// The limits and indexes that an acquisition is checked against.
    pub open spec fn acquisition_fault(self, id: SessionId, p: Seq<char>) -> Option<
        (CommandErrorCode, Seq<char>),
    > {
        let known = self.ownership.entries.dom().contains(p);
        if known != self.participants.dom().contains(p) || known
            != self.host.participants.dom().contains(p) {
            Some(
                (
                    CommandErrorCode::InternalError,
                    "Core ownership and Host participant state disagree"@,
                ),
            )
        } else if !known && self.participants.len() >= self.config.max_participants {
            Some(
                (
                    CommandErrorCode::ResourceExhausted,
                    "the global participant limit is reached"@,
                ),
            )
        } else if !(known && self.ownership.entries[p].owner == id) && self.ownership.owned(
            id,
        ).len() >= self.config.max_participants_per_session {
            Some(
                (
                    CommandErrorCode::ResourceExhausted,
                    "the participant limit per session is reached"@,
                ),
            )
        } else {
            None
        }
    }

    /// A participant gets a new owner, or its first one.
    pub open spec fn acquired(
        self,
        id: SessionId,
        registration: ParticipantRegistrationModel,
        request_id: Seq<u8>,
        mode: ClaimMode,
        draws: RegistrationDrawsModel,
        now: nat,
    ) -> Self {
        let p = registration.participant_id;
        match registration.spec {
            None => self.rejected(
                id,
                request_id,
                CommandErrorCode::InvalidArgument,
                "participant spec is missing"@,
            ),
            Some(spec) => match checked_spec(spec) {
                Err(error) => self.rejected(
                    id,
                    request_id,
                    CommandErrorCode::InvalidArgument,
                    error.text(),
                ),
                Ok(spec) => match self.acquisition_fault(id, p) {
                    Some(fault) => self.rejected(id, request_id, fault.0, fault.1),
                    None => {
                        let ensured = self.space_ensured(spec.space_key, draws.incarnation_id);
                        match ensured.1 {
                            Err(error) => ensured.0.rejected(
                                id,
                                request_id,
                                CommandErrorCode::ResourceExhausted,
                                error,
                            ),
                            Ok(_) => ensured.0.acquired_in_space(
                                id,
                                registration,
                                spec,
                                request_id,
                                mode,
                                draws,
                                now,
                            ),
                        }
                    },
                },
            },
        }
    }

    /// The part of an acquisition that follows once its Space is materialized.
    pub open spec fn acquired_in_space(
        self,
        id: SessionId,
        registration: ParticipantRegistrationModel,
        spec: ParticipantSpecModel,
        request_id: Seq<u8>,
        mode: ClaimMode,
        draws: RegistrationDrawsModel,
        now: nat,
    ) -> Self {
        if draws.ownership_token is None || draws.join_token is None {
            self.rejected(
                id,
                request_id,
                CommandErrorCode::InternalError,
                ActorStartError::Randomness.text(),
            )
        } else if draws.join_token->0.len() == 0 || self.host.credential_taken(
            draws.join_token->0,
        ) {
            self.rejected(
                id,
                request_id,
                CommandErrorCode::InternalError,
                "generated Mumble credential collides with a live registration"@,
            )
        } else {
            let claim = self.ownership.claimed(
                ClaimModel {
                    entity_id: registration.participant_id,
                    owner: id,
                    registration_id: registration.registration_id,
                    presented_fencing_token: registration.ownership_token,
                    client_revision: registration.client_spec_revision,
                    new_fencing_token: draws.ownership_token->0,
                    mode,
                },
            );
            let claimed = ActorModel { ownership: claim.0, ..self };
            match claim.1 {
                Ok(ClaimOutcomeModel::Acquired { previous, .. }) => claimed.installed(
                    id,
                    registration,
                    spec,
                    request_id,
                    previous,
                    draws.join_token->0,
                    now,
                ),
                Ok(ClaimOutcomeModel::Resumed { .. }) => claimed.rejected(
                    id,
                    request_id,
                    CommandErrorCode::InternalError,
                    "an ownership acquisition unexpectedly resumed a registration"@,
                ),
                Err(error) => if error == OwnershipError::GlobalLimit || error
                    == OwnershipError::OwnerLimit {
                    self.rejected(
                        id,
                        request_id,
                        CommandErrorCode::ResourceExhausted,
                        "the ownership limit is reached"@,
                    )
                } else if error == OwnershipError::SnapshotConflict {
                    self.revoked(
                        id,
                        registration.participant_id,
                        registration.registration_id,
                        OwnershipRevocationReason::RegistrationRejected,
                        request_id,
                    )
                } else {
                    self.rejected(
                        id,
                        request_id,
                        CommandErrorCode::InternalError,
                        error.text(),
                    )
                },
            }
        }
    }

    /// The part of an acquisition that follows once the claim is granted. A
    /// transfer keeps what is live, and starts the revisions anew.
    pub open spec fn installed(
        self,
        id: SessionId,
        registration: ParticipantRegistrationModel,
        spec: ParticipantSpecModel,
        request_id: Seq<u8>,
        previous: Option<OwnedModel>,
        join_token: Seq<char>,
        now: nat,
    ) -> Self {
        let p = registration.participant_id;
        if previous is Some && !self.participants.dom().contains(p) {
            self.rejected(
                id,
                request_id,
                CommandErrorCode::InternalError,
                "replaced ownership has no Host participant state"@,
            )
        } else {
            let replaced = self.participants[p];
            let informed = match previous {
                None => self,
                Some(owned) => self.advanced(owned.owner).revoked(
                    owned.owner,
                    replaced.participant_id,
                    owned.registration_id,
                    OwnershipRevocationReason::OwnershipReplaced,
                    Seq::empty(),
                ),
            };
            let bound = informed.host.registered(p, join_token);
            let participant = ParticipantModel {
                participant_id: p,
                applied_spec_revision: 0,
                applied_space_key: if previous is Some {
                    replaced.applied_space_key
                } else {
                    None
                },
                published_generation: if previous is Some {
                    replaced.published_generation
                } else {
                    0
                },
                spec,
                self_mute: previous is Some && replaced.self_mute,
                self_deaf: previous is Some && replaced.self_deaf,
                application_error: Seq::empty(),
            };
            match bound.1 {
                Err(error) => informed.rejected(
                    id,
                    request_id,
                    CommandErrorCode::InternalError,
                    error.text(),
                ),
                Ok(_) => {
                    let old_space = if informed.participants.dom().contains(p) {
                        Some(informed.participants[p].spec.space_key)
                    } else {
                        None
                    };
                    let stored = (ActorModel { host: bound.0, ..informed }).with_participant(
                        p,
                        participant,
                    );
                    let placed = if old_space is Some && old_space->0 != spec.space_key {
                        stored.space_refreshed(old_space->0, now).space_refreshed(
                            spec.space_key,
                            now,
                        ).connection_moved(p, spec.space_key)
                    } else {
                        stored.space_refreshed(spec.space_key, now)
                    };
                    placed.granted(id, participant, request_id).status_sent(p)
                },
            }
        }
    }

    pub open spec fn registered_from_snapshot(
        self,
        id: SessionId,
        registration: ParticipantRegistrationModel,
        request_id: Seq<u8>,
        draws: RegistrationDrawsModel,
        now: nat,
    ) -> Self {
        let p = registration.participant_id;
        if !self.ownership.entries.dom().contains(p) {
            self.acquired(id, registration, request_id, ClaimMode::Snapshot, draws, now)
        } else if self.ownership.holds(
            p,
            id,
            registration.registration_id,
            registration.ownership_token,
        ) {
            self.resumed(id, registration, request_id, ClaimMode::Snapshot, now)
        } else {
            self.revoked(
                id,
                p,
                registration.registration_id,
                OwnershipRevocationReason::RegistrationRejected,
                request_id,
            )
        }
    }

    pub open spec fn registered_explicitly(
        self,
        id: SessionId,
        registration: ParticipantRegistrationModel,
        request_id: Seq<u8>,
        draws: RegistrationDrawsModel,
        now: nat,
    ) -> Self {
        let p = registration.participant_id;
        if self.ownership.entries.dom().contains(p) && self.ownership.entries[p].owner == id
            && self.ownership.entries[p].registration_id == registration.registration_id {
            self.resumed(id, registration, request_id, ClaimMode::Explicit, now)
        } else {
            self.acquired(id, registration, request_id, ClaimMode::Explicit, draws, now)
        }
    }

    pub open spec fn all_registered(
        self,
        id: SessionId,
        registrations: Seq<ParticipantRegistrationModel>,
        request_id: Seq<u8>,
        draws: Seq<RegistrationDrawsModel>,
        now: nat,
    ) -> Self
        decreases registrations.len(),
    {
        if registrations.len() == 0 {
            self
        } else {
            self.registered_from_snapshot(
                id,
                registrations[0],
                request_id,
                draws[0],
                now,
            ).all_registered(
                id,
                registrations.drop_first(),
                request_id,
                draws.drop_first(),
                now,
            )
        }
    }

    pub open spec fn with_observations(self, id: SessionId, observations: ObservationsModel) -> Self {
        ActorModel {
            sessions: self.sessions.insert(
                id,
                AttachedModel { observations, ..self.sessions[id] },
            ),
            ..self
        }
    }

    /// A full snapshot replaces all that a session holds.
    pub open spec fn snapshot_reconciled(
        self,
        id: SessionId,
        snapshot: DesiredStateSnapshotModel,
        request_id: Seq<u8>,
        draws: Seq<RegistrationDrawsModel>,
        now: nat,
    ) -> Self {
        let desired = registered_ids(snapshot.participants);
        let dropped = self.ownership.owned(id).filter(|p: Seq<char>| !desired.contains(p));
        let trimmed = self.all_released(
            id,
            dropped,
            OwnershipRevocationReason::ParticipantReleased,
            now,
        );
        let revised = ActorModel {
            core_sessions: trimmed.core_sessions.with_desired_revision(
                id,
                snapshot.desired_state_revision,
            ),
            ..trimmed
        };
        let observing = if revised.sessions.dom().contains(id) {
            revised.with_observations(
                id,
                ObservationsModel {
                    explicit: snapshot.observed_space_keys.to_set(),
                    ..revised.sessions[id].observations
                },
            )
        } else {
            revised
        };
        observing.all_registered(id, snapshot.participants, request_id, draws, now).sent(
            id,
            framed(
                request_id,
                ServerPayloadModel::DesiredStateReconciled(
                    DesiredStateReconciledModel {
                        desired_state_revision: snapshot.desired_state_revision,
                    },
                ),
            ),
        ).effective_snapshots_sent(id)
    }

    pub open spec fn spec_set(
        self,
        id: SessionId,
        p: Seq<char>,
        token: Seq<u8>,
        revision: u64,
        spec: ParticipantSpecModel,
        request_id: Seq<u8>,
        incarnation_id: Option<Seq<u8>>,
        now: nat,
    ) -> Self {
        let owned = self.ownership.entries[p];
        let current = self.participants[p];
        if !self.participants.dom().contains(p) {
            self.rejected(
                id,
                request_id,
                CommandErrorCode::NotFound,
                "participant is not registered"@,
            )
        } else if !self.ownership.entries.dom().contains(p) {
            self.rejected(
                id,
                request_id,
                CommandErrorCode::InternalError,
                "participant Host state has no ownership state"@,
            )
        } else if owned.owner != id || owned.fencing_token != token {
            self.rejected(
                id,
                request_id,
                CommandErrorCode::OwnershipLost,
                "participant ownership token is stale"@,
            )
        } else if revision < owned.client_revision {
            self.rejected(
                id,
                request_id,
                CommandErrorCode::StaleRevision,
                "participant spec revision moved backwards"@,
            )
        } else if revision == owned.client_revision && spec != current.spec {
            self.rejected(
                id,
                request_id,
                CommandErrorCode::StaleRevision,
                "a participant spec cannot change without advancing its revision"@,
            )
        } else {
            let ensured = self.space_ensured(spec.space_key, incarnation_id);
            match ensured.1 {
                Err(error) => ensured.0.rejected(
                    id,
                    request_id,
                    CommandErrorCode::ResourceExhausted,
                    error,
                ),
                Ok(_) => {
                    let accepted = ActorModel {
                        ownership: ensured.0.ownership.with(
                            p,
                            OwnershipModel::at_revision(owned, revision),
                        ),
                        ..ensured.0
                    };
                    let applied = if revision > owned.client_revision {
                        accepted.spec_applied(p, spec, now)
                    } else {
                        ensured.0
                    };
                    applied.sent(
                        id,
                        framed(
                            request_id,
                            ServerPayloadModel::ParticipantSpecAccepted(
                                ParticipantSpecAcceptedModel {
                                    participant_id: p,
                                    client_spec_revision: revision,
                                    accepted_spec_revision: revision,
                                    applied_spec_revision: applied.participants[p].applied_spec_revision,
                                    published_generation: applied.participants[p].published_generation,
                                },
                            ),
                        ),
                    )
                },
            }
        }
    }

    pub open spec fn observations_replaced(
        self,
        id: SessionId,
        revision: u64,
        keys: Seq<Seq<char>>,
        request_id: Seq<u8>,
    ) -> Self {
        if keys.len() > self.config.max_observations_per_session || exists|i: int|
            0 <= i < keys.len() && !valid_space_key(#[trigger] keys[i]) {
            self.rejected(
                id,
                request_id,
                CommandErrorCode::InvalidArgument,
                "invalid explicit observation set"@,
            )
        } else if !keys.no_duplicates() {
            self.rejected(
                id,
                request_id,
                CommandErrorCode::InvalidArgument,
                "explicit observation set contains a duplicate Space"@,
            )
        } else {
            let replaced = self.sessions[id].observations.replaced(revision, keys.to_set());
            if self.sessions.dom().contains(id) && replaced.1 is Err {
                self.rejected(
                    id,
                    request_id,
                    CommandErrorCode::StaleRevision,
                    "observation revision moved backwards"@,
                )
            } else {
                let observing = if self.sessions.dom().contains(id) {
                    self.with_observations(id, replaced.0)
                } else {
                    self
                };
                observing.sent(
                    id,
                    framed(
                        request_id,
                        ServerPayloadModel::ObservedSpacesAccepted(
                            ObservedSpacesAcceptedModel { observed_spaces_revision: revision },
                        ),
                    ),
                ).effective_snapshots_sent(id)
            }
        }
    }

    /// What a render of `space_key` did to one participant that it showed.
    pub open spec fn report_applied(
        self,
        space_key: Seq<char>,
        p: Seq<char>,
        applied_revision: u64,
        report: ReportModel,
    ) -> Self {
        let participant = self.participants[p];
        if !self.participants.dom().contains(p) || participant.spec.space_key != space_key {
            self
        } else {
            match report.refused {
                Some(error) => self.with_participant(
                    p,
                    ParticipantModel { application_error: error, ..participant },
                ),
                None => self.with_participant(
                    p,
                    ParticipantModel {
                        applied_spec_revision: if applied_revision
                            > participant.applied_spec_revision {
                            applied_revision
                        } else {
                            participant.applied_spec_revision
                        },
                        applied_space_key: Some(space_key),
                        published_generation: report.version,
                        application_error: Seq::empty(),
                        ..participant
                    },
                ),
            }
        }
    }

    pub open spec fn reports_applied(
        self,
        space_key: Seq<char>,
        ids: Seq<Seq<char>>,
        revisions: Map<Seq<char>, u64>,
        report: ReportModel,
    ) -> Self
        decreases ids.len(),
    {
        if ids.len() == 0 {
            self
        } else {
            self.report_applied(space_key, ids[0], revisions[ids[0]], report).reports_applied(
                space_key,
                ids.drop_first(),
                revisions,
                report,
            )
        }
    }

    pub open spec fn reconciled(self, space_key: Seq<char>, revision: u64, report: ReportModel) -> Self {
        if !self.spaces.dom().contains(space_key) {
            self
        } else {
            let settled = self.spaces[space_key].reconciled(revision, report);
            match settled.1 {
                None => self,
                Some(reconciliation) => {
                    let ids = in_order::<String>(reconciliation.revisions.dom());
                    (ActorModel {
                        spaces: self.spaces.insert(space_key, settled.0),
                        ..self
                    }).reports_applied(
                        space_key,
                        ids,
                        reconciliation.revisions,
                        report,
                    ).statuses_sent(ids).snapshot_broadcast(space_key)
                },
            }
        }
    }

    /// A connection asks where it belongs.
    pub open spec fn routed(self, connection: u64, credential: Option<Seq<char>>, now: nat) -> (
        Self,
        Result<Seq<char>, Seq<char>>,
    ) {
        match credential {
            None => (self, Err("a Mumble join token is required"@)),
            Some(credential) => {
                let bound = self.host.attached(credential, connection);
                match bound.1 {
                    Err(error) => (
                        self,
                        if error == HostError::UnknownCredential {
                            Err("the Mumble join token is invalid or revoked"@)
                        } else {
                            Err(error.text())
                        },
                    ),
                    Ok(attachment) => {
                        let p = attachment.participant_id;
                        let attached = ActorModel { host: bound.0, ..self };
                        let closed = match attachment.replaced_connection {
                            Some(connection) => attached.emitted(
                                EffectModel::CloseConnection { connection },
                            ),
                            None => attached,
                        };
                        if !self.participants.dom().contains(p) {
                            (closed, Err("the Mumble join token is invalid or revoked"@))
                        } else {
                            let key = self.participants[p].spec.space_key;
                            (
                                closed.space_refreshed(key, now).status_sent(p),
                                if self.spaces.dom().contains(key) {
                                    Ok(key)
                                } else {
                                    Err("the participant Space is not materialized"@)
                                },
                            )
                        }
                    },
                }
            },
        }
    }

    pub open spec fn space_event_applied(self, space_key: Seq<char>, event: SpaceEvent, now: nat) -> Self {
        match self.host.participant_of(event.connection@) {
            None => self,
            Some(p) => {
                let participant = self.participants[p];
                if !self.participants.dom().contains(p) {
                    self.status_sent(p)
                } else if participant.spec.space_key != space_key {
                    self
                } else {
                    match event.kind {
                        SpaceEventKind::Connected => self.status_sent(p),
                        SpaceEventKind::Disconnected => (ActorModel {
                            host: self.host.disconnected(event.connection@),
                            ..self
                        }).space_refreshed(space_key, now).status_sent(p),
                        SpaceEventKind::SelfState { self_mute, self_deaf } => self.with_participant(
                            p,
                            ParticipantModel { self_mute, self_deaf, ..participant },
                        ).space_refreshed(space_key, now).status_sent(p),
                    }
                }
            },
        }
    }

    pub open spec fn detached(self, id: SessionId) -> Self {
        ActorModel {
            sessions: self.sessions.insert(
                id,
                AttachedModel { stream_id: None, ..self.sessions[id] },
            ),
            ..self
        }
    }

    pub open spec fn stream_ended(self, stream_id: u64) -> Self {
        if !self.streams.dom().contains(stream_id) {
            self
        } else {
            let id = self.streams[stream_id];
            let forgotten = ActorModel { streams: self.streams.remove(stream_id), ..self };
            if self.stream_of(id) == Some(stream_id) {
                forgotten.detached(id)
            } else {
                forgotten
            }
        }
    }

    /// The receiver of a session's frames is gone.
    pub open spec fn receiver_gone(self, id: SessionId) -> Self {
        match self.stream_of(id) {
            Some(stream_id) => (ActorModel {
                streams: self.streams.remove(stream_id),
                ..self
            }).detached(id),
            None => self,
        }
    }

    pub open spec fn session_removed(
        self,
        id: SessionId,
        reason: OwnershipRevocationReason,
        now: nat,
    ) -> Self {
        let released = self.all_released(id, self.ownership.owned(id), reason, now);
        ActorModel {
            core_sessions: released.core_sessions.removed(id),
            reliable: released.reliable.removed(id),
            sessions: released.sessions.remove(id),
            streams: match released.stream_of(id) {
                Some(stream_id) => released.streams.remove(stream_id),
                None => released.streams,
            },
            ..released
        }
    }

    pub open spec fn sessions_removed(
        self,
        ids: Seq<SessionId>,
        reason: OwnershipRevocationReason,
        now: nat,
    ) -> Self
        decreases ids.len(),
    {
        if ids.len() == 0 {
            self
        } else {
            self.session_removed(ids[0], reason, now).sessions_removed(
                ids.drop_first(),
                reason,
                now,
            )
        }
    }

    pub open spec fn is_inhabited(self, space_key: Seq<char>) -> bool {
        exists|p: Seq<char>| #[trigger]
            self.participants.dom().contains(p) && self.participants[p].spec.space_key == space_key
    }

    /// An empty Space is destroyed.
    pub open spec fn space_closed(self, space_key: Seq<char>) -> Self {
        if self.is_inhabited(space_key) || !self.spaces.dom().contains(space_key) {
            self
        } else {
            (ActorModel { spaces: self.spaces.remove(space_key), ..self }).emitted(
                EffectModel::DestroyShard { space_key, reason: "empty Space grace elapsed"@ },
            ).closure_broadcast(space_key, self.spaces[space_key])
        }
    }

    pub open spec fn spaces_closed(self, keys: Seq<Seq<char>>) -> Self
        decreases keys.len(),
    {
        if keys.len() == 0 {
            self
        } else {
            self.space_closed(keys[0]).spaces_closed(keys.drop_first())
        }
    }

    /// The Spaces whose grace has elapsed, in ascending order.
    pub open spec fn due_spaces(self, now: nat) -> Seq<Seq<char>> {
        in_order::<String>(self.spaces.dom()).filter(
            |key: Seq<char>|
                self.spaces[key].close_deadline is Some && self.spaces[key].close_deadline->0
                    <= now,
        )
    }

    pub open spec fn due_expired(self, now: nat) -> Self {
        let expired = self.sessions_removed(
            self.core_sessions.expired(now),
            OwnershipRevocationReason::SessionExpired,
            now,
        );
        expired.spaces_closed(expired.due_spaces(now))
    }

    /// `deadline` is the first point at which something falls due.
    pub open spec fn first_deadline(self, deadline: Option<nat>) -> bool {
        match deadline {
            None => {
                &&& self.core_sessions.sessions.dom() =~= Set::empty()
                &&& forall|key: Seq<char>| #[trigger]
                    self.spaces.dom().contains(key) ==> self.spaces[key].close_deadline is None
            },
            Some(at) => {
                &&& self.core_sessions.sessions.dom().finite()
                &&& (exists|id: SessionId| #[trigger]
                    self.core_sessions.sessions.dom().contains(id)
                        && self.core_sessions.sessions[id].expires_at == at) || (exists|
                    key: Seq<char>,
                | #[trigger]
                    self.spaces.dom().contains(key) && self.spaces[key].close_deadline == Some(at))
                &&& forall|id: SessionId| #[trigger]
                    self.core_sessions.sessions.dom().contains(id) ==> at
                        <= self.core_sessions.sessions[id].expires_at
                &&& forall|key: Seq<char>| #[trigger]
                    self.spaces.dom().contains(key) ==> (self.spaces[key].close_deadline matches Some(
                        deadline,
                    ) ==> at <= deadline)
            },
        }
    }

    /// A session listens on a new stream, and its lease starts anew.
    pub open spec fn stream_attached(self, id: SessionId, stream_id: u64, now: nat) -> Self {
        let cleared = match self.stream_of(id) {
            Some(previous) => self.streams.remove(previous),
            None => self.streams,
        };
        let streams = cleared.insert(stream_id, id);
        if self.sessions.dom().contains(id) {
            ActorModel {
                streams,
                sessions: self.sessions.insert(
                    id,
                    AttachedModel { stream_id: Some(stream_id), ..self.sessions[id] },
                ),
                core_sessions: self.core_sessions.lease_refreshed(id, now),
                ..self
            }
        } else {
            ActorModel { streams, ..self }
        }
    }

    pub open spec fn opened(
        self,
        stream_id: u64,
        frame: ClientFrameModel,
        draws: DrawsModel,
        now: nat,
    ) -> Self {
        match frame.payload {
            Some(ClientPayloadModel::OpenSession(open)) => self.open_requested(
                stream_id,
                frame.request_id,
                open,
                draws,
                now,
            ),
            _ => self.emitted(
                EffectModel::EndStream {
                    stream_id,
                    status: StreamStatus::InvalidArgument,
                    message: "the first Controller frame must be OpenSession"@,
                },
            ),
        }
    }

    pub open spec fn open_requested(
        self,
        stream_id: u64,
        request_id: Seq<u8>,
        open: OpenSessionModel,
        draws: DrawsModel,
        now: nat,
    ) -> Self {
        if request_id.len() == 0 || open.controller_id.len() == 0
            || open.controller_instance_id.len() == 0 {
            self.opening_rejected(
                stream_id,
                request_id,
                CommandErrorCode::InvalidArgument,
                "OpenSession requires request_id, controller_id and controller_instance_id"@,
            )
        } else {
            match open.profile {
                None => self.opening_rejected(
                    stream_id,
                    request_id,
                    CommandErrorCode::InvalidArgument,
                    "OpenSession requires a negotiated profile"@,
                ),
                Some(profile) => match requested_profile(profile, self.profile) {
                    Err(error) => self.opening_rejected(
                        stream_id,
                        request_id,
                        CommandErrorCode::InvalidArgument,
                        error.text(),
                    ),
                    Ok(profile) => match snapshot_fault(self.config, open.desired_state) {
                        Err(message) => self.opening_rejected(
                            stream_id,
                            request_id,
                            CommandErrorCode::InvalidArgument,
                            message,
                        ),
                        Ok(_) => self.open_checked(
                            stream_id,
                            request_id,
                            open,
                            profile,
                            draws,
                            now,
                        ),
                    },
                },
            }
        }
    }

    /// The part of an opening that follows once the request is found valid.
    pub open spec fn open_checked(
        self,
        stream_id: u64,
        request_id: Seq<u8>,
        open: OpenSessionModel,
        profile: ProfileModel,
        draws: DrawsModel,
        now: nat,
    ) -> Self {
        if draws.session_token is None || draws.resume_token is None {
            self.opening_rejected(
                stream_id,
                request_id,
                CommandErrorCode::InternalError,
                ActorStartError::Randomness.text(),
            )
        } else {
            let credentials = CredentialsModel {
                session_token: draws.session_token->0,
                resume_token: draws.resume_token->0,
            };
            let answer = self.core_sessions.opened(
                OpenModel {
                    controller_id: open.controller_id,
                    controller_instance_id: open.controller_instance_id,
                    resume_token: open.resume_token,
                    profile,
                    credentials,
                    now,
                },
            );
            if !credentials.present() {
                self.opening_rejected(
                    stream_id,
                    request_id,
                    CommandErrorCode::InternalError,
                    SessionError::EmptyCredential.text(),
                )
            } else {
                match answer.1 {
                    Err(error) => self.opening_rejected(
                        stream_id,
                        request_id,
                        if error == SessionError::ResourceExhausted {
                            CommandErrorCode::ResourceExhausted
                        } else {
                            CommandErrorCode::InternalError
                        },
                        error.text(),
                    ),
                    Ok(ready) => (ActorModel { core_sessions: answer.0, ..self }).session_opened(
                        stream_id,
                        request_id,
                        ready,
                        open.desired_state->0,
                        draws.registrations,
                        now,
                    ),
                }
            }
        }
    }

    /// The part of an opening that follows once the session exists.
    pub open spec fn session_opened(
        self,
        stream_id: u64,
        request_id: Seq<u8>,
        ready: ReadyModel,
        snapshot: DesiredStateSnapshotModel,
        draws: Seq<RegistrationDrawsModel>,
        now: nat,
    ) -> Self {
        let id = ready.session_id;
        if ready.resumed && !self.sessions.dom().contains(id) {
            self.opening_rejected(
                stream_id,
                request_id,
                CommandErrorCode::InternalError,
                "the resumed Controller session has no Host state"@,
            )
        } else {
            let prepared = if ready.resumed {
                self
            } else {
                ActorModel {
                    reliable: self.reliable.attached(id),
                    sessions: self.sessions.insert(
                        id,
                        AttachedModel {
                            stream_id: None,
                            observations: ObservationsModel::none(),
                        },
                    ),
                    ..self
                }
            };
            prepared.stream_attached(id, stream_id, now).sent(
                id,
                framed(
                    request_id,
                    ServerPayloadModel::SessionReady(
                        SessionReadyModel {
                            session_token: ready.session_token,
                            resume_token: ready.resume_token,
                            control_epoch: self.control_epoch,
                            lease_duration: Some(written_duration(self.config.lease_duration@)),
                            profile: Some(written_profile(ready.profile)),
                        },
                    ),
                ),
            ).snapshot_reconciled(id, snapshot, request_id, draws, now)
        }
    }

    /// A command whose session token is not current.
    pub open spec fn expired_token(self, id: SessionId, request_id: Seq<u8>) -> Self {
        self.rejected(
            id,
            request_id,
            CommandErrorCode::SessionExpiredError,
            "session token is not current"@,
        )
    }

    pub open spec fn framed_command(
        self,
        stream_id: u64,
        frame: ClientFrameModel,
        draws: DrawsModel,
        now: nat,
    ) -> Self {
        let request_id = frame.request_id;
        if request_id.len() == 0 {
            self.stream_rejected(
                stream_id,
                request_id,
                CommandErrorCode::InvalidArgument,
                "request_id must not be empty"@,
            )
        } else {
            match frame.payload {
                None => self.stream_rejected(
                    stream_id,
                    request_id,
                    CommandErrorCode::InvalidArgument,
                    "ClientFrame has no payload"@,
                ),
                Some(ClientPayloadModel::OpenSession(_)) => self.stream_rejected(
                    stream_id,
                    request_id,
                    CommandErrorCode::InvalidArgument,
                    "OpenSession is only valid as the first frame"@,
                ),
                Some(payload) => {
                    if !self.streams.dom().contains(stream_id) {
                        self
                    } else {
                        let id = self.streams[stream_id];
                        if self.reliable.replays(id, request_id) {
                            self.sent_uncached(id, self.reliable.sessions[id].results[request_id])
                        } else {
                            self.commanded(id, request_id, payload, draws, now)
                        }
                    }
                },
            }
        }
    }

    pub open spec fn handled(self, command: CommandModel, draws: DrawsModel, now: nat) -> Self {
        match command {
            CommandModel::Open { stream_id, frame } => self.opened(stream_id, frame, draws, now),
            CommandModel::Frame { stream_id, frame } => self.framed_command(
                stream_id,
                frame,
                draws,
                now,
            ),
            CommandModel::StreamClosed { stream_id } => self.stream_ended(stream_id),
            CommandModel::Route { connection, credential } => {
                let routed = self.routed(connection, credential, now);
                routed.0.emitted(EffectModel::RouteReply { connection, result: routed.1 })
            },
            CommandModel::SpaceEvent(report) => self.space_event_applied(
                report.space_key,
                report.event,
                now,
            ),
            CommandModel::Reconciled { space_key, application_revision, report } =>
                self.reconciled(space_key, application_revision, report),
        }
    }

    /// The session token that a command presents.
    pub open spec fn presented_token(payload: ClientPayloadModel) -> Seq<u8> {
        match payload {
            ClientPayloadModel::OpenSession(_) => Seq::empty(),
            ClientPayloadModel::RenewLease(command) => command.session_token,
            ClientPayloadModel::SyncDesiredState(command) => command.session_token,
            ClientPayloadModel::RegisterParticipant(command) => command.session_token,
            ClientPayloadModel::SetParticipantSpec(command) => command.session_token,
            ClientPayloadModel::ReleaseParticipant(command) => command.session_token,
            ClientPayloadModel::ReplaceObservedSpaces(command) => command.session_token,
            ClientPayloadModel::FetchSpace(command) => command.session_token,
            ClientPayloadModel::CloseSession(command) => command.session_token,
        }
    }

    /// A new command of session `id`.
    pub open spec fn commanded(
        self,
        id: SessionId,
        request_id: Seq<u8>,
        payload: ClientPayloadModel,
        draws: DrawsModel,
        now: nat,
    ) -> Self {
        if payload is OpenSession {
            self
        } else if !self.core_sessions.authorizes(id, Self::presented_token(payload)) {
            self.expired_token(id, request_id)
        } else {
            match payload {
                ClientPayloadModel::OpenSession(_) => self,
                ClientPayloadModel::RenewLease(command) => self.lease_renewed(
                    id,
                    request_id,
                    command,
                    now,
                ),
                ClientPayloadModel::SyncDesiredState(command) => match snapshot_fault(
                    self.config,
                    command.desired_state,
                ) {
                    Err(message) => self.rejected(
                        id,
                        request_id,
                        CommandErrorCode::InvalidArgument,
                        message,
                    ),
                    Ok(_) => self.snapshot_reconciled(
                        id,
                        command.desired_state->0,
                        request_id,
                        draws.registrations,
                        now,
                    ),
                },
                ClientPayloadModel::RegisterParticipant(command) => match command.participant {
                    None => self.rejected(
                        id,
                        request_id,
                        CommandErrorCode::InvalidArgument,
                        "participant registration is missing"@,
                    ),
                    Some(registration) => match registration_fault(registration) {
                        Err(message) => self.rejected(
                            id,
                            request_id,
                            CommandErrorCode::InvalidArgument,
                            message,
                        ),
                        Ok(_) => self.advanced(id).registered_explicitly(
                            id,
                            registration,
                            request_id,
                            draws.registrations[0],
                            now,
                        ),
                    },
                },
                ClientPayloadModel::SetParticipantSpec(command) => match command.spec {
                    None => self.rejected(
                        id,
                        request_id,
                        CommandErrorCode::InvalidArgument,
                        "participant spec is missing"@,
                    ),
                    Some(spec) => match checked_spec(spec) {
                        Err(error) => self.rejected(
                            id,
                            request_id,
                            CommandErrorCode::InvalidArgument,
                            error.text(),
                        ),
                        Ok(spec) => self.advanced(id).spec_set(
                            id,
                            command.participant_id,
                            command.ownership_token,
                            command.client_spec_revision,
                            spec,
                            request_id,
                            draws.registrations[0].incarnation_id,
                            now,
                        ),
                    },
                },
                ClientPayloadModel::ReleaseParticipant(command) => self.advanced(id).released(
                    id,
                    command.participant_id,
                    command.registration_id,
                    command.ownership_token,
                    OwnershipRevocationReason::ParticipantReleased,
                    Some(request_id),
                    now,
                ),
                ClientPayloadModel::ReplaceObservedSpaces(command) => self.advanced(
                    id,
                ).observations_replaced(
                    id,
                    command.observed_spaces_revision,
                    command.space_keys,
                    request_id,
                ),
                ClientPayloadModel::FetchSpace(command) => self.sent(
                    id,
                    framed(
                        request_id,
                        ServerPayloadModel::FetchSpaceResult(
                            FetchSpaceResultModel {
                                result: Some(
                                    match self.snapshot_of(command.space_key) {
                                        Some(snapshot) => FetchResultModel::Snapshot(snapshot),
                                        None => FetchResultModel::Absent(
                                            SpaceAbsentModel { space_key: command.space_key },
                                        ),
                                    },
                                ),
                            },
                        ),
                    ),
                ),
                ClientPayloadModel::CloseSession(_) => self.sent(
                    id,
                    framed(
                        request_id,
                        ServerPayloadModel::SessionClosing(
                            SessionClosingModel { reason: "session closed by controller"@ },
                        ),
                    ),
                ).session_removed(id, OwnershipRevocationReason::ParticipantReleased, now),
            }
        }
    }

    pub open spec fn lease_renewed(
        self,
        id: SessionId,
        request_id: Seq<u8>,
        command: RenewLeaseModel,
        now: nat,
    ) -> Self {
        let renewal = self.core_sessions.renewed(
            id,
            command.session_token,
            command.desired_state_revision,
            now,
        );
        let renewed = ActorModel { core_sessions: renewal.0, ..self };
        if renewal.1 == Ok::<RenewOutcome, SessionError>(RenewOutcome::ResyncRequired) {
            renewed.sent(
                id,
                framed(
                    request_id,
                    ServerPayloadModel::ResyncRequired(
                        ResyncRequiredModel {
                            reason: "the server replica no longer matches this session"@,
                        },
                    ),
                ),
            )
        } else {
            renewed
        }
    }
}

// What a message leaves alone.

impl ActorModel {
    /// `after` differs from this state in nothing but what was said.
    pub open spec fn only_said(self, after: Self) -> bool {
        &&& after.config == self.config
        &&& after.profile == self.profile
        &&& after.control_epoch == self.control_epoch
        &&& after.ownership == self.ownership
        &&& after.sessions == self.sessions
        &&& after.streams == self.streams
        &&& after.participants == self.participants
        &&& after.host == self.host
        &&& after.spaces == self.spaces
        &&& after.next_application_revision == self.next_application_revision
        &&& after.reliable.sessions.dom() == self.reliable.sessions.dom()
        &&& after.core_sessions.sessions.dom() == self.core_sessions.sessions.dom()
        &&& after.core_sessions.maximum_sessions == self.core_sessions.maximum_sessions
        &&& after.core_sessions.next_session_id == self.core_sessions.next_session_id
        &&& after.reliable.maximum_completed_per_session
            == self.reliable.maximum_completed_per_session
        &&& self.reliable.valid() ==> after.reliable.valid()
    }

    /// `after` differs from this state in nothing but what was said and rendered.
    pub open spec fn only_rendered(self, after: Self) -> bool {
        &&& after.config == self.config
        &&& after.profile == self.profile
        &&& after.control_epoch == self.control_epoch
        &&& after.ownership == self.ownership
        &&& after.sessions == self.sessions
        &&& after.streams == self.streams
        &&& after.participants == self.participants
        &&& after.host == self.host
        &&& after.spaces.dom() == self.spaces.dom()
        &&& after.reliable.sessions.dom() == self.reliable.sessions.dom()
        &&& after.core_sessions.sessions.dom() == self.core_sessions.sessions.dom()
        &&& after.core_sessions.maximum_sessions == self.core_sessions.maximum_sessions
        &&& after.core_sessions.next_session_id == self.core_sessions.next_session_id
        &&& after.reliable.maximum_completed_per_session
            == self.reliable.maximum_completed_per_session
        &&& self.reliable.valid() ==> after.reliable.valid()
    }

    pub proof fn lemma_sent(self, id: SessionId, frame: ServerFrameModel)
        ensures
            self.only_said(self.sent(id, frame)),
    {
        if self.reliable.valid() && self.reliable.sessions.dom().contains(id) {
            crate::reliable::lemma_completed_valid(
                self.reliable.sessions[id],
                frame.request_id,
                frame,
                self.reliable.maximum_completed_per_session,
            );
            let completed = self.reliable.completed(id, frame.request_id, frame).0;
            assert(completed.valid()) by {
                assert forall|other: SessionId| #[trigger]
                    completed.sessions.dom().contains(other) implies completed.sessions[other].valid(
                    completed.maximum_completed_per_session,
                ) by {
                    assert(self.reliable.sessions.dom().contains(other));
                }
            }
        }
        assert(self.sent(id, frame).reliable.sessions.dom() =~= self.reliable.sessions.dom());
        assert(self.sent(id, frame).core_sessions.sessions.dom()
            =~= self.core_sessions.sessions.dom());
    }

    pub proof fn lemma_sent_to_each(self, ids: Seq<SessionId>, frame: ServerFrameModel)
        ensures
            self.only_said(self.sent_to_each(ids, frame)),
        decreases ids.len(),
    {
        if ids.len() > 0 {
            self.lemma_sent(ids[0], frame);
            self.sent(ids[0], frame).lemma_sent_to_each(ids.drop_first(), frame);
        }
    }

    pub proof fn lemma_status_sent(self, p: Seq<char>)
        ensures
            self.only_said(self.status_sent(p)),
    {
        if self.participants.dom().contains(p) && self.ownership.entries.dom().contains(p) {
            let participant = self.participants[p];
            let owned = self.ownership.entries[p];
            let frame = framed(
                Seq::empty(),
                ServerPayloadModel::ParticipantStatusChanged(
                    ParticipantStatusChangedModel {
                        participant_id: participant.participant_id,
                        status: Some(
                            ParticipantStatusModel {
                                connected: self.host.connection_of(
                                    participant.participant_id,
                                ) is Some,
                                applied_space_key: match participant.applied_space_key {
                                    Some(key) => key,
                                    None => Seq::empty(),
                                },
                                self_mute: participant.self_mute,
                                self_deaf: participant.self_deaf,
                                accepted_spec_revision: owned.client_revision,
                                applied_spec_revision: participant.applied_spec_revision,
                                published_generation: participant.published_generation,
                                application_error: participant.application_error,
                            },
                        ),
                    },
                ),
            );
            self.lemma_sent(owned.owner, frame);
        }
    }

    pub proof fn lemma_statuses_sent(self, ids: Seq<Seq<char>>)
        ensures
            self.only_said(self.statuses_sent(ids)),
        decreases ids.len(),
    {
        if ids.len() > 0 {
            self.lemma_status_sent(ids[0]);
            self.status_sent(ids[0]).lemma_statuses_sent(ids.drop_first());
        }
    }

    pub proof fn lemma_snapshots_sent(self, id: SessionId, keys: Seq<Seq<char>>)
        ensures
            self.only_said(self.snapshots_sent(id, keys)),
        decreases keys.len(),
    {
        if keys.len() > 0 {
            let next = match self.snapshot_of(keys[0]) {
                None => self,
                Some(snapshot) => self.sent(
                    id,
                    framed(Seq::empty(), ServerPayloadModel::SpaceSnapshot(snapshot)),
                ),
            };
            if let Some(snapshot) = self.snapshot_of(keys[0]) {
                self.lemma_sent(
                    id,
                    framed(Seq::empty(), ServerPayloadModel::SpaceSnapshot(snapshot)),
                );
            }
            next.lemma_snapshots_sent(id, keys.drop_first());
        }
    }

    pub proof fn lemma_snapshot_broadcast(self, key: Seq<char>)
        ensures
            self.only_said(self.snapshot_broadcast(key)),
    {
        if let Some(snapshot) = self.snapshot_of(key) {
            self.lemma_sent_to_each(
                self.observers(key),
                framed(Seq::empty(), ServerPayloadModel::SpaceSnapshot(snapshot)),
            );
        }
    }

    pub proof fn lemma_space_refreshed(self, key: Seq<char>, now: nat)
        ensures
            self.only_rendered(self.space_refreshed(key, now)),
    {
        if self.spaces.dom().contains(key) {
            let revision = self.next_application_revision;
            let participants = self.render_list(key);
            let published = (ActorModel {
                next_application_revision: saturating_next(revision),
                spaces: self.spaces.insert(
                    key,
                    self.spaces[key].refreshed(
                        revision,
                        participants,
                        now,
                        self.config.empty_space_grace@,
                    ),
                ),
                ..self
            }).emitted(
                EffectModel::Publish {
                    desired: RenderStateModel {
                        application_revision: revision,
                        space_key: key,
                        participants,
                    },
                },
            );
            published.lemma_snapshot_broadcast(key);
            assert(published.spaces.dom() =~= self.spaces.dom());
        }
    }

    pub proof fn lemma_spec_applied(self, p: Seq<char>, spec: ParticipantSpecModel, now: nat)
        requires
            self.participants.dom().contains(p),
        ensures
            self.with_participant(
                p,
                ParticipantModel { spec, ..self.participants[p] },
            ).only_rendered(self.spec_applied(p, spec, now)),
    {
        let changed = self.with_participant(p, ParticipantModel { spec, ..self.participants[p] });
        let old_space = self.participants[p].spec.space_key;
        changed.lemma_space_refreshed(old_space, now);
        changed.space_refreshed(old_space, now).lemma_space_refreshed(spec.space_key, now);
    }
}

} // verus!
