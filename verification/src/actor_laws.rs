//! What holds of the Controller server in every state, and of every command.

use vstd::prelude::*;

use crate::actor_model::{
    framed, registered_ids, rejection, ActorModel, AttachedModel, CommandModel, DrawsModel,
    EffectModel, RegistrationDrawsModel,
};
use crate::messages::{
    ClientFrameModel, ClientPayloadModel, CommandErrorCode, DesiredStateSnapshotModel,
    OwnershipRevocationReason, ParticipantRegistrationModel, ParticipantSpecModel,
    ServerFrameModel,
};
use crate::ordered::{in_order, lemma_filter_members, lemma_in_order_of};
use crate::ownership::{ClaimMode, ClaimModel, ClaimOutcomeModel, OwnershipModel};
use crate::session::SessionId;
use crate::spaces::{checked_spec, ObservationsModel, ParticipantModel, ReportModel};

verus! {

impl ActorModel {
    /// The registries agree with each other and keep to their limits.
    pub open spec fn consistent(self) -> bool {
        &&& self.ownership.valid()
        &&& self.ownership.maximum_entities == self.config.max_participants
        &&& self.ownership.maximum_entities_per_owner == self.config.max_participants_per_session
        &&& self.participants.dom() == self.ownership.entries.dom()
        &&& self.host.participants.dom() == self.ownership.entries.dom()
        &&& forall|p: Seq<char>| #[trigger]
            self.participants.dom().contains(p) ==> self.participants[p].participant_id == p
        &&& forall|p: Seq<char>| #[trigger]
            self.ownership.entries.dom().contains(p) ==> self.sessions.dom().contains(
                self.ownership.entries[p].owner,
            )
        &&& self.core_sessions.sessions.dom() == self.sessions.dom()
        &&& self.reliable.sessions.dom() == self.sessions.dom()
        &&& self.sessions.dom().finite()
        &&& self.sessions.len() <= self.core_sessions.maximum_sessions
        &&& self.core_sessions.maximum_sessions == self.config.max_sessions
        &&& forall|id: SessionId| #[trigger]
            self.sessions.dom().contains(id) ==> id < self.core_sessions.next_session_id
        &&& self.reliable.valid()
        &&& self.reliable.maximum_completed_per_session == self.config.queue_capacity
        &&& forall|stream_id: u64| #[trigger]
            self.streams.dom().contains(stream_id) ==> self.stream_of(self.streams[stream_id])
                == Some(stream_id)
        &&& forall|id: SessionId| #[trigger]
            self.sessions.dom().contains(id) ==> (self.sessions[id].stream_id matches Some(
                stream_id,
            ) ==> self.streams.dom().contains(stream_id) && self.streams[stream_id] == id)
        &&& self.spaces.dom().finite()
        &&& self.spaces.len() <= self.config.max_spaces
    }

    /// `after` is consistent as well, and has the same sessions and streams.
    pub open spec fn stays_consistent(self, after: Self) -> bool {
        &&& after.consistent()
        &&& after.sessions.dom() == self.sessions.dom()
        &&& after.streams == self.streams
        &&& after.config == self.config
    }

    pub(crate) proof fn lemma_rendered_consistent(self, after: Self)
        requires
            self.consistent(),
            self.only_rendered(after),
        ensures
            self.stays_consistent(after),
    {
        assert forall|stream_id: u64| #[trigger]
            after.streams.dom().contains(stream_id) implies after.stream_of(
            after.streams[stream_id],
        ) == Some(stream_id) by {
            assert(self.streams.dom().contains(stream_id));
        }
    }

    pub(crate) proof fn lemma_said_consistent(self, after: Self)
        requires
            self.consistent(),
            self.only_said(after),
        ensures
            self.stays_consistent(after),
    {
        self.lemma_rendered_consistent(after);
    }

    pub(crate) proof fn lemma_sent_consistent(self, id: SessionId, frame: ServerFrameModel)
        requires
            self.consistent(),
        ensures
            self.stays_consistent(self.sent(id, frame)),
    {
        self.lemma_sent(id, frame);
        self.lemma_said_consistent(self.sent(id, frame));
    }

    pub(crate) proof fn lemma_refreshed_consistent(self, key: Seq<char>, now: nat)
        requires
            self.consistent(),
        ensures
            self.stays_consistent(self.space_refreshed(key, now)),
            self.only_rendered(self.space_refreshed(key, now)),
    {
        self.lemma_space_refreshed(key, now);
        self.lemma_rendered_consistent(self.space_refreshed(key, now));
    }

    pub(crate) proof fn lemma_status_consistent(self, p: Seq<char>)
        requires
            self.consistent(),
        ensures
            self.stays_consistent(self.status_sent(p)),
    {
        self.lemma_status_sent(p);
        self.lemma_said_consistent(self.status_sent(p));
    }

    pub(crate) proof fn lemma_advanced_consistent(self, id: SessionId)
        requires
            self.consistent(),
        ensures
            self.stays_consistent(self.advanced(id)),
            self.only_said(self.advanced(id)),
    {
        assert(self.advanced(id).core_sessions.sessions.dom() =~= self.core_sessions.sessions.dom());
        self.lemma_said_consistent(self.advanced(id));
    }

    pub(crate) proof fn lemma_ensured_consistent(self, key: Seq<char>, incarnation_id: Option<Seq<u8>>)
        requires
            self.consistent(),
        ensures
            self.stays_consistent(self.space_ensured(key, incarnation_id).0),
            self.space_ensured(key, incarnation_id).0.ownership == self.ownership,
            self.space_ensured(key, incarnation_id).0.participants == self.participants,
            self.space_ensured(key, incarnation_id).0.host == self.host,
            self.space_ensured(key, incarnation_id).0.sessions == self.sessions,
    {
        let after = self.space_ensured(key, incarnation_id).0;
        assert forall|stream_id: u64| #[trigger]
            after.streams.dom().contains(stream_id) implies after.stream_of(
            after.streams[stream_id],
        ) == Some(stream_id) by {
            assert(self.streams.dom().contains(stream_id));
        }
    }

    /// The same participants, with other contents.
    pub(crate) proof fn lemma_participant_consistent(self, p: Seq<char>, participant: ParticipantModel)
        requires
            self.consistent(),
            self.participants.dom().contains(p),
            participant.participant_id == p,
        ensures
            self.stays_consistent(self.with_participant(p, participant)),
    {
        let after = self.with_participant(p, participant);
        assert(after.participants.dom() =~= self.participants.dom());
        assert forall|stream_id: u64| #[trigger]
            after.streams.dom().contains(stream_id) implies after.stream_of(
            after.streams[stream_id],
        ) == Some(stream_id) by {
            assert(self.streams.dom().contains(stream_id));
        }
    }

    pub(crate) proof fn lemma_moved_consistent(self, p: Seq<char>, key: Seq<char>)
        requires
            self.consistent(),
        ensures
            self.stays_consistent(self.connection_moved(p, key)),
            self.only_said(self.connection_moved(p, key)),
    {
        self.lemma_said_consistent(self.connection_moved(p, key));
    }

    pub(crate) proof fn lemma_applied_consistent(self, p: Seq<char>, spec: ParticipantSpecModel, now: nat)
        requires
            self.consistent(),
        ensures
            self.stays_consistent(self.spec_applied(p, spec, now)),
            self.spec_applied(p, spec, now).ownership == self.ownership,
            self.spec_applied(p, spec, now).participants.dom() == self.participants.dom(),
    {
        if self.participants.dom().contains(p) {
            let participant = ParticipantModel { spec, ..self.participants[p] };
            self.lemma_participant_consistent(p, participant);
            self.lemma_spec_applied(p, spec, now);
            self.with_participant(p, participant).lemma_rendered_consistent(
                self.spec_applied(p, spec, now),
            );
            assert(self.with_participant(p, participant).participants.dom()
                =~= self.participants.dom());
        }
    }

    /// The state without a participant.
    pub open spec fn without_participant(self, p: Seq<char>) -> Self {
        ActorModel {
            ownership: OwnershipModel { entries: self.ownership.entries.remove(p), ..self.ownership },
            participants: self.participants.remove(p),
            host: self.host.removed(p),
            ..self
        }
    }

    pub(crate) proof fn lemma_without_consistent(self, p: Seq<char>)
        requires
            self.consistent(),
        ensures
            self.stays_consistent(self.without_participant(p)),
    {
        let after = self.without_participant(p);
        self.ownership.lemma_release_valid(p);
        assert(after.participants.dom() =~= after.ownership.entries.dom());
        assert(after.host.participants.dom() =~= after.ownership.entries.dom());
        assert forall|q: Seq<char>| #[trigger]
            after.participants.dom().contains(q) implies after.participants[q].participant_id
            == q by {
            assert(self.participants.dom().contains(q));
        }
        assert forall|q: Seq<char>| #[trigger]
            after.ownership.entries.dom().contains(q) implies after.sessions.dom().contains(
            after.ownership.entries[q].owner,
        ) by {
            assert(self.ownership.entries.dom().contains(q));
        }
        assert forall|stream_id: u64| #[trigger]
            after.streams.dom().contains(stream_id) implies after.stream_of(
            after.streams[stream_id],
        ) == Some(stream_id) by {
            assert(self.streams.dom().contains(stream_id));
        }
    }

    /// A release takes the participant away where the capability is current,
    /// and is refused otherwise.
    pub(crate) proof fn lemma_released(
        self,
        id: SessionId,
        p: Seq<char>,
        registration_id: Seq<u8>,
        token: Seq<u8>,
        reason: OwnershipRevocationReason,
        request_id: Option<Seq<u8>>,
        now: nat,
    )
        requires
            self.consistent(),
        ensures
            ({
                let after = self.released(id, p, registration_id, token, reason, request_id, now);
                &&& self.stays_consistent(after)
                &&& after.sessions == self.sessions
                &&& if self.ownership.holds(p, id, registration_id, token) {
                    self.without_participant(p).only_rendered(after)
                } else {
                    self.only_said(after)
                }
            }),
    {
        let after = self.released(id, p, registration_id, token, reason, request_id, now);
        if self.ownership.holds(p, id, registration_id, token) {
            assert(self.participants.dom().contains(p));
            self.lemma_without_consistent(p);
            let forgotten = self.without_participant(p);
            let closed = match self.host.connection_of(p) {
                Some(connection) => forgotten.emitted(EffectModel::CloseConnection { connection }),
                None => forgotten,
            };
            forgotten.lemma_rendered_consistent(closed);
            let key = self.participants[p].spec.space_key;
            closed.lemma_refreshed_consistent(key, now);
            let refreshed = closed.space_refreshed(key, now);
            let frame = framed(
                match request_id {
                    Some(request_id) => request_id,
                    None => Seq::empty(),
                },
                crate::messages::ServerPayloadModel::ParticipantOwnershipRevoked(
                    crate::messages::ParticipantOwnershipRevokedModel {
                        participant_id: p,
                        registration_id: self.ownership.entries[p].registration_id,
                        reason: reason.number(),
                    },
                ),
            );
            refreshed.lemma_sent(id, frame);
            refreshed.lemma_sent_consistent(id, frame);
            assert(after == refreshed.sent(id, frame));
        } else {
            if let Some(request) = request_id {
                if !self.participants.dom().contains(p) {
                    self.lemma_sent(
                        id,
                        rejection(
                            request,
                            CommandErrorCode::OwnershipLost,
                            "participant is no longer owned"@,
                        ),
                    );
                } else {
                    self.lemma_sent(
                        id,
                        rejection(
                            request,
                            CommandErrorCode::OwnershipLost,
                            "participant ownership token is stale"@,
                        ),
                    );
                }
            }
            assert(self.only_said(after));
            self.lemma_said_consistent(after);
        }
    }

    /// Of a list, exactly the session's own entities are released.
    pub(crate) proof fn lemma_all_released(
        self,
        id: SessionId,
        ids: Seq<Seq<char>>,
        reason: OwnershipRevocationReason,
        now: nat,
    )
        requires
            self.consistent(),
        ensures
            ({
                let after = self.all_released(id, ids, reason, now);
                &&& self.stays_consistent(after)
                &&& after.sessions == self.sessions
                &&& after.spaces.dom() == self.spaces.dom()
                &&& forall|p: Seq<char>| #[trigger]
                    after.ownership.entries.dom().contains(p) <==> {
                        &&& self.ownership.entries.dom().contains(p)
                        &&& !(ids.contains(p) && self.ownership.entries[p].owner == id)
                    }
                &&& forall|p: Seq<char>| #[trigger]
                    after.ownership.entries.dom().contains(p) ==> {
                        &&& after.ownership.entries[p] == self.ownership.entries[p]
                        &&& after.participants[p] == self.participants[p]
                        &&& after.host.participants[p] == self.host.participants[p]
                    }
            }),
        decreases ids.len(),
    {
        let after = self.all_released(id, ids, reason, now);
        if ids.len() > 0 {
            let q = ids[0];
            let owned = self.ownership.entries[q];
            let next = if self.ownership.entries.dom().contains(q) {
                self.released(id, q, owned.registration_id, owned.fencing_token, reason, None, now)
            } else {
                self
            };
            if self.ownership.entries.dom().contains(q) {
                self.lemma_released(
                    id,
                    q,
                    owned.registration_id,
                    owned.fencing_token,
                    reason,
                    None,
                    now,
                );
            }
            next.lemma_all_released(id, ids.drop_first(), reason, now);
            assert forall|p: Seq<char>| ids.contains(p) <==> p == q || ids.drop_first().contains(
                p,
            ) by {
                if ids.contains(p) {
                    let k = choose|k: int| 0 <= k < ids.len() && ids[k] == p;
                    if k > 0 {
                        assert(ids.drop_first()[k - 1] == p);
                    }
                }
                if ids.drop_first().contains(p) {
                    let k = choose|k: int|
                        0 <= k < ids.drop_first().len() && ids.drop_first()[k] == p;
                    assert(ids[k + 1] == p);
                }
            }
            assert forall|p: Seq<char>| #[trigger]
                after.ownership.entries.dom().contains(p) implies {
                &&& after.ownership.entries[p] == self.ownership.entries[p]
                &&& after.participants[p] == self.participants[p]
                &&& after.host.participants[p] == self.host.participants[p]
            } by {
                assert(next.ownership.entries.dom().contains(p));
            }
        }
    }
}

// Registrations.

impl ActorModel {
    /// `after` has the same owners, but possibly of `p`.
    pub open spec fn others_keep_their_owner(self, after: Self, p: Seq<char>) -> bool {
        forall|q: Seq<char>|
            #![trigger after.ownership.entries.dom().contains(q)]
            #![trigger self.ownership.entries.dom().contains(q)]
            q != p ==> {
                &&& after.ownership.entries.dom().contains(q)
                    == self.ownership.entries.dom().contains(q)
                &&& after.ownership.entries[q] == self.ownership.entries[q]
            }
    }

    pub(crate) proof fn lemma_granted(self, id: SessionId, participant: ParticipantModel, request_id: Seq<u8>)
        ensures
            self.only_said(self.granted(id, participant, request_id)),
    {
        let participant_id = participant.participant_id;
        let owned = self.ownership.entries[participant_id];
        self.lemma_sent(
            id,
            rejection(
                request_id,
                CommandErrorCode::InternalError,
                "participant Host state has no ownership state"@,
            ),
        );
        self.lemma_sent(
            id,
            rejection(
                request_id,
                CommandErrorCode::InternalError,
                "participant Host state has no Mumble credential"@,
            ),
        );
        self.lemma_sent(
            id,
            framed(
                request_id,
                crate::messages::ServerPayloadModel::ParticipantOwnershipGranted(
                    crate::messages::ParticipantOwnershipGrantedModel {
                        participant_id,
                        registration_id: owned.registration_id,
                        ownership_token: owned.fencing_token,
                        client_spec_revision: owned.client_revision,
                        accepted_spec_revision: owned.client_revision,
                        applied_spec_revision: participant.applied_spec_revision,
                        published_generation: participant.published_generation,
                        connection_credential: self.host.participants[participant_id].credential,
                    },
                ),
            ),
        );
    }

    pub(crate) proof fn lemma_rejected(
        self,
        id: SessionId,
        request_id: Seq<u8>,
        code: CommandErrorCode,
        message: Seq<char>,
    )
        ensures
            self.only_said(self.rejected(id, request_id, code, message)),
            self.consistent() ==> self.stays_consistent(
                self.rejected(id, request_id, code, message),
            ),
    {
        self.lemma_sent(id, rejection(request_id, code, message));
        if self.consistent() {
            self.lemma_sent_consistent(id, rejection(request_id, code, message));
        }
    }

    pub(crate) proof fn lemma_revoked(
        self,
        id: SessionId,
        p: Seq<char>,
        registration_id: Seq<u8>,
        reason: OwnershipRevocationReason,
        request_id: Seq<u8>,
    )
        ensures
            self.only_said(self.revoked(id, p, registration_id, reason, request_id)),
            self.consistent() ==> self.stays_consistent(
                self.revoked(id, p, registration_id, reason, request_id),
            ),
    {
        let frame = framed(
            request_id,
            crate::messages::ServerPayloadModel::ParticipantOwnershipRevoked(
                crate::messages::ParticipantOwnershipRevokedModel {
                    participant_id: p,
                    registration_id,
                    reason: reason.number(),
                },
            ),
        );
        self.lemma_sent(id, frame);
        if self.consistent() {
            self.lemma_sent_consistent(id, frame);
        }
    }

    /// The same owners, at other revisions.
    pub(crate) proof fn lemma_revision_consistent(self, p: Seq<char>, revision: u64)
        requires
            self.consistent(),
            self.ownership.entries.dom().contains(p),
        ensures
            self.stays_consistent(
                (ActorModel {
                    ownership: self.ownership.with(
                        p,
                        OwnershipModel::at_revision(self.ownership.entries[p], revision),
                    ),
                    ..self
                }),
            ),
    {
        let after = ActorModel {
            ownership: self.ownership.with(
                p,
                OwnershipModel::at_revision(self.ownership.entries[p], revision),
            ),
            ..self
        };
        self.ownership.lemma_revision_valid(p, revision);
        assert(after.ownership.entries.dom() =~= self.ownership.entries.dom());
        assert forall|q: Seq<char>| #[trigger]
            after.ownership.entries.dom().contains(q) implies after.sessions.dom().contains(
            after.ownership.entries[q].owner,
        ) by {
            assert(self.ownership.entries.dom().contains(q));
        }
        assert forall|stream_id: u64| #[trigger]
            after.streams.dom().contains(stream_id) implies after.stream_of(
            after.streams[stream_id],
        ) == Some(stream_id) by {
            assert(self.streams.dom().contains(stream_id));
        }
    }

    /// Resuming a registration changes nothing of its ownership but the revision.
    pub(crate) proof fn lemma_resumed(
        self,
        id: SessionId,
        registration: ParticipantRegistrationModel,
        request_id: Seq<u8>,
        mode: ClaimMode,
        now: nat,
    )
        requires
            self.consistent(),
            self.ownership.entries.dom().contains(registration.participant_id),
            self.ownership.entries[registration.participant_id].owner == id,
            self.ownership.entries[registration.participant_id].registration_id
                == registration.registration_id,
            mode == ClaimMode::Explicit
                || self.ownership.entries[registration.participant_id].fencing_token
                == registration.ownership_token,
        ensures
            ({
                let p = registration.participant_id;
                let after = self.resumed(id, registration, request_id, mode, now);
                &&& self.stays_consistent(after)
                &&& after.sessions == self.sessions
                &&& self.others_keep_their_owner(after, p)
                &&& after.ownership.entries.dom().contains(p)
                &&& after.ownership.entries[p].owner == id
                &&& after.ownership.entries[p].registration_id == registration.registration_id
                &&& after.ownership.entries[p].fencing_token
                    == self.ownership.entries[p].fencing_token
            }),
    {
        let p = registration.participant_id;
        let claim = ClaimModel {
            entity_id: p,
            owner: id,
            registration_id: registration.registration_id,
            presented_fencing_token: registration.ownership_token,
            client_revision: registration.client_spec_revision,
            new_fencing_token: Seq::empty(),
            mode,
        };
        let outcome = self.ownership.claimed(claim);
        let claimed = ActorModel { ownership: outcome.0, ..self };
        if let Some(spec) = registration.spec {
            match checked_spec(spec) {
                Err(error) => {
                    self.lemma_rejected(
                        id,
                        request_id,
                        CommandErrorCode::InvalidArgument,
                        error.text(),
                    );
                },
                Ok(spec) => {
                    match outcome.1 {
                        Err(error) => {
                            self.lemma_rejected(
                                id,
                                request_id,
                                CommandErrorCode::InternalError,
                                error.text(),
                            );
                        },
                        Ok(ClaimOutcomeModel::Resumed { revision_advanced, .. }) => {
                            self.lemma_revision_consistent(p, registration.client_spec_revision);
                            let applied = if revision_advanced {
                                claimed.spec_applied(p, spec, now)
                            } else {
                                claimed
                            };
                            claimed.lemma_applied_consistent(p, spec, now);
                            claimed.lemma_spec_applied(p, spec, now);
                            applied.lemma_granted(id, applied.participants[p], request_id);
                            applied.lemma_said_consistent(
                                applied.granted(id, applied.participants[p], request_id),
                            );
                        },
                        Ok(_) => {},
                    }
                },
            }
        } else {
            self.lemma_rejected(
                id,
                request_id,
                CommandErrorCode::InvalidArgument,
                "participant spec is missing"@,
            );
        }
    }

    /// An acquisition that was granted is entered in all registries: the state
    /// in which the owner is told, and the participant.
    pub(crate) proof fn lemma_placed(
        self,
        id: SessionId,
        registration: ParticipantRegistrationModel,
        spec: ParticipantSpecModel,
        request_id: Seq<u8>,
        claim: ClaimModel,
        join_token: Seq<char>,
        now: nat,
    ) -> (placed: (ActorModel, ParticipantModel))
        requires
            self.consistent(),
            self.sessions.dom().contains(id),
            claim.owner == id,
            claim.entity_id == registration.participant_id,
            self.ownership.claimed(claim).1 matches Ok(ClaimOutcomeModel::Acquired { .. }),
            join_token.len() > 0,
            !self.host.credential_taken(join_token),
        ensures
            ({
                let p = registration.participant_id;
                let claimed = ActorModel { ownership: self.ownership.claimed(claim).0, ..self };
                let previous = self.ownership.claimed(claim).1->Ok_0->previous;
                &&& self.stays_consistent(placed.0)
                &&& placed.0.sessions == self.sessions
                &&& placed.0.ownership == claimed.ownership
                &&& placed.0.participants.dom().contains(p)
                &&& placed.0.participants[p].spec == spec
                &&& placed.0.host.holds(p, join_token)
                &&& claimed.installed(
                    id,
                    registration,
                    spec,
                    request_id,
                    previous,
                    join_token,
                    now,
                ) == placed.0.granted(id, placed.1, request_id).status_sent(p)
                &&& placed.0.granted(id, placed.1, request_id).status_sent(p).reliable
                    == placed.0.granted(id, placed.1, request_id).reliable
            }),
    {
        let p = registration.participant_id;
        let claimed = ActorModel { ownership: self.ownership.claimed(claim).0, ..self };
        let previous = self.ownership.claimed(claim).1->Ok_0->previous;
        let replaced = claimed.participants[p];
        self.ownership.lemma_claim_valid(claim);
        let informed = match previous {
            None => claimed,
            Some(owned) => claimed.advanced(owned.owner).revoked(
                owned.owner,
                replaced.participant_id,
                owned.registration_id,
                OwnershipRevocationReason::OwnershipReplaced,
                Seq::empty(),
            ),
        };
        if let Some(owned) = previous {
            let advanced = claimed.advanced(owned.owner);
            assert(advanced.core_sessions.sessions.dom() =~= claimed.core_sessions.sessions.dom());
            advanced.lemma_revoked(
                owned.owner,
                replaced.participant_id,
                owned.registration_id,
                OwnershipRevocationReason::OwnershipReplaced,
                Seq::empty(),
            );
        }
        assert(claimed.only_said(informed));
        let bound = informed.host.registered(p, join_token);
        assert(bound.1 is Ok) by {
            assert forall|q: Seq<char>| !informed.host.holds(q, join_token) by {
                if self.host.holds(q, join_token) {
                    assert(self.host.credential_taken(join_token));
                }
            }
        }
        let participant = ParticipantModel {
            participant_id: p,
            applied_spec_revision: 0,
            applied_space_key: if previous is Some {
                replaced.applied_space_key
            } else {
                None
            },
            published_generation: if previous is Some {
                replaced.published_generation
            } else {
                0
            },
            spec,
            self_mute: previous is Some && replaced.self_mute,
            self_deaf: previous is Some && replaced.self_deaf,
            application_error: Seq::empty(),
        };
        let stored = (ActorModel { host: bound.0, ..informed }).with_participant(p, participant);
        assert(self.stays_consistent(stored)) by {
            assert(stored.participants.dom() =~= stored.ownership.entries.dom());
            assert(stored.host.participants.dom() =~= stored.ownership.entries.dom());
            assert forall|q: Seq<char>| #[trigger]
                stored.participants.dom().contains(q) implies stored.participants[q].participant_id
                == q by {
                if q != p {
                    assert(self.participants.dom().contains(q));
                }
            }
            assert forall|q: Seq<char>| #[trigger]
                stored.ownership.entries.dom().contains(q) implies stored.sessions.dom().contains(
                stored.ownership.entries[q].owner,
            ) by {
                if q != p {
                    assert(self.ownership.entries.dom().contains(q));
                }
            }
            assert forall|stream_id: u64| #[trigger]
                stored.streams.dom().contains(stream_id) implies stored.stream_of(
                stored.streams[stream_id],
            ) == Some(stream_id) by {
                assert(self.streams.dom().contains(stream_id));
            }
        }
        let old_space = if informed.participants.dom().contains(p) {
            Some(informed.participants[p].spec.space_key)
        } else {
            None
        };
        let placed = if old_space is Some && old_space->0 != spec.space_key {
            let left = stored.space_refreshed(old_space->0, now);
            stored.lemma_refreshed_consistent(old_space->0, now);
            left.lemma_refreshed_consistent(spec.space_key, now);
            left.space_refreshed(spec.space_key, now).lemma_moved_consistent(p, spec.space_key);
            left.space_refreshed(spec.space_key, now).connection_moved(p, spec.space_key)
        } else {
            stored.lemma_refreshed_consistent(spec.space_key, now);
            stored.space_refreshed(spec.space_key, now)
        };
        (placed, participant)
    }

    /// An acquisition that was granted is installed in all registries.
    pub(crate) proof fn lemma_installed(
        self,
        id: SessionId,
        registration: ParticipantRegistrationModel,
        spec: ParticipantSpecModel,
        request_id: Seq<u8>,
        claim: ClaimModel,
        join_token: Seq<char>,
        now: nat,
    )
        requires
            self.consistent(),
            self.sessions.dom().contains(id),
            claim.owner == id,
            claim.entity_id == registration.participant_id,
            self.ownership.claimed(claim).1 matches Ok(ClaimOutcomeModel::Acquired { .. }),
            join_token.len() > 0,
            !self.host.credential_taken(join_token),
        ensures
            ({
                let p = registration.participant_id;
                let claimed = ActorModel { ownership: self.ownership.claimed(claim).0, ..self };
                let previous = self.ownership.claimed(claim).1->Ok_0->previous;
                let after = claimed.installed(
                    id,
                    registration,
                    spec,
                    request_id,
                    previous,
                    join_token,
                    now,
                );
                &&& self.stays_consistent(after)
                &&& after.sessions == self.sessions
                &&& after.ownership == claimed.ownership
                &&& after.participants.dom().contains(p)
                &&& after.participants[p].spec == spec
                &&& after.host.holds(p, join_token)
            }),
    {
        let p = registration.participant_id;
        let placed = self.lemma_placed(id, registration, spec, request_id, claim, join_token, now);
        placed.0.lemma_granted(id, placed.1, request_id);
        let granted = placed.0.granted(id, placed.1, request_id);
        placed.0.lemma_said_consistent(granted);
        granted.lemma_status_sent(p);
        granted.lemma_status_consistent(p);
    }

    /// An acquisition changes the owner of no other participant.
    pub(crate) proof fn lemma_acquired(
        self,
        id: SessionId,
        registration: ParticipantRegistrationModel,
        request_id: Seq<u8>,
        mode: ClaimMode,
        draws: RegistrationDrawsModel,
        now: nat,
    )
        requires
            self.consistent(),
            self.sessions.dom().contains(id),
        ensures
            ({
                let p = registration.participant_id;
                let after = self.acquired(id, registration, request_id, mode, draws, now);
                &&& self.stays_consistent(after)
                &&& after.sessions == self.sessions
                &&& self.others_keep_their_owner(after, p)
            }),
    {
        let p = registration.participant_id;
        if let Some(spec) = registration.spec {
            match checked_spec(spec) {
                Err(error) => {
                    self.lemma_rejected(
                        id,
                        request_id,
                        CommandErrorCode::InvalidArgument,
                        error.text(),
                    );
                },
                Ok(spec) => {
                    match self.acquisition_fault(id, p) {
                        Some(fault) => {
                            self.lemma_rejected(id, request_id, fault.0, fault.1);
                        },
                        None => {
                            let ensured = self.space_ensured(spec.space_key, draws.incarnation_id);
                            self.lemma_ensured_consistent(spec.space_key, draws.incarnation_id);
                            match ensured.1 {
                                Err(error) => {
                                    ensured.0.lemma_rejected(
                                        id,
                                        request_id,
                                        CommandErrorCode::ResourceExhausted,
                                        error,
                                    );
                                },
                                Ok(_) => {
                                    ensured.0.lemma_acquired_in_space(
                                        id,
                                        registration,
                                        spec,
                                        request_id,
                                        mode,
                                        draws,
                                        now,
                                    );
                                    let after = ensured.0.acquired_in_space(
                                        id,
                                        registration,
                                        spec,
                                        request_id,
                                        mode,
                                        draws,
                                        now,
                                    );
                                    assert(self.acquired(
                                        id,
                                        registration,
                                        request_id,
                                        mode,
                                        draws,
                                        now,
                                    ) == after);
                                    assert(self.others_keep_their_owner(after, p));
                                },
                            }
                        },
                    }
                },
            }
        } else {
            self.lemma_rejected(
                id,
                request_id,
                CommandErrorCode::InvalidArgument,
                "participant spec is missing"@,
            );
        }
    }

    pub(crate) proof fn lemma_acquired_in_space(
        self,
        id: SessionId,
        registration: ParticipantRegistrationModel,
        spec: ParticipantSpecModel,
        request_id: Seq<u8>,
        mode: ClaimMode,
        draws: RegistrationDrawsModel,
        now: nat,
    )
        requires
            self.consistent(),
            self.sessions.dom().contains(id),
        ensures
            ({
                let p = registration.participant_id;
                let after = self.acquired_in_space(
                    id,
                    registration,
                    spec,
                    request_id,
                    mode,
                    draws,
                    now,
                );
                &&& self.stays_consistent(after)
                &&& after.sessions == self.sessions
                &&& self.others_keep_their_owner(after, p)
            }),
    {
        let p = registration.participant_id;
        self.lemma_rejected(
            id,
            request_id,
            CommandErrorCode::InternalError,
            crate::entropy::ActorStartError::Randomness.text(),
        );
        self.lemma_rejected(
            id,
            request_id,
            CommandErrorCode::InternalError,
            "generated Mumble credential collides with a live registration"@,
        );
        if draws.ownership_token is Some && draws.join_token is Some && draws.join_token->0.len()
            > 0 && !self.host.credential_taken(draws.join_token->0) {
            let claim = ClaimModel {
                entity_id: p,
                owner: id,
                registration_id: registration.registration_id,
                presented_fencing_token: registration.ownership_token,
                client_revision: registration.client_spec_revision,
                new_fencing_token: draws.ownership_token->0,
                mode,
            };
            let outcome = self.ownership.claimed(claim);
            let claimed = ActorModel { ownership: outcome.0, ..self };
            match outcome.1 {
                Ok(ClaimOutcomeModel::Acquired { .. }) => {
                    self.lemma_installed(
                        id,
                        registration,
                        spec,
                        request_id,
                        claim,
                        draws.join_token->0,
                        now,
                    );
                },
                Ok(ClaimOutcomeModel::Resumed { .. }) => {
                    self.lemma_revision_consistent(p, registration.client_spec_revision);
                    claimed.lemma_rejected(
                        id,
                        request_id,
                        CommandErrorCode::InternalError,
                        "an ownership acquisition unexpectedly resumed a registration"@,
                    );
                },
                Err(error) => {
                    self.lemma_rejected(
                        id,
                        request_id,
                        CommandErrorCode::ResourceExhausted,
                        "the ownership limit is reached"@,
                    );
                    self.lemma_revoked(
                        id,
                        p,
                        registration.registration_id,
                        OwnershipRevocationReason::RegistrationRejected,
                        request_id,
                    );
                    self.lemma_rejected(
                        id,
                        request_id,
                        CommandErrorCode::InternalError,
                        error.text(),
                    );
                },
            }
        }
    }

    /// A registration from a snapshot takes no participant from another session.
    pub(crate) proof fn lemma_registered_from_snapshot(
        self,
        id: SessionId,
        registration: ParticipantRegistrationModel,
        request_id: Seq<u8>,
        draws: RegistrationDrawsModel,
        now: nat,
    )
        requires
            self.consistent(),
            self.sessions.dom().contains(id),
        ensures
            ({
                let p = registration.participant_id;
                let after = self.registered_from_snapshot(
                    id,
                    registration,
                    request_id,
                    draws,
                    now,
                );
                &&& self.stays_consistent(after)
                &&& after.sessions == self.sessions
                &&& self.others_keep_their_owner(after, p)
                &&& self.ownership.entries.dom().contains(p) ==> {
                    &&& after.ownership.entries.dom().contains(p)
                    &&& after.ownership.entries[p].owner == self.ownership.entries[p].owner
                    &&& after.ownership.entries[p].registration_id
                        == self.ownership.entries[p].registration_id
                    &&& after.ownership.entries[p].fencing_token
                        == self.ownership.entries[p].fencing_token
                    &&& self.ownership.entries[p].owner != id ==> after.ownership.entries[p]
                        == self.ownership.entries[p]
                }
            }),
    {
        let p = registration.participant_id;
        if !self.ownership.entries.dom().contains(p) {
            self.lemma_acquired(id, registration, request_id, ClaimMode::Snapshot, draws, now);
        } else if self.ownership.holds(
            p,
            id,
            registration.registration_id,
            registration.ownership_token,
        ) {
            self.lemma_resumed(id, registration, request_id, ClaimMode::Snapshot, now);
        } else {
            self.lemma_revoked(
                id,
                p,
                registration.registration_id,
                OwnershipRevocationReason::RegistrationRejected,
                request_id,
            );
        }
    }

    pub(crate) proof fn lemma_registered_explicitly(
        self,
        id: SessionId,
        registration: ParticipantRegistrationModel,
        request_id: Seq<u8>,
        draws: RegistrationDrawsModel,
        now: nat,
    )
        requires
            self.consistent(),
            self.sessions.dom().contains(id),
        ensures
            ({
                let p = registration.participant_id;
                let after = self.registered_explicitly(id, registration, request_id, draws, now);
                &&& self.stays_consistent(after)
                &&& after.sessions == self.sessions
                &&& self.others_keep_their_owner(after, p)
            }),
    {
        let p = registration.participant_id;
        if self.ownership.entries.dom().contains(p) && self.ownership.entries[p].owner == id
            && self.ownership.entries[p].registration_id == registration.registration_id {
            self.lemma_resumed(id, registration, request_id, ClaimMode::Explicit, now);
        } else {
            self.lemma_acquired(id, registration, request_id, ClaimMode::Explicit, draws, now);
        }
    }

    /// A session other than `id` keeps exactly what it owns, and `id` takes nothing.
    pub open spec fn others_are_left_alone(self, after: Self, id: SessionId) -> bool {
        forall|q: Seq<char>| #[trigger]
            self.ownership.entries.dom().contains(q) && self.ownership.entries[q].owner != id ==> {
                &&& after.ownership.entries.dom().contains(q)
                &&& after.ownership.entries[q] == self.ownership.entries[q]
            }
    }

    pub(crate) proof fn lemma_all_registered(
        self,
        id: SessionId,
        registrations: Seq<ParticipantRegistrationModel>,
        request_id: Seq<u8>,
        draws: Seq<RegistrationDrawsModel>,
        now: nat,
    )
        requires
            self.consistent(),
            self.sessions.dom().contains(id),
        ensures
            ({
                let after = self.all_registered(id, registrations, request_id, draws, now);
                &&& self.stays_consistent(after)
                &&& after.sessions == self.sessions
                &&& self.others_are_left_alone(after, id)
            }),
        decreases registrations.len(),
    {
        if registrations.len() > 0 {
            let next = self.registered_from_snapshot(
                id,
                registrations[0],
                request_id,
                draws[0],
                now,
            );
            self.lemma_registered_from_snapshot(id, registrations[0], request_id, draws[0], now);
            next.lemma_all_registered(
                id,
                registrations.drop_first(),
                request_id,
                draws.drop_first(),
                now,
            );
            let after = self.all_registered(id, registrations, request_id, draws, now);
            assert forall|q: Seq<char>| #[trigger]
                self.ownership.entries.dom().contains(q) && self.ownership.entries[q].owner
                    != id implies {
                &&& after.ownership.entries.dom().contains(q)
                &&& after.ownership.entries[q] == self.ownership.entries[q]
            } by {
                assert(next.ownership.entries.dom().contains(q));
            }
        }
    }
}

// Commands of a session.

impl ActorModel {
    pub(crate) proof fn lemma_observations_consistent(self, id: SessionId, observations: ObservationsModel)
        requires
            self.consistent(),
            self.sessions.dom().contains(id),
        ensures
            self.stays_consistent(self.with_observations(id, observations)),
    {
        let after = self.with_observations(id, observations);
        assert(after.sessions.dom() =~= self.sessions.dom());
        assert forall|stream_id: u64| #[trigger]
            after.streams.dom().contains(stream_id) implies after.stream_of(
            after.streams[stream_id],
        ) == Some(stream_id) by {
            assert(self.streams.dom().contains(stream_id));
        }
    }

    pub(crate) proof fn lemma_desired_revision_consistent(self, id: SessionId, revision: u64)
        requires
            self.consistent(),
        ensures
            self.stays_consistent(
                (ActorModel {
                    core_sessions: self.core_sessions.with_desired_revision(id, revision),
                    ..self
                }),
            ),
    {
        let after = ActorModel {
            core_sessions: self.core_sessions.with_desired_revision(id, revision),
            ..self
        };
        assert(after.core_sessions.sessions.dom() =~= self.core_sessions.sessions.dom());
        self.lemma_said_consistent(after);
    }

    pub(crate) proof fn lemma_snapshot_reconciled(
        self,
        id: SessionId,
        snapshot: DesiredStateSnapshotModel,
        request_id: Seq<u8>,
        draws: Seq<RegistrationDrawsModel>,
        now: nat,
    )
        requires
            self.consistent(),
            self.sessions.dom().contains(id),
        ensures
            ({
                let after = self.snapshot_reconciled(id, snapshot, request_id, draws, now);
                &&& self.stays_consistent(after)
                &&& self.others_are_left_alone(after, id)
            }),
    {
        let desired = registered_ids(snapshot.participants);
        let dropped = self.ownership.owned(id).filter(|p: Seq<char>| !desired.contains(p));
        let reason = OwnershipRevocationReason::ParticipantReleased;
        self.lemma_all_released(id, dropped, reason, now);
        let trimmed = self.all_released(id, dropped, reason, now);
        trimmed.lemma_desired_revision_consistent(id, snapshot.desired_state_revision);
        let revised = ActorModel {
            core_sessions: trimmed.core_sessions.with_desired_revision(
                id,
                snapshot.desired_state_revision,
            ),
            ..trimmed
        };
        let observations = ObservationsModel {
            explicit: snapshot.observed_space_keys.to_set(),
            ..revised.sessions[id].observations
        };
        revised.lemma_observations_consistent(id, observations);
        let observing = revised.with_observations(id, observations);
        observing.lemma_all_registered(id, snapshot.participants, request_id, draws, now);
        let registered = observing.all_registered(
            id,
            snapshot.participants,
            request_id,
            draws,
            now,
        );
        let frame = framed(
            request_id,
            crate::messages::ServerPayloadModel::DesiredStateReconciled(
                crate::messages::DesiredStateReconciledModel {
                    desired_state_revision: snapshot.desired_state_revision,
                },
            ),
        );
        registered.lemma_sent(id, frame);
        registered.lemma_sent_consistent(id, frame);
        let answered = registered.sent(id, frame);
        answered.lemma_snapshots_sent(id, answered.observed_spaces(id));
        let after = answered.effective_snapshots_sent(id);
        answered.lemma_said_consistent(after);
        assert forall|q: Seq<char>| #[trigger]
            self.ownership.entries.dom().contains(q) && self.ownership.entries[q].owner
                != id implies {
            &&& after.ownership.entries.dom().contains(q)
            &&& after.ownership.entries[q] == self.ownership.entries[q]
        } by {
            assert(trimmed.ownership.entries.dom().contains(q));
            assert(observing.ownership.entries.dom().contains(q));
        }
    }

    pub(crate) proof fn lemma_spec_set(
        self,
        id: SessionId,
        p: Seq<char>,
        token: Seq<u8>,
        revision: u64,
        spec: ParticipantSpecModel,
        request_id: Seq<u8>,
        incarnation_id: Option<Seq<u8>>,
        now: nat,
    )
        requires
            self.consistent(),
        ensures
            ({
                let after = self.spec_set(
                    id,
                    p,
                    token,
                    revision,
                    spec,
                    request_id,
                    incarnation_id,
                    now,
                );
                &&& self.stays_consistent(after)
                &&& self.others_are_left_alone(after, id)
            }),
    {
        let owned = self.ownership.entries[p];
        let current = self.participants[p];
        if !self.participants.dom().contains(p) {
            self.lemma_rejected(
                id,
                request_id,
                CommandErrorCode::NotFound,
                "participant is not registered"@,
            );
        } else if owned.owner != id || owned.fencing_token != token {
            self.lemma_rejected(
                id,
                request_id,
                CommandErrorCode::OwnershipLost,
                "participant ownership token is stale"@,
            );
        } else if revision < owned.client_revision {
            self.lemma_rejected(
                id,
                request_id,
                CommandErrorCode::StaleRevision,
                "participant spec revision moved backwards"@,
            );
        } else if revision == owned.client_revision && spec != current.spec {
            self.lemma_rejected(
                id,
                request_id,
                CommandErrorCode::StaleRevision,
                "a participant spec cannot change without advancing its revision"@,
            );
        } else {
            let ensured = self.space_ensured(spec.space_key, incarnation_id);
            self.lemma_ensured_consistent(spec.space_key, incarnation_id);
            match ensured.1 {
                Err(error) => {
                    ensured.0.lemma_rejected(
                        id,
                        request_id,
                        CommandErrorCode::ResourceExhausted,
                        error,
                    );
                },
                Ok(_) => {
                    ensured.0.lemma_revision_consistent(p, revision);
                    let accepted = ActorModel {
                        ownership: ensured.0.ownership.with(
                            p,
                            OwnershipModel::at_revision(owned, revision),
                        ),
                        ..ensured.0
                    };
                    accepted.lemma_applied_consistent(p, spec, now);
                    let applied = if revision > owned.client_revision {
                        accepted.spec_applied(p, spec, now)
                    } else {
                        ensured.0
                    };
                    let frame = framed(
                        request_id,
                        crate::messages::ServerPayloadModel::ParticipantSpecAccepted(
                            crate::messages::ParticipantSpecAcceptedModel {
                                participant_id: p,
                                client_spec_revision: revision,
                                accepted_spec_revision: revision,
                                applied_spec_revision: applied.participants[p].applied_spec_revision,
                                published_generation: applied.participants[p].published_generation,
                            },
                        ),
                    );
                    applied.lemma_sent(id, frame);
                    applied.lemma_sent_consistent(id, frame);
                },
            }
        }
    }

    pub(crate) proof fn lemma_observations_replaced(
        self,
        id: SessionId,
        revision: u64,
        keys: Seq<Seq<char>>,
        request_id: Seq<u8>,
    )
        requires
            self.consistent(),
        ensures
            ({
                let after = self.observations_replaced(id, revision, keys, request_id);
                &&& self.stays_consistent(after)
                &&& after.ownership == self.ownership
                &&& after.participants == self.participants
                &&& after.host == self.host
                &&& after.spaces == self.spaces
            }),
    {
        self.lemma_rejected(
            id,
            request_id,
            CommandErrorCode::InvalidArgument,
            "invalid explicit observation set"@,
        );
        self.lemma_rejected(
            id,
            request_id,
            CommandErrorCode::InvalidArgument,
            "explicit observation set contains a duplicate Space"@,
        );
        self.lemma_rejected(
            id,
            request_id,
            CommandErrorCode::StaleRevision,
            "observation revision moved backwards"@,
        );
        let replaced = self.sessions[id].observations.replaced(revision, keys.to_set());
        let observing = if self.sessions.dom().contains(id) {
            self.lemma_observations_consistent(id, replaced.0);
            self.with_observations(id, replaced.0)
        } else {
            self
        };
        let frame = framed(
            request_id,
            crate::messages::ServerPayloadModel::ObservedSpacesAccepted(
                crate::messages::ObservedSpacesAcceptedModel { observed_spaces_revision: revision },
            ),
        );
        observing.lemma_sent(id, frame);
        observing.lemma_sent_consistent(id, frame);
        let answered = observing.sent(id, frame);
        answered.lemma_snapshots_sent(id, answered.observed_spaces(id));
        answered.lemma_said_consistent(answered.effective_snapshots_sent(id));
    }
}

// What the runtime reports.

impl ActorModel {
    pub(crate) proof fn lemma_reports_applied(
        self,
        space_key: Seq<char>,
        ids: Seq<Seq<char>>,
        revisions: Map<Seq<char>, u64>,
        report: ReportModel,
    )
        requires
            self.consistent(),
        ensures
            ({
                let after = self.reports_applied(space_key, ids, revisions, report);
                &&& self.stays_consistent(after)
                &&& after.ownership == self.ownership
                &&& after.host == self.host
                &&& after.sessions == self.sessions
                &&& after.spaces == self.spaces
                &&& after.participants.dom() == self.participants.dom()
                &&& forall|p: Seq<char>| #[trigger]
                    self.participants.dom().contains(p) ==> {
                        &&& after.participants[p].spec == self.participants[p].spec
                        &&& after.participants[p].applied_spec_revision
                            >= self.participants[p].applied_spec_revision
                        &&& self.participants[p].spec.space_key != space_key ==> after.participants[p]
                            == self.participants[p]
                    }
            }),
        decreases ids.len(),
    {
        if ids.len() > 0 {
            let p = ids[0];
            let next = self.report_applied(space_key, p, revisions[p], report);
            if self.participants.dom().contains(p) && self.participants[p].spec.space_key
                == space_key {
                self.lemma_participant_consistent(p, next.participants[p]);
                assert(next.participants.dom() =~= self.participants.dom());
            }
            next.lemma_reports_applied(space_key, ids.drop_first(), revisions, report);
            let after = self.reports_applied(space_key, ids, revisions, report);
            assert forall|q: Seq<char>| #[trigger] self.participants.dom().contains(q) implies {
                &&& after.participants[q].spec == self.participants[q].spec
                &&& after.participants[q].applied_spec_revision
                    >= self.participants[q].applied_spec_revision
                &&& self.participants[q].spec.space_key != space_key ==> after.participants[q]
                    == self.participants[q]
            } by {
                assert(next.participants.dom().contains(q));
            }
        }
    }

    pub(crate) proof fn lemma_reconciled(self, space_key: Seq<char>, revision: u64, report: ReportModel)
        requires
            self.consistent(),
        ensures
            ({
                let after = self.reconciled(space_key, revision, report);
                &&& self.stays_consistent(after)
                &&& after.ownership == self.ownership
                &&& after.host == self.host
                &&& after.sessions == self.sessions
                &&& after.spaces.dom() == self.spaces.dom()
                &&& after.participants.dom() == self.participants.dom()
                &&& forall|p: Seq<char>| #[trigger]
                    self.participants.dom().contains(p) ==> {
                        &&& after.participants[p].spec == self.participants[p].spec
                        &&& after.participants[p].applied_spec_revision
                            >= self.participants[p].applied_spec_revision
                        &&& self.participants[p].spec.space_key != space_key ==> after.participants[p]
                            == self.participants[p]
                    }
            }),
    {
        if self.spaces.dom().contains(space_key) {
            let settled = self.spaces[space_key].reconciled(revision, report);
            if let Some(reconciliation) = settled.1 {
                let ids = in_order::<String>(reconciliation.revisions.dom());
                let stored = ActorModel {
                    spaces: self.spaces.insert(space_key, settled.0),
                    ..self
                };
                assert(stored.spaces.dom() =~= self.spaces.dom());
                self.lemma_rendered_consistent(stored);
                stored.lemma_reports_applied(space_key, ids, reconciliation.revisions, report);
                let applied = stored.reports_applied(
                    space_key,
                    ids,
                    reconciliation.revisions,
                    report,
                );
                applied.lemma_statuses_sent(ids);
                let told = applied.statuses_sent(ids);
                applied.lemma_said_consistent(told);
                told.lemma_snapshot_broadcast(space_key);
                told.lemma_said_consistent(told.snapshot_broadcast(space_key));
            }
        }
    }

    /// The same bindings of the same participants, connected otherwise.
    pub(crate) proof fn lemma_host_consistent(self, host: crate::host::BindingsModel)
        requires
            self.consistent(),
            host.participants.dom() == self.host.participants.dom(),
        ensures
            self.stays_consistent((ActorModel { host, ..self })),
    {
        let after = ActorModel { host, ..self };
        assert forall|stream_id: u64| #[trigger]
            after.streams.dom().contains(stream_id) implies after.stream_of(
            after.streams[stream_id],
        ) == Some(stream_id) by {
            assert(self.streams.dom().contains(stream_id));
        }
    }

    pub(crate) proof fn lemma_routed(self, connection: u64, credential: Option<Seq<char>>, now: nat)
        requires
            self.consistent(),
        ensures
            self.stays_consistent(self.routed(connection, credential, now).0),
            self.routed(connection, credential, now).0.ownership == self.ownership,
            self.routed(connection, credential, now).0.participants == self.participants,
    {
        if let Some(credential) = credential {
            let bound = self.host.attached(credential, connection);
            if let Ok(attachment) = bound.1 {
                let p = attachment.participant_id;
                assert(self.host.holds(p, credential));
                assert(bound.0.participants.dom() =~= self.host.participants.dom());
                self.lemma_host_consistent(bound.0);
                let attached = ActorModel { host: bound.0, ..self };
                let closed = match attachment.replaced_connection {
                    Some(connection) => attached.emitted(
                        EffectModel::CloseConnection { connection },
                    ),
                    None => attached,
                };
                attached.lemma_rendered_consistent(closed);
                let key = self.participants[p].spec.space_key;
                closed.lemma_refreshed_consistent(key, now);
                closed.space_refreshed(key, now).lemma_status_sent(p);
                closed.space_refreshed(key, now).lemma_status_consistent(p);
            }
        }
    }

    pub(crate) proof fn lemma_space_event(self, space_key: Seq<char>, event: crate::spaces::SpaceEvent, now: nat)
        requires
            self.consistent(),
        ensures
            self.stays_consistent(self.space_event_applied(space_key, event, now)),
            self.space_event_applied(space_key, event, now).ownership == self.ownership,
    {
        if let Some(p) = self.host.participant_of(event.connection@) {
            assert(self.host.connected(p, event.connection@));
            let participant = self.participants[p];
            self.lemma_status_sent(p);
            self.lemma_status_consistent(p);
            match event.kind {
                crate::spaces::SpaceEventKind::Connected => {},
                crate::spaces::SpaceEventKind::Disconnected => {
                    let host = self.host.disconnected(event.connection@);
                    assert(host.participants.dom() =~= self.host.participants.dom());
                    self.lemma_host_consistent(host);
                    let left = ActorModel { host, ..self };
                    left.lemma_refreshed_consistent(space_key, now);
                    left.space_refreshed(space_key, now).lemma_status_sent(p);
                    left.space_refreshed(space_key, now).lemma_status_consistent(p);
                },
                crate::spaces::SpaceEventKind::SelfState { self_mute, self_deaf } => {
                    let changed = ParticipantModel { self_mute, self_deaf, ..participant };
                    self.lemma_participant_consistent(p, changed);
                    let stored = self.with_participant(p, changed);
                    stored.lemma_refreshed_consistent(space_key, now);
                    stored.space_refreshed(space_key, now).lemma_status_sent(p);
                    stored.space_refreshed(space_key, now).lemma_status_consistent(p);
                },
            }
        }
    }
}

// Sessions and streams come and go.

impl ActorModel {
    /// `after` is consistent, and has the same sessions.
    pub open spec fn keeps_its_sessions(self, after: Self) -> bool {
        &&& after.consistent()
        &&& after.sessions.dom() == self.sessions.dom()
        &&& after.config == self.config
        &&& after.ownership == self.ownership
        &&& after.participants == self.participants
        &&& after.host == self.host
        &&& after.spaces == self.spaces
        &&& after.core_sessions == self.core_sessions
        &&& after.reliable == self.reliable
    }

    pub(crate) proof fn lemma_stream_dropped(self, stream_id: u64)
        requires
            self.consistent(),
            self.streams.dom().contains(stream_id),
        ensures
            self.keeps_its_sessions(
                (ActorModel { streams: self.streams.remove(stream_id), ..self }).detached(
                    self.streams[stream_id],
                ),
            ),
    {
        let id = self.streams[stream_id];
        let after = (ActorModel { streams: self.streams.remove(stream_id), ..self }).detached(id);
        assert(self.stream_of(id) == Some(stream_id));
        assert(after.sessions.dom() =~= self.sessions.dom());
        assert forall|other: u64| #[trigger]
            after.streams.dom().contains(other) implies after.stream_of(after.streams[other])
            == Some(other) by {
            assert(self.streams.dom().contains(other));
            assert(self.stream_of(self.streams[other]) == Some(other));
        }
        assert forall|other: SessionId| #[trigger]
            after.sessions.dom().contains(other) implies (
        after.sessions[other].stream_id matches Some(s) ==> after.streams.dom().contains(s)
            && after.streams[s] == other) by {
            assert(self.sessions.dom().contains(other));
        }
    }

    pub(crate) proof fn lemma_stream_ended(self, stream_id: u64)
        requires
            self.consistent(),
        ensures
            self.keeps_its_sessions(self.stream_ended(stream_id)),
            !self.stream_ended(stream_id).streams.dom().contains(stream_id),
    {
        if self.streams.dom().contains(stream_id) {
            self.lemma_stream_dropped(stream_id);
        }
    }

    pub(crate) proof fn lemma_receiver_gone(self, id: SessionId)
        requires
            self.consistent(),
        ensures
            self.keeps_its_sessions(self.receiver_gone(id)),
            self.receiver_gone(id).stream_of(id) is None,
    {
        if let Some(stream_id) = self.stream_of(id) {
            assert(self.sessions.dom().contains(id));
            self.lemma_stream_dropped(stream_id);
        }
    }

    /// What a session owns, read off its list.
    pub(crate) proof fn lemma_owned(self, id: SessionId)
        requires
            self.consistent(),
        ensures
            forall|p: Seq<char>| #[trigger]
                self.ownership.owned(id).contains(p) <==> {
                    &&& self.ownership.entries.dom().contains(p)
                    &&& self.ownership.entries[p].owner == id
                },
    {
        let dom = self.ownership.entries.dom();
        lemma_in_order_of::<String>(dom);
        let pred = |p: Seq<char>| self.ownership.entries[p].owner == id;
        assert(self.ownership.owned(id) == in_order::<String>(dom).filter(pred));
        assert forall|p: Seq<char>| #[trigger] self.ownership.owned(id).contains(p) <==> {
            &&& dom.contains(p)
            &&& self.ownership.entries[p].owner == id
        } by {
            lemma_filter_members(in_order::<String>(dom), pred, p);
        }
    }

    /// A session leaves with exactly what it owned.
    pub(crate) proof fn lemma_session_removed(
        self,
        id: SessionId,
        reason: OwnershipRevocationReason,
        now: nat,
    )
        requires
            self.consistent(),
        ensures
            ({
                let after = self.session_removed(id, reason, now);
                &&& after.consistent()
                &&& after.config == self.config
                &&& after.sessions == self.sessions.remove(id)
                &&& after.spaces.dom() == self.spaces.dom()
                &&& forall|p: Seq<char>| #[trigger]
                    after.ownership.entries.dom().contains(p) <==> {
                        &&& self.ownership.entries.dom().contains(p)
                        &&& self.ownership.entries[p].owner != id
                    }
                &&& forall|p: Seq<char>| #[trigger]
                    after.ownership.entries.dom().contains(p) ==> {
                        &&& after.ownership.entries[p] == self.ownership.entries[p]
                        &&& after.participants[p] == self.participants[p]
                        &&& after.host.participants[p] == self.host.participants[p]
                    }
            }),
    {
        let ids = self.ownership.owned(id);
        self.lemma_owned(id);
        self.lemma_all_released(id, ids, reason, now);
        let released = self.all_released(id, ids, reason, now);
        let after = self.session_removed(id, reason, now);
        assert(after.core_sessions.sessions.dom() =~= after.sessions.dom());
        assert(after.reliable.sessions.dom() =~= after.sessions.dom());
        assert forall|p: Seq<char>| #[trigger]
            after.ownership.entries.dom().contains(p) implies after.sessions.dom().contains(
            after.ownership.entries[p].owner,
        ) by {
            assert(released.ownership.entries.dom().contains(p));
            assert(self.ownership.entries.dom().contains(p));
            assert(ids.contains(p) <==> self.ownership.entries[p].owner == id);
        }
        assert forall|p: Seq<char>| #[trigger]
            after.ownership.entries.dom().contains(p) <==> {
                &&& self.ownership.entries.dom().contains(p)
                &&& self.ownership.entries[p].owner != id
            } by {
            assert(ids.contains(p) <==> {
                &&& self.ownership.entries.dom().contains(p)
                &&& self.ownership.entries[p].owner == id
            });
        }
        assert forall|s: u64| #[trigger]
            after.streams.dom().contains(s) implies after.stream_of(after.streams[s]) == Some(
            s,
        ) by {
            assert(released.streams.dom().contains(s));
            assert(released.stream_of(released.streams[s]) == Some(s));
        }
        assert forall|other: SessionId| #[trigger]
            after.sessions.dom().contains(other) implies (
        after.sessions[other].stream_id matches Some(s) ==> after.streams.dom().contains(s)
            && after.streams[s] == other) by {
            assert(released.sessions.dom().contains(other));
            if released.sessions.dom().contains(id) {
            }
        }
        vstd::set_lib::lemma_len_subset(after.sessions.dom(), self.sessions.dom());
    }

    pub(crate) proof fn lemma_sessions_removed(
        self,
        ids: Seq<SessionId>,
        reason: OwnershipRevocationReason,
        now: nat,
    )
        requires
            self.consistent(),
        ensures
            ({
                let after = self.sessions_removed(ids, reason, now);
                &&& after.consistent()
                &&& after.config == self.config
                &&& after.spaces.dom() == self.spaces.dom()
                &&& forall|id: SessionId| #[trigger]
                    after.sessions.dom().contains(id) <==> self.sessions.dom().contains(id)
                        && !ids.contains(id)
                &&& forall|p: Seq<char>| #[trigger]
                    after.ownership.entries.dom().contains(p) <==> {
                        &&& self.ownership.entries.dom().contains(p)
                        &&& !ids.contains(self.ownership.entries[p].owner)
                    }
                &&& forall|p: Seq<char>| #[trigger]
                    after.ownership.entries.dom().contains(p) ==> {
                        &&& after.ownership.entries[p] == self.ownership.entries[p]
                        &&& after.participants[p] == self.participants[p]
                        &&& after.host.participants[p] == self.host.participants[p]
                    }
            }),
        decreases ids.len(),
    {
        if ids.len() > 0 {
            let next = self.session_removed(ids[0], reason, now);
            let rest = ids.drop_first();
            self.lemma_session_removed(ids[0], reason, now);
            next.lemma_sessions_removed(rest, reason, now);
            let after = self.sessions_removed(ids, reason, now);
            assert forall|id: SessionId| ids.contains(id) <==> id == ids[0] || rest.contains(
                id,
            ) by {
                if ids.contains(id) {
                    let k = choose|k: int| 0 <= k < ids.len() && ids[k] == id;
                    if k > 0 {
                        assert(rest[k - 1] == id);
                    }
                }
                if rest.contains(id) {
                    let k = choose|k: int| 0 <= k < rest.len() && rest[k] == id;
                    assert(ids[k + 1] == id);
                }
            }
            assert forall|p: Seq<char>| #[trigger]
                after.ownership.entries.dom().contains(p) <==> {
                    &&& self.ownership.entries.dom().contains(p)
                    &&& !ids.contains(self.ownership.entries[p].owner)
                } by {
                assert(next.ownership.entries.dom().contains(p) <==> {
                    &&& self.ownership.entries.dom().contains(p)
                    &&& self.ownership.entries[p].owner != ids[0]
                });
            }
            assert forall|p: Seq<char>| #[trigger]
                after.ownership.entries.dom().contains(p) implies {
                &&& after.ownership.entries[p] == self.ownership.entries[p]
                &&& after.participants[p] == self.participants[p]
                &&& after.host.participants[p] == self.host.participants[p]
            } by {
                assert(next.ownership.entries.dom().contains(p));
            }
        }
    }

    pub(crate) proof fn lemma_space_closed(self, key: Seq<char>)
        requires
            self.consistent(),
        ensures
            self.stays_consistent(self.space_closed(key)),
            self.space_closed(key).ownership == self.ownership,
            self.space_closed(key).participants == self.participants,
            self.space_closed(key).host == self.host,
            self.space_closed(key).sessions == self.sessions,
            self.is_inhabited(key) ==> self.space_closed(key).spaces == self.spaces,
            !self.is_inhabited(key) ==> self.space_closed(key).spaces == self.spaces.remove(key),
    {
        if !self.is_inhabited(key) && self.spaces.dom().contains(key) {
            let closed = (ActorModel { spaces: self.spaces.remove(key), ..self }).emitted(
                EffectModel::DestroyShard { space_key: key, reason: "empty Space grace elapsed"@ },
            );
            assert forall|stream_id: u64| #[trigger]
                closed.streams.dom().contains(stream_id) implies closed.stream_of(
                closed.streams[stream_id],
            ) == Some(stream_id) by {
                assert(self.streams.dom().contains(stream_id));
            }
            assert(self.stays_consistent(closed));
            let space = self.spaces[key];
            let listeners = in_order::<SessionId>(closed.sessions.dom()).filter(
                |id: SessionId| closed.sessions[id].observations.explicit.contains(key),
            );
            let frame = framed(
                Seq::empty(),
                crate::messages::ServerPayloadModel::SpaceClosed(
                    crate::messages::SpaceClosedModel {
                        space_key: key,
                        incarnation_id: space.incarnation_id,
                        final_space_revision: space.space_revision,
                    },
                ),
            );
            closed.lemma_sent_to_each(listeners, frame);
            closed.lemma_said_consistent(closed.sent_to_each(listeners, frame));
        } else if !self.is_inhabited(key) {
            assert(self.spaces.remove(key) =~= self.spaces);
        }
    }

    pub(crate) proof fn lemma_spaces_closed(self, keys: Seq<Seq<char>>)
        requires
            self.consistent(),
        ensures
            ({
                let after = self.spaces_closed(keys);
                &&& self.stays_consistent(after)
                &&& after.ownership == self.ownership
                &&& after.participants == self.participants
                &&& after.host == self.host
                &&& after.sessions == self.sessions
                &&& forall|key: Seq<char>| #[trigger]
                    after.spaces.dom().contains(key) <==> self.spaces.dom().contains(key) && !(
                    keys.contains(key) && !self.is_inhabited(key))
            }),
        decreases keys.len(),
    {
        if keys.len() > 0 {
            let next = self.space_closed(keys[0]);
            let rest = keys.drop_first();
            self.lemma_space_closed(keys[0]);
            next.lemma_spaces_closed(rest);
            let after = self.spaces_closed(keys);
            assert forall|key: Seq<char>| #[trigger]
                after.spaces.dom().contains(key) <==> self.spaces.dom().contains(key) && !(
                keys.contains(key) && !self.is_inhabited(key)) by {
                assert(next.is_inhabited(key) == self.is_inhabited(key));
                if keys.contains(key) {
                    let k = choose|k: int| 0 <= k < keys.len() && keys[k] == key;
                    if k > 0 {
                        assert(rest[k - 1] == key);
                    }
                }
                if rest.contains(key) {
                    let k = choose|k: int| 0 <= k < rest.len() && rest[k] == key;
                    assert(keys[k + 1] == key);
                }
            }
        }
    }

    pub(crate) proof fn lemma_stream_attached(self, id: SessionId, stream_id: u64, now: nat)
        requires
            self.consistent(),
            self.sessions.dom().contains(id),
            !self.streams.dom().contains(stream_id),
        ensures
            ({
                let after = self.stream_attached(id, stream_id, now);
                &&& after.consistent()
                &&& after.config == self.config
                &&& after.sessions.dom() == self.sessions.dom()
                &&& after.ownership == self.ownership
                &&& after.stream_of(id) == Some(stream_id)
            }),
    {
        let after = self.stream_attached(id, stream_id, now);
        assert(after.sessions.dom() =~= self.sessions.dom());
        assert(after.core_sessions.sessions.dom() =~= self.core_sessions.sessions.dom());
        assert forall|s: u64| #[trigger]
            after.streams.dom().contains(s) implies after.stream_of(after.streams[s]) == Some(
            s,
        ) by {
            if s != stream_id {
                assert(self.streams.dom().contains(s));
                assert(self.stream_of(self.streams[s]) == Some(s));
            }
        }
        assert forall|other: SessionId| #[trigger]
            after.sessions.dom().contains(other) implies (
        after.sessions[other].stream_id matches Some(s) ==> after.streams.dom().contains(s)
            && after.streams[s] == other) by {
            assert(self.sessions.dom().contains(other));
            assert(self.sessions.dom().contains(id));
        }
    }
}

// Every answer is recorded.

impl ActorModel {
    /// A request of session `id` can be answered and recorded.
    pub open spec fn answerable(self, id: SessionId, request_id: Seq<u8>) -> bool {
        &&& self.consistent()
        &&& self.sessions.dom().contains(id)
        &&& self.config.queue_capacity >= 1
        &&& request_id.len() > 0
    }

    pub(crate) proof fn lemma_sent_recorded(self, id: SessionId, frame: ServerFrameModel)
        requires
            self.answerable(id, frame.request_id),
        ensures
            self.sent(id, frame).reliable.replays(id, frame.request_id),
    {
        crate::reliable::the_last_result_is_replayed(
            self.reliable,
            id,
            frame.request_id,
            frame,
        );
    }

    pub(crate) proof fn lemma_rejected_recorded(
        self,
        id: SessionId,
        request_id: Seq<u8>,
        code: CommandErrorCode,
        message: Seq<char>,
    )
        requires
            self.answerable(id, request_id),
        ensures
            self.rejected(id, request_id, code, message).reliable.replays(id, request_id),
    {
        self.lemma_sent_recorded(id, rejection(request_id, code, message));
    }

    pub(crate) proof fn lemma_revoked_recorded(
        self,
        id: SessionId,
        p: Seq<char>,
        registration_id: Seq<u8>,
        reason: OwnershipRevocationReason,
        request_id: Seq<u8>,
    )
        requires
            self.answerable(id, request_id),
        ensures
            self.revoked(id, p, registration_id, reason, request_id).reliable.replays(
                id,
                request_id,
            ),
    {
        self.lemma_sent_recorded(
            id,
            framed(
                request_id,
                crate::messages::ServerPayloadModel::ParticipantOwnershipRevoked(
                    crate::messages::ParticipantOwnershipRevokedModel {
                        participant_id: p,
                        registration_id,
                        reason: reason.number(),
                    },
                ),
            ),
        );
    }

    pub(crate) proof fn lemma_granted_recorded(
        self,
        id: SessionId,
        participant: ParticipantModel,
        request_id: Seq<u8>,
    )
        requires
            self.answerable(id, request_id),
        ensures
            self.granted(id, participant, request_id).reliable.replays(id, request_id),
    {
        let participant_id = participant.participant_id;
        let owned = self.ownership.entries[participant_id];
        self.lemma_rejected_recorded(
            id,
            request_id,
            CommandErrorCode::InternalError,
            "participant Host state has no ownership state"@,
        );
        self.lemma_rejected_recorded(
            id,
            request_id,
            CommandErrorCode::InternalError,
            "participant Host state has no Mumble credential"@,
        );
        self.lemma_sent_recorded(
            id,
            framed(
                request_id,
                crate::messages::ServerPayloadModel::ParticipantOwnershipGranted(
                    crate::messages::ParticipantOwnershipGrantedModel {
                        participant_id,
                        registration_id: owned.registration_id,
                        ownership_token: owned.fencing_token,
                        client_spec_revision: owned.client_revision,
                        accepted_spec_revision: owned.client_revision,
                        applied_spec_revision: participant.applied_spec_revision,
                        published_generation: participant.published_generation,
                        connection_credential: self.host.participants[participant_id].credential,
                    },
                ),
            ),
        );
    }

    /// What nobody asked for is not recorded.
    pub(crate) proof fn lemma_snapshots_unrecorded(self, id: SessionId, keys: Seq<Seq<char>>)
        ensures
            self.snapshots_sent(id, keys).reliable == self.reliable,
        decreases keys.len(),
    {
        if keys.len() > 0 {
            let next = match self.snapshot_of(keys[0]) {
                None => self,
                Some(snapshot) => self.sent(
                    id,
                    framed(
                        Seq::empty(),
                        crate::messages::ServerPayloadModel::SpaceSnapshot(snapshot),
                    ),
                ),
            };
            next.lemma_snapshots_unrecorded(id, keys.drop_first());
        }
    }

    pub(crate) proof fn lemma_resumed_recorded(
        self,
        id: SessionId,
        registration: ParticipantRegistrationModel,
        request_id: Seq<u8>,
        mode: ClaimMode,
        now: nat,
    )
        requires
            self.answerable(id, request_id),
            self.ownership.entries.dom().contains(registration.participant_id),
            self.ownership.entries[registration.participant_id].owner == id,
            self.ownership.entries[registration.participant_id].registration_id
                == registration.registration_id,
            mode == ClaimMode::Explicit
                || self.ownership.entries[registration.participant_id].fencing_token
                == registration.ownership_token,
        ensures
            self.resumed(id, registration, request_id, mode, now).reliable.replays(id, request_id),
    {
        let p = registration.participant_id;
        let claim = ClaimModel {
            entity_id: p,
            owner: id,
            registration_id: registration.registration_id,
            presented_fencing_token: registration.ownership_token,
            client_revision: registration.client_spec_revision,
            new_fencing_token: Seq::empty(),
            mode,
        };
        let outcome = self.ownership.claimed(claim);
        let claimed = ActorModel { ownership: outcome.0, ..self };
        if let Some(spec) = registration.spec {
            match checked_spec(spec) {
                Err(error) => {
                    self.lemma_rejected_recorded(
                        id,
                        request_id,
                        CommandErrorCode::InvalidArgument,
                        error.text(),
                    );
                },
                Ok(spec) => {
                    match outcome.1 {
                        Err(error) => {
                            self.lemma_rejected_recorded(
                                id,
                                request_id,
                                CommandErrorCode::InternalError,
                                error.text(),
                            );
                        },
                        Ok(ClaimOutcomeModel::Resumed { revision_advanced, .. }) => {
                            self.lemma_revision_consistent(p, registration.client_spec_revision);
                            let applied = if revision_advanced {
                                claimed.spec_applied(p, spec, now)
                            } else {
                                claimed
                            };
                            claimed.lemma_applied_consistent(p, spec, now);
                            applied.lemma_granted_recorded(
                                id,
                                applied.participants[p],
                                request_id,
                            );
                        },
                        Ok(_) => {},
                    }
                },
            }
        } else {
            self.lemma_rejected_recorded(
                id,
                request_id,
                CommandErrorCode::InvalidArgument,
                "participant spec is missing"@,
            );
        }
    }

    pub(crate) proof fn lemma_installed_recorded(
        self,
        id: SessionId,
        registration: ParticipantRegistrationModel,
        spec: ParticipantSpecModel,
        request_id: Seq<u8>,
        claim: ClaimModel,
        join_token: Seq<char>,
        now: nat,
    )
        requires
            self.answerable(id, request_id),
            claim.owner == id,
            claim.entity_id == registration.participant_id,
            self.ownership.claimed(claim).1 matches Ok(ClaimOutcomeModel::Acquired { .. }),
            join_token.len() > 0,
            !self.host.credential_taken(join_token),
        ensures
            (ActorModel { ownership: self.ownership.claimed(claim).0, ..self }).installed(
                id,
                registration,
                spec,
                request_id,
                self.ownership.claimed(claim).1->Ok_0->previous,
                join_token,
                now,
            ).reliable.replays(id, request_id),
    {
        let p = registration.participant_id;
        let previous = self.ownership.claimed(claim).1->Ok_0->previous;
        let placed = self.lemma_placed(
            id,
            registration,
            spec,
            request_id,
            claim,
            join_token,
            now,
        );
        placed.0.lemma_granted_recorded(id, placed.1, request_id);
    }

    pub(crate) proof fn lemma_acquired_recorded(
        self,
        id: SessionId,
        registration: ParticipantRegistrationModel,
        request_id: Seq<u8>,
        mode: ClaimMode,
        draws: RegistrationDrawsModel,
        now: nat,
    )
        requires
            self.answerable(id, request_id),
        ensures
            self.acquired(id, registration, request_id, mode, draws, now).reliable.replays(
                id,
                request_id,
            ),
    {
        let p = registration.participant_id;
        if let Some(spec) = registration.spec {
            match checked_spec(spec) {
                Err(error) => {
                    self.lemma_rejected_recorded(
                        id,
                        request_id,
                        CommandErrorCode::InvalidArgument,
                        error.text(),
                    );
                },
                Ok(spec) => {
                    match self.acquisition_fault(id, p) {
                        Some(fault) => {
                            self.lemma_rejected_recorded(id, request_id, fault.0, fault.1);
                        },
                        None => {
                            let ensured = self.space_ensured(spec.space_key, draws.incarnation_id);
                            self.lemma_ensured_consistent(spec.space_key, draws.incarnation_id);
                            match ensured.1 {
                                Err(error) => {
                                    ensured.0.lemma_rejected_recorded(
                                        id,
                                        request_id,
                                        CommandErrorCode::ResourceExhausted,
                                        error,
                                    );
                                },
                                Ok(_) => {
                                    ensured.0.lemma_acquired_in_space_recorded(
                                        id,
                                        registration,
                                        spec,
                                        request_id,
                                        mode,
                                        draws,
                                        now,
                                    );
                                },
                            }
                        },
                    }
                },
            }
        } else {
            self.lemma_rejected_recorded(
                id,
                request_id,
                CommandErrorCode::InvalidArgument,
                "participant spec is missing"@,
            );
        }
    }

    pub(crate) proof fn lemma_acquired_in_space_recorded(
        self,
        id: SessionId,
        registration: ParticipantRegistrationModel,
        spec: ParticipantSpecModel,
        request_id: Seq<u8>,
        mode: ClaimMode,
        draws: RegistrationDrawsModel,
        now: nat,
    )
        requires
            self.answerable(id, request_id),
        ensures
            self.acquired_in_space(
                id,
                registration,
                spec,
                request_id,
                mode,
                draws,
                now,
            ).reliable.replays(id, request_id),
    {
        let p = registration.participant_id;
        self.lemma_rejected_recorded(
            id,
            request_id,
            CommandErrorCode::InternalError,
            crate::entropy::ActorStartError::Randomness.text(),
        );
        self.lemma_rejected_recorded(
            id,
            request_id,
            CommandErrorCode::InternalError,
            "generated Mumble credential collides with a live registration"@,
        );
        if draws.ownership_token is Some && draws.join_token is Some && draws.join_token->0.len()
            > 0 && !self.host.credential_taken(draws.join_token->0) {
            let claim = ClaimModel {
                entity_id: p,
                owner: id,
                registration_id: registration.registration_id,
                presented_fencing_token: registration.ownership_token,
                client_revision: registration.client_spec_revision,
                new_fencing_token: draws.ownership_token->0,
                mode,
            };
            let outcome = self.ownership.claimed(claim);
            let claimed = ActorModel { ownership: outcome.0, ..self };
            match outcome.1 {
                Ok(ClaimOutcomeModel::Acquired { .. }) => {
                    self.lemma_installed_recorded(
                        id,
                        registration,
                        spec,
                        request_id,
                        claim,
                        draws.join_token->0,
                        now,
                    );
                },
                Ok(ClaimOutcomeModel::Resumed { .. }) => {
                    self.lemma_revision_consistent(p, registration.client_spec_revision);
                    claimed.lemma_rejected_recorded(
                        id,
                        request_id,
                        CommandErrorCode::InternalError,
                        "an ownership acquisition unexpectedly resumed a registration"@,
                    );
                },
                Err(error) => {
                    self.lemma_rejected_recorded(
                        id,
                        request_id,
                        CommandErrorCode::ResourceExhausted,
                        "the ownership limit is reached"@,
                    );
                    self.lemma_revoked_recorded(
                        id,
                        p,
                        registration.registration_id,
                        OwnershipRevocationReason::RegistrationRejected,
                        request_id,
                    );
                    self.lemma_rejected_recorded(
                        id,
                        request_id,
                        CommandErrorCode::InternalError,
                        error.text(),
                    );
                },
            }
        }
    }

    pub(crate) proof fn lemma_explicit_recorded(
        self,
        id: SessionId,
        registration: ParticipantRegistrationModel,
        request_id: Seq<u8>,
        draws: RegistrationDrawsModel,
        now: nat,
    )
        requires
            self.answerable(id, request_id),
        ensures
            self.registered_explicitly(id, registration, request_id, draws, now).reliable.replays(
                id,
                request_id,
            ),
    {
        let p = registration.participant_id;
        if self.ownership.entries.dom().contains(p) && self.ownership.entries[p].owner == id
            && self.ownership.entries[p].registration_id == registration.registration_id {
            self.lemma_resumed_recorded(id, registration, request_id, ClaimMode::Explicit, now);
        } else {
            self.lemma_acquired_recorded(
                id,
                registration,
                request_id,
                ClaimMode::Explicit,
                draws,
                now,
            );
        }
    }

    pub(crate) proof fn lemma_released_recorded(
        self,
        id: SessionId,
        p: Seq<char>,
        registration_id: Seq<u8>,
        token: Seq<u8>,
        reason: OwnershipRevocationReason,
        request_id: Seq<u8>,
        now: nat,
    )
        requires
            self.answerable(id, request_id),
        ensures
            self.released(
                id,
                p,
                registration_id,
                token,
                reason,
                Some(request_id),
                now,
            ).reliable.replays(id, request_id),
    {
        if self.ownership.holds(p, id, registration_id, token) {
            self.lemma_without_consistent(p);
            let forgotten = self.without_participant(p);
            let closed = match self.host.connection_of(p) {
                Some(connection) => forgotten.emitted(EffectModel::CloseConnection { connection }),
                None => forgotten,
            };
            forgotten.lemma_rendered_consistent(closed);
            let key = self.participants[p].spec.space_key;
            closed.lemma_refreshed_consistent(key, now);
            closed.space_refreshed(key, now).lemma_revoked_recorded(
                id,
                p,
                self.ownership.entries[p].registration_id,
                reason,
                request_id,
            );
        } else {
            self.lemma_rejected_recorded(
                id,
                request_id,
                CommandErrorCode::OwnershipLost,
                "participant is no longer owned"@,
            );
            self.lemma_rejected_recorded(
                id,
                request_id,
                CommandErrorCode::OwnershipLost,
                "participant ownership token is stale"@,
            );
        }
    }

    pub(crate) proof fn lemma_spec_set_recorded(
        self,
        id: SessionId,
        p: Seq<char>,
        token: Seq<u8>,
        revision: u64,
        spec: ParticipantSpecModel,
        request_id: Seq<u8>,
        incarnation_id: Option<Seq<u8>>,
        now: nat,
    )
        requires
            self.answerable(id, request_id),
        ensures
            self.spec_set(
                id,
                p,
                token,
                revision,
                spec,
                request_id,
                incarnation_id,
                now,
            ).reliable.replays(id, request_id),
    {
        let owned = self.ownership.entries[p];
        let current = self.participants[p];
        if !self.participants.dom().contains(p) {
            self.lemma_rejected_recorded(
                id,
                request_id,
                CommandErrorCode::NotFound,
                "participant is not registered"@,
            );
        } else if owned.owner != id || owned.fencing_token != token {
            self.lemma_rejected_recorded(
                id,
                request_id,
                CommandErrorCode::OwnershipLost,
                "participant ownership token is stale"@,
            );
        } else if revision < owned.client_revision {
            self.lemma_rejected_recorded(
                id,
                request_id,
                CommandErrorCode::StaleRevision,
                "participant spec revision moved backwards"@,
            );
        } else if revision == owned.client_revision && spec != current.spec {
            self.lemma_rejected_recorded(
                id,
                request_id,
                CommandErrorCode::StaleRevision,
                "a participant spec cannot change without advancing its revision"@,
            );
        } else {
            let ensured = self.space_ensured(spec.space_key, incarnation_id);
            self.lemma_ensured_consistent(spec.space_key, incarnation_id);
            match ensured.1 {
                Err(error) => {
                    ensured.0.lemma_rejected_recorded(
                        id,
                        request_id,
                        CommandErrorCode::ResourceExhausted,
                        error,
                    );
                },
                Ok(_) => {
                    ensured.0.lemma_revision_consistent(p, revision);
                    let accepted = ActorModel {
                        ownership: ensured.0.ownership.with(
                            p,
                            OwnershipModel::at_revision(owned, revision),
                        ),
                        ..ensured.0
                    };
                    accepted.lemma_applied_consistent(p, spec, now);
                    let applied = if revision > owned.client_revision {
                        accepted.spec_applied(p, spec, now)
                    } else {
                        ensured.0
                    };
                    applied.lemma_sent_recorded(
                        id,
                        framed(
                            request_id,
                            crate::messages::ServerPayloadModel::ParticipantSpecAccepted(
                                crate::messages::ParticipantSpecAcceptedModel {
                                    participant_id: p,
                                    client_spec_revision: revision,
                                    accepted_spec_revision: revision,
                                    applied_spec_revision: applied.participants[p].applied_spec_revision,
                                    published_generation: applied.participants[p].published_generation,
                                },
                            ),
                        ),
                    );
                },
            }
        }
    }

    pub(crate) proof fn lemma_observations_recorded(
        self,
        id: SessionId,
        revision: u64,
        keys: Seq<Seq<char>>,
        request_id: Seq<u8>,
    )
        requires
            self.answerable(id, request_id),
        ensures
            self.observations_replaced(id, revision, keys, request_id).reliable.replays(
                id,
                request_id,
            ),
    {
        self.lemma_rejected_recorded(
            id,
            request_id,
            CommandErrorCode::InvalidArgument,
            "invalid explicit observation set"@,
        );
        self.lemma_rejected_recorded(
            id,
            request_id,
            CommandErrorCode::InvalidArgument,
            "explicit observation set contains a duplicate Space"@,
        );
        self.lemma_rejected_recorded(
            id,
            request_id,
            CommandErrorCode::StaleRevision,
            "observation revision moved backwards"@,
        );
        let replaced = self.sessions[id].observations.replaced(revision, keys.to_set());
        self.lemma_observations_consistent(id, replaced.0);
        let observing = self.with_observations(id, replaced.0);
        let frame = framed(
            request_id,
            crate::messages::ServerPayloadModel::ObservedSpacesAccepted(
                crate::messages::ObservedSpacesAcceptedModel { observed_spaces_revision: revision },
            ),
        );
        observing.lemma_sent_recorded(id, frame);
        let answered = observing.sent(id, frame);
        answered.lemma_snapshots_unrecorded(id, answered.observed_spaces(id));
    }

    pub(crate) proof fn lemma_snapshot_recorded(
        self,
        id: SessionId,
        snapshot: DesiredStateSnapshotModel,
        request_id: Seq<u8>,
        draws: Seq<RegistrationDrawsModel>,
        now: nat,
    )
        requires
            self.answerable(id, request_id),
        ensures
            self.snapshot_reconciled(id, snapshot, request_id, draws, now).reliable.replays(
                id,
                request_id,
            ),
    {
        let desired = registered_ids(snapshot.participants);
        let dropped = self.ownership.owned(id).filter(|p: Seq<char>| !desired.contains(p));
        let reason = OwnershipRevocationReason::ParticipantReleased;
        self.lemma_all_released(id, dropped, reason, now);
        let trimmed = self.all_released(id, dropped, reason, now);
        trimmed.lemma_desired_revision_consistent(id, snapshot.desired_state_revision);
        let revised = ActorModel {
            core_sessions: trimmed.core_sessions.with_desired_revision(
                id,
                snapshot.desired_state_revision,
            ),
            ..trimmed
        };
        let observations = ObservationsModel {
            explicit: snapshot.observed_space_keys.to_set(),
            ..revised.sessions[id].observations
        };
        revised.lemma_observations_consistent(id, observations);
        let observing = revised.with_observations(id, observations);
        observing.lemma_all_registered(id, snapshot.participants, request_id, draws, now);
        let registered = observing.all_registered(
            id,
            snapshot.participants,
            request_id,
            draws,
            now,
        );
        let frame = framed(
            request_id,
            crate::messages::ServerPayloadModel::DesiredStateReconciled(
                crate::messages::DesiredStateReconciledModel {
                    desired_state_revision: snapshot.desired_state_revision,
                },
            ),
        );
        registered.lemma_sent_recorded(id, frame);
        let answered = registered.sent(id, frame);
        answered.lemma_snapshots_unrecorded(id, answered.observed_spaces(id));
    }
}

// Openings and commands as a whole.

impl ActorModel {
    pub(crate) proof fn lemma_session_opened(
        self,
        stream_id: u64,
        request_id: Seq<u8>,
        open: crate::session::OpenModel,
        snapshot: DesiredStateSnapshotModel,
        draws: Seq<RegistrationDrawsModel>,
        now: nat,
    )
        requires
            self.consistent(),
            !self.streams.dom().contains(stream_id),
            self.core_sessions.opened(open).1 is Ok,
        ensures
            ({
                let answer = self.core_sessions.opened(open);
                let id = answer.1->Ok_0.session_id;
                let after = (ActorModel { core_sessions: answer.0, ..self }).session_opened(
                    stream_id,
                    request_id,
                    answer.1->Ok_0,
                    snapshot,
                    draws,
                    now,
                );
                &&& after.consistent()
                &&& after.config == self.config
                &&& after.sessions.dom() == self.sessions.dom().insert(id)
                &&& after.stream_of(id) == Some(stream_id)
                &&& self.others_are_left_alone(after, id)
            }),
    {
        let answer = self.core_sessions.opened(open);
        let ready = answer.1->Ok_0;
        let id = ready.session_id;
        let known = ActorModel { core_sessions: answer.0, ..self };
        if ready.resumed {
            assert(self.core_sessions.resumes(open, id));
            assert(self.sessions.dom().contains(id));
            assert(answer.0.sessions.dom() =~= self.core_sessions.sessions.dom());
            assert(self.sessions.dom().insert(id) =~= self.sessions.dom());
        }
        let prepared = if ready.resumed {
            known
        } else {
            ActorModel {
                reliable: known.reliable.attached(id),
                sessions: known.sessions.insert(
                    id,
                    AttachedModel { stream_id: None, observations: ObservationsModel::none() },
                ),
                ..known
            }
        };
        assert(prepared.consistent()) by {
            assert(prepared.core_sessions.sessions.dom() =~= prepared.sessions.dom());
            assert(prepared.reliable.sessions.dom() =~= prepared.sessions.dom());
            assert forall|s: u64| #[trigger]
                prepared.streams.dom().contains(s) implies prepared.stream_of(
                prepared.streams[s],
            ) == Some(s) by {
                assert(self.streams.dom().contains(s));
                assert(self.stream_of(self.streams[s]) == Some(s));
            }
            assert forall|other: SessionId| #[trigger]
                prepared.sessions.dom().contains(other) implies other
                < prepared.core_sessions.next_session_id by {
                if other != id {
                    assert(self.sessions.dom().contains(other));
                }
            }
            assert forall|other: SessionId| #[trigger]
                prepared.sessions.dom().contains(other) implies (
            prepared.sessions[other].stream_id matches Some(s) ==> prepared.streams.dom().contains(
                s,
            ) && prepared.streams[s] == other) by {
                if other != id {
                    assert(self.sessions.dom().contains(other));
                }
            }
            assert(prepared.reliable.valid()) by {
                assert forall|other: SessionId| #[trigger]
                    prepared.reliable.sessions.dom().contains(other) implies prepared.reliable.sessions[other].valid(
                    prepared.reliable.maximum_completed_per_session,
                ) by {
                    if self.reliable.sessions.dom().contains(other) {
                    } else {
                        let log = crate::reliable::LogModel::<ServerFrameModel>::empty();
                        assert(log.order.to_set() =~= log.results.dom());
                    }
                }
            }
        }
        assert(prepared.sessions.dom() =~= self.sessions.dom().insert(id));
        prepared.lemma_stream_attached(id, stream_id, now);
        let attached = prepared.stream_attached(id, stream_id, now);
        let frame = framed(
            request_id,
            crate::messages::ServerPayloadModel::SessionReady(
                crate::messages::SessionReadyModel {
                    session_token: ready.session_token,
                    resume_token: ready.resume_token,
                    control_epoch: self.control_epoch,
                    lease_duration: Some(
                        crate::actor_model::written_duration(self.config.lease_duration@),
                    ),
                    profile: Some(crate::profile::written_profile(ready.profile)),
                },
            ),
        );
        attached.lemma_sent(id, frame);
        attached.lemma_sent_consistent(id, frame);
        let answered = attached.sent(id, frame);
        answered.lemma_snapshot_reconciled(id, snapshot, request_id, draws, now);
        let after = answered.snapshot_reconciled(id, snapshot, request_id, draws, now);
        assert(after.streams.dom().contains(stream_id));
        assert(after.stream_of(after.streams[stream_id]) == Some(stream_id));
        assert forall|q: Seq<char>| #[trigger]
            self.ownership.entries.dom().contains(q) && self.ownership.entries[q].owner
                != id implies {
            &&& after.ownership.entries.dom().contains(q)
            &&& after.ownership.entries[q] == self.ownership.entries[q]
        } by {
            assert(answered.ownership.entries.dom().contains(q));
        }
    }

    /// An opening keeps all sessions that there are, and may add one.
    pub(crate) proof fn lemma_opened(
        self,
        stream_id: u64,
        frame: ClientFrameModel,
        draws: DrawsModel,
        now: nat,
    )
        requires
            self.consistent(),
            !self.streams.dom().contains(stream_id),
        ensures
            self.opened(stream_id, frame, draws, now).consistent(),
            self.opened(stream_id, frame, draws, now).config == self.config,
            forall|id: SessionId| #[trigger]
                self.sessions.dom().contains(id) ==> self.opened(
                    stream_id,
                    frame,
                    draws,
                    now,
                ).sessions.dom().contains(id),
    {
        let after = self.opened(stream_id, frame, draws, now);
        if let Some(ClientPayloadModel::OpenSession(open)) = frame.payload {
            self.lemma_open_requested(stream_id, frame.request_id, open, draws, now);
        } else {
            self.lemma_rendered_consistent(after);
        }
    }

    pub(crate) proof fn lemma_open_requested(
        self,
        stream_id: u64,
        request_id: Seq<u8>,
        open: crate::messages::OpenSessionModel,
        draws: DrawsModel,
        now: nat,
    )
        requires
            self.consistent(),
            !self.streams.dom().contains(stream_id),
        ensures
            ({
                let after = self.open_requested(stream_id, request_id, open, draws, now);
                &&& after.consistent()
                &&& after.config == self.config
                &&& forall|id: SessionId| #[trigger]
                    self.sessions.dom().contains(id) ==> after.sessions.dom().contains(id)
                &&& self.only_said(after) || exists|id: SessionId| #[trigger]
                    after.stream_of(id) == Some(stream_id) && self.others_are_left_alone(
                        after,
                        id,
                    )
            }),
    {
        let after = self.open_requested(stream_id, request_id, open, draws, now);
        let request = crate::session::OpenModel {
            controller_id: open.controller_id,
            controller_instance_id: open.controller_instance_id,
            resume_token: open.resume_token,
            profile: match open.profile {
                Some(profile) => match crate::profile::requested_profile(profile, self.profile) {
                    Ok(profile) => profile,
                    Err(_) => self.profile,
                },
                None => self.profile,
            },
            credentials: crate::session::CredentialsModel {
                session_token: draws.session_token->0,
                resume_token: draws.resume_token->0,
            },
            now,
        };
        let answer = self.core_sessions.opened(request);
        if answer.1 is Ok {
            self.lemma_session_opened(
                stream_id,
                request_id,
                request,
                open.desired_state->0,
                draws.registrations,
                now,
            );
            if !self.only_said(after) {
                let id = answer.1->Ok_0.session_id;
                let opened = (ActorModel { core_sessions: answer.0, ..self }).session_opened(
                    stream_id,
                    request_id,
                    answer.1->Ok_0,
                    open.desired_state->0,
                    draws.registrations,
                    now,
                );
                assert(after == opened);
                assert(after.stream_of(id) == Some(stream_id));
            }
        }
        if self.only_said(after) {
            self.lemma_said_consistent(after);
        }
    }

    pub(crate) proof fn lemma_lease_renewed(
        self,
        id: SessionId,
        request_id: Seq<u8>,
        command: crate::messages::RenewLeaseModel,
        now: nat,
    )
        ensures
            self.only_said(self.lease_renewed(id, request_id, command, now)),
    {
        let renewal = self.core_sessions.renewed(
            id,
            command.session_token,
            command.desired_state_revision,
            now,
        );
        let renewed = ActorModel { core_sessions: renewal.0, ..self };
        assert(renewal.0.sessions.dom() =~= self.core_sessions.sessions.dom());
        renewed.lemma_sent(
            id,
            framed(
                request_id,
                crate::messages::ServerPayloadModel::ResyncRequired(
                    crate::messages::ResyncRequiredModel {
                        reason: "the server replica no longer matches this session"@,
                    },
                ),
            ),
        );
    }

    pub(crate) proof fn lemma_commanded(
        self,
        id: SessionId,
        request_id: Seq<u8>,
        payload: ClientPayloadModel,
        draws: DrawsModel,
        now: nat,
    )
        requires
            self.consistent(),
            self.sessions.dom().contains(id),
        ensures
            ({
                let after = self.commanded(id, request_id, payload, draws, now);
                &&& after.consistent()
                &&& after.config == self.config
                &&& payload !is CloseSession ==> self.stays_consistent(after)
                &&& payload !is RegisterParticipant ==> self.others_are_left_alone(after, id)
            }),
    {
        let after = self.commanded(id, request_id, payload, draws, now);
        if payload is OpenSession {
        } else if !self.core_sessions.authorizes(id, Self::presented_token(payload)) {
            self.lemma_rejected(
                id,
                request_id,
                CommandErrorCode::SessionExpiredError,
                "session token is not current"@,
            );
        } else {
            self.lemma_advanced_consistent(id);
            let advanced = self.advanced(id);
            match payload {
                ClientPayloadModel::OpenSession(_) => {},
                ClientPayloadModel::RenewLease(command) => {
                    self.lemma_lease_renewed(id, request_id, command, now);
                    self.lemma_said_consistent(after);
                },
                ClientPayloadModel::SyncDesiredState(command) => {
                    match crate::actor_model::snapshot_fault(self.config, command.desired_state) {
                        Err(message) => {
                            self.lemma_rejected(
                                id,
                                request_id,
                                CommandErrorCode::InvalidArgument,
                                message,
                            );
                        },
                        Ok(_) => {
                            self.lemma_snapshot_reconciled(
                                id,
                                command.desired_state->0,
                                request_id,
                                draws.registrations,
                                now,
                            );
                        },
                    }
                },
                ClientPayloadModel::RegisterParticipant(command) => {
                    if let Some(registration) = command.participant {
                        match crate::actor_model::registration_fault(registration) {
                            Err(message) => {
                                self.lemma_rejected(
                                    id,
                                    request_id,
                                    CommandErrorCode::InvalidArgument,
                                    message,
                                );
                            },
                            Ok(_) => {
                                advanced.lemma_registered_explicitly(
                                    id,
                                    registration,
                                    request_id,
                                    draws.registrations[0],
                                    now,
                                );
                            },
                        }
                    } else {
                        self.lemma_rejected(
                            id,
                            request_id,
                            CommandErrorCode::InvalidArgument,
                            "participant registration is missing"@,
                        );
                    }
                },
                ClientPayloadModel::SetParticipantSpec(command) => {
                    if let Some(spec) = command.spec {
                        match checked_spec(spec) {
                            Err(error) => {
                                self.lemma_rejected(
                                    id,
                                    request_id,
                                    CommandErrorCode::InvalidArgument,
                                    error.text(),
                                );
                            },
                            Ok(spec) => {
                                advanced.lemma_spec_set(
                                    id,
                                    command.participant_id,
                                    command.ownership_token,
                                    command.client_spec_revision,
                                    spec,
                                    request_id,
                                    draws.registrations[0].incarnation_id,
                                    now,
                                );
                            },
                        }
                    } else {
                        self.lemma_rejected(
                            id,
                            request_id,
                            CommandErrorCode::InvalidArgument,
                            "participant spec is missing"@,
                        );
                    }
                },
                ClientPayloadModel::ReleaseParticipant(command) => {
                    advanced.lemma_released(
                        id,
                        command.participant_id,
                        command.registration_id,
                        command.ownership_token,
                        OwnershipRevocationReason::ParticipantReleased,
                        Some(request_id),
                        now,
                    );
                },
                ClientPayloadModel::ReplaceObservedSpaces(command) => {
                    advanced.lemma_observations_replaced(
                        id,
                        command.observed_spaces_revision,
                        command.space_keys,
                        request_id,
                    );
                },
                ClientPayloadModel::FetchSpace(command) => {
                    let frame = self.fetched(request_id, command.space_key);
                    self.lemma_sent(id, frame);
                    self.lemma_sent_consistent(id, frame);
                    assert(after == self.sent(id, frame));
                },
                ClientPayloadModel::CloseSession(_) => {
                    let frame = framed(
                        request_id,
                        crate::messages::ServerPayloadModel::SessionClosing(
                            crate::messages::SessionClosingModel {
                                reason: "session closed by controller"@,
                            },
                        ),
                    );
                    self.lemma_sent(id, frame);
                    self.lemma_sent_consistent(id, frame);
                    self.sent(id, frame).lemma_session_removed(
                        id,
                        OwnershipRevocationReason::ParticipantReleased,
                        now,
                    );
                },
            }
        }
    }

    /// What a controller is answered that fetches a Space.
    pub open spec fn fetched(self, request_id: Seq<u8>, space_key: Seq<char>) -> ServerFrameModel {
        framed(
            request_id,
            crate::messages::ServerPayloadModel::FetchSpaceResult(
                crate::messages::FetchSpaceResultModel {
                    result: Some(
                        match self.snapshot_of(space_key) {
                            Some(snapshot) => crate::messages::FetchResultModel::Snapshot(snapshot),
                            None => crate::messages::FetchResultModel::Absent(
                                crate::messages::SpaceAbsentModel { space_key },
                            ),
                        },
                    ),
                },
            ),
        )
    }

    /// The session that listens on a stream exists.
    pub(crate) proof fn lemma_stream_has_a_session(self, stream_id: u64)
        requires
            self.consistent(),
            self.streams.dom().contains(stream_id),
        ensures
            self.sessions.dom().contains(self.streams[stream_id]),
            self.stream_of(self.streams[stream_id]) == Some(stream_id),
    {
        assert(self.stream_of(self.streams[stream_id]) == Some(stream_id));
    }

    pub(crate) proof fn lemma_framed_command(
        self,
        stream_id: u64,
        frame: ClientFrameModel,
        draws: DrawsModel,
        now: nat,
    )
        requires
            self.consistent(),
        ensures
            self.framed_command(stream_id, frame, draws, now).consistent(),
            self.framed_command(stream_id, frame, draws, now).config == self.config,
    {
        let after = self.framed_command(stream_id, frame, draws, now);
        let request_id = frame.request_id;
        if self.streams.dom().contains(stream_id) {
            self.lemma_stream_has_a_session(stream_id);
            let id = self.streams[stream_id];
            self.lemma_rejected(
                id,
                request_id,
                CommandErrorCode::InvalidArgument,
                "request_id must not be empty"@,
            );
            self.lemma_rejected(
                id,
                request_id,
                CommandErrorCode::InvalidArgument,
                "ClientFrame has no payload"@,
            );
            self.lemma_rejected(
                id,
                request_id,
                CommandErrorCode::InvalidArgument,
                "OpenSession is only valid as the first frame"@,
            );
            if request_id.len() > 0 && frame.payload is Some && frame.payload->0 !is OpenSession {
                if self.reliable.replays(id, request_id) {
                    self.lemma_said_consistent(after);
                } else {
                    self.lemma_commanded(id, request_id, frame.payload->0, draws, now);
                }
            }
        }
    }
}

// The laws.

/// A server starts with registries that agree.
pub proof fn a_new_server_is_consistent(state: ActorModel)
    requires
        state.core_sessions == (crate::session::RegistryModel {
            maximum_sessions: state.config.max_sessions as nat,
            lease_duration: state.config.lease_duration@,
            sessions: Map::empty(),
            next_session_id: 1,
        }),
        state.ownership == (OwnershipModel {
            maximum_entities: state.config.max_participants as nat,
            maximum_entities_per_owner: state.config.max_participants_per_session as nat,
            entries: Map::empty(),
        }),
        state.reliable.maximum_completed_per_session == state.config.queue_capacity,
        state.reliable.sessions == Map::<SessionId, crate::reliable::LogModel<ServerFrameModel>>::empty(),
        state.sessions == Map::<SessionId, AttachedModel>::empty(),
        state.streams == Map::<u64, SessionId>::empty(),
        state.participants == Map::<Seq<char>, ParticipantModel>::empty(),
        state.host.participants == Map::<Seq<char>, crate::host::BindingModel>::empty(),
        state.spaces == Map::<Seq<char>, crate::spaces::SpaceModel>::empty(),
    ensures
        state.consistent(),
{
    assert(state.participants.dom() =~= state.ownership.entries.dom());
    assert(state.host.participants.dom() =~= state.ownership.entries.dom());
    assert(state.core_sessions.sessions.dom() =~= state.sessions.dom());
    assert(state.reliable.sessions.dom() =~= state.sessions.dom());
    assert forall|owner: SessionId| #[trigger]
        state.ownership.owned_set(owner).len()
            <= state.ownership.maximum_entities_per_owner by {
        assert(state.ownership.owned_set(owner) =~= Set::empty());
    }
}

/// No command lets the registries disagree or exceed their limits. A stream is
/// opened once.
pub proof fn commands_keep_the_registries_consistent(
    state: ActorModel,
    command: CommandModel,
    draws: DrawsModel,
    now: nat,
)
    requires
        state.consistent(),
        command matches CommandModel::Open { stream_id, .. } ==> !state.streams.dom().contains(
            stream_id,
        ),
    ensures
        state.handled(command, draws, now).consistent(),
{
    match command {
        CommandModel::Open { stream_id, frame } => {
            state.lemma_opened(stream_id, frame, draws, now);
        },
        CommandModel::Frame { stream_id, frame } => {
            state.lemma_framed_command(stream_id, frame, draws, now);
        },
        CommandModel::StreamClosed { stream_id } => {
            state.lemma_stream_ended(stream_id);
        },
        CommandModel::Route { connection, credential } => {
            state.lemma_routed(connection, credential, now);
            let routed = state.routed(connection, credential, now);
            routed.0.lemma_rendered_consistent(
                routed.0.emitted(EffectModel::RouteReply { connection, result: routed.1 }),
            );
        },
        CommandModel::SpaceEvent(report) => {
            state.lemma_space_event(report.space_key, report.event, now);
        },
        CommandModel::Reconciled { space_key, application_revision, report } => {
            state.lemma_reconciled(space_key, application_revision, report);
        },
    }
}

/// Neither does time, nor what becomes of a delivery.
pub proof fn time_and_deliveries_keep_the_registries_consistent(
    state: ActorModel,
    id: SessionId,
    now: nat,
)
    requires
        state.consistent(),
    ensures
        state.due_expired(now).consistent(),
        state.receiver_gone(id).consistent(),
        (ActorModel {
            core_sessions: state.core_sessions.resync_marked(id),
            ..state
        }).consistent(),
        (ActorModel { effects: Seq::empty(), ..state }).consistent(),
{
    let expired = state.core_sessions.expired(now);
    let reason = OwnershipRevocationReason::SessionExpired;
    state.lemma_sessions_removed(expired, reason, now);
    let left = state.sessions_removed(expired, reason, now);
    left.lemma_spaces_closed(left.due_spaces(now));
    state.lemma_receiver_gone(id);
    let marked = ActorModel { core_sessions: state.core_sessions.resync_marked(id), ..state };
    assert(marked.core_sessions.sessions.dom() =~= state.core_sessions.sessions.dom());
    state.lemma_said_consistent(marked);
    state.lemma_said_consistent((ActorModel { effects: Seq::empty(), ..state }));
}

/// A frame on a stream that carries no session does nothing.
pub proof fn a_frame_on_an_unknown_stream_changes_nothing(
    state: ActorModel,
    stream_id: u64,
    frame: ClientFrameModel,
    draws: DrawsModel,
    now: nat,
)
    requires
        !state.streams.dom().contains(stream_id),
    ensures
        state.framed_command(stream_id, frame, draws, now) == state,
{
}

/// A request that was answered is not carried out again: its answer is repeated.
pub proof fn an_answered_request_is_only_repeated(
    state: ActorModel,
    stream_id: u64,
    frame: ClientFrameModel,
    draws: DrawsModel,
    now: nat,
)
    requires
        state.streams.dom().contains(stream_id),
        frame.request_id.len() > 0,
        frame.payload is Some,
        frame.payload->0 !is OpenSession,
        state.reliable.replays(state.streams[stream_id], frame.request_id),
    ensures
        ({
            let id = state.streams[stream_id];
            state.framed_command(stream_id, frame, draws, now) == state.sent_uncached(
                id,
                state.reliable.sessions[id].results[frame.request_id],
            )
        }),
{
}

/// A command other than a lease renewal and a close is carried out once, however
/// often its frame comes in a row.
pub proof fn a_command_is_carried_out_once(
    state: ActorModel,
    stream_id: u64,
    frame: ClientFrameModel,
    draws: DrawsModel,
    now: nat,
    later_draws: DrawsModel,
    later: nat,
)
    requires
        state.consistent(),
        state.config.queue_capacity >= 1,
        state.streams.dom().contains(stream_id),
        frame.request_id.len() > 0,
        frame.payload is Some,
        frame.payload->0 !is OpenSession,
        frame.payload->0 !is RenewLease,
        frame.payload->0 !is CloseSession,
    ensures
        ({
            let id = state.streams[stream_id];
            let after = state.framed_command(stream_id, frame, draws, now);
            after.framed_command(stream_id, frame, later_draws, later) == after.sent_uncached(
                id,
                after.reliable.sessions[id].results[frame.request_id],
            )
        }),
{
    let id = state.streams[stream_id];
    let request_id = frame.request_id;
    let payload = frame.payload->0;
    state.lemma_stream_has_a_session(stream_id);
    let after = state.framed_command(stream_id, frame, draws, now);
    if state.reliable.replays(id, request_id) {
    } else {
        state.lemma_commanded(id, request_id, payload, draws, now);
        state.lemma_advanced_consistent(id);
        let advanced = state.advanced(id);
        if !state.core_sessions.authorizes(id, ActorModel::presented_token(payload)) {
            state.lemma_rejected_recorded(
                id,
                request_id,
                CommandErrorCode::SessionExpiredError,
                "session token is not current"@,
            );
        } else {
            match payload {
                ClientPayloadModel::SyncDesiredState(command) => {
                    match crate::actor_model::snapshot_fault(state.config, command.desired_state) {
                        Err(message) => {
                            state.lemma_rejected_recorded(
                                id,
                                request_id,
                                CommandErrorCode::InvalidArgument,
                                message,
                            );
                        },
                        Ok(_) => {
                            state.lemma_snapshot_recorded(
                                id,
                                command.desired_state->0,
                                request_id,
                                draws.registrations,
                                now,
                            );
                        },
                    }
                },
                ClientPayloadModel::RegisterParticipant(command) => {
                    if let Some(registration) = command.participant {
                        match crate::actor_model::registration_fault(registration) {
                            Err(message) => {
                                state.lemma_rejected_recorded(
                                    id,
                                    request_id,
                                    CommandErrorCode::InvalidArgument,
                                    message,
                                );
                            },
                            Ok(_) => {
                                advanced.lemma_explicit_recorded(
                                    id,
                                    registration,
                                    request_id,
                                    draws.registrations[0],
                                    now,
                                );
                            },
                        }
                    } else {
                        state.lemma_rejected_recorded(
                            id,
                            request_id,
                            CommandErrorCode::InvalidArgument,
                            "participant registration is missing"@,
                        );
                    }
                },
                ClientPayloadModel::SetParticipantSpec(command) => {
                    if let Some(spec) = command.spec {
                        match checked_spec(spec) {
                            Err(error) => {
                                state.lemma_rejected_recorded(
                                    id,
                                    request_id,
                                    CommandErrorCode::InvalidArgument,
                                    error.text(),
                                );
                            },
                            Ok(spec) => {
                                advanced.lemma_spec_set_recorded(
                                    id,
                                    command.participant_id,
                                    command.ownership_token,
                                    command.client_spec_revision,
                                    spec,
                                    request_id,
                                    draws.registrations[0].incarnation_id,
                                    now,
                                );
                            },
                        }
                    } else {
                        state.lemma_rejected_recorded(
                            id,
                            request_id,
                            CommandErrorCode::InvalidArgument,
                            "participant spec is missing"@,
                        );
                    }
                },
                ClientPayloadModel::ReleaseParticipant(command) => {
                    advanced.lemma_released_recorded(
                        id,
                        command.participant_id,
                        command.registration_id,
                        command.ownership_token,
                        OwnershipRevocationReason::ParticipantReleased,
                        request_id,
                        now,
                    );
                },
                ClientPayloadModel::ReplaceObservedSpaces(command) => {
                    advanced.lemma_observations_recorded(
                        id,
                        command.observed_spaces_revision,
                        command.space_keys,
                        request_id,
                    );
                },
                ClientPayloadModel::FetchSpace(command) => {
                    state.lemma_sent_recorded(id, state.fetched(request_id, command.space_key));
                    assert(after == state.sent(id, state.fetched(request_id, command.space_key)));
                },
                _ => {},
            }
        }
    }
}

/// A command whose session token is not current is answered so, and does
/// nothing else.
pub proof fn a_stale_session_token_has_no_effect(
    state: ActorModel,
    stream_id: u64,
    frame: ClientFrameModel,
    draws: DrawsModel,
    now: nat,
)
    requires
        state.streams.dom().contains(stream_id),
        frame.request_id.len() > 0,
        frame.payload is Some,
        frame.payload->0 !is OpenSession,
        !state.reliable.replays(state.streams[stream_id], frame.request_id),
        !state.core_sessions.authorizes(
            state.streams[stream_id],
            ActorModel::presented_token(frame.payload->0),
        ),
    ensures
        ({
            let id = state.streams[stream_id];
            let after = state.framed_command(stream_id, frame, draws, now);
            &&& after == state.rejected(
                id,
                frame.request_id,
                CommandErrorCode::SessionExpiredError,
                "session token is not current"@,
            )
            &&& state.only_said(after)
        }),
{
    state.lemma_rejected(
        state.streams[stream_id],
        frame.request_id,
        CommandErrorCode::SessionExpiredError,
        "session token is not current"@,
    );
}

/// Only an explicit registration can take a participant from another session:
/// no other command of a session, a full snapshot among them, changes what
/// another session owns.
pub proof fn only_a_registration_takes_a_participant_over(
    state: ActorModel,
    id: SessionId,
    request_id: Seq<u8>,
    payload: ClientPayloadModel,
    draws: DrawsModel,
    now: nat,
)
    requires
        state.consistent(),
        state.sessions.dom().contains(id),
        payload !is RegisterParticipant,
    ensures
        state.others_are_left_alone(state.commanded(id, request_id, payload, draws, now), id),
{
    state.lemma_commanded(id, request_id, payload, draws, now);
}

/// The snapshot that comes with an opening takes no participant from another
/// session either.
pub proof fn an_opening_takes_nothing_over(
    state: ActorModel,
    stream_id: u64,
    request_id: Seq<u8>,
    open: crate::messages::OpenSessionModel,
    draws: DrawsModel,
    now: nat,
)
    requires
        state.consistent(),
        !state.streams.dom().contains(stream_id),
    ensures
        ({
            let after = state.open_requested(stream_id, request_id, open, draws, now);
            state.only_said(after) || exists|id: SessionId| #[trigger]
                after.stream_of(id) == Some(stream_id) && state.others_are_left_alone(after, id)
        }),
{
    state.lemma_open_requested(stream_id, request_id, open, draws, now);
}

/// An explicit registration touches the ownership of its own participant alone.
/// Where it takes that over, the previous owner can neither change nor release
/// the participant any more.
pub proof fn a_takeover_fences_the_previous_owner(
    state: ActorModel,
    id: SessionId,
    registration: ParticipantRegistrationModel,
    request_id: Seq<u8>,
    draws: RegistrationDrawsModel,
    now: nat,
    spec: ParticipantSpecModel,
    revision: u64,
    incarnation_id: Option<Seq<u8>>,
    registration_id: Seq<u8>,
    stale_request: Seq<u8>,
    later: nat,
)
    requires
        state.consistent(),
        state.sessions.dom().contains(id),
        state.ownership.entries.dom().contains(registration.participant_id),
        state.ownership.entries[registration.participant_id].owner != id,
        ({
            let after = state.registered_explicitly(id, registration, request_id, draws, now);
            &&& after.ownership.entries.dom().contains(registration.participant_id)
            &&& after.ownership.entries[registration.participant_id].owner == id
        }),
    ensures
        ({
            let p = registration.participant_id;
            let previous = state.ownership.entries[p];
            let after = state.registered_explicitly(id, registration, request_id, draws, now);
            &&& state.others_keep_their_owner(after, p)
            &&& after.spec_set(
                previous.owner,
                p,
                previous.fencing_token,
                revision,
                spec,
                stale_request,
                incarnation_id,
                later,
            ) == after.rejected(
                previous.owner,
                stale_request,
                CommandErrorCode::OwnershipLost,
                "participant ownership token is stale"@,
            )
            &&& after.released(
                previous.owner,
                p,
                registration_id,
                previous.fencing_token,
                OwnershipRevocationReason::ParticipantReleased,
                Some(stale_request),
                later,
            ) == after.rejected(
                previous.owner,
                stale_request,
                CommandErrorCode::OwnershipLost,
                "participant ownership token is stale"@,
            )
        }),
{
    state.lemma_registered_explicitly(id, registration, request_id, draws, now);
}

/// A session that leaves takes exactly its own participants with it.
pub proof fn a_leaving_session_releases_its_own_participants(
    state: ActorModel,
    id: SessionId,
    reason: OwnershipRevocationReason,
    now: nat,
)
    requires
        state.consistent(),
    ensures
        ({
            let after = state.session_removed(id, reason, now);
            &&& after.sessions == state.sessions.remove(id)
            &&& forall|p: Seq<char>| #[trigger]
                after.participants.dom().contains(p) <==> {
                    &&& state.participants.dom().contains(p)
                    &&& state.ownership.entries[p].owner != id
                }
            &&& forall|p: Seq<char>| #[trigger]
                after.participants.dom().contains(p) ==> {
                    &&& after.participants[p] == state.participants[p]
                    &&& after.ownership.entries[p] == state.ownership.entries[p]
                    &&& after.host.participants[p] == state.host.participants[p]
                }
        }),
{
    state.lemma_session_removed(id, reason, now);
    let after = state.session_removed(id, reason, now);
    assert forall|p: Seq<char>| #[trigger] after.participants.dom().contains(p) <==> {
        &&& state.participants.dom().contains(p)
        &&& state.ownership.entries[p].owner != id
    } by {
        assert(after.ownership.entries.dom().contains(p) <==> {
            &&& state.ownership.entries.dom().contains(p)
            &&& state.ownership.entries[p].owner != id
        });
    }
    assert forall|p: Seq<char>| #[trigger] after.participants.dom().contains(p) implies {
        &&& after.participants[p] == state.participants[p]
        &&& after.ownership.entries[p] == state.ownership.entries[p]
        &&& after.host.participants[p] == state.host.participants[p]
    } by {
        assert(after.ownership.entries.dom().contains(p));
    }
}

/// Time removes the sessions whose lease has run out, and with them their
/// participants; it destroys no Space that has a participant left.
pub proof fn only_what_is_due_expires(state: ActorModel, now: nat)
    requires
        state.consistent(),
    ensures
        ({
            let after = state.due_expired(now);
            &&& forall|id: SessionId| #[trigger]
                after.sessions.dom().contains(id) <==> {
                    &&& state.sessions.dom().contains(id)
                    &&& state.core_sessions.sessions[id].expires_at > now
                }
            &&& forall|p: Seq<char>| #[trigger]
                after.participants.dom().contains(p) <==> {
                    &&& state.participants.dom().contains(p)
                    &&& after.sessions.dom().contains(state.ownership.entries[p].owner)
                }
            &&& forall|key: Seq<char>|
                state.spaces.dom().contains(key) && #[trigger] after.is_inhabited(key)
                    ==> after.spaces.dom().contains(key)
            &&& forall|key: Seq<char>| #[trigger]
                after.spaces.dom().contains(key) ==> state.spaces.dom().contains(key)
        }),
{
    let ids = state.core_sessions.expired(now);
    let reason = OwnershipRevocationReason::SessionExpired;
    state.lemma_sessions_removed(ids, reason, now);
    let left = state.sessions_removed(ids, reason, now);
    left.lemma_spaces_closed(left.due_spaces(now));
    let after = state.due_expired(now);
    let dom = state.core_sessions.sessions.dom();
    lemma_in_order_of::<SessionId>(dom);
    let over = |id: SessionId| state.core_sessions.sessions[id].expires_at <= now;
    assert(ids == in_order::<SessionId>(dom).filter(over));
    assert forall|id: SessionId| #[trigger] after.sessions.dom().contains(id) <==> {
        &&& state.sessions.dom().contains(id)
        &&& state.core_sessions.sessions[id].expires_at > now
    } by {
        lemma_filter_members(in_order::<SessionId>(dom), over, id);
        assert(left.sessions.dom().contains(id) <==> state.sessions.dom().contains(id)
            && !ids.contains(id));
    }
    assert forall|p: Seq<char>| #[trigger] after.participants.dom().contains(p) <==> {
        &&& state.participants.dom().contains(p)
        &&& after.sessions.dom().contains(state.ownership.entries[p].owner)
    } by {
        assert(left.ownership.entries.dom().contains(p) <==> {
            &&& state.ownership.entries.dom().contains(p)
            &&& !ids.contains(state.ownership.entries[p].owner)
        });
        if state.ownership.entries.dom().contains(p) {
            let owner = state.ownership.entries[p].owner;
            assert(state.sessions.dom().contains(owner));
            assert(left.sessions.dom().contains(owner) <==> !ids.contains(owner));
        }
    }
    assert forall|key: Seq<char>|
        state.spaces.dom().contains(key) && #[trigger] after.is_inhabited(
            key,
        ) implies after.spaces.dom().contains(key) by {
        assert(left.is_inhabited(key) == after.is_inhabited(key));
        assert(left.spaces.dom().contains(key));
    }
}

/// To observe or to fetch a Space does not materialize it.
pub proof fn observing_and_fetching_materialize_nothing(
    state: ActorModel,
    id: SessionId,
    request_id: Seq<u8>,
    payload: ClientPayloadModel,
    draws: DrawsModel,
    now: nat,
)
    requires
        state.consistent(),
        state.sessions.dom().contains(id),
        payload is FetchSpace || payload is ReplaceObservedSpaces,
    ensures
        state.commanded(id, request_id, payload, draws, now).spaces == state.spaces,
        state.commanded(id, request_id, payload, draws, now).participants == state.participants,
{
    state.lemma_rejected(
        id,
        request_id,
        CommandErrorCode::SessionExpiredError,
        "session token is not current"@,
    );
    match payload {
        ClientPayloadModel::FetchSpace(command) => {
            state.lemma_sent(id, state.fetched(request_id, command.space_key));
            if state.core_sessions.authorizes(id, ActorModel::presented_token(payload)) {
                assert(state.commanded(id, request_id, payload, draws, now) == state.sent(
                    id,
                    state.fetched(request_id, command.space_key),
                ));
            }
        },
        ClientPayloadModel::ReplaceObservedSpaces(command) => {
            state.lemma_advanced_consistent(id);
            state.advanced(id).lemma_observations_replaced(
                id,
                command.observed_spaces_revision,
                command.space_keys,
                request_id,
            );
        },
        _ => {},
    }
}

/// A render report touches the participants of its own Space alone, and no
/// applied revision goes back.
pub proof fn a_render_report_stays_in_its_space(
    state: ActorModel,
    space_key: Seq<char>,
    revision: u64,
    report: ReportModel,
    p: Seq<char>,
)
    requires
        state.consistent(),
        state.participants.dom().contains(p),
    ensures
        ({
            let after = state.reconciled(space_key, revision, report);
            &&& after.participants.dom() == state.participants.dom()
            &&& after.participants[p].spec == state.participants[p].spec
            &&& after.participants[p].applied_spec_revision
                >= state.participants[p].applied_spec_revision
            &&& state.participants[p].spec.space_key != space_key ==> after.participants[p]
                == state.participants[p]
        }),
{
    state.lemma_reconciled(space_key, revision, report);
}

/// A report on a render that is settled, or that there never was, is ignored.
pub proof fn a_stale_render_report_is_ignored(
    state: ActorModel,
    space_key: Seq<char>,
    revision: u64,
    report: ReportModel,
)
    requires
        !state.spaces.dom().contains(space_key)
            || !state.spaces[space_key].render_history.dom().contains(revision),
    ensures
        state.reconciled(space_key, revision, report) == state,
{
}

/// A stream that ends leaves its session, and all that it owns, in place until
/// the lease runs out.
pub proof fn an_ended_stream_keeps_its_session(state: ActorModel, stream_id: u64)
    requires
        state.consistent(),
    ensures
        state.keeps_its_sessions(state.stream_ended(stream_id)),
        !state.stream_ended(stream_id).streams.dom().contains(stream_id),
{
    state.lemma_stream_ended(stream_id);
}

/// A full queue ends no stream: the session is only asked to resynchronise.
pub proof fn a_full_queue_keeps_the_stream(state: ActorModel, id: SessionId)
    requires
        state.core_sessions.sessions.dom().contains(id),
    ensures
        ({
            let after = ActorModel {
                core_sessions: state.core_sessions.resync_marked(id),
                ..state
            };
            &&& after.stream_of(id) == state.stream_of(id)
            &&& after.streams == state.streams
            &&& after.core_sessions.sessions[id].needs_resync
        }),
{
}

/// Each participant has an owner, that owner is a session that there is, and
/// there is a credential to connect with.
pub proof fn every_participant_has_a_live_owner(state: ActorModel, p: Seq<char>)
    requires
        state.consistent(),
        state.participants.dom().contains(p),
    ensures
        state.ownership.entries.dom().contains(p),
        state.sessions.dom().contains(state.ownership.entries[p].owner),
        state.host.participants.dom().contains(p),
{
    assert(state.ownership.entries.dom().contains(p));
}

} // verus!
