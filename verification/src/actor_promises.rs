//! What the Controller server promises to those who talk to it: what a command
//! leaves behind, and what is said and done about it.

use vstd::prelude::*;

use crate::actor_model::{
    framed, registered_ids, ActorModel, EffectModel, RegistrationDrawsModel,
};
use crate::messages::{
    DesiredStateReconciledModel, DesiredStateSnapshotModel, OwnershipRevocationReason,
    ParticipantOwnershipRevokedModel, ParticipantRegistrationModel, ParticipantSpecModel,
    ServerFrameModel, ServerPayloadModel,
};
use crate::ordered::{in_order, lemma_filter_members, lemma_in_order_of};
use crate::ownership::ClaimMode;
use crate::session::SessionId;
use crate::spaces::{ObservationsModel, ParticipantModel, RenderStateModel};

verus! {

// What is asked for is not taken back.

impl ActorModel {
    /// All that this state has asked for still stands at the head of what `after` asks for.
    #[verifier::opaque]
    pub open spec fn adds(self, after: Self) -> bool {
        &&& self.effects.len() <= after.effects.len()
        &&& forall|k: int|
            0 <= k < self.effects.len() ==> #[trigger] after.effects[k] == self.effects[k]
    }

    /// On the way to `after`, `effect` was asked for.
    #[verifier::opaque]
    pub open spec fn asks(self, after: Self, effect: EffectModel) -> bool {
        exists|k: int|
            self.effects.len() <= k < after.effects.len() && #[trigger] after.effects[k] == effect
    }
}

proof fn lemma_adds()
    ensures
        forall|a: ActorModel| #[trigger] a.adds(a),
        forall|a: ActorModel, b: ActorModel, c: ActorModel| #[trigger]
            a.adds(b) && #[trigger] b.adds(c) ==> a.adds(c),
        forall|a: ActorModel, b: ActorModel, c: ActorModel, effect: EffectModel|
            #![trigger a.asks(b, effect), b.adds(c)]
            a.asks(b, effect) && b.adds(c) ==> a.asks(c, effect),
        forall|a: ActorModel, b: ActorModel, c: ActorModel, effect: EffectModel|
            #![trigger a.adds(b), b.asks(c, effect)]
            a.adds(b) && b.asks(c, effect) ==> a.asks(c, effect),
        forall|a: ActorModel, effect: EffectModel| a.adds(#[trigger] a.emitted(effect)),
        forall|a: ActorModel, effect: EffectModel| a.asks(#[trigger] a.emitted(effect), effect),
{
    reveal(ActorModel::adds);
    reveal(ActorModel::asks);
    assert forall|a: ActorModel, effect: EffectModel| a.asks(
        #[trigger] a.emitted(effect),
        effect,
    ) by {
        assert(a.emitted(effect).effects[a.effects.len() as int] == effect);
    }
    assert forall|a: ActorModel, b: ActorModel, c: ActorModel, effect: EffectModel|
        #![trigger a.asks(b, effect), b.adds(c)]
        a.asks(b, effect) && b.adds(c) implies a.asks(c, effect) by {
        let k = choose|k: int|
            a.effects.len() <= k < b.effects.len() && #[trigger] b.effects[k] == effect;
        assert(c.effects[k] == effect);
    }
    assert forall|a: ActorModel, b: ActorModel, c: ActorModel, effect: EffectModel|
        #![trigger a.adds(b), b.asks(c, effect)]
        a.adds(b) && b.asks(c, effect) implies a.asks(c, effect) by {
        let k = choose|k: int|
            b.effects.len() <= k < c.effects.len() && #[trigger] c.effects[k] == effect;
        assert(c.effects[k] == effect);
    }
    assert forall|a: ActorModel, b: ActorModel, c: ActorModel| #[trigger]
        a.adds(b) && #[trigger] b.adds(c) implies a.adds(c) by {
        assert forall|k: int| 0 <= k < a.effects.len() implies #[trigger] c.effects[k]
            == a.effects[k] by {
            assert(b.effects[k] == a.effects[k]);
        }
    }
}

proof fn lemma_same_effects(a: ActorModel, b: ActorModel)
    requires
        a.effects == b.effects,
    ensures
        a.adds(b),
        forall|c: ActorModel| #[trigger] a.adds(c) == b.adds(c),
        forall|c: ActorModel, effect: EffectModel| #[trigger]
            a.asks(c, effect) == b.asks(c, effect),
{
    reveal(ActorModel::adds);
    reveal(ActorModel::asks);
}

proof fn lemma_sent_adds()
    ensures
        forall|a: ActorModel, id: SessionId, frame: ServerFrameModel|
            a.adds(#[trigger] a.sent(id, frame)),
        forall|a: ActorModel, id: SessionId, frame: ServerFrameModel|
            a.adds(#[trigger] a.sent_uncached(id, frame)),
        forall|a: ActorModel, id: SessionId, frame: ServerFrameModel|
            #![trigger a.sent(id, frame)]
            frame.request_id.len() == 0 || a.reliable.sessions.dom().contains(id) ==> (a.stream_of(
                id,
            ) matches Some(stream_id) ==> a.asks(
                a.sent(id, frame),
                EffectModel::Send { session_id: id, stream_id, frame },
            )),
{
    reveal(ActorModel::adds);
    lemma_adds();
    assert forall|a: ActorModel, id: SessionId, frame: ServerFrameModel|
        #![trigger a.sent(id, frame)]
        (frame.request_id.len() == 0 || a.reliable.sessions.dom().contains(id)) && a.stream_of(
            id,
        ) is Some implies a.asks(
        a.sent(id, frame),
        EffectModel::Send { session_id: id, stream_id: a.stream_of(id)->0, frame },
    ) by {
        let effect = EffectModel::Send { session_id: id, stream_id: a.stream_of(id)->0, frame };
        let recorded = ActorModel {
            reliable: a.reliable.completed(id, frame.request_id, frame).0,
            ..a
        };
        lemma_same_effects(a, recorded);
        assert(a.asks(a.emitted(effect), effect));
        assert(recorded.asks(recorded.emitted(effect), effect));
    }
}

proof fn lemma_sent_to_each_adds(a: ActorModel, ids: Seq<SessionId>, frame: ServerFrameModel)
    ensures
        a.adds(a.sent_to_each(ids, frame)),
    decreases ids.len(),
{
    lemma_adds();
    lemma_sent_adds();
    if ids.len() > 0 {
        lemma_sent_to_each_adds(a.sent(ids[0], frame), ids.drop_first(), frame);
    }
}

proof fn lemma_snapshots_sent_adds(a: ActorModel, id: SessionId, keys: Seq<Seq<char>>)
    ensures
        a.adds(a.snapshots_sent(id, keys)),
    decreases keys.len(),
{
    lemma_adds();
    lemma_sent_adds();
    if keys.len() > 0 {
        let next = match a.snapshot_of(keys[0]) {
            None => a,
            Some(snapshot) => a.sent(
                id,
                framed(Seq::empty(), ServerPayloadModel::SpaceSnapshot(snapshot)),
            ),
        };
        lemma_snapshots_sent_adds(next, id, keys.drop_first());
    }
}

/// The state in which a Space has its new render, before anybody is told.
spec fn published(a: ActorModel, key: Seq<char>, now: nat) -> ActorModel {
    let revision = a.next_application_revision;
    let participants = a.render_list(key);
    (ActorModel {
        next_application_revision: crate::actor_model::saturating_next(revision),
        spaces: a.spaces.insert(
            key,
            a.spaces[key].refreshed(revision, participants, now, a.config.empty_space_grace@),
        ),
        ..a
    }).emitted(
        EffectModel::Publish {
            desired: RenderStateModel { application_revision: revision, space_key: key, participants },
        },
    )
}

proof fn lemma_refreshed_adds(a: ActorModel, key: Seq<char>, now: nat)
    ensures
        a.adds(a.space_refreshed(key, now)),
        a.spaces.dom().contains(key) ==> a.asks(
            a.space_refreshed(key, now),
            EffectModel::Publish {
                desired: RenderStateModel {
                    application_revision: a.next_application_revision,
                    space_key: key,
                    participants: a.render_list(key),
                },
            },
        ),
{
    lemma_adds();
    let revision = a.next_application_revision;
    let counted = ActorModel {
        next_application_revision: crate::actor_model::saturating_next(revision),
        ..a
    };
    lemma_same_effects(a, counted);
    if a.spaces.dom().contains(key) {
        let participants = a.render_list(key);
        let stored = ActorModel {
            spaces: a.spaces.insert(
                key,
                a.spaces[key].refreshed(revision, participants, now, a.config.empty_space_grace@),
            ),
            ..counted
        };
        lemma_same_effects(a, stored);
        let shown = published(a, key, now);
        if let Some(snapshot) = shown.snapshot_of(key) {
            lemma_sent_to_each_adds(
                shown,
                shown.observers(key),
                framed(Seq::empty(), ServerPayloadModel::SpaceSnapshot(snapshot)),
            );
        }
        assert(a.space_refreshed(key, now) == shown.snapshot_broadcast(key));
    }
}

proof fn lemma_refreshed_adds_always()
    ensures
        forall|a: ActorModel, key: Seq<char>, now: nat|
            a.adds(#[trigger] a.space_refreshed(key, now)),
{
    assert forall|a: ActorModel, key: Seq<char>, now: nat|
        a.adds(#[trigger] a.space_refreshed(key, now)) by {
        lemma_refreshed_adds(a, key, now);
    }
}

/// What a session is told when it loses a participant.
pub open spec fn revocation(
    request_id: Seq<u8>,
    participant_id: Seq<char>,
    registration_id: Seq<u8>,
    reason: i32,
) -> ServerFrameModel {
    ServerFrameModel {
        request_id,
        payload: Some(
            ServerPayloadModel::ParticipantOwnershipRevoked(
                ParticipantOwnershipRevokedModel { participant_id, registration_id, reason },
            ),
        ),
    }
}

proof fn lemma_released_adds(
    a: ActorModel,
    id: SessionId,
    p: Seq<char>,
    registration_id: Seq<u8>,
    token: Seq<u8>,
    reason: OwnershipRevocationReason,
    request_id: Option<Seq<u8>>,
    now: nat,
)
    requires
        a.consistent(),
    ensures
        ({
            let after = a.released(id, p, registration_id, token, reason, request_id, now);
            let key = a.participants[p].spec.space_key;
            &&& a.adds(after)
            &&& a.ownership.holds(p, id, registration_id, token) ==> {
                &&& a.host.participants[p].connection matches Some(connection) ==> a.asks(
                    after,
                    EffectModel::CloseConnection { connection },
                )
                &&& a.stream_of(id) matches Some(stream_id) ==> a.asks(
                    after,
                    EffectModel::Send {
                        session_id: id,
                        stream_id,
                        frame: revocation(
                            match request_id {
                                Some(request_id) => request_id,
                                None => Seq::empty(),
                            },
                            p,
                            registration_id,
                            reason.number(),
                        ),
                    },
                )
                &&& a.spaces.dom().contains(key) ==> a.asks(
                    after,
                    EffectModel::Publish {
                        desired: RenderStateModel {
                            application_revision: a.next_application_revision,
                            space_key: key,
                            participants: a.without_participant(p).render_list(key),
                        },
                    },
                )
            }
        }),
{
    lemma_adds();
    lemma_sent_adds();
    let after = a.released(id, p, registration_id, token, reason, request_id, now);
    let key = a.participants[p].spec.space_key;
    if a.ownership.holds(p, id, registration_id, token) {
        assert(a.participants.dom().contains(p));
        let forgotten = a.without_participant(p);
        lemma_same_effects(a, forgotten);
        let closed = match a.host.connection_of(p) {
            Some(connection) => forgotten.emitted(EffectModel::CloseConnection { connection }),
            None => forgotten,
        };
        let refreshed = closed.space_refreshed(key, now);
        lemma_refreshed_adds(closed, key, now);
        closed.lemma_space_refreshed(key, now);
        let frame = revocation(
            match request_id {
                Some(request_id) => request_id,
                None => Seq::empty(),
            },
            p,
            registration_id,
            reason.number(),
        );
        assert(after == refreshed.sent(id, frame));
        assert(closed.render_list(key) =~= forgotten.render_list(key));
    } else {
        assert(a.adds(after));
    }
}

proof fn lemma_all_released_adds(
    a: ActorModel,
    id: SessionId,
    ids: Seq<Seq<char>>,
    reason: OwnershipRevocationReason,
    now: nat,
)
    requires
        a.consistent(),
    ensures
        a.adds(a.all_released(id, ids, reason, now)),
    decreases ids.len(),
{
    lemma_adds();
    if ids.len() > 0 {
        let q = ids[0];
        let owned = a.ownership.entries[q];
        let next = if a.ownership.entries.dom().contains(q) {
            a.released(id, q, owned.registration_id, owned.fencing_token, reason, None, now)
        } else {
            a
        };
        if a.ownership.entries.dom().contains(q) {
            a.lemma_released(
                id,
                q,
                owned.registration_id,
                owned.fencing_token,
                reason,
                None,
                now,
            );
            lemma_released_adds(
                a,
                id,
                q,
                owned.registration_id,
                owned.fencing_token,
                reason,
                None,
                now,
            );
        }
        lemma_all_released_adds(next, id, ids.drop_first(), reason, now);
    }
}

/// Whether, on the way to `after`, a Space was rendered without a participant.
pub open spec fn renders_without(
    before: ActorModel,
    after: ActorModel,
    space_key: Seq<char>,
    p: Seq<char>,
) -> bool {
    exists|desired: RenderStateModel|
        {
            &&& #[trigger] before.asks(after, EffectModel::Publish { desired })
            &&& desired.space_key == space_key
            &&& forall|i: int|
                0 <= i < desired.participants.len() ==> (
                #[trigger] desired.participants[i]).participant_id != p
        }
}

/// No render of a state shows a participant that the state does not have.
proof fn lemma_not_rendered(a: ActorModel, key: Seq<char>, p: Seq<char>)
    requires
        a.consistent(),
        !a.participants.dom().contains(p),
    ensures
        forall|i: int|
            0 <= i < a.render_list(key).len() ==> (
            #[trigger] a.render_list(key)[i]).participant_id != p,
{
    let all = in_order::<String>(a.participants.dom());
    let keep = |q: Seq<char>|
        a.participants[q].spec.space_key == key && a.ownership.entries.dom().contains(
            a.participants[q].participant_id,
        );
    lemma_in_order_of::<String>(a.participants.dom());
    assert forall|i: int| 0 <= i < a.render_list(key).len() implies (
    #[trigger] a.render_list(key)[i]).participant_id != p by {
        let q = all.filter(keep)[i];
        assert(all.filter(keep).contains(q));
        lemma_filter_members(all, keep, q);
        assert(a.participants.dom().contains(q));
        assert(a.render_list(key)[i] == a.rendered(q));
    }
}

/// What is done about a participant that is released: its connection is closed, its
/// owner is told, and its Space is rendered without it.
pub open spec fn lets_go(
    before: ActorModel,
    after: ActorModel,
    p: Seq<char>,
    reason: i32,
) -> bool {
    let owned = before.ownership.entries[p];
    let key = before.participants[p].spec.space_key;
    &&& before.host.participants[p].connection matches Some(connection) ==> before.asks(
        after,
        EffectModel::CloseConnection { connection },
    )
    &&& before.stream_of(owned.owner) matches Some(stream_id) ==> before.asks(
        after,
        EffectModel::Send {
            session_id: owned.owner,
            stream_id,
            frame: revocation(Seq::empty(), p, owned.registration_id, reason),
        },
    )
    &&& before.spaces.dom().contains(key) ==> renders_without(before, after, key, p)
}

proof fn lemma_each_is_let_go(
    a: ActorModel,
    id: SessionId,
    ids: Seq<Seq<char>>,
    reason: OwnershipRevocationReason,
    now: nat,
    p: Seq<char>,
)
    requires
        a.consistent(),
        ids.contains(p),
        a.ownership.entries.dom().contains(p),
        a.ownership.entries[p].owner == id,
    ensures
        lets_go(a, a.all_released(id, ids, reason, now), p, reason.number()),
    decreases ids.len(),
{
    lemma_adds();
    let after = a.all_released(id, ids, reason, now);
    let q = ids[0];
    let owned = a.ownership.entries[q];
    let key = a.participants[p].spec.space_key;
    let next = if a.ownership.entries.dom().contains(q) {
        a.released(id, q, owned.registration_id, owned.fencing_token, reason, None, now)
    } else {
        a
    };
    if a.ownership.entries.dom().contains(q) {
        a.lemma_released(id, q, owned.registration_id, owned.fencing_token, reason, None, now);
        lemma_released_adds(
            a,
            id,
            q,
            owned.registration_id,
            owned.fencing_token,
            reason,
            None,
            now,
        );
    }
    lemma_all_released_adds(next, id, ids.drop_first(), reason, now);
    if q == p {
        let desired = RenderStateModel {
            application_revision: a.next_application_revision,
            space_key: key,
            participants: a.without_participant(p).render_list(key),
        };
        a.lemma_without_consistent(p);
        lemma_not_rendered(a.without_participant(p), key, p);
        if a.spaces.dom().contains(key) {
            assert(a.asks(after, EffectModel::Publish { desired }));
        }
    } else {
        let k = choose|k: int| 0 <= k < ids.len() && ids[k] == p;
        assert(ids.drop_first()[k - 1] == p);
        assert(next.ownership.entries[p] == a.ownership.entries[p]);
        assert(next.participants[p] == a.participants[p]);
        assert(next.host.participants[p] == a.host.participants[p]);
        lemma_each_is_let_go(next, id, ids.drop_first(), reason, now, p);
        if a.spaces.dom().contains(key) {
            let desired = choose|desired: RenderStateModel|
                {
                    &&& #[trigger] next.asks(after, EffectModel::Publish { desired })
                    &&& desired.space_key == key
                    &&& forall|i: int|
                        0 <= i < desired.participants.len() ==> (
                        #[trigger] desired.participants[i]).participant_id != p
                };
            assert(a.asks(after, EffectModel::Publish { desired }));
        }
    }
}

// Registrations.

proof fn lemma_status_sent_adds()
    ensures
        forall|a: ActorModel, p: Seq<char>| a.adds(#[trigger] a.status_sent(p)),
        forall|a: ActorModel, id: SessionId, participant: ParticipantModel, request_id: Seq<u8>|
            a.adds(#[trigger] a.granted(id, participant, request_id)),
        forall|
            a: ActorModel,
            id: SessionId,
            p: Seq<char>,
            registration_id: Seq<u8>,
            reason: OwnershipRevocationReason,
            request_id: Seq<u8>,
        |
            a.adds(#[trigger] a.revoked(id, p, registration_id, reason, request_id)),
        forall|
            a: ActorModel,
            id: SessionId,
            request_id: Seq<u8>,
            code: crate::messages::CommandErrorCode,
            message: Seq<char>,
        |
            a.adds(#[trigger] a.rejected(id, request_id, code, message)),
        forall|a: ActorModel, p: Seq<char>, key: Seq<char>|
            a.adds(#[trigger] a.connection_moved(p, key)),
        forall|a: ActorModel, key: Seq<char>, incarnation_id: Option<Seq<u8>>|
            a.adds((#[trigger] a.space_ensured(key, incarnation_id)).0),
{
    lemma_adds();
    lemma_sent_adds();
    assert forall|a: ActorModel, key: Seq<char>, incarnation_id: Option<Seq<u8>>|
        a.adds((#[trigger] a.space_ensured(key, incarnation_id)).0) by {
        if incarnation_id is Some {
            let stored = ActorModel {
                spaces: a.spaces.insert(
                    key,
                    crate::spaces::SpaceModel::fresh(incarnation_id->0),
                ),
                ..a
            };
            lemma_same_effects(a, stored);
        }
    }
}

proof fn lemma_spec_applied_adds(
    a: ActorModel,
    p: Seq<char>,
    spec: ParticipantSpecModel,
    now: nat,
)
    ensures
        a.adds(a.spec_applied(p, spec, now)),
{
    lemma_adds();
    lemma_refreshed_adds_always();
    lemma_status_sent_adds();
    if a.participants.dom().contains(p) {
        let old_space = a.participants[p].spec.space_key;
        let changed = a.with_participant(p, ParticipantModel { spec, ..a.participants[p] });
        lemma_same_effects(a, changed);
        let first = changed.space_refreshed(old_space, now);
        assert(a.adds(first));
        let second = first.space_refreshed(spec.space_key, now);
        assert(a.adds(second));
    }
}

proof fn lemma_resumed_adds(
    a: ActorModel,
    id: SessionId,
    registration: ParticipantRegistrationModel,
    request_id: Seq<u8>,
    mode: ClaimMode,
    now: nat,
)
    ensures
        a.adds(a.resumed(id, registration, request_id, mode, now)),
{
    lemma_adds();
    lemma_status_sent_adds();
    let p = registration.participant_id;
    let claim = crate::ownership::ClaimModel {
        entity_id: p,
        owner: id,
        registration_id: registration.registration_id,
        presented_fencing_token: registration.ownership_token,
        client_revision: registration.client_spec_revision,
        new_fencing_token: Seq::empty(),
        mode,
    };
    let claimed = ActorModel { ownership: a.ownership.claimed(claim).0, ..a };
    lemma_same_effects(a, claimed);
    if registration.spec is Some {
        lemma_spec_applied_adds(claimed, p, registration.spec->0, now);
        assert(a.adds(claimed.spec_applied(p, registration.spec->0, now)));
    }
}

#[verifier::rlimit(50)]
proof fn lemma_installed_adds(
    a: ActorModel,
    id: SessionId,
    registration: ParticipantRegistrationModel,
    spec: ParticipantSpecModel,
    request_id: Seq<u8>,
    previous: Option<crate::ownership::OwnedModel>,
    join_token: Seq<char>,
    now: nat,
)
    ensures
        a.adds(a.installed(id, registration, spec, request_id, previous, join_token, now)),
{
    lemma_adds();
    lemma_sent_adds();
    lemma_status_sent_adds();
    lemma_refreshed_adds_always();
    let p = registration.participant_id;
    let replaced = a.participants[p];
    let informed = match previous {
        None => a,
        Some(owned) => a.advanced(owned.owner).revoked(
            owned.owner,
            replaced.participant_id,
            owned.registration_id,
            OwnershipRevocationReason::OwnershipReplaced,
            Seq::empty(),
        ),
    };
    if previous is Some {
        lemma_same_effects(a, a.advanced(previous->0.owner));
    }
    assert(a.adds(informed));
    let participant = ParticipantModel {
        participant_id: p,
        applied_spec_revision: 0,
        applied_space_key: if previous is Some {
            replaced.applied_space_key
        } else {
            None
        },
        published_generation: if previous is Some {
            replaced.published_generation
        } else {
            0
        },
        spec,
        self_mute: previous is Some && replaced.self_mute,
        self_deaf: previous is Some && replaced.self_deaf,
        application_error: Seq::empty(),
    };
    let bound = informed.host.registered(p, join_token);
    let stored = (ActorModel { host: bound.0, ..informed }).with_participant(p, participant);
    lemma_same_effects(informed, stored);
    assert(a.adds(stored));
    let old_space = informed.participants[p].spec.space_key;
    let left = stored.space_refreshed(old_space, now);
    let entered = left.space_refreshed(spec.space_key, now);
    let moved = entered.connection_moved(p, spec.space_key);
    let stayed = stored.space_refreshed(spec.space_key, now);
    assert(a.adds(left));
    assert(a.adds(entered));
    assert(a.adds(moved));
    assert(a.adds(stayed));
    assert(a.adds(moved.granted(id, participant, request_id)));
    assert(a.adds(stayed.granted(id, participant, request_id)));
}

proof fn lemma_acquired_adds(
    a: ActorModel,
    id: SessionId,
    registration: ParticipantRegistrationModel,
    request_id: Seq<u8>,
    mode: ClaimMode,
    draws: RegistrationDrawsModel,
    now: nat,
)
    ensures
        a.adds(a.acquired(id, registration, request_id, mode, draws, now)),
{
    lemma_adds();
    lemma_status_sent_adds();
    if registration.spec is Some {
        let spec = registration.spec->0;
        let ensured = a.space_ensured(spec.space_key, draws.incarnation_id).0;
        assert(a.adds(ensured));
        if draws.ownership_token is Some && draws.join_token is Some {
            let claim = crate::ownership::ClaimModel {
                entity_id: registration.participant_id,
                owner: id,
                registration_id: registration.registration_id,
                presented_fencing_token: registration.ownership_token,
                client_revision: registration.client_spec_revision,
                new_fencing_token: draws.ownership_token->0,
                mode,
            };
            let claimed = ActorModel { ownership: ensured.ownership.claimed(claim).0, ..ensured };
            lemma_same_effects(ensured, claimed);
            assert(a.adds(claimed));
            if let Ok(crate::ownership::ClaimOutcomeModel::Acquired { previous, .. }) =
                ensured.ownership.claimed(claim).1 {
                lemma_installed_adds(
                    claimed,
                    id,
                    registration,
                    spec,
                    request_id,
                    previous,
                    draws.join_token->0,
                    now,
                );
            }
        }
        assert(a.adds(
            ensured.acquired_in_space(id, registration, spec, request_id, mode, draws, now),
        ));
    }
}

proof fn lemma_all_registered_adds(
    a: ActorModel,
    id: SessionId,
    registrations: Seq<ParticipantRegistrationModel>,
    request_id: Seq<u8>,
    draws: Seq<RegistrationDrawsModel>,
    now: nat,
)
    ensures
        a.adds(a.all_registered(id, registrations, request_id, draws, now)),
    decreases registrations.len(),
{
    lemma_adds();
    lemma_status_sent_adds();
    if registrations.len() > 0 {
        let next = a.registered_from_snapshot(id, registrations[0], request_id, draws[0], now);
        lemma_acquired_adds(
            a,
            id,
            registrations[0],
            request_id,
            ClaimMode::Snapshot,
            draws[0],
            now,
        );
        lemma_resumed_adds(a, id, registrations[0], request_id, ClaimMode::Snapshot, now);
        assert(a.adds(next));
        lemma_all_registered_adds(
            next,
            id,
            registrations.drop_first(),
            request_id,
            draws.drop_first(),
            now,
        );
    }
}

/// Whether a snapshot names a participant.
pub open spec fn names(snapshot: DesiredStateSnapshotModel, p: Seq<char>) -> bool {
    exists|i: int|
        0 <= i < snapshot.participants.len() && (
        #[trigger] snapshot.participants[i]).participant_id == p
}

/// Who is not registered keeps its owner, or has none as before.
proof fn lemma_who_is_not_registered(
    a: ActorModel,
    id: SessionId,
    registrations: Seq<ParticipantRegistrationModel>,
    request_id: Seq<u8>,
    draws: Seq<RegistrationDrawsModel>,
    now: nat,
    p: Seq<char>,
)
    requires
        a.consistent(),
        a.sessions.dom().contains(id),
        forall|i: int|
            0 <= i < registrations.len() ==> (#[trigger] registrations[i]).participant_id != p,
    ensures
        ({
            let after = a.all_registered(id, registrations, request_id, draws, now);
            &&& after.ownership.entries.dom().contains(p) == a.ownership.entries.dom().contains(p)
            &&& after.ownership.entries[p] == a.ownership.entries[p]
        }),
    decreases registrations.len(),
{
    if registrations.len() > 0 {
        let next = a.registered_from_snapshot(id, registrations[0], request_id, draws[0], now);
        a.lemma_registered_from_snapshot(id, registrations[0], request_id, draws[0], now);
        let rest = registrations.drop_first();
        assert forall|i: int| 0 <= i < rest.len() implies (#[trigger] rest[i]).participant_id != p by {
            assert(rest[i] == registrations[i + 1]);
        }
        lemma_who_is_not_registered(next, id, rest, request_id, draws.drop_first(), now, p);
        assert(next.ownership.entries.dom().contains(p) == a.ownership.entries.dom().contains(p));
    }
}

/// A full snapshot is all that its session has from then on. What the session still owns,
/// the snapshot names. What it owned before and the snapshot does not name is gone from
/// every registry: its connection is closed, the session is told that it was released,
/// and its Space is rendered without it. What others own stays theirs.
#[verifier::rlimit(50)]
pub proof fn a_snapshot_keeps_only_what_it_names(
    state: ActorModel,
    id: SessionId,
    snapshot: DesiredStateSnapshotModel,
    request_id: Seq<u8>,
    draws: Seq<RegistrationDrawsModel>,
    now: nat,
    p: Seq<char>,
)
    requires
        state.consistent(),
        state.sessions.dom().contains(id),
    ensures
        ({
            let after = state.snapshot_reconciled(id, snapshot, request_id, draws, now);
            &&& after.ownership.entries.dom().contains(p) && after.ownership.entries[p].owner == id
                ==> names(snapshot, p)
            &&& state.ownership.entries.dom().contains(p) && state.ownership.entries[p].owner == id
                && !names(snapshot, p) ==> {
                &&& !after.ownership.entries.dom().contains(p)
                &&& !after.participants.dom().contains(p)
                &&& !after.host.participants.dom().contains(p)
                &&& lets_go(state, after, p, 3)
            }
            &&& state.ownership.entries.dom().contains(p) && state.ownership.entries[p].owner != id
                ==> after.ownership.entries.dom().contains(p) && after.ownership.entries[p]
                == state.ownership.entries[p]
        }),
{
    let after = state.snapshot_reconciled(id, snapshot, request_id, draws, now);
    let desired = registered_ids(snapshot.participants);
    let unnamed = |p: Seq<char>| !desired.contains(p);
    let dropped = state.ownership.owned(id).filter(unnamed);
    let reason = OwnershipRevocationReason::ParticipantReleased;
    state.lemma_snapshot_reconciled(id, snapshot, request_id, draws, now);
    state.lemma_all_released(id, dropped, reason, now);
    state.lemma_owned(id);
    lemma_filter_members(state.ownership.owned(id), unnamed, p);
    let ids = Seq::new(
        snapshot.participants.len(),
        |i: int| snapshot.participants[i].participant_id,
    );
    assert(desired == ids.to_set());
    assert(names(snapshot, p) <==> desired.contains(p)) by {
        if names(snapshot, p) {
            let i = choose|i: int|
                0 <= i < snapshot.participants.len() && (
                #[trigger] snapshot.participants[i]).participant_id == p;
            assert(ids[i] == p);
        }
        if desired.contains(p) {
            assert(ids.contains(p));
            let i = choose|i: int| 0 <= i < ids.len() && ids[i] == p;
            assert(snapshot.participants[i].participant_id == p);
        }
    }
    let trimmed = state.all_released(id, dropped, reason, now);
    trimmed.lemma_desired_revision_consistent(id, snapshot.desired_state_revision);
    let revised = ActorModel {
        core_sessions: trimmed.core_sessions.with_desired_revision(
            id,
            snapshot.desired_state_revision,
        ),
        ..trimmed
    };
    let observations = ObservationsModel {
        explicit: snapshot.observed_space_keys.to_set(),
        ..revised.sessions[id].observations
    };
    revised.lemma_observations_consistent(id, observations);
    let observing = revised.with_observations(id, observations);
    observing.lemma_all_registered(id, snapshot.participants, request_id, draws, now);
    let registered = observing.all_registered(id, snapshot.participants, request_id, draws, now);
    let frame = framed(
        request_id,
        ServerPayloadModel::DesiredStateReconciled(
            DesiredStateReconciledModel {
                desired_state_revision: snapshot.desired_state_revision,
            },
        ),
    );
    let answered = registered.sent(id, frame);
    registered.lemma_sent(id, frame);
    answered.lemma_snapshots_sent(id, answered.observed_spaces(id));
    assert(trimmed.ownership.entries.dom().contains(p) <==> {
        &&& state.ownership.entries.dom().contains(p)
        &&& !(dropped.contains(p) && state.ownership.entries[p].owner == id)
    });
    if !names(snapshot, p) {
        lemma_who_is_not_registered(
            observing,
            id,
            snapshot.participants,
            request_id,
            draws,
            now,
            p,
        );
        if state.ownership.entries.dom().contains(p) && state.ownership.entries[p].owner == id {
            assert(state.ownership.owned(id).contains(p));
            assert(dropped.contains(p));
            lemma_each_is_let_go(state, id, dropped, reason, now, p);
            lemma_same_effects(trimmed, observing);
            lemma_registered_and_answered_adds(
                observing,
                id,
                snapshot.participants,
                request_id,
                draws,
                now,
                frame,
            );
            lemma_let_go_lasts(state, trimmed, after, p, reason.number());
        }
    }
}

proof fn lemma_registered_and_answered_adds(
    a: ActorModel,
    id: SessionId,
    registrations: Seq<ParticipantRegistrationModel>,
    request_id: Seq<u8>,
    draws: Seq<RegistrationDrawsModel>,
    now: nat,
    frame: ServerFrameModel,
)
    ensures
        a.adds(
            a.all_registered(id, registrations, request_id, draws, now).sent(
                id,
                frame,
            ).effective_snapshots_sent(id),
        ),
{
    lemma_adds();
    lemma_sent_adds();
    let registered = a.all_registered(id, registrations, request_id, draws, now);
    let answered = registered.sent(id, frame);
    lemma_all_registered_adds(a, id, registrations, request_id, draws, now);
    lemma_snapshots_sent_adds(answered, id, answered.observed_spaces(id));
}

proof fn lemma_let_go_lasts(
    before: ActorModel,
    middle: ActorModel,
    after: ActorModel,
    p: Seq<char>,
    reason: i32,
)
    requires
        lets_go(before, middle, p, reason),
        middle.adds(after),
    ensures
        lets_go(before, after, p, reason),
{
    lemma_adds();
    let key = before.participants[p].spec.space_key;
    if before.spaces.dom().contains(key) {
        let desired = choose|desired: RenderStateModel|
            {
                &&& #[trigger] before.asks(middle, EffectModel::Publish { desired })
                &&& desired.space_key == key
                &&& forall|i: int|
                    0 <= i < desired.participants.len() ==> (
                    #[trigger] desired.participants[i]).participant_id != p
            };
        assert(before.asks(after, EffectModel::Publish { desired }));
    }
}

// What a Space shows.

/// A list shows the participants of a Space, all of them and no others, in ascending
/// order, each as the registries have it.
pub open spec fn shows_the_space(
    state: ActorModel,
    key: Seq<char>,
    list: Seq<crate::spaces::RenderParticipantModel>,
) -> bool {
    &&& forall|p: Seq<char>|
        #![trigger state.participants.dom().contains(p)]
        state.participants.dom().contains(p) && state.participants[p].spec.space_key == key
            <==> exists|i: int| 0 <= i < list.len() && (#[trigger] list[i]).participant_id == p
    &&& forall|i: int|
        0 <= i < list.len() ==> {
            let shown = #[trigger] list[i];
            let participant = state.participants[shown.participant_id];
            &&& shown.connection == state.host.participants[shown.participant_id].connection
            &&& shown.display_name == participant.spec.display_name
            &&& shown.server_mute == participant.spec.server_mute
            &&& shown.server_deaf == participant.spec.server_deaf
            &&& shown.self_mute == participant.self_mute
            &&& shown.self_deaf == participant.self_deaf
            &&& shown.accepted_revision
                == state.ownership.entries[shown.participant_id].client_revision
        }
    &&& forall|i: int, j: int|
        0 <= i < j < list.len() ==> <String as crate::ordered::OrderedKey>::before(
            (#[trigger] list[i]).participant_id,
            (#[trigger] list[j]).participant_id,
        )
}

#[verifier::rlimit(50)]
proof fn lemma_render_list(a: ActorModel, key: Seq<char>)
    requires
        a.consistent(),
    ensures
        shows_the_space(a, key, a.render_list(key)),
{
    let all = in_order::<String>(a.participants.dom());
    let keep = |q: Seq<char>|
        a.participants[q].spec.space_key == key && a.ownership.entries.dom().contains(
            a.participants[q].participant_id,
        );
    let kept = all.filter(keep);
    let list = a.render_list(key);
    lemma_in_order_of::<String>(a.participants.dom());
    crate::ordered::lemma_ascending_filter::<String>(all, keep);
    assert(list =~= kept.map_values(|q: Seq<char>| a.rendered(q)));
    assert forall|i: int| 0 <= i < kept.len() implies a.participants.dom().contains(
        #[trigger] kept[i],
    ) && keep(kept[i]) && list[i].participant_id == kept[i] by {
        assert(kept.contains(kept[i]));
        lemma_filter_members(all, keep, kept[i]);
    }
    assert forall|p: Seq<char>|
        #![trigger a.participants.dom().contains(p)]
        a.participants.dom().contains(p) && a.participants[p].spec.space_key == key
            <==> exists|i: int| 0 <= i < list.len() && (
        #[trigger] list[i]).participant_id == p by {
        lemma_filter_members(all, keep, p);
        if a.participants.dom().contains(p) && a.participants[p].spec.space_key == key {
            assert(all.contains(p));
            assert(keep(p));
            let i = choose|i: int| 0 <= i < kept.len() && kept[i] == p;
            assert(list[i].participant_id == p);
        }
        if exists|i: int| 0 <= i < list.len() && (#[trigger] list[i]).participant_id == p {
            let i = choose|i: int| 0 <= i < list.len() && (#[trigger] list[i]).participant_id == p;
            assert(kept[i] == p);
        }
    }
    assert forall|i: int, j: int|
        0 <= i < j < list.len() implies <String as crate::ordered::OrderedKey>::before(
        (#[trigger] list[i]).participant_id,
        (#[trigger] list[j]).participant_id,
    ) by {
        assert(<String as crate::ordered::OrderedKey>::before(kept[i], kept[j]));
    }
    assert forall|i: int| 0 <= i < list.len() implies {
        let shown = #[trigger] list[i];
        let participant = a.participants[shown.participant_id];
        &&& shown.connection == a.host.participants[shown.participant_id].connection
        &&& shown.display_name == participant.spec.display_name
        &&& shown.server_mute == participant.spec.server_mute
        &&& shown.server_deaf == participant.spec.server_deaf
        &&& shown.self_mute == participant.self_mute
        &&& shown.self_deaf == participant.self_deaf
        &&& shown.accepted_revision
            == a.ownership.entries[shown.participant_id].client_revision
    } by {
        assert(list[i] == a.rendered(kept[i]));
        assert(a.participants.dom().contains(kept[i]));
    }
}

/// On the way to `after`, a Space was rendered as `state` has it, under a number.
pub open spec fn renders(
    before: ActorModel,
    after: ActorModel,
    state: ActorModel,
    key: Seq<char>,
    application_revision: u64,
) -> bool {
    exists|desired: RenderStateModel|
        {
            &&& #[trigger] before.asks(after, EffectModel::Publish { desired })
            &&& desired.space_key == key
            &&& desired.application_revision == application_revision
            &&& shows_the_space(state, key, desired.participants)
        }
}

/// A Space that is refreshed is rendered with exactly its participants, under a number of
/// its own. It is counted and, where nobody is left, given its grace. No other Space and
/// no participant is touched.
pub proof fn a_refreshed_space_shows_its_participants(
    state: ActorModel,
    key: Seq<char>,
    now: nat,
    other: Seq<char>,
)
    requires
        state.consistent(),
        state.spaces.dom().contains(key),
        other != key,
    ensures
        ({
            let after = state.space_refreshed(key, now);
            let space = after.spaces[key];
            let inhabited = exists|p: Seq<char>| #[trigger]
                state.participants.dom().contains(p) && state.participants[p].spec.space_key == key;
            &&& renders(state, after, state, key, state.next_application_revision)
            &&& state.next_application_revision < u64::MAX ==> after.next_application_revision
                == state.next_application_revision + 1
            &&& state.spaces[key].space_revision < u64::MAX ==> space.space_revision
                == state.spaces[key].space_revision + 1
            &&& inhabited ==> space.close_deadline is None
            &&& !inhabited && state.spaces[key].close_deadline is None ==> space.close_deadline
                == Some(now + state.config.empty_space_grace@)
            &&& after.participants == state.participants
            &&& after.ownership == state.ownership
            &&& after.host == state.host
            &&& after.spaces.dom() == state.spaces.dom()
            &&& after.spaces[other] == state.spaces[other]
        }),
{
    let after = state.space_refreshed(key, now);
    let list = state.render_list(key);
    lemma_refreshed_adds(state, key, now);
    lemma_render_list(state, key);
    state.lemma_space_refreshed(key, now);
    let shown = published(state, key, now);
    shown.lemma_snapshot_broadcast(key);
    assert(after == shown.snapshot_broadcast(key));
    let desired = RenderStateModel {
        application_revision: state.next_application_revision,
        space_key: key,
        participants: list,
    };
    assert(state.asks(after, EffectModel::Publish { desired }));
    if list.len() > 0 {
        let p = list[0].participant_id;
        assert(state.participants.dom().contains(p));
    }
    assert forall|p: Seq<char>| #[trigger]
        state.participants.dom().contains(p) && state.participants[p].spec.space_key
            == key implies list.len() > 0 by {}
}

/// A snapshot that is told of a Space shows the participants of the Space, all of them and
/// no others, each as the registries have it, and where the Space stands.
pub open spec fn tells_the_space(
    state: ActorModel,
    key: Seq<char>,
    snapshot: crate::messages::SpaceSnapshotModel,
) -> bool {
    let list = snapshot.participants;
    &&& snapshot.space_key == key
    &&& snapshot.incarnation_id == state.spaces[key].incarnation_id
    &&& snapshot.space_revision == state.spaces[key].space_revision
    &&& snapshot.published_generation == state.spaces[key].published_generation
    &&& forall|p: Seq<char>|
        #![trigger state.participants.dom().contains(p)]
        state.participants.dom().contains(p) && state.participants[p].spec.space_key == key
            <==> exists|i: int| 0 <= i < list.len() && (#[trigger] list[i]).participant_id == p
    &&& forall|i: int|
        0 <= i < list.len() ==> {
            let shown = #[trigger] list[i];
            let participant = state.participants[shown.participant_id];
            &&& shown.display_name == participant.spec.display_name
            &&& shown.server_mute == participant.spec.server_mute
            &&& shown.server_deaf == participant.spec.server_deaf
            &&& shown.connected
                == state.host.participants[shown.participant_id].connection is Some
        }
    &&& forall|i: int, j: int|
        0 <= i < j < list.len() ==> <String as crate::ordered::OrderedKey>::before(
            (#[trigger] list[i]).participant_id,
            (#[trigger] list[j]).participant_id,
        )
}

/// A materialized Space has a snapshot, which tells all of it; another one has none.
#[verifier::rlimit(50)]
pub proof fn a_snapshot_tells_the_whole_space(state: ActorModel, key: Seq<char>)
    requires
        state.consistent(),
    ensures
        state.spaces.dom().contains(key) ==> state.snapshot_of(key) is Some && tells_the_space(
            state,
            key,
            state.snapshot_of(key)->0,
        ),
        !state.spaces.dom().contains(key) ==> state.snapshot_of(key) is None,
{
    if state.spaces.dom().contains(key) {
        let all = in_order::<String>(state.participants.dom());
        let keep = |q: Seq<char>| state.participants[q].spec.space_key == key;
        let kept = state.members(key);
        let list = state.snapshot_of(key)->0.participants;
        assert(kept == all.filter(keep));
        lemma_in_order_of::<String>(state.participants.dom());
        crate::ordered::lemma_ascending_filter::<String>(all, keep);
        assert(list =~= kept.map_values(|q: Seq<char>| state.shown(q)));
        assert forall|i: int| 0 <= i < kept.len() implies state.participants.dom().contains(
            #[trigger] kept[i],
        ) && keep(kept[i]) && list[i] == state.shown(kept[i]) && list[i].participant_id
            == kept[i] by {
            assert(kept.contains(kept[i]));
            lemma_filter_members(all, keep, kept[i]);
        }
        assert forall|p: Seq<char>|
            #![trigger state.participants.dom().contains(p)]
            state.participants.dom().contains(p) && state.participants[p].spec.space_key == key
                <==> exists|i: int| 0 <= i < list.len() && (
            #[trigger] list[i]).participant_id == p by {
            lemma_filter_members(all, keep, p);
            if state.participants.dom().contains(p) && keep(p) {
                assert(all.contains(p));
                let i = choose|i: int| 0 <= i < kept.len() && kept[i] == p;
                assert(list[i].participant_id == p);
            }
            if exists|i: int| 0 <= i < list.len() && (#[trigger] list[i]).participant_id == p {
                let i = choose|i: int|
                    0 <= i < list.len() && (#[trigger] list[i]).participant_id == p;
                assert(kept[i] == p);
            }
        }
        assert forall|i: int, j: int|
            0 <= i < j < list.len() implies <String as crate::ordered::OrderedKey>::before(
            (#[trigger] list[i]).participant_id,
            (#[trigger] list[j]).participant_id,
        ) by {
            assert(<String as crate::ordered::OrderedKey>::before(kept[i], kept[j]));
        }
        assert forall|i: int| 0 <= i < list.len() implies {
            let shown = #[trigger] list[i];
            let participant = state.participants[shown.participant_id];
            &&& shown.display_name == participant.spec.display_name
            &&& shown.server_mute == participant.spec.server_mute
            &&& shown.server_deaf == participant.spec.server_deaf
            &&& shown.connected
                == state.host.participants[shown.participant_id].connection is Some
        } by {
            assert(state.participants.dom().contains(kept[i]));
        }
    }
}

/// A session watches a Space that it named, and one that a participant of its own is in.
pub open spec fn watches(state: ActorModel, id: SessionId, key: Seq<char>) -> bool {
    &&& state.sessions.dom().contains(id)
    &&& state.sessions[id].observations.explicit.contains(key) || exists|p: Seq<char>| #[trigger]
        state.participants.dom().contains(p) && state.ownership.entries[p].owner == id
            && state.participants[p].spec.space_key == key
}

proof fn lemma_watches(a: ActorModel, id: SessionId, key: Seq<char>)
    requires
        a.consistent(),
        a.sessions.dom().contains(id),
    ensures
        a.observes(id, key) == watches(a, id, key),
        a.observers(key).contains(id) == watches(a, id, key),
{
    if a.observes(id, key) && !a.sessions[id].observations.explicit.contains(key) {
        let p = choose|p: Seq<char>| #[trigger]
            a.participants.dom().contains(p) && a.ownership.entries.dom().contains(
                a.participants[p].participant_id,
            ) && a.ownership.entries[a.participants[p].participant_id].owner == id
                && a.participants[p].spec.space_key == key;
        assert(a.participants.dom().contains(p));
    }
    if watches(a, id, key) && !a.sessions[id].observations.explicit.contains(key) {
        let p = choose|p: Seq<char>| #[trigger]
            a.participants.dom().contains(p) && a.ownership.entries[p].owner == id
                && a.participants[p].spec.space_key == key;
        assert(a.participants.dom().contains(p));
        assert(a.ownership.entries.dom().contains(p));
    }
    lemma_in_order_of::<SessionId>(a.sessions.dom());
    lemma_filter_members(
        in_order::<SessionId>(a.sessions.dom()),
        |id: SessionId| a.observes(id, key),
        id,
    );
}

proof fn lemma_each_is_sent(
    a: ActorModel,
    ids: Seq<SessionId>,
    frame: ServerFrameModel,
    id: SessionId,
    stream_id: u64,
)
    requires
        ids.contains(id),
        frame.request_id.len() == 0,
        a.stream_of(id) == Some(stream_id),
    ensures
        a.asks(
            a.sent_to_each(ids, frame),
            EffectModel::Send { session_id: id, stream_id, frame },
        ),
    decreases ids.len(),
{
    lemma_adds();
    lemma_sent_adds();
    let next = a.sent(ids[0], frame);
    lemma_sent_to_each_adds(next, ids.drop_first(), frame);
    if ids[0] != id {
        let k = choose|k: int| 0 <= k < ids.len() && ids[k] == id;
        assert(ids.drop_first()[k - 1] == id);
        a.lemma_sent(ids[0], frame);
        lemma_each_is_sent(next, ids.drop_first(), frame, id, stream_id);
    }
}

/// Only those who are meant are sent a frame.
proof fn lemma_none_else_is_sent(
    a: ActorModel,
    ids: Seq<SessionId>,
    frame: ServerFrameModel,
    k: int,
)
    requires
        a.effects.len() <= k < a.sent_to_each(ids, frame).effects.len(),
    ensures
        a.sent_to_each(ids, frame).effects[k] matches EffectModel::Send {
            session_id,
            stream_id,
            frame: told,
        } && told == frame && ids.contains(session_id) && a.stream_of(session_id) == Some(
            stream_id,
        ),
    decreases ids.len(),
{
    if ids.len() > 0 {
        let next = a.sent(ids[0], frame);
        let rest = ids.drop_first();
        a.lemma_sent(ids[0], frame);
        if k < next.effects.len() {
            lemma_sent_to_each_adds(next, rest, frame);
            reveal(ActorModel::adds);
            assert(next.sent_to_each(rest, frame).effects[k] == next.effects[k]);
            assert(ids.contains(ids[0]));
        } else {
            lemma_none_else_is_sent(next, rest, frame, k);
            if let EffectModel::Send { session_id, stream_id, frame: told } = next.sent_to_each(
                rest,
                frame,
            ).effects[k] {
                let j = choose|j: int| 0 <= j < rest.len() && rest[j] == session_id;
                assert(ids[j + 1] == session_id);
            }
        }
    }
}

/// Whoever watches a Space and listens is told when it is refreshed: all of the Space as
/// it then is. Nobody else is told anything.
#[verifier::rlimit(50)]
pub proof fn whoever_watches_a_space_is_told(
    state: ActorModel,
    key: Seq<char>,
    now: nat,
    id: SessionId,
    k: int,
)
    requires
        state.consistent(),
        state.spaces.dom().contains(key),
    ensures
        ({
            let after = state.space_refreshed(key, now);
            let told = after.snapshot_of(key);
            &&& told is Some && tells_the_space(after, key, told->0)
            &&& watches(state, id, key) ==> (state.stream_of(id) matches Some(stream_id)
                ==> state.asks(
                after,
                EffectModel::Send {
                    session_id: id,
                    stream_id,
                    frame: ServerFrameModel {
                        request_id: Seq::empty(),
                        payload: Some(ServerPayloadModel::SpaceSnapshot(told->0)),
                    },
                },
            ))
            &&& state.effects.len() <= k < after.effects.len() ==> match after.effects[k] {
                EffectModel::Publish { desired } => k == state.effects.len(),
                EffectModel::Send { session_id, .. } => watches(state, session_id, key),
                _ => false,
            }
        }),
{
    let after = state.space_refreshed(key, now);
    let shown = published(state, key, now);
    state.lemma_refreshed_consistent(key, now);
    shown.lemma_snapshot_broadcast(key);
    assert(after == shown.snapshot_broadcast(key));
    assert(shown.spaces.dom() =~= state.spaces.dom());
    a_snapshot_tells_the_whole_space(after, key);
    let snapshot = shown.snapshot_of(key)->0;
    let frame = framed(Seq::empty(), ServerPayloadModel::SpaceSnapshot(snapshot));
    let ids = shown.observers(key);
    assert(after.snapshot_of(key) == shown.snapshot_of(key)) by {
        assert(after.members(key) =~= shown.members(key));
        assert(after.snapshot_of(key)->0.participants =~= snapshot.participants);
    }
    assert(ids == state.observers(key)) by {
        let x = |id: SessionId| shown.observes(id, key);
        let y = |id: SessionId| state.observes(id, key);
        assert forall|id: SessionId| #[trigger] x(id) == y(id) by {}
        assert(x =~= y);
    }
    if state.sessions.dom().contains(id) {
        lemma_watches(state, id, key);
    }
    lemma_adds();
    if watches(state, id, key) && state.stream_of(id) is Some {
        let stored = ActorModel { effects: state.effects, ..shown };
        lemma_same_effects(state, stored);
        lemma_each_is_sent(shown, ids, frame, id, state.stream_of(id)->0);
        assert(state.adds(shown)) by {
            let desired = RenderStateModel {
                application_revision: state.next_application_revision,
                space_key: key,
                participants: state.render_list(key),
            };
            assert(shown == stored.emitted(EffectModel::Publish { desired }));
            assert(stored.adds(shown));
        }
    }
    if state.effects.len() <= k < after.effects.len() {
        if k < shown.effects.len() {
            lemma_sent_to_each_adds(shown, ids, frame);
            reveal(ActorModel::adds);
            assert(after.effects[k] == shown.effects[k]);
        } else {
            lemma_none_else_is_sent(shown, ids, frame, k);
            if let EffectModel::Send { session_id, stream_id, frame: told } = after.effects[k] {
                assert(state.sessions.dom().contains(session_id));
                lemma_watches(state, session_id, key);
            }
        }
    }
}

// What a registration does.

/// What an owner is told of its ownership: the registration, the token and the revision
/// that are current, and the credential to connect with.
pub open spec fn grants(
    before: ActorModel,
    after: ActorModel,
    id: SessionId,
    request_id: Seq<u8>,
    p: Seq<char>,
) -> bool {
    before.stream_of(id) matches Some(stream_id) ==> before.asks(
        after,
        EffectModel::Send {
            session_id: id,
            stream_id,
            frame: ServerFrameModel {
                request_id,
                payload: Some(
                    ServerPayloadModel::ParticipantOwnershipGranted(
                        crate::messages::ParticipantOwnershipGrantedModel {
                            participant_id: p,
                            registration_id: after.ownership.entries[p].registration_id,
                            ownership_token: after.ownership.entries[p].fencing_token,
                            client_spec_revision: after.ownership.entries[p].client_revision,
                            accepted_spec_revision: after.ownership.entries[p].client_revision,
                            applied_spec_revision: after.participants[p].applied_spec_revision,
                            published_generation: after.participants[p].published_generation,
                            connection_credential: after.host.participants[p].credential,
                        },
                    ),
                ),
            },
        },
    )
}

/// The status of a participant is told to its owner, as `after` has it.
pub open spec fn tells_the_status(before: ActorModel, after: ActorModel, p: Seq<char>) -> bool {
    let owned = after.ownership.entries[p];
    let participant = after.participants[p];
    before.stream_of(owned.owner) matches Some(stream_id) ==> before.asks(
        after,
        EffectModel::Send {
            session_id: owned.owner,
            stream_id,
            frame: ServerFrameModel {
                request_id: Seq::empty(),
                payload: Some(
                    ServerPayloadModel::ParticipantStatusChanged(
                        crate::messages::ParticipantStatusChangedModel {
                            participant_id: p,
                            status: Some(
                                crate::messages::ParticipantStatusModel {
                                    connected: after.host.participants[p].connection is Some,
                                    applied_space_key: match participant.applied_space_key {
                                        Some(key) => key,
                                        None => Seq::empty(),
                                    },
                                    self_mute: participant.self_mute,
                                    self_deaf: participant.self_deaf,
                                    accepted_spec_revision: owned.client_revision,
                                    applied_spec_revision: participant.applied_spec_revision,
                                    published_generation: participant.published_generation,
                                    application_error: participant.application_error,
                                },
                            ),
                        },
                    ),
                ),
            },
        },
    )
}

proof fn lemma_status_is_told(a: ActorModel, p: Seq<char>)
    requires
        a.consistent(),
        a.participants.dom().contains(p),
    ensures
        a.only_said(a.status_sent(p)),
        tells_the_status(a, a.status_sent(p), p),
{
    lemma_sent_adds();
    a.lemma_status_sent(p);
    assert(a.participants[p].participant_id == p);
    assert(a.ownership.entries.dom().contains(p));
    assert(a.host.participants.dom().contains(p));
}

proof fn lemma_grant_is_told(
    a: ActorModel,
    id: SessionId,
    participant: ParticipantModel,
    request_id: Seq<u8>,
)
    requires
        a.consistent(),
        a.sessions.dom().contains(id),
        a.participants.dom().contains(participant.participant_id),
        a.participants[participant.participant_id] == participant,
    ensures
        a.only_said(a.granted(id, participant, request_id)),
        grants(a, a.granted(id, participant, request_id), id, request_id, participant.participant_id),
{
    lemma_sent_adds();
    let p = participant.participant_id;
    a.lemma_granted(id, participant, request_id);
    assert(a.ownership.entries.dom().contains(p));
    assert(a.host.participants.dom().contains(p));
    assert(a.reliable.sessions.dom().contains(id));
}

/// Where the connection of a participant goes along into another Space.
pub open spec fn moves_along(
    before: ActorModel,
    after: ActorModel,
    p: Seq<char>,
    key: Seq<char>,
) -> bool {
    before.host.participants[p].connection matches Some(connection) ==> before.asks(
        after,
        EffectModel::MoveConnection { connection, space_key: key },
    )
}

/// On the way to `after`, a Space was rendered as `after` has it.
pub open spec fn renders_now(before: ActorModel, after: ActorModel, key: Seq<char>) -> bool {
    exists|desired: RenderStateModel|
        {
            &&& #[trigger] before.asks(after, EffectModel::Publish { desired })
            &&& desired.space_key == key
            &&& shows_the_space(after, key, desired.participants)
        }
}

/// A Space that was rendered in one state is rendered as a later one has it, where the
/// registries are the same.
proof fn lemma_renders_now(
    before: ActorModel,
    a: ActorModel,
    after: ActorModel,
    key: Seq<char>,
    now: nat,
)
    requires
        a.consistent(),
        a.spaces.dom().contains(key),
        before.adds(a),
        a.space_refreshed(key, now).adds(after),
        after.participants == a.participants,
        after.host == a.host,
        after.ownership == a.ownership,
    ensures
        renders_now(before, after, key),
{
    lemma_adds();
    lemma_refreshed_adds(a, key, now);
    lemma_render_list(a, key);
    let desired = RenderStateModel {
        application_revision: a.next_application_revision,
        space_key: key,
        participants: a.render_list(key),
    };
    assert(a.asks(after, EffectModel::Publish { desired }));
    assert(before.asks(after, EffectModel::Publish { desired }));
    assert(shows_the_space(after, key, desired.participants)) by {
        assert forall|p: Seq<char>|
            #![trigger after.participants.dom().contains(p)]
            after.participants.dom().contains(p) && after.participants[p].spec.space_key == key
                <==> exists|i: int|
            0 <= i < desired.participants.len() && (
            #[trigger] desired.participants[i]).participant_id == p by {
            assert(a.participants.dom().contains(p) == after.participants.dom().contains(p));
        }
    }
}

/// What becomes of the registries and of those who watch, once a claim is granted.
#[verifier::rlimit(50)]
proof fn lemma_installed_does(
    a: ActorModel,
    id: SessionId,
    registration: ParticipantRegistrationModel,
    spec: ParticipantSpecModel,
    request_id: Seq<u8>,
    claim: crate::ownership::ClaimModel,
    join_token: Seq<char>,
    now: nat,
)
    requires
        a.consistent(),
        a.sessions.dom().contains(id),
        claim.owner == id,
        claim.entity_id == registration.participant_id,
        a.ownership.claimed(claim).1 matches Ok(
            crate::ownership::ClaimOutcomeModel::Acquired { .. },
        ),
        join_token.len() > 0,
        !a.host.credential_taken(join_token),
        a.spaces.dom().contains(spec.space_key),
    ensures
        ({
            let p = registration.participant_id;
            let claimed = ActorModel { ownership: a.ownership.claimed(claim).0, ..a };
            let previous = a.ownership.claimed(claim).1->Ok_0->previous;
            let after = claimed.installed(
                id,
                registration,
                spec,
                request_id,
                previous,
                join_token,
                now,
            );
            let known = a.participants.dom().contains(p);
            let was = a.participants[p];
            &&& a.adds(after)
            &&& after.consistent()
            &&& after.ownership == claimed.ownership
            &&& after.participants.dom() == a.participants.dom().insert(p)
            &&& forall|q: Seq<char>| q != p ==> #[trigger] after.participants[q] == a.participants[q]
            &&& after.participants[p].spec == spec
            &&& after.participants[p].applied_spec_revision == 0
            &&& after.participants[p].application_error.len() == 0
            &&& known ==> {
                &&& after.participants[p].self_mute == was.self_mute
                &&& after.participants[p].self_deaf == was.self_deaf
                &&& after.participants[p].applied_space_key == was.applied_space_key
                &&& after.participants[p].published_generation == was.published_generation
                &&& after.host.participants[p].connection == a.host.participants[p].connection
                &&& was.spec.space_key != spec.space_key ==> moves_along(
                    a,
                    after,
                    p,
                    spec.space_key,
                )
            }
            &&& !known ==> {
                &&& !after.participants[p].self_mute
                &&& !after.participants[p].self_deaf
                &&& after.participants[p].applied_space_key is None
                &&& after.participants[p].published_generation == 0
                &&& after.host.participants[p].connection is None
            }
            &&& after.host.participants[p].credential == join_token
            &&& renders_now(a, after, spec.space_key)
            &&& known && a.spaces.dom().contains(was.spec.space_key) ==> renders_now(
                a,
                after,
                was.spec.space_key,
            )
            &&& forall|q: Seq<char>|
                q != p ==> #[trigger] after.host.participants[q] == a.host.participants[q]
            &&& grants(a, after, id, request_id, p)
            &&& tells_the_status(a, after, p)
            &&& previous matches Some(owned) ==> (a.stream_of(owned.owner) matches Some(stream_id)
                ==> a.asks(
                after,
                EffectModel::Send {
                    session_id: owned.owner,
                    stream_id,
                    frame: revocation(Seq::empty(), p, owned.registration_id, 1),
                },
            ))
        }),
{
    lemma_adds();
    lemma_sent_adds();
    lemma_status_sent_adds();
    lemma_refreshed_adds_always();
    let p = registration.participant_id;
    let claimed = ActorModel { ownership: a.ownership.claimed(claim).0, ..a };
    let previous = a.ownership.claimed(claim).1->Ok_0->previous;
    let after = claimed.installed(id, registration, spec, request_id, previous, join_token, now);
    let replaced = claimed.participants[p];
    a.lemma_installed(id, registration, spec, request_id, claim, join_token, now);
    lemma_same_effects(a, claimed);
    let informed = match previous {
        None => claimed,
        Some(owned) => claimed.advanced(owned.owner).revoked(
            owned.owner,
            replaced.participant_id,
            owned.registration_id,
            OwnershipRevocationReason::OwnershipReplaced,
            Seq::empty(),
        ),
    };
    if let Some(owned) = previous {
        let advanced = claimed.advanced(owned.owner);
        lemma_same_effects(a, advanced);
        assert(advanced.core_sessions.sessions.dom() =~= claimed.core_sessions.sessions.dom());
        assert(a.ownership.entries.dom().contains(p));
        assert(a.participants.dom().contains(p));
        advanced.lemma_revoked(
            owned.owner,
            replaced.participant_id,
            owned.registration_id,
            OwnershipRevocationReason::OwnershipReplaced,
            Seq::empty(),
        );
        assert(informed == advanced.sent(
            owned.owner,
            revocation(Seq::empty(), p, owned.registration_id, 1),
        ));
    }
    assert(claimed.only_said(informed));
    assert(a.adds(informed));
    let bound = informed.host.registered(p, join_token);
    assert(bound.1 is Ok) by {
        assert forall|q: Seq<char>| !informed.host.holds(q, join_token) by {
            if a.host.holds(q, join_token) {
                assert(a.host.credential_taken(join_token));
            }
        }
    }
    let participant = ParticipantModel {
        participant_id: p,
        applied_spec_revision: 0,
        applied_space_key: if previous is Some {
            replaced.applied_space_key
        } else {
            None
        },
        published_generation: if previous is Some {
            replaced.published_generation
        } else {
            0
        },
        spec,
        self_mute: previous is Some && replaced.self_mute,
        self_deaf: previous is Some && replaced.self_deaf,
        application_error: Seq::empty(),
    };
    assert(previous is Some <==> a.participants.dom().contains(p));
    let stored = (ActorModel { host: bound.0, ..informed }).with_participant(p, participant);
    lemma_same_effects(informed, stored);
    let old_space = a.participants[p].spec.space_key;
    let moving = a.participants.dom().contains(p) && old_space != spec.space_key;
    let left = stored.space_refreshed(old_space, now);
    let entered = left.space_refreshed(spec.space_key, now);
    let moved = entered.connection_moved(p, spec.space_key);
    let stayed = stored.space_refreshed(spec.space_key, now);
    stored.lemma_space_refreshed(old_space, now);
    left.lemma_space_refreshed(spec.space_key, now);
    stored.lemma_space_refreshed(spec.space_key, now);
    let placed = if moving {
        moved
    } else {
        stayed
    };
    assert(a.adds(left));
    assert(a.adds(entered));
    assert(a.adds(moved));
    assert(a.adds(stayed));
    assert(stored.only_rendered(placed));
    let granted = placed.granted(id, participant, request_id);
    assert(after == granted.status_sent(p));
    lemma_stored_consistent(a, claim, p, stored);
    stored.lemma_rendered_consistent(placed);
    lemma_grant_is_told(placed, id, participant, request_id);
    placed.lemma_said_consistent(granted);
    lemma_status_is_told(granted, p);
    assert(a.adds(granted));
    assert(a.adds(after));
    assert(grants(placed, granted, id, request_id, p));
    assert(placed.adds(after));
    assert(stored.participants == after.participants);
    if moving {
        stored.lemma_rendered_consistent(left);
        assert(left.adds(after));
        assert(entered.adds(after));
        lemma_renders_now(a, left, after, spec.space_key, now);
        if a.spaces.dom().contains(old_space) {
            lemma_renders_now(a, stored, after, old_space, now);
        }
    } else {
        lemma_renders_now(a, stored, after, spec.space_key, now);
    }
}

/// The registries agree once a granted claim is entered in all of them.
proof fn lemma_stored_consistent(
    a: ActorModel,
    claim: crate::ownership::ClaimModel,
    p: Seq<char>,
    stored: ActorModel,
)
    requires
        a.consistent(),
        a.sessions.dom().contains(claim.owner),
        claim.entity_id == p,
        a.ownership.claimed(claim).1 matches Ok(
            crate::ownership::ClaimOutcomeModel::Acquired { .. },
        ),
        stored.ownership == a.ownership.claimed(claim).0,
        stored.participants.dom() == a.participants.dom().insert(p),
        stored.participants[p].participant_id == p,
        forall|q: Seq<char>| q != p ==> #[trigger] stored.participants[q] == a.participants[q],
        stored.host.participants.dom() == a.host.participants.dom().insert(p),
        stored.sessions == a.sessions,
        stored.streams == a.streams,
        stored.config == a.config,
        stored.spaces == a.spaces,
        stored.core_sessions.sessions.dom() == a.core_sessions.sessions.dom(),
        stored.core_sessions.maximum_sessions == a.core_sessions.maximum_sessions,
        stored.core_sessions.next_session_id == a.core_sessions.next_session_id,
        stored.reliable.sessions.dom() == a.reliable.sessions.dom(),
        stored.reliable.maximum_completed_per_session == a.reliable.maximum_completed_per_session,
        stored.reliable.valid(),
    ensures
        stored.consistent(),
{
    a.ownership.lemma_claim_valid(claim);
    assert(stored.participants.dom() =~= stored.ownership.entries.dom());
    assert(stored.host.participants.dom() =~= stored.ownership.entries.dom());
    assert forall|q: Seq<char>| #[trigger]
        stored.participants.dom().contains(q) implies stored.participants[q].participant_id
        == q by {
        if q != p {
            assert(a.participants.dom().contains(q));
        }
    }
    assert forall|q: Seq<char>| #[trigger]
        stored.ownership.entries.dom().contains(q) implies stored.sessions.dom().contains(
        stored.ownership.entries[q].owner,
    ) by {
        if q != p {
            assert(a.ownership.entries.dom().contains(q));
        }
    }
    assert forall|stream_id: u64| #[trigger]
        stored.streams.dom().contains(stream_id) implies stored.stream_of(
        stored.streams[stream_id],
    ) == Some(stream_id) by {
        assert(a.streams.dom().contains(stream_id));
    }
}

/// Whether there is room and there are means to give a session a participant that it does
/// not have under this registration.
pub open spec fn can_be_registered(
    state: ActorModel,
    id: SessionId,
    registration: ParticipantRegistrationModel,
    draws: RegistrationDrawsModel,
) -> bool {
    let p = registration.participant_id;
    let known = state.ownership.entries.dom().contains(p);
    let owned = state.ownership.entries[p];
    &&& registration.registration_id.len() > 0
    &&& p.len() > 0
    &&& registration.spec matches Some(spec) && crate::spaces::checked_spec(spec) is Ok && (
    state.spaces.dom().contains(spec.space_key) || state.spaces.len() < state.config.max_spaces)
    &&& !(known && owned.owner == id && owned.registration_id == registration.registration_id)
    &&& known || state.participants.len() < state.config.max_participants
    &&& (known && owned.owner == id) || state.ownership.owned(id).len()
        < state.config.max_participants_per_session
    &&& draws.incarnation_id is Some
    &&& draws.ownership_token matches Some(token) && token.len() > 0 && forall|q: Seq<char>| #[trigger]
        state.ownership.entries.dom().contains(q) ==> state.ownership.entries[q].fencing_token
            != token
    &&& draws.join_token matches Some(token) && token.len() > 0 && forall|q: Seq<char>| #[trigger]
        state.host.participants.dom().contains(q) ==> state.host.participants[q].credential
            != token
}

/// A participant that is acquired, in either mode, is its session's.
#[verifier::rlimit(50)]
proof fn lemma_acquired_does(
    state: ActorModel,
    id: SessionId,
    registration: ParticipantRegistrationModel,
    request_id: Seq<u8>,
    mode: ClaimMode,
    draws: RegistrationDrawsModel,
    now: nat,
    q: Seq<char>,
)
    requires
        state.consistent(),
        state.sessions.dom().contains(id),
        can_be_registered(state, id, registration, draws),
        mode == ClaimMode::Snapshot ==> !state.ownership.entries.dom().contains(
            registration.participant_id,
        ),
        q != registration.participant_id,
    ensures
        is_registered(
            state,
            state.acquired(id, registration, request_id, mode, draws, now),
            id,
            registration,
            request_id,
            draws,
            q,
        ),
{
    lemma_adds();
    lemma_status_sent_adds();
    let p = registration.participant_id;
    let spec = registration.spec->0;
    let after = state.acquired(id, registration, request_id, mode, draws, now);
    let claim = crate::ownership::ClaimModel {
        entity_id: p,
        owner: id,
        registration_id: registration.registration_id,
        presented_fencing_token: registration.ownership_token,
        client_revision: registration.client_spec_revision,
        new_fencing_token: draws.ownership_token->0,
        mode,
    };
    let entries = state.ownership.entries;
    let mine = |p: Seq<char>| entries[p].owner == id;
    lemma_in_order_of::<String>(entries.dom());
    crate::ordered::lemma_ascending_distinct::<String>(in_order::<String>(entries.dom()));
    crate::ownership::lemma_walk_counts(in_order::<String>(entries.dom()), mine);
    assert(state.ownership.owned(id).len() == state.ownership.owned_set(id).len());
    assert(state.participants.dom() == entries.dom());
    assert(state.participants.len() == entries.len());
    assert(!state.ownership.has_token(draws.ownership_token->0));
    assert(!state.host.credential_taken(draws.join_token->0)) by {
        if state.host.credential_taken(draws.join_token->0) {
            let q = choose|q: Seq<char>| state.host.holds(q, draws.join_token->0);
            assert(state.host.participants.dom().contains(q));
        }
    }
    assert(state.acquisition_fault(id, p) is None) by {
        assert(state.host.participants.dom().contains(p) == entries.dom().contains(p));
        assert(state.participants.dom().contains(p) == entries.dom().contains(p));
    }
    let ensured = state.space_ensured(spec.space_key, draws.incarnation_id).0;
    state.lemma_ensured_consistent(spec.space_key, draws.incarnation_id);
    assert(ensured.spaces.dom().contains(spec.space_key));
    assert(state.adds(ensured));
    assert(ensured.ownership.claimed(claim).1 matches Ok(
        crate::ownership::ClaimOutcomeModel::Acquired { .. },
    ));
    lemma_installed_does(
        ensured,
        id,
        registration,
        spec,
        request_id,
        claim,
        draws.join_token->0,
        now,
    );
    let claimed = ActorModel { ownership: ensured.ownership.claimed(claim).0, ..ensured };
    let previous = ensured.ownership.claimed(claim).1->Ok_0->previous;
    let done = claimed.installed(
        id,
        registration,
        spec,
        request_id,
        previous,
        draws.join_token->0,
        now,
    );
    assert(after == done);
    assert(grants(ensured, after, id, request_id, p));
    assert(tells_the_status(ensured, after, p));
    lemma_spaces_are_kept(
        claimed,
        id,
        registration,
        spec,
        request_id,
        previous,
        draws.join_token->0,
        now,
    );
    assert(after.participants.dom().contains(q) == state.participants.dom().contains(q));
    lemma_renders_still(state, ensured, after, spec.space_key);
    if state.participants.dom().contains(p) {
        let old_space = state.participants[p].spec.space_key;
        if old_space != spec.space_key {
            assert(moves_along(ensured, after, p, spec.space_key));
        }
        if state.spaces.dom().contains(old_space) {
            assert(ensured.spaces.dom().contains(old_space));
            lemma_renders_still(state, ensured, after, old_space);
        }
    }
}

/// What holds once a participant has a new owner, or its first one; `q` is another
/// participant.
pub open spec fn is_registered(
    state: ActorModel,
    after: ActorModel,
    id: SessionId,
    registration: ParticipantRegistrationModel,
    request_id: Seq<u8>,
    draws: RegistrationDrawsModel,
    q: Seq<char>,
) -> bool {
    let p = registration.participant_id;
    let known = state.ownership.entries.dom().contains(p);
    let was = state.participants[p];
    let owned = state.ownership.entries[p];
    let spec = registration.spec->0;
    &&& after.ownership.entries.dom().contains(p)
    &&& after.ownership.entries[p].owner == id
    &&& after.ownership.entries[p].registration_id == registration.registration_id
    &&& after.ownership.entries[p].fencing_token == draws.ownership_token->0
    &&& after.ownership.entries[p].client_revision == registration.client_spec_revision
    &&& after.participants.dom().contains(p)
    &&& after.participants[p].spec == spec
    &&& after.participants[p].applied_spec_revision == 0
    &&& after.host.participants[p].credential == draws.join_token->0
    &&& after.spaces.dom().contains(spec.space_key)
    &&& grants(state, after, id, request_id, p)
    &&& tells_the_status(state, after, p)
    &&& renders_now(state, after, spec.space_key)
    &&& known ==> {
        &&& state.spaces.dom().contains(was.spec.space_key) ==> renders_now(
            state,
            after,
            was.spec.space_key,
        )
        &&& after.host.participants[p].connection == state.host.participants[p].connection
        &&& after.participants[p].self_mute == was.self_mute
        &&& after.participants[p].self_deaf == was.self_deaf
        &&& was.spec.space_key != spec.space_key ==> moves_along(state, after, p, spec.space_key)
        &&& state.stream_of(owned.owner) matches Some(stream_id) ==> state.asks(
            after,
            EffectModel::Send {
                session_id: owned.owner,
                stream_id,
                frame: revocation(Seq::empty(), p, owned.registration_id, 1),
            },
        )
    }
    &&& !known ==> {
        &&& after.host.participants[p].connection is None
        &&& !after.participants[p].self_mute
        &&& !after.participants[p].self_deaf
    }
    &&& after.participants.dom().contains(q) == state.participants.dom().contains(q)
    &&& after.participants[q] == state.participants[q]
    &&& after.ownership.entries[q] == state.ownership.entries[q]
    &&& after.host.participants[q] == state.host.participants[q]
}

/// A registration in a snapshot gives its session a participant that nobody has. One that
/// the session has already, under this registration and token, it keeps. Any other is
/// answered as rejected, and stays with its owner.
#[verifier::rlimit(50)]
pub proof fn a_snapshot_registers_who_is_free(
    state: ActorModel,
    id: SessionId,
    registration: ParticipantRegistrationModel,
    request_id: Seq<u8>,
    draws: RegistrationDrawsModel,
    now: nat,
    q: Seq<char>,
)
    requires
        state.consistent(),
        state.sessions.dom().contains(id),
        q != registration.participant_id,
    ensures
        ({
            let p = registration.participant_id;
            let owned = state.ownership.entries[p];
            let after = state.registered_from_snapshot(id, registration, request_id, draws, now);
            let known = state.ownership.entries.dom().contains(p);
            let held = known && owned.owner == id && owned.registration_id
                == registration.registration_id && owned.fencing_token
                == registration.ownership_token;
            &&& !known && can_be_registered(state, id, registration, draws) ==> is_registered(
                state,
                after,
                id,
                registration,
                request_id,
                draws,
                q,
            )
            &&& held && proper_registration(registration) ==> {
                &&& after.ownership.entries[p].owner == id
                &&& after.ownership.entries[p].fencing_token == owned.fencing_token
                &&& after.host == state.host
                &&& grants(state, after, id, request_id, p)
                &&& registration.client_spec_revision > owned.client_revision
                    ==> after.participants[p].spec == registration.spec->0
                &&& registration.client_spec_revision <= owned.client_revision
                    ==> after.participants[p].spec == state.participants[p].spec
            }
            &&& known && !held ==> {
                &&& state.only_said(after)
                &&& state.stream_of(id) matches Some(stream_id) ==> state.asks(
                    after,
                    EffectModel::Send {
                        session_id: id,
                        stream_id,
                        frame: revocation(request_id, p, registration.registration_id, 4),
                    },
                )
            }
        }),
{
    lemma_sent_adds();
    let p = registration.participant_id;
    let owned = state.ownership.entries[p];
    let known = state.ownership.entries.dom().contains(p);
    let held = known && owned.owner == id && owned.registration_id
        == registration.registration_id && owned.fencing_token == registration.ownership_token;
    if !known && can_be_registered(state, id, registration, draws) {
        lemma_acquired_does(
            state,
            id,
            registration,
            request_id,
            ClaimMode::Snapshot,
            draws,
            now,
            q,
        );
    } else if held && proper_registration(registration) {
        a_registration_is_resumed(state, id, registration, request_id, ClaimMode::Snapshot, now);
    } else if known && !held {
        let reason = OwnershipRevocationReason::RegistrationRejected;
        state.lemma_revoked(id, p, registration.registration_id, reason, request_id);
        assert(state.reliable.sessions.dom().contains(id));
        assert(state.revoked(id, p, registration.registration_id, reason, request_id)
            == state.sent(id, revocation(request_id, p, registration.registration_id, 4)));
    }
}

/// An explicit registration makes its session the owner, under the token that was drawn
/// for it, and takes the participant from whoever had it. The participant then looks as
/// its spec says, and is reached with the credential that was drawn for it. What is live
/// stays: its connection, and what it said of itself. The new owner is told token and
/// credential, the previous one that it was replaced, and a connection goes along into
/// another Space. No other participant is touched.
pub proof fn a_registration_makes_an_owner(
    state: ActorModel,
    id: SessionId,
    registration: ParticipantRegistrationModel,
    request_id: Seq<u8>,
    draws: RegistrationDrawsModel,
    now: nat,
    q: Seq<char>,
)
    requires
        state.consistent(),
        state.sessions.dom().contains(id),
        can_be_registered(state, id, registration, draws),
        q != registration.participant_id,
    ensures
        is_registered(
            state,
            state.registered_explicitly(id, registration, request_id, draws, now),
            id,
            registration,
            request_id,
            draws,
            q,
        ),
{
    lemma_acquired_does(
        state,
        id,
        registration,
        request_id,
        ClaimMode::Explicit,
        draws,
        now,
        q,
    );
}

proof fn lemma_renders_still(
    before: ActorModel,
    a: ActorModel,
    after: ActorModel,
    key: Seq<char>,
)
    requires
        before.adds(a),
        renders_now(a, after, key),
    ensures
        renders_now(before, after, key),
{
    lemma_adds();
    let desired = choose|desired: RenderStateModel|
        {
            &&& #[trigger] a.asks(after, EffectModel::Publish { desired })
            &&& desired.space_key == key
            &&& shows_the_space(after, key, desired.participants)
        };
    assert(before.asks(after, EffectModel::Publish { desired }));
}

/// To install a participant destroys no Space.
proof fn lemma_spaces_are_kept(
    a: ActorModel,
    id: SessionId,
    registration: ParticipantRegistrationModel,
    spec: ParticipantSpecModel,
    request_id: Seq<u8>,
    previous: Option<crate::ownership::OwnedModel>,
    join_token: Seq<char>,
    now: nat,
)
    ensures
        a.installed(
            id,
            registration,
            spec,
            request_id,
            previous,
            join_token,
            now,
        ).spaces.dom() == a.spaces.dom(),
{
    lemma_what_is_said_keeps_the_spaces();
}

proof fn lemma_what_is_said_keeps_the_spaces()
    ensures
        forall|a: ActorModel, id: SessionId, frame: ServerFrameModel|
            (#[trigger] a.sent(id, frame)).spaces == a.spaces,
        forall|a: ActorModel, id: SessionId, frame: ServerFrameModel|
            (#[trigger] a.sent(id, frame)).participants == a.participants,
        forall|a: ActorModel, key: Seq<char>, now: nat|
            (#[trigger] a.space_refreshed(key, now)).spaces.dom() == a.spaces.dom(),
        forall|a: ActorModel, key: Seq<char>, now: nat|
            (#[trigger] a.space_refreshed(key, now)).participants == a.participants,
{
    assert forall|a: ActorModel, id: SessionId, frame: ServerFrameModel|
        (#[trigger] a.sent(id, frame)).spaces == a.spaces && a.sent(id, frame).participants
            == a.participants by {
        a.lemma_sent(id, frame);
    }
    assert forall|a: ActorModel, key: Seq<char>, now: nat|
        (#[trigger] a.space_refreshed(key, now)).spaces.dom() == a.spaces.dom()
            && a.space_refreshed(key, now).participants == a.participants by {
        a.lemma_space_refreshed(key, now);
    }
}

// What a release, a change and a session's end do.

/// A participant is released to whoever has its registration and its current token. It is
/// then gone: its connection is closed, its Space is rendered without it, and the answer
/// says that it was released. Anybody else is answered that the ownership is lost, and
/// nothing else happens.
pub proof fn a_release_is_the_owners_alone(
    state: ActorModel,
    id: SessionId,
    p: Seq<char>,
    registration_id: Seq<u8>,
    token: Seq<u8>,
    request_id: Seq<u8>,
    now: nat,
    q: Seq<char>,
)
    requires
        state.consistent(),
        state.sessions.dom().contains(id),
        q != p,
    ensures
        ({
            let owned = state.ownership.entries[p];
            let entitled = state.ownership.entries.dom().contains(p) && owned.owner == id
                && owned.registration_id == registration_id && owned.fencing_token == token;
            let after = state.released(
                id,
                p,
                registration_id,
                token,
                OwnershipRevocationReason::ParticipantReleased,
                Some(request_id),
                now,
            );
            let key = state.participants[p].spec.space_key;
            &&& entitled ==> {
                &&& !after.ownership.entries.dom().contains(p)
                &&& !after.participants.dom().contains(p)
                &&& !after.host.participants.dom().contains(p)
                &&& state.host.participants[p].connection matches Some(connection) ==> state.asks(
                    after,
                    EffectModel::CloseConnection { connection },
                )
                &&& state.stream_of(id) matches Some(stream_id) ==> state.asks(
                    after,
                    EffectModel::Send {
                        session_id: id,
                        stream_id,
                        frame: revocation(request_id, p, registration_id, 3),
                    },
                )
                &&& state.spaces.dom().contains(key) ==> renders_without(state, after, key, p)
            }
            &&& !entitled ==> {
                &&& state.only_said(after)
                &&& state.stream_of(id) matches Some(stream_id) ==> refuses(
                    state,
                    after,
                    id,
                    stream_id,
                    request_id,
                    3,
                )
            }
            &&& after.ownership.entries.dom().contains(q)
                == state.ownership.entries.dom().contains(q)
            &&& after.ownership.entries[q] == state.ownership.entries[q]
            &&& after.participants[q] == state.participants[q]
            &&& after.host.participants[q] == state.host.participants[q]
        }),
{
    lemma_adds();
    lemma_sent_adds();
    let reason = OwnershipRevocationReason::ParticipantReleased;
    let after = state.released(id, p, registration_id, token, reason, Some(request_id), now);
    let key = state.participants[p].spec.space_key;
    state.lemma_released(id, p, registration_id, token, reason, Some(request_id), now);
    lemma_released_adds(state, id, p, registration_id, token, reason, Some(request_id), now);
    if state.ownership.holds(p, id, registration_id, token) {
        state.lemma_without_consistent(p);
        lemma_not_rendered(state.without_participant(p), key, p);
        if state.spaces.dom().contains(key) {
            let desired = RenderStateModel {
                application_revision: state.next_application_revision,
                space_key: key,
                participants: state.without_participant(p).render_list(key),
            };
            assert(state.asks(after, EffectModel::Publish { desired }));
        }
    } else {
        assert(state.reliable.sessions.dom().contains(id));
        let lost = crate::messages::CommandErrorCode::OwnershipLost;
        let message = if !state.participants.dom().contains(p) {
            "participant is no longer owned"@
        } else {
            "participant ownership token is stale"@
        };
        assert(after == state.rejected(id, request_id, lost, message)) by {
            assert(state.participants.dom().contains(p) == state.ownership.entries.dom().contains(
                p,
            ));
        }
        lemma_refused(state, id, request_id, lost, message);
    }
}

/// On the way to `after`, a request was refused with an error of this number.
pub open spec fn refuses(
    before: ActorModel,
    after: ActorModel,
    id: SessionId,
    stream_id: u64,
    request_id: Seq<u8>,
    code: i32,
) -> bool {
    exists|message: Seq<char>| #[trigger]
        before.asks(
            after,
            EffectModel::Send {
                session_id: id,
                stream_id,
                frame: refusal(request_id, code, message),
            },
        )
}

/// The answer that refuses a request.
pub open spec fn refusal(request_id: Seq<u8>, code: i32, message: Seq<char>) -> ServerFrameModel {
    ServerFrameModel {
        request_id,
        payload: Some(
            ServerPayloadModel::CommandRejected(
                crate::messages::CommandRejectedModel { code, message },
            ),
        ),
    }
}

proof fn lemma_refused(
    a: ActorModel,
    id: SessionId,
    request_id: Seq<u8>,
    code: crate::messages::CommandErrorCode,
    message: Seq<char>,
)
    requires
        request_id.len() == 0 || a.reliable.sessions.dom().contains(id),
    ensures
        a.stream_of(id) matches Some(stream_id) ==> refuses(
            a,
            a.rejected(id, request_id, code, message),
            id,
            stream_id,
            request_id,
            code.number(),
        ),
{
    lemma_sent_adds();
    if let Some(stream_id) = a.stream_of(id) {
        let frame = refusal(request_id, code.number(), message);
        assert(a.rejected(id, request_id, code, message) == a.sent(id, frame));
        assert(a.asks(
            a.sent(id, frame),
            EffectModel::Send { session_id: id, stream_id, frame },
        ));
    }
}

/// A session that ends lets go of every participant of its own, as if it had released
/// each; its token, its stream and its answers go with it.
pub proof fn an_ending_session_lets_go_of_all(
    state: ActorModel,
    id: SessionId,
    reason: OwnershipRevocationReason,
    now: nat,
    p: Seq<char>,
)
    requires
        state.consistent(),
        state.sessions.dom().contains(id),
    ensures
        ({
            let after = state.session_removed(id, reason, now);
            &&& state.ownership.entries.dom().contains(p) && state.ownership.entries[p].owner == id
                ==> lets_go(state, after, p, reason.number())
            &&& !after.sessions.dom().contains(id)
            &&& !after.core_sessions.sessions.dom().contains(id)
            &&& !after.reliable.sessions.dom().contains(id)
            &&& state.stream_of(id) matches Some(stream_id) ==> !after.streams.dom().contains(
                stream_id,
            )
        }),
{
    let owned = state.ownership.owned(id);
    let released = state.all_released(id, owned, reason, now);
    let after = state.session_removed(id, reason, now);
    state.lemma_all_released(id, owned, reason, now);
    state.lemma_owned(id);
    lemma_same_effects(released, after);
    if state.ownership.entries.dom().contains(p) && state.ownership.entries[p].owner == id {
        crate::ownership::an_owners_entities_are_listed(state.ownership, id, p);
        lemma_each_is_let_go(state, id, owned, reason, now, p);
        lemma_let_go_lasts(state, released, after, p, reason.number());
    }
}

/// The numbers of the reasons and of the errors on the wire, each its own.
pub proof fn reasons_and_errors_have_their_numbers()
    ensures
        OwnershipRevocationReason::OwnershipReplaced.number() == 1,
        OwnershipRevocationReason::SessionExpired.number() == 2,
        OwnershipRevocationReason::ParticipantReleased.number() == 3,
        OwnershipRevocationReason::RegistrationRejected.number() == 4,
        crate::messages::CommandErrorCode::InvalidArgument.number() == 1,
        crate::messages::CommandErrorCode::NotFound.number() == 2,
        crate::messages::CommandErrorCode::OwnershipLost.number() == 3,
        crate::messages::CommandErrorCode::StaleRevision.number() == 4,
        crate::messages::CommandErrorCode::SessionExpiredError.number() == 5,
        crate::messages::CommandErrorCode::ResourceExhausted.number() == 6,
        crate::messages::CommandErrorCode::InternalError.number() == 7,
{
}

/// A spec is taken from the owner with the current token alone, and only under a newer
/// revision, or again under the same one. It is then the participant's spec, and its
/// revision the accepted one. Its Space is rendered anew; where it leads into another
/// Space, both are, and the connection goes along. The owner is told the revision.
#[verifier::rlimit(50)]
pub proof fn a_spec_is_taken_from_the_owner(
    state: ActorModel,
    id: SessionId,
    p: Seq<char>,
    token: Seq<u8>,
    revision: u64,
    spec: ParticipantSpecModel,
    request_id: Seq<u8>,
    incarnation_id: Option<Seq<u8>>,
    now: nat,
    q: Seq<char>,
)
    requires
        state.consistent(),
        state.sessions.dom().contains(id),
        incarnation_id is Some,
        state.spaces.dom().contains(spec.space_key) || state.spaces.len()
            < state.config.max_spaces,
        q != p,
    ensures
        ({
            let after = state.spec_set(
                id,
                p,
                token,
                revision,
                spec,
                request_id,
                incarnation_id,
                now,
            );
            let known = state.participants.dom().contains(p);
            let owned = state.ownership.entries[p];
            let was = state.participants[p];
            let entitled = known && owned.owner == id && owned.fencing_token == token;
            let accepted = entitled && (revision > owned.client_revision || (revision
                == owned.client_revision && spec == was.spec));
            &&& accepted ==> {
                &&& after.participants[p].spec == spec
                &&& after.ownership.entries[p].client_revision == revision
                &&& after.ownership.entries[p].owner == id
                &&& after.ownership.entries[p].fencing_token == token
                &&& after.ownership.entries[p].registration_id == owned.registration_id
                &&& after.participants[p].self_mute == was.self_mute
                &&& after.participants[p].self_deaf == was.self_deaf
                &&& after.participants[p].applied_spec_revision == was.applied_spec_revision
                &&& after.spaces.dom().contains(spec.space_key)
                &&& revision > owned.client_revision && spec.space_key != was.spec.space_key
                    ==> moves_along(state, after, p, spec.space_key)
                &&& revision > owned.client_revision ==> renders_now(
                    state,
                    after,
                    spec.space_key,
                )
                &&& revision > owned.client_revision && state.spaces.dom().contains(
                    was.spec.space_key,
                ) ==> renders_now(state, after, was.spec.space_key)
                &&& state.stream_of(id) matches Some(stream_id) ==> state.asks(
                    after,
                    EffectModel::Send {
                        session_id: id,
                        stream_id,
                        frame: ServerFrameModel {
                            request_id,
                            payload: Some(
                                ServerPayloadModel::ParticipantSpecAccepted(
                                    crate::messages::ParticipantSpecAcceptedModel {
                                        participant_id: p,
                                        client_spec_revision: revision,
                                        accepted_spec_revision: revision,
                                        applied_spec_revision: was.applied_spec_revision,
                                        published_generation: was.published_generation,
                                    },
                                ),
                            ),
                        },
                    },
                )
            }
            &&& !accepted ==> {
                &&& state.only_said(after)
                &&& state.stream_of(id) matches Some(stream_id) ==> refuses(
                    state,
                    after,
                    id,
                    stream_id,
                    request_id,
                    if !known {
                        2
                    } else if !entitled {
                        3
                    } else {
                        4
                    },
                )
            }
            &&& after.participants.dom() == state.participants.dom()
            &&& after.participants[q] == state.participants[q]
            &&& after.ownership.entries[q] == state.ownership.entries[q]
            &&& after.host == state.host
        }),
{
    lemma_adds();
    lemma_sent_adds();
    lemma_status_sent_adds();
    let after = state.spec_set(id, p, token, revision, spec, request_id, incarnation_id, now);
    let owned = state.ownership.entries[p];
    let was = state.participants[p];
    assert(state.reliable.sessions.dom().contains(id));
    assert(state.participants.dom().contains(p) == state.ownership.entries.dom().contains(p));
    let lost = crate::messages::CommandErrorCode::OwnershipLost;
    let stale = crate::messages::CommandErrorCode::StaleRevision;
    let missing = crate::messages::CommandErrorCode::NotFound;
    if !state.participants.dom().contains(p) {
        lemma_refused(state, id, request_id, missing, "participant is not registered"@);
        state.lemma_rejected(id, request_id, missing, "participant is not registered"@);
    } else if owned.owner != id || owned.fencing_token != token {
        lemma_refused(state, id, request_id, lost, "participant ownership token is stale"@);
        state.lemma_rejected(id, request_id, lost, "participant ownership token is stale"@);
    } else if revision < owned.client_revision {
        lemma_refused(state, id, request_id, stale, "participant spec revision moved backwards"@);
        state.lemma_rejected(
            id,
            request_id,
            stale,
            "participant spec revision moved backwards"@,
        );
    } else if revision == owned.client_revision && spec != was.spec {
        lemma_refused(
            state,
            id,
            request_id,
            stale,
            "a participant spec cannot change without advancing its revision"@,
        );
        state.lemma_rejected(
            id,
            request_id,
            stale,
            "a participant spec cannot change without advancing its revision"@,
        );
    } else {
        let ensured = state.space_ensured(spec.space_key, incarnation_id).0;
        assert(state.adds(ensured));
        assert(ensured.spaces.dom().contains(spec.space_key));
        let accepted = ActorModel {
            ownership: ensured.ownership.with(
                p,
                crate::ownership::OwnershipModel::at_revision(owned, revision),
            ),
            ..ensured
        };
        lemma_same_effects(ensured, accepted);
        let applied = if revision > owned.client_revision {
            accepted.spec_applied(p, spec, now)
        } else {
            ensured
        };
        if revision > owned.client_revision {
            lemma_spec_applied_does(accepted, p, spec, now);
        }
        assert(state.adds(applied));
        let frame = framed(
            request_id,
            ServerPayloadModel::ParticipantSpecAccepted(
                crate::messages::ParticipantSpecAcceptedModel {
                    participant_id: p,
                    client_spec_revision: revision,
                    accepted_spec_revision: revision,
                    applied_spec_revision: applied.participants[p].applied_spec_revision,
                    published_generation: applied.participants[p].published_generation,
                },
            ),
        );
        applied.lemma_sent(id, frame);
        assert(after == applied.sent(id, frame));
        assert(after.participants.dom() =~= state.participants.dom());
        if revision > owned.client_revision {
            assert(ensured.participants.dom().contains(p));
            assert(ensured.ownership.entries.dom().contains(p));
            state.lemma_ensured_consistent(spec.space_key, incarnation_id);
            ensured.lemma_revision_consistent(p, revision);
            assert(applied.adds(after));
            lemma_spec_applied_renders(state, accepted, p, spec, now, after);
        }
    }
}

proof fn lemma_spec_applied_renders(
    before: ActorModel,
    a: ActorModel,
    p: Seq<char>,
    spec: ParticipantSpecModel,
    now: nat,
    after: ActorModel,
)
    requires
        a.consistent(),
        before.adds(a),
        a.participants.dom().contains(p),
        a.spaces.dom().contains(spec.space_key),
        a.spec_applied(p, spec, now).adds(after),
        a.spec_applied(p, spec, now).participants == after.participants,
        a.spec_applied(p, spec, now).host == after.host,
        a.spec_applied(p, spec, now).ownership == after.ownership,
    ensures
        renders_now(before, after, spec.space_key),
        a.spaces.dom().contains(a.participants[p].spec.space_key) ==> renders_now(
            before,
            after,
            a.participants[p].spec.space_key,
        ),
{
    lemma_adds();
    lemma_refreshed_adds_always();
    lemma_status_sent_adds();
    a.lemma_spec_applied(p, spec, now);
    let old_space = a.participants[p].spec.space_key;
    let changed = a.with_participant(p, ParticipantModel { spec, ..a.participants[p] });
    lemma_same_effects(a, changed);
    a.lemma_participant_consistent(p, changed.participants[p]);
    let first = changed.space_refreshed(old_space, now);
    changed.lemma_refreshed_consistent(old_space, now);
    let second = first.space_refreshed(spec.space_key, now);
    first.lemma_space_refreshed(spec.space_key, now);
    let moved = second.connection_moved(p, spec.space_key);
    assert(before.adds(first));
    if old_space == spec.space_key {
        assert(first.adds(after));
        lemma_renders_now(before, changed, after, spec.space_key, now);
    } else {
        assert(moved.adds(after));
        assert(second.adds(after));
        assert(first.adds(after));
        lemma_renders_now(before, first, after, spec.space_key, now);
        if a.spaces.dom().contains(old_space) {
            lemma_renders_now(before, changed, after, old_space, now);
        }
    }
}

/// What a changed spec leaves behind, and what it asks for.
proof fn lemma_spec_applied_does(
    a: ActorModel,
    p: Seq<char>,
    spec: ParticipantSpecModel,
    now: nat,
)
    requires
        a.participants.dom().contains(p),
        a.spaces.dom().contains(spec.space_key),
    ensures
        ({
            let after = a.spec_applied(p, spec, now);
            let was = a.participants[p];
            &&& a.adds(after)
            &&& a.with_participant(p, ParticipantModel { spec, ..was }).only_rendered(after)
            &&& spec.space_key != was.spec.space_key && a.host.participants.dom().contains(p)
                ==> moves_along(a, after, p, spec.space_key)
        }),
{
    lemma_adds();
    lemma_refreshed_adds_always();
    lemma_spec_applied_adds(a, p, spec, now);
    a.lemma_spec_applied(p, spec, now);
    let old_space = a.participants[p].spec.space_key;
    let changed = a.with_participant(p, ParticipantModel { spec, ..a.participants[p] });
    lemma_same_effects(a, changed);
    let first = changed.space_refreshed(old_space, now);
    changed.lemma_space_refreshed(old_space, now);
    assert(a.adds(first));
    let second = first.space_refreshed(spec.space_key, now);
    first.lemma_space_refreshed(spec.space_key, now);
    assert(a.adds(second));
}

// What the voice server asks and reports.

/// A join token leads its connection to the Space of the participant that it was made
/// for. The connection is then the participant's; the one that was there before is
/// closed. The Space is rendered with it, and the owner is told. A token that nobody has
/// leads nowhere, and nothing happens.
#[verifier::rlimit(50)]
pub proof fn a_join_token_leads_to_its_participant(
    state: ActorModel,
    connection: u64,
    credential: Seq<char>,
    now: nat,
    p: Seq<char>,
    q: Seq<char>,
)
    requires
        state.consistent(),
        state.host.valid(),
        state.participants.dom().contains(p),
        state.host.participants[p].credential == credential,
        state.spaces.dom().contains(state.participants[p].spec.space_key),
        forall|q: Seq<char>| #[trigger]
            state.host.participants.dom().contains(q) && q != p
                ==> state.host.participants[q].connection != Some(connection),
        q != p,
    ensures
        ({
            let (after, answer) = state.routed(connection, Some(credential), now);
            let before = state.host.participants[p].connection;
            let key = state.participants[p].spec.space_key;
            let attached = ActorModel { host: after.host, ..state };
            &&& answer == Ok::<Seq<char>, Seq<char>>(key)
            &&& after.host.participants[p].connection == Some(connection)
            &&& after.host.participants[p].credential == credential
            &&& after.host.participants[q] == state.host.participants[q]
            &&& after.participants == state.participants
            &&& after.ownership == state.ownership
            &&& before matches Some(other) ==> other != connection ==> state.asks(
                after,
                EffectModel::CloseConnection { connection: other },
            )
            &&& renders(state, after, attached, key, state.next_application_revision)
            &&& tells_the_status(state, after, p)
        }),
{
    lemma_adds();
    lemma_refreshed_adds_always();
    let (after, answer) = state.routed(connection, Some(credential), now);
    let key = state.participants[p].spec.space_key;
    assert(state.host.participants.dom().contains(p));
    crate::host::a_credential_lets_its_participant_in(
        state.host,
        credential,
        connection,
        p,
        q,
    );
    let bound = state.host.attached(credential, connection);
    let attachment = bound.1->Ok_0;
    let attached = ActorModel { host: bound.0, ..state };
    lemma_same_effects(state, attached);
    let closed = match attachment.replaced_connection {
        Some(connection) => attached.emitted(EffectModel::CloseConnection { connection }),
        None => attached,
    };
    state.lemma_host_consistent(bound.0);
    attached.lemma_rendered_consistent(closed);
    closed.lemma_refreshed_consistent(key, now);
    let refreshed = closed.space_refreshed(key, now);
    lemma_refreshed_adds(closed, key, now);
    lemma_render_list(attached, key);
    assert(closed.render_list(key) =~= attached.render_list(key));
    let desired = RenderStateModel {
        application_revision: state.next_application_revision,
        space_key: key,
        participants: attached.render_list(key),
    };
    lemma_status_is_told(refreshed, p);
    lemma_status_sent_adds();
    assert(after == refreshed.status_sent(p));
    assert(state.adds(refreshed));
    assert(closed.asks(after, EffectModel::Publish { desired }));
    assert(state.asks(after, EffectModel::Publish { desired }));
    assert((ActorModel { host: after.host, ..state }) == attached);
}

/// Whoever has no token, or one that is nobody's, is turned away, and nothing changes.
pub proof fn an_unknown_join_token_leads_nowhere(
    state: ActorModel,
    connection: u64,
    credential: Option<Seq<char>>,
    now: nat,
)
    requires
        state.consistent(),
        credential matches Some(token) ==> forall|p: Seq<char>| #[trigger]
            state.host.participants.dom().contains(p) ==> state.host.participants[p].credential
                != token,
    ensures
        state.routed(connection, credential, now).0 == state,
        state.routed(connection, credential, now).1 is Err,
{
}

/// A report from a Space counts where the connection belongs to a participant of that
/// Space. An arrival is told to the owner; a departure takes the connection away; a
/// self-state is noted, flag for flag. The Space is then rendered so, and the owner is
/// told. Nothing else of any participant changes.
#[verifier::rlimit(50)]
pub proof fn a_report_from_a_space_is_noted(
    state: ActorModel,
    key: Seq<char>,
    event: crate::spaces::SpaceEvent,
    now: nat,
    p: Seq<char>,
    q: Seq<char>,
)
    requires
        state.consistent(),
        state.host.valid(),
        state.spaces.dom().contains(key),
        state.participants.dom().contains(p),
        state.host.participants[p].connection == Some(event.connection.0),
        state.participants.dom().contains(q),
        q != p,
    ensures
        ({
            let after = state.space_event_applied(key, event, now);
            let was = state.participants[p];
            let here = was.spec.space_key == key;
            &&& !here ==> after == state
            &&& after.participants[q] == state.participants[q]
            &&& after.host.participants[q] == state.host.participants[q]
            &&& after.ownership == state.ownership
            &&& here ==> {
                &&& tells_the_status(state, after, p)
                &&& after.participants.dom() == state.participants.dom()
                &&& after.participants[p].spec == was.spec
                &&& after.participants[p].applied_spec_revision == was.applied_spec_revision
                &&& after.host.participants[p].credential == state.host.participants[p].credential
                &&& match event.kind {
                    crate::spaces::SpaceEventKind::Connected => {
                        &&& state.only_said(after)
                    },
                    crate::spaces::SpaceEventKind::Disconnected => {
                        &&& after.host.participants[p].connection is None
                        &&& after.participants == state.participants
                        &&& renders(
                            state,
                            after,
                            ActorModel { host: after.host, ..state },
                            key,
                            state.next_application_revision,
                        )
                    },
                    crate::spaces::SpaceEventKind::SelfState { self_mute, self_deaf } => {
                        &&& after.participants[p].self_mute == self_mute
                        &&& after.participants[p].self_deaf == self_deaf
                        &&& after.host == state.host
                        &&& renders(
                            state,
                            after,
                            ActorModel { participants: after.participants, ..state },
                            key,
                            state.next_application_revision,
                        )
                    },
                }
            }
        }),
{
    lemma_adds();
    lemma_refreshed_adds_always();
    lemma_status_sent_adds();
    let after = state.space_event_applied(key, event, now);
    let was = state.participants[p];
    assert(state.host.participants.dom().contains(p));
    crate::host::a_connection_leads_to_its_participant(state.host, event.connection.0, p);
    assert(state.host.participant_of(event.connection@) == Some(p));
    if was.spec.space_key == key {
        match event.kind {
            crate::spaces::SpaceEventKind::Connected => {
                lemma_status_is_told(state, p);
            },
            crate::spaces::SpaceEventKind::Disconnected => {
                let host = state.host.disconnected(event.connection@);
                crate::host::an_ending_touches_its_participant_alone(
                    state.host,
                    event.connection.0,
                    p,
                    p,
                );
                assert(state.host.participants.dom().contains(q));
                crate::host::an_ending_touches_its_participant_alone(
                    state.host,
                    event.connection.0,
                    p,
                    q,
                );
                assert(state.host.participants[q].connection != Some(event.connection.0));
                state.lemma_host_consistent(host);
                let left = ActorModel { host, ..state };
                lemma_same_effects(state, left);
                lemma_refreshed_and_told(state, left, key, now, p);
                assert((ActorModel { host: after.host, ..state }) == left);
            },
            crate::spaces::SpaceEventKind::SelfState { self_mute, self_deaf } => {
                let changed = ParticipantModel { self_mute, self_deaf, ..was };
                state.lemma_participant_consistent(p, changed);
                let stored = state.with_participant(p, changed);
                lemma_same_effects(state, stored);
                lemma_refreshed_and_told(state, stored, key, now, p);
                assert((ActorModel { participants: after.participants, ..state }) == stored);
                assert(stored.participants.dom() =~= state.participants.dom());
            },
        }
    }
}

proof fn lemma_refreshed_and_told(
    before: ActorModel,
    a: ActorModel,
    key: Seq<char>,
    now: nat,
    p: Seq<char>,
)
    requires
        a.consistent(),
        a.effects == before.effects,
        a.sessions == before.sessions,
        a.spaces.dom().contains(key),
        a.participants.dom().contains(p),
    ensures
        ({
            let after = a.space_refreshed(key, now).status_sent(p);
            &&& renders(before, after, a, key, a.next_application_revision)
            &&& tells_the_status(before, after, p)
            &&& a.only_rendered(after)
        }),
{
    lemma_adds();
    lemma_status_sent_adds();
    let refreshed = a.space_refreshed(key, now);
    let after = refreshed.status_sent(p);
    lemma_same_effects(before, a);
    a.lemma_refreshed_consistent(key, now);
    lemma_refreshed_adds(a, key, now);
    lemma_render_list(a, key);
    lemma_status_is_told(refreshed, p);
    let desired = RenderStateModel {
        application_revision: a.next_application_revision,
        space_key: key,
        participants: a.render_list(key),
    };
    assert(a.asks(after, EffectModel::Publish { desired }));
    assert(before.asks(after, EffectModel::Publish { desired }));
    assert(before.adds(refreshed));
}

/// A report of a connection that is nobody's says nothing.
pub proof fn a_report_of_a_stranger_is_ignored(
    state: ActorModel,
    key: Seq<char>,
    event: crate::spaces::SpaceEvent,
    now: nat,
)
    requires
        forall|p: Seq<char>| #[trigger]
            state.host.participants.dom().contains(p) ==> state.host.participants[p].connection
                != Some(event.connection.0),
    ensures
        state.space_event_applied(key, event, now) == state,
{
    if state.host.participant_of(event.connection@) is Some {
        let p = choose|p: Seq<char>| state.host.connected(p, event.connection@);
        assert(state.host.connected(p, event.connection@));
        assert(state.host.participants.dom().contains(p));
    }
}

proof fn lemma_reports_applied_to(
    a: ActorModel,
    key: Seq<char>,
    ids: Seq<Seq<char>>,
    revisions: Map<Seq<char>, u64>,
    report: crate::spaces::ReportModel,
    p: Seq<char>,
)
    requires
        a.consistent(),
        ids.no_duplicates(),
        a.participants.dom().contains(p),
    ensures
        ({
            let after = a.reports_applied(key, ids, revisions, report);
            &&& after.effects == a.effects
            &&& ids.contains(p) ==> after.participants[p] == a.report_applied(
                key,
                p,
                revisions[p],
                report,
            ).participants[p]
            &&& !ids.contains(p) ==> after.participants[p] == a.participants[p]
        }),
    decreases ids.len(),
{
    if ids.len() > 0 {
        let q = ids[0];
        let rest = ids.drop_first();
        let next = a.report_applied(key, q, revisions[q], report);
        if a.participants.dom().contains(q) && a.participants[q].spec.space_key == key {
            a.lemma_participant_consistent(q, next.participants[q]);
            assert(next.participants.dom() =~= a.participants.dom());
        }
        assert(rest.no_duplicates());
        lemma_reports_applied_to(next, key, rest, revisions, report, p);
        if ids.contains(p) {
            let k = choose|k: int| 0 <= k < ids.len() && ids[k] == p;
            if k > 0 {
                assert(rest[k - 1] == p);
                assert(ids[0] != ids[k]);
            } else {
                if rest.contains(p) {
                    let j = choose|j: int| 0 <= j < rest.len() && rest[j] == p;
                    assert(ids[j + 1] == ids[0]);
                }
            }
        }
        if rest.contains(p) {
            let j = choose|j: int| 0 <= j < rest.len() && rest[j] == p;
            assert(ids[j + 1] == p);
        }
    }
}

/// A report on a render is entered for the participants that the render showed and that
/// are still in its Space. Where it was carried out, each has the revision that was shown
/// of it applied, or keeps a newer one, in this Space, under this version, without an
/// error. Where it was refused, each has the error, and all else as before. The owner of
/// each is told, and so is whoever watches the Space.
#[verifier::rlimit(50)]
pub proof fn a_render_report_is_entered(
    state: ActorModel,
    key: Seq<char>,
    revision: u64,
    report: crate::spaces::ReportModel,
    p: Seq<char>,
    id: SessionId,
)
    requires
        state.consistent(),
        state.spaces.dom().contains(key),
        state.spaces[key].render_history.dom().contains(revision),
        state.spaces[key].render_history[revision].dom().finite(),
        state.participants.dom().contains(p),
    ensures
        ({
            let after = state.reconciled(key, revision, report);
            let shown = state.spaces[key].render_history[revision];
            let was = state.participants[p];
            let now = after.participants[p];
            let here = shown.dom().contains(p) && was.spec.space_key == key;
            &&& !here ==> now == was
            &&& here && report.refused is None ==> {
                &&& shown[p] >= was.applied_spec_revision ==> now.applied_spec_revision == shown[p]
                &&& shown[p] < was.applied_spec_revision ==> now.applied_spec_revision
                    == was.applied_spec_revision
                &&& now.applied_space_key == Some(key)
                &&& now.published_generation == report.version
                &&& now.application_error.len() == 0
            }
            &&& here && report.refused is Some ==> {
                &&& now.application_error == report.refused->0
                &&& now.applied_spec_revision == was.applied_spec_revision
                &&& now.applied_space_key == was.applied_space_key
                &&& now.published_generation == was.published_generation
            }
            &&& now.spec == was.spec && now.self_mute == was.self_mute && now.self_deaf
                == was.self_deaf
            &&& shown.dom().contains(p) ==> tells_the_status(state, after, p)
            &&& watches(state, id, key) ==> (state.stream_of(id) matches Some(stream_id)
                ==> tells_the_session(state, after, id, stream_id, key))
            &&& report.refused is None ==> after.spaces[key].published_generation == report.version
            &&& report.refused is Some ==> after.spaces[key].published_generation
                == state.spaces[key].published_generation
        }),
{
    let shown = state.spaces[key].render_history[revision];
    let settled = state.spaces[key].reconciled(revision, report);
    let ids = in_order::<String>(shown.dom());
    let stored = ActorModel { spaces: state.spaces.insert(key, settled.0), ..state };
    assert(stored.spaces.dom() =~= state.spaces.dom());
    state.lemma_rendered_consistent(stored);
    lemma_in_order_of::<String>(shown.dom());
    crate::ordered::lemma_ascending_distinct::<String>(ids);
    stored.lemma_reports_applied(key, ids, shown, report);
    lemma_reports_applied_to(stored, key, ids, shown, report, p);
    let applied = stored.reports_applied(key, ids, shown, report);
    applied.lemma_statuses_sent(ids);
    let told = applied.statuses_sent(ids);
    told.lemma_snapshot_broadcast(key);
    let after = told.snapshot_broadcast(key);
    assert(state.reconciled(key, revision, report) == after);
    lemma_adds();
    lemma_same_effects(state, stored);
    lemma_same_effects(stored, applied);
    lemma_statuses_sent_adds(applied, ids);
    lemma_broadcast_adds(told, key);
    assert(state.adds(told));
    if shown.dom().contains(p) {
        assert(ids.contains(p));
        lemma_each_status_is_told(applied, ids, p);
        lemma_status_told_still(state, applied, told, after, p);
    }
    if watches(state, id, key) && state.stream_of(id) is Some {
        applied.lemma_said_consistent(told);
        told.lemma_said_consistent(after);
        assert(watches(told, id, key)) by {
            if !state.sessions[id].observations.explicit.contains(key) {
                let q = choose|q: Seq<char>| #[trigger]
                    state.participants.dom().contains(q) && state.ownership.entries[q].owner == id
                        && state.participants[q].spec.space_key == key;
                assert(told.participants.dom().contains(q));
            }
        }
        lemma_broadcast_tells(told, key, id, state.stream_of(id)->0);
        lemma_told_still(state, told, after, id, state.stream_of(id)->0, key);
    }
}

// What time does.

/// A Space is due where its grace has ended, at the very end of it and after.
pub proof fn a_space_is_due_when_its_grace_ends(state: ActorModel, now: nat, key: Seq<char>)
    requires
        state.consistent(),
    ensures
        state.due_spaces(now).contains(key) <==> state.spaces.dom().contains(key) && (
        state.spaces[key].close_deadline matches Some(deadline) && deadline <= now),
{
    lemma_in_order_of::<String>(state.spaces.dom());
    let due = |key: Seq<char>|
        state.spaces[key].close_deadline is Some && state.spaces[key].close_deadline->0 <= now;
    lemma_filter_members(in_order::<String>(state.spaces.dom()), due, key);
}

/// A Space that is closed is destroyed where nobody is in it. Those who named it and
/// listen are told which incarnation ended, and at which revision. A Space that somebody
/// is in stays, and nothing is said.
pub proof fn a_closed_space_is_destroyed_and_told(
    state: ActorModel,
    key: Seq<char>,
    id: SessionId,
    other: Seq<char>,
)
    requires
        state.consistent(),
        state.spaces.dom().contains(key),
        other != key,
    ensures
        ({
            let after = state.space_closed(key);
            let inhabited = exists|p: Seq<char>| #[trigger]
                state.participants.dom().contains(p) && state.participants[p].spec.space_key == key;
            let space = state.spaces[key];
            &&& inhabited ==> after == state
            &&& !inhabited ==> {
                &&& !after.spaces.dom().contains(key)
                &&& after.spaces.dom().contains(other) == state.spaces.dom().contains(other)
                &&& after.spaces[other] == state.spaces[other]
                &&& state.asks(
                    after,
                    EffectModel::DestroyShard {
                        space_key: key,
                        reason: "empty Space grace elapsed"@,
                    },
                )
                &&& state.sessions.dom().contains(id)
                    && state.sessions[id].observations.explicit.contains(key) ==> (
                state.stream_of(id) matches Some(stream_id) ==> state.asks(
                    after,
                    EffectModel::Send {
                        session_id: id,
                        stream_id,
                        frame: ServerFrameModel {
                            request_id: Seq::empty(),
                            payload: Some(
                                ServerPayloadModel::SpaceClosed(
                                    crate::messages::SpaceClosedModel {
                                        space_key: key,
                                        incarnation_id: space.incarnation_id,
                                        final_space_revision: space.space_revision,
                                    },
                                ),
                            ),
                        },
                    },
                ))
            }
            &&& after.participants == state.participants
            &&& after.ownership == state.ownership
        }),
{
    lemma_adds();
    state.lemma_space_closed(key);
    if !state.is_inhabited(key) {
        let space = state.spaces[key];
        let forgotten = ActorModel { spaces: state.spaces.remove(key), ..state };
        lemma_same_effects(state, forgotten);
        let effect = EffectModel::DestroyShard {
            space_key: key,
            reason: "empty Space grace elapsed"@,
        };
        let closed = forgotten.emitted(effect);
        let named = |id: SessionId| closed.sessions[id].observations.explicit.contains(key);
        let ids = in_order::<SessionId>(closed.sessions.dom()).filter(named);
        let frame = framed(
            Seq::empty(),
            ServerPayloadModel::SpaceClosed(
                crate::messages::SpaceClosedModel {
                    space_key: key,
                    incarnation_id: space.incarnation_id,
                    final_space_revision: space.space_revision,
                },
            ),
        );
        lemma_sent_to_each_adds(closed, ids, frame);
        assert(state.space_closed(key) == closed.sent_to_each(ids, frame));
        lemma_in_order_of::<SessionId>(state.sessions.dom());
        lemma_filter_members(in_order::<SessionId>(closed.sessions.dom()), named, id);
        assert(state.asks(closed, effect));
        if state.sessions.dom().contains(id)
            && state.sessions[id].observations.explicit.contains(key) && state.stream_of(
            id,
        ) is Some {
            lemma_each_is_sent(closed, ids, frame, id, state.stream_of(id)->0);
            assert(state.adds(closed));
        }
    }
}

/// What time makes due is done: a lease that has run out ends its session, and a Space
/// that is empty and past its grace is destroyed; nothing is that is not due. The Spaces
/// are looked at once the sessions are gone.
pub proof fn what_is_due_is_done(state: ActorModel, now: nat, id: SessionId, key: Seq<char>)
    requires
        state.consistent(),
    ensures
        ({
            let after = state.due_expired(now);
            let left = state.sessions_removed(
                state.core_sessions.expired(now),
                OwnershipRevocationReason::SessionExpired,
                now,
            );
            &&& after.sessions.dom().contains(id) <==> state.sessions.dom().contains(id)
                && state.core_sessions.sessions[id].expires_at > now
            &&& after.spaces.dom().contains(key) <==> left.spaces.dom().contains(key) && !(!(exists|
                p: Seq<char>,
            | #[trigger]
                after.participants.dom().contains(p) && after.participants[p].spec.space_key == key)
                && (left.spaces[key].close_deadline matches Some(deadline) && deadline <= now))
        }),
{
    crate::actor_laws::only_what_is_due_expires(state, now);
    let ids = state.core_sessions.expired(now);
    let reason = OwnershipRevocationReason::SessionExpired;
    state.lemma_sessions_removed(ids, reason, now);
    let left = state.sessions_removed(ids, reason, now);
    let after = state.due_expired(now);
    left.lemma_spaces_closed(left.due_spaces(now));
    a_space_is_due_when_its_grace_ends(left, now, key);
    assert(after.sessions.dom().contains(id) <==> {
        &&& state.sessions.dom().contains(id)
        &&& state.core_sessions.sessions[id].expires_at > now
    });
    assert(after.spaces.dom().contains(key) <==> left.spaces.dom().contains(key) && !(
    left.due_spaces(now).contains(key) && !left.is_inhabited(key)));
    assert(left.is_inhabited(key) == after.is_inhabited(key));
}

// What a session is told of itself.

/// A lease that is renewed under the session's token lasts one whole lease from now on.
/// A session whose state agrees is told nothing; one that is behind is asked to
/// resynchronise.
pub proof fn a_renewed_lease_lasts(
    state: ActorModel,
    id: SessionId,
    request_id: Seq<u8>,
    command: crate::messages::RenewLeaseModel,
    now: nat,
    at: nat,
)
    requires
        state.consistent(),
        state.core_sessions.valid(),
        state.sessions.dom().contains(id),
        state.core_sessions.sessions[id].session_token == command.session_token,
    ensures
        ({
            let after = state.lease_renewed(id, request_id, command, now);
            let session = state.core_sessions.sessions[id];
            let agrees = !session.needs_resync && session.desired_revision
                == command.desired_state_revision;
            &&& after.core_sessions.sessions[id].expires_at == now
                + state.core_sessions.lease_duration
            &&& after.core_sessions.expired(at).contains(id) <==> now
                + state.core_sessions.lease_duration <= at
            &&& after.core_sessions.sessions[id].session_token == session.session_token
            &&& after.participants == state.participants
            &&& after.ownership == state.ownership
            &&& agrees ==> after.effects == state.effects
            &&& !agrees ==> (state.stream_of(id) matches Some(stream_id) ==> state.asks(
                after,
                EffectModel::Send {
                    session_id: id,
                    stream_id,
                    frame: ServerFrameModel {
                        request_id,
                        payload: Some(
                            ServerPayloadModel::ResyncRequired(
                                crate::messages::ResyncRequiredModel {
                                    reason: "the server replica no longer matches this session"@,
                                },
                            ),
                        ),
                    },
                },
            ))
        }),
{
    lemma_sent_adds();
    let after = state.lease_renewed(id, request_id, command, now);
    assert(state.core_sessions.sessions.dom().contains(id));
    assert(state.reliable.sessions.dom().contains(id));
    crate::session::a_renewal_lasts_one_lease(
        state.core_sessions,
        id,
        command.session_token,
        command.desired_state_revision,
        now,
        at,
        id,
    );
    let renewed = ActorModel {
        core_sessions: state.core_sessions.renewed(
            id,
            command.session_token,
            command.desired_state_revision,
            now,
        ).0,
        ..state
    };
    lemma_same_effects(state, renewed);
    let frame = framed(
        request_id,
        ServerPayloadModel::ResyncRequired(
            crate::messages::ResyncRequiredModel {
                reason: "the server replica no longer matches this session"@,
            },
        ),
    );
    renewed.lemma_sent(id, frame);
    if after != renewed {
        assert(after == renewed.sent(id, frame));
        if request_id.len() > 0 {
            assert(renewed.reliable.completed(id, request_id, frame).1 is Ok);
        }
        assert(after.core_sessions == renewed.core_sessions);
    }
}

/// Who fetches a Space is told all of it, or that there is none of that name.
pub proof fn a_fetch_is_answered(
    state: ActorModel,
    id: SessionId,
    request_id: Seq<u8>,
    command: crate::messages::FetchSpaceModel,
    draws: crate::actor_model::DrawsModel,
    now: nat,
)
    requires
        state.consistent(),
        state.sessions.dom().contains(id),
        state.core_sessions.sessions[id].session_token == command.session_token,
        state.stream_of(id) is Some,
    ensures
        ({
            let payload = crate::messages::ClientPayloadModel::FetchSpace(command);
            let after = state.commanded(id, request_id, payload, draws, now);
            exists|result: crate::messages::FetchResultModel|
                {
                    &&& #[trigger] state.asks(
                        after,
                        EffectModel::Send {
                            session_id: id,
                            stream_id: state.stream_of(id)->0,
                            frame: fetch_answer(request_id, result),
                        },
                    )
                    &&& match result {
                        crate::messages::FetchResultModel::Snapshot(snapshot) =>
                            state.spaces.dom().contains(command.space_key) && tells_the_space(
                            state,
                            command.space_key,
                            snapshot,
                        ),
                        crate::messages::FetchResultModel::Absent(absent) =>
                            !state.spaces.dom().contains(command.space_key) && absent.space_key
                            == command.space_key,
                    }
                }
        }),
{
    lemma_sent_adds();
    a_snapshot_tells_the_whole_space(state, command.space_key);
    let payload = crate::messages::ClientPayloadModel::FetchSpace(command);
    let result = match state.snapshot_of(command.space_key) {
        Some(snapshot) => crate::messages::FetchResultModel::Snapshot(snapshot),
        None => crate::messages::FetchResultModel::Absent(
            crate::messages::SpaceAbsentModel { space_key: command.space_key },
        ),
    };
    let frame = fetch_answer(request_id, result);
    assert(state.core_sessions.sessions.dom().contains(id));
    assert(state.reliable.sessions.dom().contains(id));
    assert(state.commanded(id, request_id, payload, draws, now) == state.sent(id, frame));
    assert(state.asks(
        state.sent(id, frame),
        EffectModel::Send { session_id: id, stream_id: state.stream_of(id)->0, frame },
    ));
}

/// The answer to a fetch.
pub open spec fn fetch_answer(
    request_id: Seq<u8>,
    result: crate::messages::FetchResultModel,
) -> ServerFrameModel {
    ServerFrameModel {
        request_id,
        payload: Some(
            ServerPayloadModel::FetchSpaceResult(
                crate::messages::FetchSpaceResultModel { result: Some(result) },
            ),
        ),
    }
}

/// A session observes exactly the Spaces that it named last. It is told that they were
/// taken, and, where it listens, all of every materialized Space that it now watches.
/// A list that is too long, names a Space twice or by a key that is none, or is older
/// than the one that was taken, is refused, and nothing else happens.
#[verifier::rlimit(50)]
pub proof fn observations_are_the_ones_named_last(
    state: ActorModel,
    id: SessionId,
    revision: u64,
    keys: Seq<Seq<char>>,
    request_id: Seq<u8>,
    key: Seq<char>,
)
    requires
        state.consistent(),
        state.sessions.dom().contains(id),
    ensures
        ({
            let after = state.observations_replaced(id, revision, keys, request_id);
            let proper = keys.len() <= state.config.max_observations_per_session
                && keys.no_duplicates() && forall|i: int|
                0 <= i < keys.len() ==> (#[trigger] keys[i]).len() > 0 && vstd::utf8::encode_utf8(
                    keys[i],
                ).len() <= 128;
            let newer = revision >= state.sessions[id].observations.observed_revision;
            &&& proper && newer ==> {
                &&& after.sessions[id].observations.explicit.contains(key) <==> keys.contains(key)
                &&& after.sessions[id].observations.observed_revision == revision
                &&& after.sessions[id].stream_id == state.sessions[id].stream_id
                &&& state.stream_of(id) matches Some(stream_id) ==> state.asks(
                    after,
                    EffectModel::Send {
                        session_id: id,
                        stream_id,
                        frame: ServerFrameModel {
                            request_id,
                            payload: Some(
                                ServerPayloadModel::ObservedSpacesAccepted(
                                    crate::messages::ObservedSpacesAcceptedModel {
                                        observed_spaces_revision: revision,
                                    },
                                ),
                            ),
                        },
                    },
                )
                &&& watches(after, id, key) && state.spaces.dom().contains(key) ==> (
                state.stream_of(id) matches Some(stream_id) ==> tells_the_session(
                    state,
                    after,
                    id,
                    stream_id,
                    key,
                ))
            }
            &&& !(proper && newer) ==> {
                &&& state.only_said(after)
                &&& state.stream_of(id) matches Some(stream_id) ==> refuses(
                    state,
                    after,
                    id,
                    stream_id,
                    request_id,
                    if !proper {
                        1
                    } else {
                        4
                    },
                )
            }
            &&& after.participants == state.participants
            &&& after.ownership == state.ownership
            &&& after.spaces == state.spaces
        }),
{
    lemma_adds();
    lemma_sent_adds();
    let after = state.observations_replaced(id, revision, keys, request_id);
    assert(state.reliable.sessions.dom().contains(id));
    let invalid = crate::messages::CommandErrorCode::InvalidArgument;
    let stale = crate::messages::CommandErrorCode::StaleRevision;
    let overfull = "invalid explicit observation set"@;
    let twice = "explicit observation set contains a duplicate Space"@;
    let back = "observation revision moved backwards"@;
    lemma_refused(state, id, request_id, invalid, overfull);
    lemma_refused(state, id, request_id, invalid, twice);
    lemma_refused(state, id, request_id, stale, back);
    state.lemma_rejected(id, request_id, invalid, overfull);
    state.lemma_rejected(id, request_id, invalid, twice);
    state.lemma_rejected(id, request_id, stale, back);
    let malformed = exists|i: int|
        0 <= i < keys.len() && !crate::spaces::valid_space_key(#[trigger] keys[i]);
    if malformed {
        let i = choose|i: int|
            0 <= i < keys.len() && !crate::spaces::valid_space_key(#[trigger] keys[i]);
        assert(!(keys[i].len() > 0 && vstd::utf8::encode_utf8(keys[i]).len() <= 128));
    } else {
        assert forall|i: int| 0 <= i < keys.len() implies (#[trigger] keys[i]).len() > 0
            && vstd::utf8::encode_utf8(keys[i]).len() <= 128 by {
            assert(crate::spaces::valid_space_key(keys[i]));
        }
        if keys.len() <= state.config.max_observations_per_session && keys.no_duplicates()
            && revision >= state.sessions[id].observations.observed_revision {
            let replaced = state.sessions[id].observations.replaced(revision, keys.to_set());
            let observing = state.with_observations(id, replaced.0);
            state.lemma_observations_consistent(id, replaced.0);
            lemma_same_effects(state, observing);
            let frame = framed(
                request_id,
                ServerPayloadModel::ObservedSpacesAccepted(
                    crate::messages::ObservedSpacesAcceptedModel {
                        observed_spaces_revision: revision,
                    },
                ),
            );
            observing.lemma_sent(id, frame);
            observing.lemma_sent_consistent(id, frame);
            let answered = observing.sent(id, frame);
            assert(state.adds(answered));
            answered.lemma_snapshots_sent(id, answered.observed_spaces(id));
            lemma_snapshots_sent_adds(answered, id, answered.observed_spaces(id));
            assert(after == answered.effective_snapshots_sent(id));
            assert(keys.to_set().contains(key) == keys.contains(key));
            if watches(after, id, key) && state.spaces.dom().contains(key) && state.stream_of(
                id,
            ) is Some {
                assert(watches(answered, id, key));
                lemma_watched_spaces_are_told(answered, id, key, state.stream_of(id)->0);
                lemma_told_still(state, answered, after, id, state.stream_of(id)->0, key);
            }
        }
    }
}

/// On the way to `after`, a session was told all of a Space, as `after` has it.
pub open spec fn tells_the_session(
    before: ActorModel,
    after: ActorModel,
    id: SessionId,
    stream_id: u64,
    key: Seq<char>,
) -> bool {
    exists|snapshot: crate::messages::SpaceSnapshotModel|
        {
            &&& #[trigger] before.asks(
                after,
                EffectModel::Send {
                    session_id: id,
                    stream_id,
                    frame: framed(Seq::empty(), ServerPayloadModel::SpaceSnapshot(snapshot)),
                },
            )
            &&& tells_the_space(after, key, snapshot)
        }
}

proof fn lemma_told_still(
    before: ActorModel,
    a: ActorModel,
    after: ActorModel,
    id: SessionId,
    stream_id: u64,
    key: Seq<char>,
)
    requires
        before.adds(a),
        tells_the_session(a, after, id, stream_id, key),
    ensures
        tells_the_session(before, after, id, stream_id, key),
{
    lemma_adds();
    let snapshot = choose|snapshot: crate::messages::SpaceSnapshotModel|
        {
            &&& #[trigger] a.asks(
                after,
                EffectModel::Send {
                    session_id: id,
                    stream_id,
                    frame: framed(Seq::empty(), ServerPayloadModel::SpaceSnapshot(snapshot)),
                },
            )
            &&& tells_the_space(after, key, snapshot)
        };
    assert(before.asks(
        after,
        EffectModel::Send {
            session_id: id,
            stream_id,
            frame: framed(Seq::empty(), ServerPayloadModel::SpaceSnapshot(snapshot)),
        },
    ));
}

/// A session that is told of what it observes is told of each Space that it watches.
proof fn lemma_watched_spaces_are_told(
    a: ActorModel,
    id: SessionId,
    key: Seq<char>,
    stream_id: u64,
)
    requires
        a.consistent(),
        a.stream_of(id) == Some(stream_id),
        a.spaces.dom().contains(key),
        watches(a, id, key),
    ensures
        tells_the_session(a, a.effective_snapshots_sent(id), id, stream_id, key),
{
    let keys = a.observed_spaces(id);
    let after = a.effective_snapshots_sent(id);
    lemma_watches(a, id, key);
    lemma_in_order_of::<String>(a.spaces.dom());
    lemma_filter_members(
        in_order::<String>(a.spaces.dom()),
        |key: Seq<char>| a.observes(id, key),
        key,
    );
    a.lemma_snapshots_sent(id, keys);
    lemma_each_snapshot_is_sent(a, id, keys, key, stream_id);
    a_snapshot_tells_the_whole_space(a, key);
    let snapshot = a.snapshot_of(key)->0;
    assert(tells_the_space(after, key, snapshot)) by {
        assert forall|p: Seq<char>|
            #![trigger after.participants.dom().contains(p)]
            after.participants.dom().contains(p) && after.participants[p].spec.space_key == key
                <==> exists|i: int|
            0 <= i < snapshot.participants.len() && (
            #[trigger] snapshot.participants[i]).participant_id == p by {
            assert(a.participants.dom().contains(p) == after.participants.dom().contains(p));
        }
    }
}

proof fn lemma_each_snapshot_is_sent(
    a: ActorModel,
    id: SessionId,
    keys: Seq<Seq<char>>,
    key: Seq<char>,
    stream_id: u64,
)
    requires
        keys.contains(key),
        a.stream_of(id) == Some(stream_id),
        a.spaces.dom().contains(key),
    ensures
        a.asks(
            a.snapshots_sent(id, keys),
            EffectModel::Send {
                session_id: id,
                stream_id,
                frame: framed(
                    Seq::empty(),
                    ServerPayloadModel::SpaceSnapshot(a.snapshot_of(key)->0),
                ),
            },
        ),
    decreases keys.len(),
{
    lemma_adds();
    lemma_sent_adds();
    let next = match a.snapshot_of(keys[0]) {
        None => a,
        Some(snapshot) => a.sent(
            id,
            framed(Seq::empty(), ServerPayloadModel::SpaceSnapshot(snapshot)),
        ),
    };
    if let Some(snapshot) = a.snapshot_of(keys[0]) {
        a.lemma_sent(id, framed(Seq::empty(), ServerPayloadModel::SpaceSnapshot(snapshot)));
    }
    lemma_snapshots_sent_adds(next, id, keys.drop_first());
    if keys[0] != key {
        let k = choose|k: int| 0 <= k < keys.len() && keys[k] == key;
        assert(keys.drop_first()[k - 1] == key);
        lemma_each_snapshot_is_sent(next, id, keys.drop_first(), key, stream_id);
        assert(next.snapshot_of(key) == a.snapshot_of(key)) by {
            assert(next.members(key) =~= a.members(key));
            assert(next.snapshot_of(key)->0.participants
                =~= a.snapshot_of(key)->0.participants);
        }
    }
}

// What a request has to be.

/// The token that each request of a session carries.
pub open spec fn carried_token(payload: crate::messages::ClientPayloadModel) -> Option<Seq<u8>> {
    match payload {
        crate::messages::ClientPayloadModel::OpenSession(_) => None,
        crate::messages::ClientPayloadModel::RenewLease(request) => Some(request.session_token),
        crate::messages::ClientPayloadModel::SyncDesiredState(request) => Some(
            request.session_token,
        ),
        crate::messages::ClientPayloadModel::RegisterParticipant(request) => Some(
            request.session_token,
        ),
        crate::messages::ClientPayloadModel::SetParticipantSpec(request) => Some(
            request.session_token,
        ),
        crate::messages::ClientPayloadModel::ReleaseParticipant(request) => Some(
            request.session_token,
        ),
        crate::messages::ClientPayloadModel::ReplaceObservedSpaces(request) => Some(
            request.session_token,
        ),
        crate::messages::ClientPayloadModel::FetchSpace(request) => Some(request.session_token),
        crate::messages::ClientPayloadModel::CloseSession(request) => Some(request.session_token),
    }
}

/// A request that does not carry the token of its session is answered that the session
/// is over, and nothing else happens, whatever it asks for.
pub proof fn a_request_needs_the_session_token(
    state: ActorModel,
    stream_id: u64,
    frame: crate::messages::ClientFrameModel,
    draws: crate::actor_model::DrawsModel,
    now: nat,
)
    requires
        state.consistent(),
        state.streams.dom().contains(stream_id),
        frame.request_id.len() > 0,
        frame.payload is Some,
        ({
            let id = state.streams[stream_id];
            &&& carried_token(frame.payload->0) matches Some(token) && token
                != state.core_sessions.sessions[id].session_token
            &&& !state.reliable.sessions[id].results.dom().contains(frame.request_id)
        }),
    ensures
        ({
            let after = state.framed_command(stream_id, frame, draws, now);
            &&& state.only_said(after)
            &&& refuses(
                state,
                after,
                state.streams[stream_id],
                stream_id,
                frame.request_id,
                5,
            )
        }),
{
    let id = state.streams[stream_id];
    let expired = crate::messages::CommandErrorCode::SessionExpiredError;
    let message = "session token is not current"@;
    state.lemma_stream_has_a_session(stream_id);
    assert(state.reliable.sessions.dom().contains(id));
    state.lemma_rejected(id, frame.request_id, expired, message);
    lemma_refused(state, id, frame.request_id, expired, message);
    assert(state.framed_command(stream_id, frame, draws, now) == state.rejected(
        id,
        frame.request_id,
        expired,
        message,
    ));
}

/// A frame without a request id, without a payload, or with an opening on a stream that
/// has a session, is refused as invalid, and nothing else happens.
pub proof fn a_malformed_frame_is_refused(
    state: ActorModel,
    stream_id: u64,
    frame: crate::messages::ClientFrameModel,
    draws: crate::actor_model::DrawsModel,
    now: nat,
)
    requires
        state.consistent(),
        state.streams.dom().contains(stream_id),
        frame.request_id.len() == 0 || frame.payload is None
            || frame.payload->0 is OpenSession,
    ensures
        ({
            let after = state.framed_command(stream_id, frame, draws, now);
            &&& state.only_said(after)
            &&& refuses(
                state,
                after,
                state.streams[stream_id],
                stream_id,
                frame.request_id,
                1,
            )
        }),
{
    let id = state.streams[stream_id];
    let invalid = crate::messages::CommandErrorCode::InvalidArgument;
    state.lemma_stream_has_a_session(stream_id);
    assert(state.reliable.sessions.dom().contains(id));
    let message = if frame.request_id.len() == 0 {
        "request_id must not be empty"@
    } else if frame.payload is None {
        "ClientFrame has no payload"@
    } else {
        "OpenSession is only valid as the first frame"@
    };
    state.lemma_rejected(id, frame.request_id, invalid, message);
    lemma_refused(state, id, frame.request_id, invalid, message);
    assert(state.framed_command(stream_id, frame, draws, now) == state.rejected(
        id,
        frame.request_id,
        invalid,
        message,
    ));
}

/// Whether a registration says all that it has to: an id of 1 to 128 bytes, a
/// registration id, and a spec with a key of 1 to 128 bytes and a name of 1 to 64
/// characters.
pub open spec fn proper_registration(registration: ParticipantRegistrationModel) -> bool {
    &&& registration.participant_id.len() > 0
    &&& vstd::utf8::encode_utf8(registration.participant_id).len() <= 128
    &&& registration.registration_id.len() > 0
    &&& registration.spec matches Some(spec) && spec.space_key.len() > 0
        && vstd::utf8::encode_utf8(spec.space_key).len() <= 128 && 1 <= spec.display_name.len()
        <= 64
}

proof fn lemma_registrations_fault(
    registrations: Seq<ParticipantRegistrationModel>,
    seen: Set<Seq<char>>,
)
    ensures
        crate::actor_model::registrations_fault(registrations, seen) is Ok <==> {
            &&& forall|i: int|
                0 <= i < registrations.len() ==> proper_registration(#[trigger] registrations[i])
                    && !seen.contains(registrations[i].participant_id)
            &&& forall|i: int, j: int|
                0 <= i < j < registrations.len() ==> (
                #[trigger] registrations[i]).participant_id != (
                #[trigger] registrations[j]).participant_id
        },
    decreases registrations.len(),
{
    if registrations.len() > 0 {
        let rest = registrations.drop_first();
        let first = registrations[0];
        let more = seen.insert(first.participant_id);
        lemma_registrations_fault(rest, more);
        assert forall|i: int| 0 < i < registrations.len() implies #[trigger] registrations[i]
            == rest[i - 1] by {}
        assert forall|i: int| 0 <= i < rest.len() implies #[trigger] rest[i] == registrations[i
            + 1] by {}
        if crate::actor_model::registrations_fault(registrations, seen) is Ok {
            assert forall|i: int| 0 <= i < registrations.len() implies proper_registration(
                #[trigger] registrations[i],
            ) && !seen.contains(registrations[i].participant_id) by {
                if i > 0 {
                    assert(proper_registration(rest[i - 1]));
                }
            }
            assert forall|i: int, j: int| 0 <= i < j < registrations.len() implies (
            #[trigger] registrations[i]).participant_id != (
            #[trigger] registrations[j]).participant_id by {
                assert(!more.contains(rest[j - 1].participant_id));
                if i > 0 {
                    assert(rest[i - 1].participant_id != rest[j - 1].participant_id);
                }
            }
        } else if (forall|i: int|
            0 <= i < registrations.len() ==> proper_registration(#[trigger] registrations[i])
                && !seen.contains(registrations[i].participant_id)) && (forall|i: int, j: int|
            0 <= i < j < registrations.len() ==> (#[trigger] registrations[i]).participant_id != (
            #[trigger] registrations[j]).participant_id) {
            assert(proper_registration(registrations[0]));
            assert forall|i: int| 0 <= i < rest.len() implies proper_registration(
                #[trigger] rest[i],
            ) && !more.contains(rest[i].participant_id) by {
                assert(proper_registration(registrations[i + 1]));
                assert(registrations[0].participant_id != registrations[i + 1].participant_id);
            }
            assert forall|i: int, j: int| 0 <= i < j < rest.len() implies (
            #[trigger] rest[i]).participant_id != (#[trigger] rest[j]).participant_id by {
                assert(registrations[i + 1].participant_id != registrations[j + 1].participant_id);
            }
        }
    }
}

/// The Spaces that a list of registrations asks for are those that their specs name.
pub proof fn the_desired_spaces_are_those_named(
    registrations: Seq<ParticipantRegistrationModel>,
    key: Seq<char>,
)
    ensures
        crate::actor_model::desired_spaces(registrations).finite(),
        crate::actor_model::desired_spaces(registrations).contains(key) <==> exists|i: int|
            0 <= i < registrations.len() && ((#[trigger] registrations[i]).spec matches Some(spec)
                && spec.space_key == key),
    decreases registrations.len(),
{
    if registrations.len() > 0 {
        let fewer = registrations.drop_last();
        let n = registrations.len() - 1;
        the_desired_spaces_are_those_named(fewer, key);
        assert(registrations.last() == registrations[n]);
        if exists|i: int|
            0 <= i < registrations.len() && ((#[trigger] registrations[i]).spec matches Some(spec)
                && spec.space_key == key) {
            let i = choose|i: int|
                0 <= i < registrations.len() && ((
                #[trigger] registrations[i]).spec matches Some(spec) && spec.space_key == key);
            if i < n {
                assert(fewer[i] == registrations[i]);
            }
        }
        if exists|i: int|
            0 <= i < fewer.len() && ((#[trigger] fewer[i]).spec matches Some(spec)
                && spec.space_key == key) {
            let i = choose|i: int|
                0 <= i < fewer.len() && ((#[trigger] fewer[i]).spec matches Some(spec)
                    && spec.space_key == key);
            assert(registrations[i] == fewer[i]);
        }
    }
}

/// A full snapshot is taken exactly where it is there, keeps to every limit, and names
/// proper registrations, no participant twice, and proper Space keys, none twice.
pub proof fn a_snapshot_is_taken_where_it_is_proper(
    config: crate::config::ControllerConfig,
    snapshot: Option<DesiredStateSnapshotModel>,
)
    ensures
        crate::actor_model::snapshot_fault(config, snapshot) is Ok <==> (snapshot matches Some(
            desired,
        ) && ({
            &&& desired.participants.len() <= config.max_participants_per_session
            &&& desired.participants.len() <= config.max_participants
            &&& desired.observed_space_keys.len() <= config.max_observations_per_session
            &&& forall|i: int|
                0 <= i < desired.participants.len() ==> proper_registration(
                    #[trigger] desired.participants[i],
                )
            &&& forall|i: int, j: int|
                0 <= i < j < desired.participants.len() ==> (
                #[trigger] desired.participants[i]).participant_id != (
                #[trigger] desired.participants[j]).participant_id
            &&& crate::actor_model::desired_spaces(desired.participants).len() <= config.max_spaces
            &&& forall|i: int|
                0 <= i < desired.observed_space_keys.len() ==> (
                #[trigger] desired.observed_space_keys[i]).len() > 0 && vstd::utf8::encode_utf8(
                    desired.observed_space_keys[i],
                ).len() <= 128
            &&& desired.observed_space_keys.no_duplicates()
        })),
{
    if let Some(desired) = snapshot {
        let keys = desired.observed_space_keys;
        lemma_registrations_fault(desired.participants, Set::empty());
        if exists|i: int|
            0 <= i < keys.len() && !crate::spaces::valid_space_key(#[trigger] keys[i]) {
            let i = choose|i: int|
                0 <= i < keys.len() && !crate::spaces::valid_space_key(#[trigger] keys[i]);
            assert(!(keys[i].len() > 0 && vstd::utf8::encode_utf8(keys[i]).len() <= 128));
        } else {
            assert forall|i: int| 0 <= i < keys.len() implies (#[trigger] keys[i]).len() > 0
                && vstd::utf8::encode_utf8(keys[i]).len() <= 128 by {
                assert(crate::spaces::valid_space_key(keys[i]));
            }
        }
    }
}

/// A registration is taken exactly where it is proper.
pub proof fn a_registration_is_taken_where_it_is_proper(
    registration: ParticipantRegistrationModel,
)
    ensures
        crate::actor_model::registration_fault(registration) is Ok <==> proper_registration(
            registration,
        ),
{
}

// Openings.

/// A session that opens is told its tokens, the epoch, the lease and the profile, on the
/// stream that asked, and listens there from then on. Its lease starts now.
pub proof fn an_opened_session_is_told_its_tokens(
    state: ActorModel,
    stream_id: u64,
    request_id: Seq<u8>,
    ready: crate::session::ReadyModel,
    snapshot: DesiredStateSnapshotModel,
    draws: Seq<RegistrationDrawsModel>,
    now: nat,
)
    requires
        state.core_sessions.sessions.dom().contains(ready.session_id),
        ready.resumed ==> state.sessions.dom().contains(ready.session_id)
            && state.reliable.sessions.dom().contains(ready.session_id),
        request_id.len() > 0,
    ensures
        ({
            let id = ready.session_id;
            let prepared = if ready.resumed {
                state
            } else {
                ActorModel {
                    reliable: state.reliable.attached(id),
                    sessions: state.sessions.insert(
                        id,
                        crate::actor_model::AttachedModel {
                            stream_id: None,
                            observations: ObservationsModel::none(),
                        },
                    ),
                    ..state
                }
            };
            let listening = prepared.stream_attached(id, stream_id, now);
            let greeted = listening.sent(id, welcome(state, request_id, ready));
            &&& state.session_opened(stream_id, request_id, ready, snapshot, draws, now)
                == greeted.snapshot_reconciled(id, snapshot, request_id, draws, now)
            &&& listening.stream_of(id) == Some(stream_id)
            &&& listening.streams[stream_id] == id
            &&& prepared.stream_of(id) matches Some(other) ==> other != stream_id
                ==> !listening.streams.dom().contains(other)
            &&& listening.core_sessions.sessions[id].expires_at == now
                + state.core_sessions.lease_duration
            &&& state.asks(
                greeted,
                EffectModel::Send {
                    session_id: id,
                    stream_id,
                    frame: welcome(state, request_id, ready),
                },
            )
        }),
{
    lemma_sent_adds();
    let id = ready.session_id;
    let prepared = if ready.resumed {
        state
    } else {
        ActorModel {
            reliable: state.reliable.attached(id),
            sessions: state.sessions.insert(
                id,
                crate::actor_model::AttachedModel {
                    stream_id: None,
                    observations: ObservationsModel::none(),
                },
            ),
            ..state
        }
    };
    let listening = prepared.stream_attached(id, stream_id, now);
    lemma_same_effects(state, listening);
    let frame = welcome(state, request_id, ready);
    assert(listening.reliable.sessions.dom().contains(id));
    assert(listening.asks(
        listening.sent(id, frame),
        EffectModel::Send { session_id: id, stream_id, frame },
    ));
}

/// What a session is told when it opens. The lease stands in whole seconds and the
/// nanoseconds that are left.
pub open spec fn welcome(
    state: ActorModel,
    request_id: Seq<u8>,
    ready: crate::session::ReadyModel,
) -> ServerFrameModel {
    ServerFrameModel {
        request_id,
        payload: Some(
            ServerPayloadModel::SessionReady(
                crate::messages::SessionReadyModel {
                    session_token: ready.session_token,
                    resume_token: ready.resume_token,
                    control_epoch: state.control_epoch,
                    lease_duration: Some(
                        crate::actor_model::written_duration(state.config.lease_duration@),
                    ),
                    profile: Some(crate::profile::written_profile(ready.profile)),
                },
            ),
        ),
    }
}

/// A span of time is written so that seconds and nanoseconds add up to it again.
pub proof fn a_written_duration_adds_up(nanos: nat)
    requires
        nanos / 1_000_000_000 <= i64::MAX,
    ensures
        ({
            let written = crate::actor_model::written_duration(nanos);
            &&& written.seconds * 1_000_000_000 + written.nanos == nanos
            &&& 0 <= written.nanos < 1_000_000_000
            &&& 0 <= written.seconds
        }),
{
}

/// An opening that is refused is answered on its stream, which then ends; the server is
/// as before. That comes of a request that does not name itself, its controller or its
/// instance, of a profile that is missing or not the server's own, and of a snapshot that
/// is not proper.
pub proof fn an_improper_opening_is_refused(
    state: ActorModel,
    stream_id: u64,
    request_id: Seq<u8>,
    open: crate::messages::OpenSessionModel,
    draws: crate::actor_model::DrawsModel,
    now: nat,
)
    requires
        request_id.len() == 0 || open.controller_id.len() == 0
            || open.controller_instance_id.len() == 0 || open.profile is None
            || crate::profile::requested_profile(open.profile->0, state.profile) is Err
            || crate::actor_model::snapshot_fault(state.config, open.desired_state) is Err,
    ensures
        ({
            let after = state.open_requested(stream_id, request_id, open, draws, now);
            &&& state.only_said(after)
            &&& after.effects.len() == state.effects.len() + 2
            &&& after.effects.take(state.effects.len() as int) == state.effects
            &&& after.effects[state.effects.len() as int] matches EffectModel::Reply {
                stream_id: told,
                frame,
            } && told == stream_id && frame.request_id == request_id && (
            frame.payload matches Some(ServerPayloadModel::CommandRejected(rejected))
                && rejected.code == 1)
            &&& after.effects[state.effects.len() as int + 1] matches EffectModel::EndStream {
                stream_id: ended,
                status,
                ..
            } && ended == stream_id && status
                == crate::actor_model::StreamStatus::FailedPrecondition
        }),
{
    let after = state.open_requested(stream_id, request_id, open, draws, now);
    assert(after.effects.take(state.effects.len() as int) =~= state.effects);
}

/// A stream that does not start with an opening is ended as invalid, and that is all.
pub proof fn a_stream_has_to_start_with_an_opening(
    state: ActorModel,
    stream_id: u64,
    frame: crate::messages::ClientFrameModel,
    draws: crate::actor_model::DrawsModel,
    now: nat,
)
    requires
        !(frame.payload matches Some(crate::messages::ClientPayloadModel::OpenSession(_))),
    ensures
        ({
            let after = state.opened(stream_id, frame, draws, now);
            &&& state.only_said(after)
            &&& after.effects.len() == state.effects.len() + 1
            &&& after.effects.last() matches EffectModel::EndStream { stream_id: ended, status, .. }
                && ended == stream_id && status
                == crate::actor_model::StreamStatus::InvalidArgument
        }),
{
}

// Registrations that are resumed, and what a snapshot leaves behind.

/// A session that registers its own registration again keeps its token and credential,
/// and is told both. A spec under a newer revision is taken; an older or equal one
/// changes nothing.
#[verifier::rlimit(50)]
pub proof fn a_registration_is_resumed(
    state: ActorModel,
    id: SessionId,
    registration: ParticipantRegistrationModel,
    request_id: Seq<u8>,
    mode: ClaimMode,
    now: nat,
)
    requires
        state.consistent(),
        state.sessions.dom().contains(id),
        proper_registration(registration),
        state.ownership.entries.dom().contains(registration.participant_id),
        state.ownership.entries[registration.participant_id].owner == id,
        state.ownership.entries[registration.participant_id].registration_id
            == registration.registration_id,
        mode == ClaimMode::Explicit
            || state.ownership.entries[registration.participant_id].fencing_token
            == registration.ownership_token,
    ensures
        ({
            let p = registration.participant_id;
            let was = state.participants[p];
            let owned = state.ownership.entries[p];
            let spec = registration.spec->0;
            let after = state.resumed(id, registration, request_id, mode, now);
            let newer = registration.client_spec_revision > owned.client_revision;
            &&& after.ownership.entries[p].owner == id
            &&& after.ownership.entries[p].fencing_token == owned.fencing_token
            &&& after.ownership.entries[p].registration_id == owned.registration_id
            &&& after.host == state.host
            &&& after.participants.dom() == state.participants.dom()
            &&& newer ==> after.participants[p].spec == spec
                && after.ownership.entries[p].client_revision == registration.client_spec_revision
            &&& !newer ==> after.participants == state.participants
                && after.ownership.entries[p].client_revision == owned.client_revision
            &&& after.participants[p].applied_spec_revision == was.applied_spec_revision
            &&& grants(state, after, id, request_id, p)
        }),
{
    lemma_adds();
    let p = registration.participant_id;
    let spec = registration.spec->0;
    let claim = crate::ownership::ClaimModel {
        entity_id: p,
        owner: id,
        registration_id: registration.registration_id,
        presented_fencing_token: registration.ownership_token,
        client_revision: registration.client_spec_revision,
        new_fencing_token: Seq::empty(),
        mode,
    };
    let outcome = state.ownership.claimed(claim);
    let claimed = ActorModel { ownership: outcome.0, ..state };
    lemma_same_effects(state, claimed);
    state.lemma_resumed(id, registration, request_id, mode, now);
    assert(state.participants.dom().contains(p));
    assert(state.ownership.resumable(claim));
    state.lemma_revision_consistent(p, registration.client_spec_revision);
    let newer = registration.client_spec_revision > state.ownership.entries[p].client_revision;
    let applied = if newer {
        claimed.spec_applied(p, spec, now)
    } else {
        claimed
    };
    if newer {
        claimed.lemma_spec_applied(p, spec, now);
        claimed.lemma_applied_consistent(p, spec, now);
        lemma_spec_applied_adds(claimed, p, spec, now);
        assert(applied.participants.dom() =~= state.participants.dom());
    }
    assert(state.adds(applied));
    lemma_grant_is_told(applied, id, applied.participants[p], request_id);
    assert(state.resumed(id, registration, request_id, mode, now) == applied.granted(
        id,
        applied.participants[p],
        request_id,
    ));
}

// What a session is counted.

impl ActorModel {
    /// The sessions of `after` have the leases, tokens and revisions that they had.
    #[verifier::opaque]
    pub open spec fn keeps_the_leases(self, after: Self) -> bool {
        &&& after.core_sessions.sessions.dom() == self.core_sessions.sessions.dom()
        &&& after.core_sessions.lease_duration == self.core_sessions.lease_duration
        &&& forall|id: SessionId| #[trigger]
            self.core_sessions.sessions.dom().contains(id) ==> {
                let was = self.core_sessions.sessions[id];
                let is = after.core_sessions.sessions[id];
                &&& is.desired_revision == was.desired_revision
                &&& is.expires_at == was.expires_at
                &&& is.session_token == was.session_token
                &&& is.resume_token == was.resume_token
                &&& is.profile == was.profile
            }
    }
}

proof fn lemma_leases()
    ensures
        forall|a: ActorModel| #[trigger] a.keeps_the_leases(a),
        forall|a: ActorModel, b: ActorModel, c: ActorModel| #[trigger]
            a.keeps_the_leases(b) && #[trigger] b.keeps_the_leases(c) ==> a.keeps_the_leases(c),
        forall|a: ActorModel, effect: EffectModel| a.keeps_the_leases(#[trigger] a.emitted(effect)),
{
    reveal(ActorModel::keeps_the_leases);
}

proof fn lemma_same_leases(a: ActorModel, b: ActorModel)
    requires
        a.core_sessions == b.core_sessions,
    ensures
        a.keeps_the_leases(b),
{
    reveal(ActorModel::keeps_the_leases);
}

proof fn lemma_sent_leases()
    ensures
        forall|a: ActorModel, id: SessionId, frame: ServerFrameModel|
            a.keeps_the_leases(#[trigger] a.sent(id, frame)),
{
    reveal(ActorModel::keeps_the_leases);
    assert forall|a: ActorModel, id: SessionId, frame: ServerFrameModel| a.keeps_the_leases(
        #[trigger] a.sent(id, frame),
    ) by {
        a.lemma_sent(id, frame);
    }
}

proof fn lemma_sent_to_each_leases(a: ActorModel, ids: Seq<SessionId>, frame: ServerFrameModel)
    ensures
        a.keeps_the_leases(a.sent_to_each(ids, frame)),
    decreases ids.len(),
{
    lemma_leases();
    lemma_sent_leases();
    if ids.len() > 0 {
        lemma_sent_to_each_leases(a.sent(ids[0], frame), ids.drop_first(), frame);
    }
}

proof fn lemma_snapshots_sent_leases(a: ActorModel, id: SessionId, keys: Seq<Seq<char>>)
    ensures
        a.keeps_the_leases(a.snapshots_sent(id, keys)),
    decreases keys.len(),
{
    lemma_leases();
    lemma_sent_leases();
    if keys.len() > 0 {
        let next = match a.snapshot_of(keys[0]) {
            None => a,
            Some(snapshot) => a.sent(
                id,
                framed(Seq::empty(), ServerPayloadModel::SpaceSnapshot(snapshot)),
            ),
        };
        lemma_snapshots_sent_leases(next, id, keys.drop_first());
    }
}

proof fn lemma_refreshed_leases()
    ensures
        forall|a: ActorModel, key: Seq<char>, now: nat|
            a.keeps_the_leases(#[trigger] a.space_refreshed(key, now)),
{
    assert forall|a: ActorModel, key: Seq<char>, now: nat| a.keeps_the_leases(
        #[trigger] a.space_refreshed(key, now),
    ) by {
        lemma_leases();
        if a.spaces.dom().contains(key) {
            let shown = published(a, key, now);
            lemma_same_leases(a, shown);
            if let Some(snapshot) = shown.snapshot_of(key) {
                lemma_sent_to_each_leases(
                    shown,
                    shown.observers(key),
                    framed(Seq::empty(), ServerPayloadModel::SpaceSnapshot(snapshot)),
                );
            }
            assert(a.space_refreshed(key, now) == shown.snapshot_broadcast(key));
        } else {
            lemma_same_leases(a, a.space_refreshed(key, now));
        }
    }
}

proof fn lemma_said_leases()
    ensures
        forall|a: ActorModel, p: Seq<char>| a.keeps_the_leases(#[trigger] a.status_sent(p)),
        forall|a: ActorModel, id: SessionId, participant: ParticipantModel, request_id: Seq<u8>|
            a.keeps_the_leases(#[trigger] a.granted(id, participant, request_id)),
        forall|
            a: ActorModel,
            id: SessionId,
            p: Seq<char>,
            registration_id: Seq<u8>,
            reason: OwnershipRevocationReason,
            request_id: Seq<u8>,
        |
            a.keeps_the_leases(#[trigger] a.revoked(id, p, registration_id, reason, request_id)),
        forall|
            a: ActorModel,
            id: SessionId,
            request_id: Seq<u8>,
            code: crate::messages::CommandErrorCode,
            message: Seq<char>,
        |
            a.keeps_the_leases(#[trigger] a.rejected(id, request_id, code, message)),
        forall|a: ActorModel, p: Seq<char>, key: Seq<char>|
            a.keeps_the_leases(#[trigger] a.connection_moved(p, key)),
        forall|a: ActorModel, key: Seq<char>, incarnation_id: Option<Seq<u8>>|
            a.keeps_the_leases((#[trigger] a.space_ensured(key, incarnation_id)).0),
{
    lemma_leases();
    lemma_sent_leases();
    assert forall|a: ActorModel, key: Seq<char>, incarnation_id: Option<Seq<u8>>|
        a.keeps_the_leases((#[trigger] a.space_ensured(key, incarnation_id)).0) by {
        lemma_same_leases(a, a.space_ensured(key, incarnation_id).0);
    }
}

proof fn lemma_released_leases(
    a: ActorModel,
    id: SessionId,
    p: Seq<char>,
    registration_id: Seq<u8>,
    token: Seq<u8>,
    reason: OwnershipRevocationReason,
    request_id: Option<Seq<u8>>,
    now: nat,
)
    ensures
        a.keeps_the_leases(
            a.released(id, p, registration_id, token, reason, request_id, now),
        ),
{
    lemma_leases();
    lemma_said_leases();
    lemma_refreshed_leases();
    let key = a.participants[p].spec.space_key;
    let forgotten = ActorModel {
        ownership: a.ownership.released(p, id, registration_id, token).0,
        participants: a.participants.remove(p),
        host: a.host.removed(p),
        ..a
    };
    lemma_same_leases(a, forgotten);
    let closed = match a.host.connection_of(p) {
        Some(connection) => forgotten.emitted(EffectModel::CloseConnection { connection }),
        None => forgotten,
    };
    assert(a.keeps_the_leases(closed));
    assert(a.keeps_the_leases(closed.space_refreshed(key, now)));
}

proof fn lemma_all_released_leases(
    a: ActorModel,
    id: SessionId,
    ids: Seq<Seq<char>>,
    reason: OwnershipRevocationReason,
    now: nat,
)
    ensures
        a.keeps_the_leases(a.all_released(id, ids, reason, now)),
    decreases ids.len(),
{
    lemma_leases();
    if ids.len() > 0 {
        let q = ids[0];
        let owned = a.ownership.entries[q];
        let next = if a.ownership.entries.dom().contains(q) {
            a.released(id, q, owned.registration_id, owned.fencing_token, reason, None, now)
        } else {
            a
        };
        lemma_released_leases(
            a,
            id,
            q,
            owned.registration_id,
            owned.fencing_token,
            reason,
            None,
            now,
        );
        lemma_all_released_leases(next, id, ids.drop_first(), reason, now);
    }
}

proof fn lemma_spec_applied_leases(
    a: ActorModel,
    p: Seq<char>,
    spec: ParticipantSpecModel,
    now: nat,
)
    ensures
        a.keeps_the_leases(a.spec_applied(p, spec, now)),
{
    lemma_leases();
    lemma_said_leases();
    lemma_refreshed_leases();
    let old_space = a.participants[p].spec.space_key;
    let changed = a.with_participant(p, ParticipantModel { spec, ..a.participants[p] });
    lemma_same_leases(a, changed);
    let first = changed.space_refreshed(old_space, now);
    assert(a.keeps_the_leases(first));
    assert(a.keeps_the_leases(first.space_refreshed(spec.space_key, now)));
}

proof fn lemma_spec_set_leases(
    a: ActorModel,
    id: SessionId,
    p: Seq<char>,
    token: Seq<u8>,
    revision: u64,
    spec: ParticipantSpecModel,
    request_id: Seq<u8>,
    incarnation_id: Option<Seq<u8>>,
    now: nat,
)
    ensures
        a.keeps_the_leases(
            a.spec_set(id, p, token, revision, spec, request_id, incarnation_id, now),
        ),
{
    lemma_leases();
    lemma_sent_leases();
    lemma_said_leases();
    let owned = a.ownership.entries[p];
    let ensured = a.space_ensured(spec.space_key, incarnation_id).0;
    let accepted = ActorModel {
        ownership: ensured.ownership.with(
            p,
            crate::ownership::OwnershipModel::at_revision(owned, revision),
        ),
        ..ensured
    };
    lemma_same_leases(ensured, accepted);
    lemma_spec_applied_leases(accepted, p, spec, now);
    assert(a.keeps_the_leases(ensured));
    assert(a.keeps_the_leases(accepted));
    assert(a.keeps_the_leases(accepted.spec_applied(p, spec, now)));
}

proof fn lemma_observations_leases(
    a: ActorModel,
    id: SessionId,
    revision: u64,
    keys: Seq<Seq<char>>,
    request_id: Seq<u8>,
)
    ensures
        a.keeps_the_leases(a.observations_replaced(id, revision, keys, request_id)),
{
    lemma_leases();
    lemma_sent_leases();
    lemma_said_leases();
    let replaced = a.sessions[id].observations.replaced(revision, keys.to_set());
    let observing = if a.sessions.dom().contains(id) {
        a.with_observations(id, replaced.0)
    } else {
        a
    };
    lemma_same_leases(a, observing);
    let frame = framed(
        request_id,
        ServerPayloadModel::ObservedSpacesAccepted(
            crate::messages::ObservedSpacesAcceptedModel { observed_spaces_revision: revision },
        ),
    );
    let answered = observing.sent(id, frame);
    assert(a.keeps_the_leases(answered));
    lemma_snapshots_sent_leases(answered, id, answered.observed_spaces(id));
}

/// A spec, a release and a list of observations that come under the session's token are
/// counted, whether or not they are then granted. No lease changes by it, nor what any
/// other session was counted.
#[verifier::rlimit(50)]
pub proof fn a_change_is_counted_for_its_session(
    state: ActorModel,
    id: SessionId,
    request_id: Seq<u8>,
    payload: crate::messages::ClientPayloadModel,
    draws: crate::actor_model::DrawsModel,
    now: nat,
    other: SessionId,
)
    requires
        state.consistent(),
        state.sessions.dom().contains(id),
        carried_token(payload) == Some(state.core_sessions.sessions[id].session_token),
        match payload {
            crate::messages::ClientPayloadModel::SetParticipantSpec(request) =>
                request.spec matches Some(spec) && crate::spaces::checked_spec(spec) is Ok,
            crate::messages::ClientPayloadModel::ReleaseParticipant(_) => true,
            crate::messages::ClientPayloadModel::ReplaceObservedSpaces(_) => true,
            _ => false,
        },
        state.core_sessions.sessions[id].desired_revision < u64::MAX,
        state.core_sessions.sessions.dom().contains(other),
        other != id,
    ensures
        ({
            let after = state.commanded(id, request_id, payload, draws, now);
            &&& after.core_sessions.sessions[id].desired_revision
                == state.core_sessions.sessions[id].desired_revision + 1
            &&& after.core_sessions.sessions[id].expires_at
                == state.core_sessions.sessions[id].expires_at
            &&& after.core_sessions.sessions[other].desired_revision
                == state.core_sessions.sessions[other].desired_revision
            &&& after.core_sessions.sessions[other].expires_at
                == state.core_sessions.sessions[other].expires_at
        }),
{
    let advanced = state.advanced(id);
    assert(state.core_sessions.sessions.dom().contains(id));
    assert(advanced.core_sessions.sessions.dom() =~= state.core_sessions.sessions.dom());
    reveal(ActorModel::keeps_the_leases);
    match payload {
        crate::messages::ClientPayloadModel::SetParticipantSpec(request) => {
            lemma_spec_set_leases(
                advanced,
                id,
                request.participant_id,
                request.ownership_token,
                request.client_spec_revision,
                request.spec->0,
                request_id,
                draws.registrations[0].incarnation_id,
                now,
            );
        },
        crate::messages::ClientPayloadModel::ReleaseParticipant(request) => {
            lemma_released_leases(
                advanced,
                id,
                request.participant_id,
                request.registration_id,
                request.ownership_token,
                OwnershipRevocationReason::ParticipantReleased,
                Some(request_id),
                now,
            );
        },
        crate::messages::ClientPayloadModel::ReplaceObservedSpaces(request) => {
            lemma_observations_leases(
                advanced,
                id,
                request.observed_spaces_revision,
                request.space_keys,
                request_id,
            );
        },
        _ => {},
    }
    assert(advanced.core_sessions.sessions.dom().contains(other));
    assert(advanced.core_sessions.sessions.dom().contains(id));
}

/// A fetch counts for nothing.
pub proof fn a_fetch_is_not_counted(
    state: ActorModel,
    id: SessionId,
    request_id: Seq<u8>,
    command: crate::messages::FetchSpaceModel,
    draws: crate::actor_model::DrawsModel,
    now: nat,
    other: SessionId,
)
    requires
        state.core_sessions.sessions.dom().contains(other),
    ensures
        ({
            let payload = crate::messages::ClientPayloadModel::FetchSpace(command);
            let after = state.commanded(id, request_id, payload, draws, now);
            &&& after.core_sessions.sessions[other].desired_revision
                == state.core_sessions.sessions[other].desired_revision
            &&& after.core_sessions.sessions[other].expires_at
                == state.core_sessions.sessions[other].expires_at
        }),
{
    lemma_sent_leases();
    lemma_said_leases();
    reveal(ActorModel::keeps_the_leases);
}

// Ends.

/// A session that closes is told so, and lets go of everything as released.
#[verifier::rlimit(50)]
pub proof fn a_closing_session_is_told(
    state: ActorModel,
    id: SessionId,
    request_id: Seq<u8>,
    command: crate::messages::CloseSessionModel,
    draws: crate::actor_model::DrawsModel,
    now: nat,
    p: Seq<char>,
)
    requires
        state.consistent(),
        state.sessions.dom().contains(id),
        state.core_sessions.sessions[id].session_token == command.session_token,
    ensures
        ({
            let payload = crate::messages::ClientPayloadModel::CloseSession(command);
            let after = state.commanded(id, request_id, payload, draws, now);
            &&& !after.sessions.dom().contains(id)
            &&& !after.core_sessions.sessions.dom().contains(id)
            &&& state.ownership.entries.dom().contains(p) && state.ownership.entries[p].owner == id
                ==> lets_go(state, after, p, 3) && !after.participants.dom().contains(p)
            &&& state.stream_of(id) matches Some(stream_id) ==> state.asks(
                after,
                EffectModel::Send {
                    session_id: id,
                    stream_id,
                    frame: ServerFrameModel {
                        request_id,
                        payload: Some(
                            ServerPayloadModel::SessionClosing(
                                crate::messages::SessionClosingModel {
                                    reason: "session closed by controller"@,
                                },
                            ),
                        ),
                    },
                },
            )
        }),
{
    lemma_adds();
    lemma_sent_adds();
    let payload = crate::messages::ClientPayloadModel::CloseSession(command);
    let after = state.commanded(id, request_id, payload, draws, now);
    let reason = OwnershipRevocationReason::ParticipantReleased;
    let frame = framed(
        request_id,
        ServerPayloadModel::SessionClosing(
            crate::messages::SessionClosingModel { reason: "session closed by controller"@ },
        ),
    );
    let told = state.sent(id, frame);
    assert(state.core_sessions.sessions.dom().contains(id));
    assert(state.reliable.sessions.dom().contains(id));
    state.lemma_sent(id, frame);
    state.lemma_sent_consistent(id, frame);
    assert(after == told.session_removed(id, reason, now));
    let owned = told.ownership.owned(id);
    let released = told.all_released(id, owned, reason, now);
    lemma_all_released_adds(told, id, owned, reason, now);
    lemma_same_effects(released, after);
    assert(told.adds(after));
    an_ending_session_lets_go_of_all(told, id, reason, now, p);
    crate::actor_laws::a_leaving_session_releases_its_own_participants(told, id, reason, now);
    if state.ownership.entries.dom().contains(p) && state.ownership.entries[p].owner == id {
        assert(state.participants.dom().contains(p));
        lemma_lets_go_from(state, told, after, p, 3);
    }
}

proof fn lemma_lets_go_from(
    before: ActorModel,
    a: ActorModel,
    after: ActorModel,
    p: Seq<char>,
    reason: i32,
)
    requires
        before.adds(a),
        before.only_said(a),
        lets_go(a, after, p, reason),
    ensures
        lets_go(before, after, p, reason),
{
    lemma_adds();
    let key = before.participants[p].spec.space_key;
    if before.spaces.dom().contains(key) {
        let desired = choose|desired: RenderStateModel|
            {
                &&& #[trigger] a.asks(after, EffectModel::Publish { desired })
                &&& desired.space_key == key
                &&& forall|i: int|
                    0 <= i < desired.participants.len() ==> (
                    #[trigger] desired.participants[i]).participant_id != p
            };
        assert(before.asks(after, EffectModel::Publish { desired }));
    }
}

/// A stream that ends is forgotten; its session listens nowhere, and all others listen
/// where they did.
pub proof fn an_ended_stream_is_silent(state: ActorModel, stream_id: u64, other: SessionId)
    requires
        state.consistent(),
        state.streams.dom().contains(stream_id),
        other != state.streams[stream_id],
    ensures
        ({
            let after = state.stream_ended(stream_id);
            let id = state.streams[stream_id];
            &&& !after.streams.dom().contains(stream_id)
            &&& after.stream_of(id) is None
            &&& after.stream_of(other) == state.stream_of(other)
            &&& after.sessions[id].observations == state.sessions[id].observations
            &&& after.effects == state.effects
        }),
{
    state.lemma_stream_has_a_session(stream_id);
}

/// A session whose receiver is gone listens nowhere, and its stream is forgotten.
pub proof fn a_lost_receiver_is_forgotten(state: ActorModel, id: SessionId, other: SessionId)
    requires
        state.consistent(),
        other != id,
    ensures
        ({
            let after = state.receiver_gone(id);
            &&& after.stream_of(id) is None
            &&& state.stream_of(id) matches Some(stream_id) ==> !after.streams.dom().contains(
                stream_id,
            )
            &&& after.stream_of(other) == state.stream_of(other)
            &&& after.effects == state.effects
        }),
{
}

/// Nothing falls due before the first deadline, and something does at it.
pub proof fn nothing_is_due_before_the_first_deadline(
    state: ActorModel,
    at: nat,
    now: nat,
    id: SessionId,
    key: Seq<char>,
)
    requires
        state.consistent(),
        state.first_deadline(Some(at)),
    ensures
        now < at ==> !state.core_sessions.expired(now).contains(id) && !state.due_spaces(
            now,
        ).contains(key),
        (exists|id: SessionId| #[trigger] state.core_sessions.expired(at).contains(id)) || (exists|
            key: Seq<char>,
        | #[trigger] state.due_spaces(at).contains(key)),
{
    crate::session::a_lease_ends_on_time(state.core_sessions, id, now);
    a_space_is_due_when_its_grace_ends(state, now, key);
    if exists|id: SessionId| #[trigger]
        state.core_sessions.sessions.dom().contains(id)
            && state.core_sessions.sessions[id].expires_at == at {
        let first = choose|id: SessionId| #[trigger]
            state.core_sessions.sessions.dom().contains(id)
                && state.core_sessions.sessions[id].expires_at == at;
        crate::session::a_lease_ends_on_time(state.core_sessions, first, at);
        assert(state.core_sessions.expired(at).contains(first));
    } else {
        let first = choose|key: Seq<char>| #[trigger]
            state.spaces.dom().contains(key) && state.spaces[key].close_deadline == Some(at);
        a_space_is_due_when_its_grace_ends(state, at, first);
        assert(state.due_spaces(at).contains(first));
    }
}

/// Where there is no deadline, nothing ever falls due.
pub proof fn without_a_deadline_nothing_falls_due(
    state: ActorModel,
    now: nat,
    id: SessionId,
    key: Seq<char>,
)
    requires
        state.consistent(),
        state.first_deadline(None),
    ensures
        !state.core_sessions.expired(now).contains(id),
        !state.due_spaces(now).contains(key),
{
    crate::session::a_lease_ends_on_time(state.core_sessions, id, now);
    a_space_is_due_when_its_grace_ends(state, now, key);
}

/// A Space that is not there is made, where there is room, under the incarnation that was
/// drawn for it: at its first revision, with nothing published, shown by a shard of its
/// own. One that is there is left as it is.
pub proof fn a_space_is_made_once(
    state: ActorModel,
    key: Seq<char>,
    incarnation_id: Option<Seq<u8>>,
    other: Seq<char>,
)
    requires
        other != key,
    ensures
        ({
            let (after, result) = state.space_ensured(key, incarnation_id);
            let known = state.spaces.dom().contains(key);
            let room = state.spaces.len() < state.config.max_spaces;
            &&& result is Ok <==> known || (room && incarnation_id is Some)
            &&& known || result is Err ==> after == state
            &&& !known && result is Ok ==> {
                &&& after.spaces.dom().contains(key)
                &&& after.spaces[key].incarnation_id == incarnation_id->0
                &&& after.spaces[key].space_revision == 0
                &&& after.spaces[key].published_generation == 0
                &&& after.spaces[key].close_deadline is None
                &&& state.asks(after, EffectModel::CreateShard { space_key: key })
                &&& after.effects.len() == state.effects.len() + 1
            }
            &&& after.spaces.dom().contains(other) == state.spaces.dom().contains(other)
            &&& after.spaces[other] == state.spaces[other]
            &&& after.participants == state.participants
        }),
{
    lemma_adds();
    if incarnation_id is Some {
        let stored = ActorModel {
            spaces: state.spaces.insert(
                key,
                crate::spaces::SpaceModel::fresh(incarnation_id->0),
            ),
            ..state
        };
        lemma_same_effects(state, stored);
        assert(stored.asks(
            stored.emitted(EffectModel::CreateShard { space_key: key }),
            EffectModel::CreateShard { space_key: key },
        ));
    }
}

/// An arrival is always answered, and with what was found out about it.
pub proof fn an_arrival_is_answered(
    state: ActorModel,
    connection: u64,
    credential: Option<Seq<char>>,
    draws: crate::actor_model::DrawsModel,
    now: nat,
)
    ensures
        ({
            let after = state.handled(
                crate::actor_model::CommandModel::Route { connection, credential },
                draws,
                now,
            );
            let (routed, answer) = state.routed(connection, credential, now);
            &&& after.effects.len() == routed.effects.len() + 1
            &&& after.effects.last() matches EffectModel::RouteReply { connection: told, result }
                && told == connection && result == answer
            &&& after.host == routed.host
            &&& after.participants == routed.participants
        }),
{
}

/// A request that was answered is answered again with the same frame, and nothing else
/// happens.
pub proof fn a_repeated_request_gets_the_same_answer(
    state: ActorModel,
    stream_id: u64,
    frame: crate::messages::ClientFrameModel,
    draws: crate::actor_model::DrawsModel,
    now: nat,
)
    requires
        state.consistent(),
        state.streams.dom().contains(stream_id),
        frame.request_id.len() > 0,
        frame.payload is Some,
        frame.payload->0 !is OpenSession,
        state.reliable.sessions[state.streams[stream_id]].results.dom().contains(
            frame.request_id,
        ),
    ensures
        ({
            let id = state.streams[stream_id];
            let after = state.framed_command(stream_id, frame, draws, now);
            &&& after.effects.len() == state.effects.len() + 1
            &&& after.effects.last() matches EffectModel::Send {
                session_id,
                stream_id: to,
                frame: told,
            } && session_id == id && to == stream_id && told
                == state.reliable.sessions[id].results[frame.request_id]
            &&& after.participants == state.participants
            &&& after.ownership == state.ownership
            &&& after.core_sessions == state.core_sessions
            &&& after.reliable == state.reliable
            &&& after.spaces == state.spaces
        }),
{
    state.lemma_stream_has_a_session(stream_id);
    assert(state.reliable.sessions.dom().contains(state.streams[stream_id]));
}

/// Where there is no room, for another participant at all or for another one of this
/// session, a registration is refused for want of resources, and nothing else happens.
pub proof fn a_full_server_registers_nobody(
    state: ActorModel,
    id: SessionId,
    registration: ParticipantRegistrationModel,
    request_id: Seq<u8>,
    draws: RegistrationDrawsModel,
    now: nat,
)
    requires
        state.consistent(),
        state.sessions.dom().contains(id),
        proper_registration(registration),
        !(state.ownership.entries.dom().contains(registration.participant_id)
            && state.ownership.entries[registration.participant_id].owner == id),
        state.ownership.owned(id).len() >= state.config.max_participants_per_session || (
        !state.ownership.entries.dom().contains(registration.participant_id)
            && state.participants.len() >= state.config.max_participants),
    ensures
        ({
            let after = state.registered_explicitly(id, registration, request_id, draws, now);
            &&& state.only_said(after)
            &&& state.stream_of(id) matches Some(stream_id) ==> refuses(
                state,
                after,
                id,
                stream_id,
                request_id,
                6,
            )
        }),
{
    let p = registration.participant_id;
    let exhausted = crate::messages::CommandErrorCode::ResourceExhausted;
    assert(state.reliable.sessions.dom().contains(id));
    assert(state.participants.dom().contains(p) == state.ownership.entries.dom().contains(p));
    assert(state.host.participants.dom().contains(p) == state.ownership.entries.dom().contains(p));
    assert(state.acquisition_fault(id, p) is Some);
    let (code, message) = state.acquisition_fault(id, p)->Some_0;
    assert(code == exhausted);
    lemma_refused(state, id, request_id, exhausted, message);
    state.lemma_rejected(id, request_id, exhausted, message);
    assert(state.registered_explicitly(id, registration, request_id, draws, now)
        == state.rejected(id, request_id, exhausted, message));
}

/// A session observes exactly what its last snapshot names, and is told that the snapshot
/// was taken. It is then told of every Space that it watches.
#[verifier::rlimit(50)]
pub proof fn a_snapshot_is_answered(
    state: ActorModel,
    id: SessionId,
    snapshot: DesiredStateSnapshotModel,
    request_id: Seq<u8>,
    draws: Seq<RegistrationDrawsModel>,
    now: nat,
    key: Seq<char>,
)
    requires
        state.consistent(),
        state.sessions.dom().contains(id),
    ensures
        ({
            let after = state.snapshot_reconciled(id, snapshot, request_id, draws, now);
            &&& after.sessions[id].observations.explicit.contains(key)
                <==> snapshot.observed_space_keys.contains(key)
            &&& after.sessions[id].stream_id == state.sessions[id].stream_id
            &&& state.stream_of(id) matches Some(stream_id) ==> {
                &&& state.asks(
                    after,
                    EffectModel::Send {
                        session_id: id,
                        stream_id,
                        frame: ServerFrameModel {
                            request_id,
                            payload: Some(
                                ServerPayloadModel::DesiredStateReconciled(
                                    DesiredStateReconciledModel {
                                        desired_state_revision: snapshot.desired_state_revision,
                                    },
                                ),
                            ),
                        },
                    },
                )
                &&& watches(after, id, key) && after.spaces.dom().contains(key)
                    ==> tells_the_session(state, after, id, stream_id, key)
            }
        }),
{
    lemma_adds();
    lemma_sent_adds();
    let after = state.snapshot_reconciled(id, snapshot, request_id, draws, now);
    let desired = registered_ids(snapshot.participants);
    let dropped = state.ownership.owned(id).filter(|p: Seq<char>| !desired.contains(p));
    let reason = OwnershipRevocationReason::ParticipantReleased;
    state.lemma_all_released(id, dropped, reason, now);
    lemma_all_released_adds(state, id, dropped, reason, now);
    let trimmed = state.all_released(id, dropped, reason, now);
    trimmed.lemma_desired_revision_consistent(id, snapshot.desired_state_revision);
    let revised = ActorModel {
        core_sessions: trimmed.core_sessions.with_desired_revision(
            id,
            snapshot.desired_state_revision,
        ),
        ..trimmed
    };
    let observations = ObservationsModel {
        explicit: snapshot.observed_space_keys.to_set(),
        ..revised.sessions[id].observations
    };
    revised.lemma_observations_consistent(id, observations);
    let observing = revised.with_observations(id, observations);
    lemma_same_effects(trimmed, observing);
    observing.lemma_all_registered(id, snapshot.participants, request_id, draws, now);
    lemma_all_registered_adds(observing, id, snapshot.participants, request_id, draws, now);
    let registered = observing.all_registered(id, snapshot.participants, request_id, draws, now);
    let frame = framed(
        request_id,
        ServerPayloadModel::DesiredStateReconciled(
            DesiredStateReconciledModel {
                desired_state_revision: snapshot.desired_state_revision,
            },
        ),
    );
    let answered = registered.sent(id, frame);
    registered.lemma_sent(id, frame);
    registered.lemma_sent_consistent(id, frame);
    assert(registered.reliable.sessions.dom().contains(id));
    answered.lemma_snapshots_sent(id, answered.observed_spaces(id));
    lemma_snapshots_sent_adds(answered, id, answered.observed_spaces(id));
    assert(after == answered.effective_snapshots_sent(id));
    assert(after.sessions == observing.sessions);
    assert(snapshot.observed_space_keys.to_set().contains(key)
        == snapshot.observed_space_keys.contains(key));
    assert(state.adds(registered));
    assert(state.adds(answered));
    if let Some(stream_id) = state.stream_of(id) {
        assert(registered.stream_of(id) == Some(stream_id));
        if watches(after, id, key) && after.spaces.dom().contains(key) {
            assert(watches(answered, id, key));
            lemma_watched_spaces_are_told(answered, id, key, stream_id);
            lemma_told_still(state, answered, after, id, stream_id, key);
        }
    }
}

proof fn lemma_resumed_leases(
    a: ActorModel,
    id: SessionId,
    registration: ParticipantRegistrationModel,
    request_id: Seq<u8>,
    mode: ClaimMode,
    now: nat,
)
    ensures
        a.keeps_the_leases(a.resumed(id, registration, request_id, mode, now)),
{
    lemma_leases();
    lemma_said_leases();
    let p = registration.participant_id;
    let claim = crate::ownership::ClaimModel {
        entity_id: p,
        owner: id,
        registration_id: registration.registration_id,
        presented_fencing_token: registration.ownership_token,
        client_revision: registration.client_spec_revision,
        new_fencing_token: Seq::empty(),
        mode,
    };
    let claimed = ActorModel { ownership: a.ownership.claimed(claim).0, ..a };
    lemma_same_leases(a, claimed);
    if registration.spec is Some {
        lemma_spec_applied_leases(claimed, p, registration.spec->0, now);
        assert(a.keeps_the_leases(claimed.spec_applied(p, registration.spec->0, now)));
    }
}

/// To acquire a participant counts for the session that it is taken from, and for no
/// other one.
#[verifier::rlimit(50)]
proof fn lemma_acquired_leases(
    a: ActorModel,
    id: SessionId,
    registration: ParticipantRegistrationModel,
    request_id: Seq<u8>,
    mode: ClaimMode,
    draws: RegistrationDrawsModel,
    now: nat,
)
    ensures
        ({
            let after = a.acquired(id, registration, request_id, mode, draws, now);
            let p = registration.participant_id;
            ||| a.keeps_the_leases(after)
            ||| a.ownership.entries.dom().contains(p) && mode == ClaimMode::Explicit && a.advanced(
                a.ownership.entries[p].owner,
            ).keeps_the_leases(after)
        }),
{
    lemma_leases();
    lemma_said_leases();
    lemma_refreshed_leases();
    let p = registration.participant_id;
    if registration.spec is Some && draws.ownership_token is Some && draws.join_token is Some {
        let spec = registration.spec->0;
        let ensured = a.space_ensured(spec.space_key, draws.incarnation_id).0;
        assert(a.keeps_the_leases(ensured));
        let claim = crate::ownership::ClaimModel {
            entity_id: p,
            owner: id,
            registration_id: registration.registration_id,
            presented_fencing_token: registration.ownership_token,
            client_revision: registration.client_spec_revision,
            new_fencing_token: draws.ownership_token->0,
            mode,
        };
        let claimed = ActorModel { ownership: ensured.ownership.claimed(claim).0, ..ensured };
        lemma_same_leases(ensured, claimed);
        assert(a.keeps_the_leases(claimed));
        if let Ok(crate::ownership::ClaimOutcomeModel::Acquired { previous, .. }) =
            ensured.ownership.claimed(claim).1 {
            let start = match previous {
                None => claimed,
                Some(owned) => claimed.advanced(owned.owner),
            };
            lemma_installed_leases(
                claimed,
                start,
                id,
                registration,
                spec,
                request_id,
                previous,
                draws.join_token->0,
                now,
            );
            if let Some(owned) = previous {
                lemma_same_leases(a.advanced(owned.owner), start);
            }
        }
    } else if registration.spec is Some {
        let ensured = a.space_ensured(registration.spec->0.space_key, draws.incarnation_id).0;
        assert(a.keeps_the_leases(ensured));
    }
}

#[verifier::rlimit(50)]
proof fn lemma_installed_leases(
    a: ActorModel,
    start: ActorModel,
    id: SessionId,
    registration: ParticipantRegistrationModel,
    spec: ParticipantSpecModel,
    request_id: Seq<u8>,
    previous: Option<crate::ownership::OwnedModel>,
    join_token: Seq<char>,
    now: nat,
)
    requires
        start == match previous {
            None => a,
            Some(owned) => a.advanced(owned.owner),
        },
    ensures
        ({
            let after = a.installed(
                id,
                registration,
                spec,
                request_id,
                previous,
                join_token,
                now,
            );
            &&& a.keeps_the_leases(after) || start.keeps_the_leases(after)
            &&& previous is None || a.participants.dom().contains(registration.participant_id)
                ==> start.keeps_the_leases(after)
        }),
{
    lemma_leases();
    lemma_said_leases();
    lemma_refreshed_leases();
    let p = registration.participant_id;
    let replaced = a.participants[p];
    let informed = match previous {
        None => a,
        Some(owned) => start.revoked(
            owned.owner,
            replaced.participant_id,
            owned.registration_id,
            OwnershipRevocationReason::OwnershipReplaced,
            Seq::empty(),
        ),
    };
    assert(start.keeps_the_leases(informed));
    let participant = ParticipantModel {
        participant_id: p,
        applied_spec_revision: 0,
        applied_space_key: if previous is Some {
            replaced.applied_space_key
        } else {
            None
        },
        published_generation: if previous is Some {
            replaced.published_generation
        } else {
            0
        },
        spec,
        self_mute: previous is Some && replaced.self_mute,
        self_deaf: previous is Some && replaced.self_deaf,
        application_error: Seq::empty(),
    };
    let bound = informed.host.registered(p, join_token);
    let stored = (ActorModel { host: bound.0, ..informed }).with_participant(p, participant);
    lemma_same_leases(informed, stored);
    assert(start.keeps_the_leases(stored));
    let old_space = informed.participants[p].spec.space_key;
    let left = stored.space_refreshed(old_space, now);
    let entered = left.space_refreshed(spec.space_key, now);
    let moved = entered.connection_moved(p, spec.space_key);
    let stayed = stored.space_refreshed(spec.space_key, now);
    assert(start.keeps_the_leases(left));
    assert(start.keeps_the_leases(entered));
    assert(start.keeps_the_leases(moved));
    assert(start.keeps_the_leases(stayed));
    assert(start.keeps_the_leases(moved.granted(id, participant, request_id)));
    assert(start.keeps_the_leases(stayed.granted(id, participant, request_id)));
}

/// A registration is counted for its session, and where it takes the participant from
/// another one, for that one too; for no third, and no lease changes by it.
#[verifier::rlimit(50)]
pub proof fn a_registration_is_counted(
    state: ActorModel,
    id: SessionId,
    request_id: Seq<u8>,
    registration: ParticipantRegistrationModel,
    session_token: Seq<u8>,
    draws: crate::actor_model::DrawsModel,
    now: nat,
    other: SessionId,
)
    requires
        state.consistent(),
        state.sessions.dom().contains(id),
        session_token == state.core_sessions.sessions[id].session_token,
        proper_registration(registration),
        state.core_sessions.sessions[id].desired_revision + 1 < u64::MAX,
        state.core_sessions.sessions.dom().contains(other),
        other != id,
        state.core_sessions.sessions[other].desired_revision < u64::MAX,
    ensures
        ({
            let payload = crate::messages::ClientPayloadModel::RegisterParticipant(
                crate::messages::RegisterParticipantModel {
                    session_token,
                    participant: Some(registration),
                },
            );
            let after = state.commanded(id, request_id, payload, draws, now);
            let p = registration.participant_id;
            let owned = state.ownership.entries[p];
            let was = state.core_sessions.sessions[other].desired_revision;
            let is = after.core_sessions.sessions[other].desired_revision;
            &&& after.core_sessions.sessions[id].desired_revision
                >= state.core_sessions.sessions[id].desired_revision + 1
            &&& after.core_sessions.sessions[id].expires_at
                == state.core_sessions.sessions[id].expires_at
            &&& after.core_sessions.sessions[other].expires_at
                == state.core_sessions.sessions[other].expires_at
            &&& !(state.ownership.entries.dom().contains(p) && owned.owner == other) ==> is == was
            &&& is == was || is == was + 1
            &&& !(state.ownership.entries.dom().contains(p) && owned.owner == id)
                ==> after.core_sessions.sessions[id].desired_revision
                == state.core_sessions.sessions[id].desired_revision + 1
        }),
{
    let p = registration.participant_id;
    let advanced = state.advanced(id);
    let payload = crate::messages::ClientPayloadModel::RegisterParticipant(
        crate::messages::RegisterParticipantModel {
            session_token,
            participant: Some(registration),
        },
    );
    let after = state.commanded(id, request_id, payload, draws, now);
    assert(state.core_sessions.sessions.dom().contains(id));
    assert(advanced.core_sessions.sessions.dom() =~= state.core_sessions.sessions.dom());
    assert(after == advanced.registered_explicitly(
        id,
        registration,
        request_id,
        draws.registrations[0],
        now,
    ));
    lemma_resumed_leases(advanced, id, registration, request_id, ClaimMode::Explicit, now);
    lemma_acquired_leases(
        advanced,
        id,
        registration,
        request_id,
        ClaimMode::Explicit,
        draws.registrations[0],
        now,
    );
    let twice = advanced.advanced(advanced.ownership.entries[p].owner);
    assert(twice.core_sessions.sessions.dom() =~= state.core_sessions.sessions.dom());
    reveal(ActorModel::keeps_the_leases);
    assert(advanced.core_sessions.sessions.dom().contains(other));
    assert(advanced.core_sessions.sessions.dom().contains(id));
    assert(twice.core_sessions.sessions.dom().contains(other));
    assert(twice.core_sessions.sessions.dom().contains(id));
}

proof fn lemma_sessions_let_go(
    a: ActorModel,
    ids: Seq<SessionId>,
    reason: OwnershipRevocationReason,
    now: nat,
    p: Seq<char>,
)
    requires
        a.consistent(),
        a.ownership.entries.dom().contains(p),
        ids.contains(a.ownership.entries[p].owner),
    ensures
        lets_go(a, a.sessions_removed(ids, reason, now), p, reason.number()),
    decreases ids.len(),
{
    lemma_adds();
    let owner = a.ownership.entries[p].owner;
    let id = ids[0];
    let rest = ids.drop_first();
    let owned = a.ownership.owned(id);
    let released = a.all_released(id, owned, reason, now);
    let next = a.session_removed(id, reason, now);
    let after = a.sessions_removed(ids, reason, now);
    a.lemma_session_removed(id, reason, now);
    lemma_all_released_adds(a, id, owned, reason, now);
    lemma_same_effects(released, next);
    assert(a.adds(next));
    lemma_sessions_removed_adds(next, rest, reason, now);
    if owner == id {
        an_ending_session_lets_go_of_all(a, id, reason, now, p);
        lemma_let_go_lasts(a, next, after, p, reason.number());
    } else {
        let k = choose|k: int| 0 <= k < ids.len() && ids[k] == owner;
        assert(rest[k - 1] == owner);
        assert(next.ownership.entries.dom().contains(p));
        lemma_sessions_let_go(next, rest, reason, now, p);
        let key = a.participants[p].spec.space_key;
        if a.spaces.dom().contains(key) {
            let desired = choose|desired: RenderStateModel|
                {
                    &&& #[trigger] next.asks(after, EffectModel::Publish { desired })
                    &&& desired.space_key == key
                    &&& forall|i: int|
                        0 <= i < desired.participants.len() ==> (
                        #[trigger] desired.participants[i]).participant_id != p
                };
            assert(a.asks(after, EffectModel::Publish { desired }));
        }
    }
}

proof fn lemma_sessions_removed_adds(
    a: ActorModel,
    ids: Seq<SessionId>,
    reason: OwnershipRevocationReason,
    now: nat,
)
    requires
        a.consistent(),
    ensures
        a.adds(a.sessions_removed(ids, reason, now)),
    decreases ids.len(),
{
    lemma_adds();
    if ids.len() > 0 {
        let owned = a.ownership.owned(ids[0]);
        let released = a.all_released(ids[0], owned, reason, now);
        let next = a.session_removed(ids[0], reason, now);
        a.lemma_session_removed(ids[0], reason, now);
        lemma_all_released_adds(a, ids[0], owned, reason, now);
        lemma_same_effects(released, next);
        lemma_sessions_removed_adds(next, ids.drop_first(), reason, now);
    }
}

proof fn lemma_spaces_closed_adds(a: ActorModel, keys: Seq<Seq<char>>)
    ensures
        a.adds(a.spaces_closed(keys)),
    decreases keys.len(),
{
    lemma_adds();
    if keys.len() > 0 {
        let key = keys[0];
        let next = a.space_closed(key);
        if !(a.is_inhabited(key) || !a.spaces.dom().contains(key)) {
            let forgotten = ActorModel { spaces: a.spaces.remove(key), ..a };
            lemma_same_effects(a, forgotten);
            let closed = forgotten.emitted(
                EffectModel::DestroyShard { space_key: key, reason: "empty Space grace elapsed"@ },
            );
            let space = a.spaces[key];
            lemma_sent_to_each_adds(
                closed,
                in_order::<SessionId>(closed.sessions.dom()).filter(
                    |id: SessionId| closed.sessions[id].observations.explicit.contains(key),
                ),
                framed(
                    Seq::empty(),
                    ServerPayloadModel::SpaceClosed(
                        crate::messages::SpaceClosedModel {
                            space_key: key,
                            incarnation_id: space.incarnation_id,
                            final_space_revision: space.space_revision,
                        },
                    ),
                ),
            );
            assert(forgotten.adds(closed));
            assert(a.adds(closed));
        }
        assert(a.adds(next));
        lemma_spaces_closed_adds(next, keys.drop_first());
    }
}

/// What a session owned whose lease has run out is let go of as expired: its connections
/// are closed, the session is told, and its Spaces are rendered without it.
pub proof fn an_expired_session_lets_go_of_all(state: ActorModel, now: nat, p: Seq<char>)
    requires
        state.consistent(),
        state.ownership.entries.dom().contains(p),
        state.core_sessions.sessions[state.ownership.entries[p].owner].expires_at <= now,
    ensures
        lets_go(state, state.due_expired(now), p, 2),
        !state.due_expired(now).participants.dom().contains(p),
{
    let owner = state.ownership.entries[p].owner;
    let reason = OwnershipRevocationReason::SessionExpired;
    let ids = state.core_sessions.expired(now);
    assert(state.sessions.dom().contains(owner));
    assert(state.core_sessions.sessions.dom().contains(owner));
    crate::session::a_lease_ends_on_time(state.core_sessions, owner, now);
    lemma_sessions_let_go(state, ids, reason, now, p);
    let left = state.sessions_removed(ids, reason, now);
    lemma_spaces_closed_adds(left, left.due_spaces(now));
    lemma_let_go_lasts(state, left, state.due_expired(now), p, 2);
    crate::actor_laws::only_what_is_due_expires(state, now);
    let after = state.due_expired(now);
    assert(after.participants.dom().contains(p) ==> after.sessions.dom().contains(owner));
}

proof fn lemma_all_registered_leases(
    a: ActorModel,
    id: SessionId,
    registrations: Seq<ParticipantRegistrationModel>,
    request_id: Seq<u8>,
    draws: Seq<RegistrationDrawsModel>,
    now: nat,
)
    ensures
        a.keeps_the_leases(a.all_registered(id, registrations, request_id, draws, now)),
    decreases registrations.len(),
{
    lemma_leases();
    lemma_said_leases();
    if registrations.len() > 0 {
        let next = a.registered_from_snapshot(id, registrations[0], request_id, draws[0], now);
        lemma_acquired_leases(
            a,
            id,
            registrations[0],
            request_id,
            ClaimMode::Snapshot,
            draws[0],
            now,
        );
        lemma_resumed_leases(a, id, registrations[0], request_id, ClaimMode::Snapshot, now);
        assert(a.keeps_the_leases(next));
        lemma_all_registered_leases(
            next,
            id,
            registrations.drop_first(),
            request_id,
            draws.drop_first(),
            now,
        );
    }
}

/// The revision of a snapshot is the session's from then on. Neither its lease nor its
/// token changes by it, nor anything of another session.
#[verifier::rlimit(50)]
pub proof fn a_snapshot_sets_the_revision(
    state: ActorModel,
    id: SessionId,
    snapshot: DesiredStateSnapshotModel,
    request_id: Seq<u8>,
    draws: Seq<RegistrationDrawsModel>,
    now: nat,
    other: SessionId,
)
    requires
        state.core_sessions.sessions.dom().contains(id),
        state.core_sessions.sessions.dom().contains(other),
        other != id,
    ensures
        ({
            let after = state.snapshot_reconciled(id, snapshot, request_id, draws, now);
            let was = state.core_sessions.sessions;
            let is = after.core_sessions.sessions;
            &&& is[id].desired_revision == snapshot.desired_state_revision
            &&& is[id].expires_at == was[id].expires_at
            &&& is[id].session_token == was[id].session_token
            &&& is[other].desired_revision == was[other].desired_revision
            &&& is[other].expires_at == was[other].expires_at
            &&& is[other].session_token == was[other].session_token
        }),
{
    lemma_leases();
    lemma_sent_leases();
    let desired = registered_ids(snapshot.participants);
    let dropped = state.ownership.owned(id).filter(|p: Seq<char>| !desired.contains(p));
    let reason = OwnershipRevocationReason::ParticipantReleased;
    let trimmed = state.all_released(id, dropped, reason, now);
    lemma_all_released_leases(state, id, dropped, reason, now);
    let revised = ActorModel {
        core_sessions: trimmed.core_sessions.with_desired_revision(
            id,
            snapshot.desired_state_revision,
        ),
        ..trimmed
    };
    let observing = if revised.sessions.dom().contains(id) {
        revised.with_observations(
            id,
            ObservationsModel {
                explicit: snapshot.observed_space_keys.to_set(),
                ..revised.sessions[id].observations
            },
        )
    } else {
        revised
    };
    lemma_same_leases(revised, observing);
    lemma_all_registered_leases(observing, id, snapshot.participants, request_id, draws, now);
    let registered = observing.all_registered(id, snapshot.participants, request_id, draws, now);
    let frame = framed(
        request_id,
        ServerPayloadModel::DesiredStateReconciled(
            DesiredStateReconciledModel {
                desired_state_revision: snapshot.desired_state_revision,
            },
        ),
    );
    let answered = registered.sent(id, frame);
    lemma_snapshots_sent_leases(answered, id, answered.observed_spaces(id));
    let after = answered.effective_snapshots_sent(id);
    assert(after == state.snapshot_reconciled(id, snapshot, request_id, draws, now));
    assert(revised.keeps_the_leases(after));
    reveal(ActorModel::keeps_the_leases);
    assert(trimmed.core_sessions.sessions.dom().contains(id));
    assert(trimmed.core_sessions.sessions.dom().contains(other));
    assert(revised.core_sessions.sessions.dom().contains(id));
    assert(revised.core_sessions.sessions.dom().contains(other));
}

proof fn lemma_released_always_adds(
    a: ActorModel,
    id: SessionId,
    p: Seq<char>,
    registration_id: Seq<u8>,
    token: Seq<u8>,
    reason: OwnershipRevocationReason,
    request_id: Option<Seq<u8>>,
    now: nat,
)
    ensures
        a.adds(a.released(id, p, registration_id, token, reason, request_id, now)),
{
    lemma_adds();
    lemma_status_sent_adds();
    lemma_refreshed_adds_always();
    let key = a.participants[p].spec.space_key;
    let forgotten = ActorModel {
        ownership: a.ownership.released(p, id, registration_id, token).0,
        participants: a.participants.remove(p),
        host: a.host.removed(p),
        ..a
    };
    lemma_same_effects(a, forgotten);
    let closed = match a.host.connection_of(p) {
        Some(connection) => forgotten.emitted(EffectModel::CloseConnection { connection }),
        None => forgotten,
    };
    assert(forgotten.adds(closed));
    assert(a.adds(closed));
    assert(a.adds(closed.space_refreshed(key, now)));
}

proof fn lemma_all_released_always_adds(
    a: ActorModel,
    id: SessionId,
    ids: Seq<Seq<char>>,
    reason: OwnershipRevocationReason,
    now: nat,
)
    ensures
        a.adds(a.all_released(id, ids, reason, now)),
    decreases ids.len(),
{
    lemma_adds();
    if ids.len() > 0 {
        let q = ids[0];
        let owned = a.ownership.entries[q];
        let next = if a.ownership.entries.dom().contains(q) {
            a.released(id, q, owned.registration_id, owned.fencing_token, reason, None, now)
        } else {
            a
        };
        lemma_released_always_adds(
            a,
            id,
            q,
            owned.registration_id,
            owned.fencing_token,
            reason,
            None,
            now,
        );
        lemma_all_released_always_adds(next, id, ids.drop_first(), reason, now);
    }
}

proof fn lemma_snapshot_reconciled_adds(
    a: ActorModel,
    id: SessionId,
    snapshot: DesiredStateSnapshotModel,
    request_id: Seq<u8>,
    draws: Seq<RegistrationDrawsModel>,
    now: nat,
)
    ensures
        a.adds(a.snapshot_reconciled(id, snapshot, request_id, draws, now)),
{
    lemma_adds();
    let desired = registered_ids(snapshot.participants);
    let dropped = a.ownership.owned(id).filter(|p: Seq<char>| !desired.contains(p));
    let reason = OwnershipRevocationReason::ParticipantReleased;
    let trimmed = a.all_released(id, dropped, reason, now);
    lemma_all_released_always_adds(a, id, dropped, reason, now);
    let revised = ActorModel {
        core_sessions: trimmed.core_sessions.with_desired_revision(
            id,
            snapshot.desired_state_revision,
        ),
        ..trimmed
    };
    let observing = if revised.sessions.dom().contains(id) {
        revised.with_observations(
            id,
            ObservationsModel {
                explicit: snapshot.observed_space_keys.to_set(),
                ..revised.sessions[id].observations
            },
        )
    } else {
        revised
    };
    lemma_same_effects(trimmed, observing);
    let frame = framed(
        request_id,
        ServerPayloadModel::DesiredStateReconciled(
            DesiredStateReconciledModel {
                desired_state_revision: snapshot.desired_state_revision,
            },
        ),
    );
    lemma_registered_and_answered_adds(
        observing,
        id,
        snapshot.participants,
        request_id,
        draws,
        now,
        frame,
    );
    assert(a.adds(observing));
}

/// A proper opening gets a session, where there is room and the tokens that were drawn are
/// fresh ones. The session listens on the stream that asked, and is told the session token
/// that was drawn for it. A controller that resumes keeps its resume token; another one
/// gets the one that was drawn.
#[verifier::rlimit(50)]
pub proof fn a_proper_opening_gets_a_session(
    state: ActorModel,
    stream_id: u64,
    request_id: Seq<u8>,
    open: crate::messages::OpenSessionModel,
    draws: crate::actor_model::DrawsModel,
    now: nat,
    id: SessionId,
)
    requires
        state.consistent(),
        state.core_sessions.valid(),
        !state.streams.dom().contains(stream_id),
        request_id.len() > 0,
        open.controller_id.len() > 0,
        open.controller_instance_id.len() > 0,
        open.profile == Some(crate::profile::written_profile(state.profile)),
        state.profile.complete(),
        crate::actor_model::snapshot_fault(state.config, open.desired_state) is Ok,
        draws.session_token matches Some(token) && token.len() > 0 && forall|id: SessionId| #[trigger]
            state.core_sessions.sessions.dom().contains(id)
                ==> state.core_sessions.sessions[id].session_token != token,
        draws.resume_token matches Some(token) && token.len() > 0 && forall|id: SessionId| #[trigger]
            state.core_sessions.sessions.dom().contains(id)
                ==> state.core_sessions.sessions[id].resume_token != token,
        state.core_sessions.sessions.len() < state.core_sessions.maximum_sessions,
        state.core_sessions.next_session_id < u64::MAX,
        ({
            let session = state.core_sessions.sessions[id];
            if state.core_sessions.sessions.dom().contains(id) {
                &&& session.resume_token == open.resume_token
                &&& session.controller_id == open.controller_id
                &&& session.controller_instance_id == open.controller_instance_id
                &&& session.profile == state.profile
                &&& now < session.expires_at
            } else {
                &&& id == state.core_sessions.next_session_id
                &&& forall|other: SessionId| #[trigger]
                    state.core_sessions.sessions.dom().contains(other)
                        ==> state.core_sessions.sessions[other].resume_token != open.resume_token
            }
        }),
    ensures
        ({
            let after = state.open_requested(stream_id, request_id, open, draws, now);
            let known = state.core_sessions.sessions.dom().contains(id);
            &&& after.consistent()
            &&& after.sessions.dom().contains(id)
            &&& after.stream_of(id) == Some(stream_id)
            &&& state.asks(
                after,
                EffectModel::Send {
                    session_id: id,
                    stream_id,
                    frame: ServerFrameModel {
                        request_id,
                        payload: Some(
                            ServerPayloadModel::SessionReady(
                                crate::messages::SessionReadyModel {
                                    session_token: draws.session_token->0,
                                    resume_token: if known {
                                        open.resume_token
                                    } else {
                                        draws.resume_token->0
                                    },
                                    control_epoch: state.control_epoch,
                                    lease_duration: Some(
                                        crate::actor_model::written_duration(
                                            state.config.lease_duration@,
                                        ),
                                    ),
                                    profile: open.profile,
                                },
                            ),
                        ),
                    },
                },
            )
        }),
{
    lemma_adds();
    let after = state.open_requested(stream_id, request_id, open, draws, now);
    let credentials = crate::session::CredentialsModel {
        session_token: draws.session_token->0,
        resume_token: draws.resume_token->0,
    };
    let request = crate::session::OpenModel {
        controller_id: open.controller_id,
        controller_instance_id: open.controller_instance_id,
        resume_token: open.resume_token,
        profile: state.profile,
        credentials,
        now,
    };
    crate::session::a_controller_that_names_itself_gets_a_session(state.core_sessions, request);
    let answer = state.core_sessions.opened(request);
    let ready = answer.1->Ok_0;
    crate::session::a_session_is_resumed_by_its_controller_alone(
        state.core_sessions,
        request,
        id,
    );
    crate::session::a_session_is_resumed_by_its_controller_alone(
        state.core_sessions,
        request,
        ready.session_id,
    );
    crate::session::an_opened_session_has_the_tokens_it_is_told(
        state.core_sessions,
        request,
        Seq::empty(),
        0,
        id,
    );
    assert(ready.session_id == id);
    let snapshot = open.desired_state->0;
    state.lemma_session_opened(
        stream_id,
        request_id,
        request,
        snapshot,
        draws.registrations,
        now,
    );
    let opened = ActorModel { core_sessions: answer.0, ..state };
    lemma_same_effects(state, opened);
    assert(state.sessions.dom().contains(id) == state.core_sessions.sessions.dom().contains(id));
    an_opened_session_is_told_its_tokens(
        opened,
        stream_id,
        request_id,
        ready,
        snapshot,
        draws.registrations,
        now,
    );
    let prepared = if ready.resumed {
        opened
    } else {
        ActorModel {
            reliable: opened.reliable.attached(id),
            sessions: opened.sessions.insert(
                id,
                crate::actor_model::AttachedModel {
                    stream_id: None,
                    observations: ObservationsModel::none(),
                },
            ),
            ..opened
        }
    };
    let greeted = prepared.stream_attached(id, stream_id, now).sent(
        id,
        welcome(opened, request_id, ready),
    );
    lemma_snapshot_reconciled_adds(
        greeted,
        id,
        snapshot,
        request_id,
        draws.registrations,
        now,
    );
    assert(after == greeted.snapshot_reconciled(
        id,
        snapshot,
        request_id,
        draws.registrations,
        now,
    ));
}

/// A snapshot, a registration or a spec that is missing or not proper is refused as
/// invalid, and nothing else happens.
#[verifier::rlimit(50)]
pub proof fn an_improper_request_is_refused(
    state: ActorModel,
    id: SessionId,
    request_id: Seq<u8>,
    payload: crate::messages::ClientPayloadModel,
    draws: crate::actor_model::DrawsModel,
    now: nat,
)
    requires
        state.consistent(),
        state.sessions.dom().contains(id),
        carried_token(payload) == Some(state.core_sessions.sessions[id].session_token),
        match payload {
            crate::messages::ClientPayloadModel::SyncDesiredState(request) =>
                crate::actor_model::snapshot_fault(state.config, request.desired_state) is Err,
            crate::messages::ClientPayloadModel::RegisterParticipant(request) =>
                request.participant is None || !proper_registration(request.participant->0),
            crate::messages::ClientPayloadModel::SetParticipantSpec(request) =>
                request.spec is None || crate::spaces::checked_spec(request.spec->0) is Err,
            _ => false,
        },
    ensures
        ({
            let after = state.commanded(id, request_id, payload, draws, now);
            &&& state.only_said(after)
            &&& state.stream_of(id) matches Some(stream_id) ==> refuses(
                state,
                after,
                id,
                stream_id,
                request_id,
                1,
            )
        }),
{
    let invalid = crate::messages::CommandErrorCode::InvalidArgument;
    let after = state.commanded(id, request_id, payload, draws, now);
    assert(state.core_sessions.sessions.dom().contains(id));
    assert(state.reliable.sessions.dom().contains(id));
    let message = match payload {
        crate::messages::ClientPayloadModel::SyncDesiredState(request) =>
            crate::actor_model::snapshot_fault(state.config, request.desired_state)->Err_0,
        crate::messages::ClientPayloadModel::RegisterParticipant(request) => if request.participant is None {
            "participant registration is missing"@
        } else {
            crate::actor_model::registration_fault(request.participant->0)->Err_0
        },
        crate::messages::ClientPayloadModel::SetParticipantSpec(request) => if request.spec is None {
            "participant spec is missing"@
        } else {
            crate::spaces::checked_spec(request.spec->0)->Err_0.text()
        },
        _ => Seq::empty(),
    };
    assert(after == state.rejected(id, request_id, invalid, message));
    lemma_refused(state, id, request_id, invalid, message);
    state.lemma_rejected(id, request_id, invalid, message);
}

/// A stream that is reported as closed ends, a report from a Space and a report on a render
/// are entered, each under the key and the number that it came with.
pub proof fn each_command_does_what_it_says(
    state: ActorModel,
    stream_id: u64,
    frame: crate::messages::ClientFrameModel,
    report: crate::spaces::SpaceReportModel,
    space_key: Seq<char>,
    revision: u64,
    render: crate::spaces::ReportModel,
    draws: crate::actor_model::DrawsModel,
    now: nat,
)
    ensures
        !state.handled(
            crate::actor_model::CommandModel::StreamClosed { stream_id },
            draws,
            now,
        ).streams.dom().contains(stream_id),
        state.handled(crate::actor_model::CommandModel::SpaceEvent(report), draws, now)
            == state.space_event_applied(report.space_key, report.event, now),
        state.handled(
            crate::actor_model::CommandModel::Reconciled {
                space_key,
                application_revision: revision,
                report: render,
            },
            draws,
            now,
        ) == state.reconciled(space_key, revision, render),
        state.handled(crate::actor_model::CommandModel::Frame { stream_id, frame }, draws, now)
            == state.framed_command(stream_id, frame, draws, now),
        state.handled(crate::actor_model::CommandModel::Open { stream_id, frame }, draws, now)
            == state.opened(stream_id, frame, draws, now),
{
}

/// A new request of a session under its token is carried out, with all that it says: a
/// lease is renewed, a proper snapshot taken, a participant registered, given a spec or
/// released, and the observed Spaces are replaced.
pub proof fn a_request_is_carried_out(
    state: ActorModel,
    stream_id: u64,
    frame: crate::messages::ClientFrameModel,
    draws: crate::actor_model::DrawsModel,
    now: nat,
)
    requires
        state.consistent(),
        state.streams.dom().contains(stream_id),
        frame.request_id.len() > 0,
        frame.payload is Some,
        ({
            let id = state.streams[stream_id];
            &&& carried_token(frame.payload->0) == Some(
                state.core_sessions.sessions[id].session_token,
            )
            &&& !state.reliable.sessions[id].results.dom().contains(frame.request_id)
        }),
    ensures
        ({
            let id = state.streams[stream_id];
            let request_id = frame.request_id;
            let after = state.framed_command(stream_id, frame, draws, now);
            let counted = state.advanced(id);
            match frame.payload->0 {
                crate::messages::ClientPayloadModel::RenewLease(request) => after
                    == state.lease_renewed(id, request_id, request, now),
                crate::messages::ClientPayloadModel::SyncDesiredState(request) =>
                    crate::actor_model::snapshot_fault(state.config, request.desired_state) is Ok
                    ==> after == state.snapshot_reconciled(
                    id,
                    request.desired_state->0,
                    request_id,
                    draws.registrations,
                    now,
                ),
                crate::messages::ClientPayloadModel::RegisterParticipant(request) =>
                    request.participant matches Some(registration) ==> proper_registration(
                    registration,
                ) ==> after == counted.registered_explicitly(
                    id,
                    registration,
                    request_id,
                    draws.registrations[0],
                    now,
                ),
                crate::messages::ClientPayloadModel::SetParticipantSpec(request) =>
                    request.spec matches Some(spec) ==> crate::spaces::checked_spec(spec) is Ok
                    ==> after == counted.spec_set(
                    id,
                    request.participant_id,
                    request.ownership_token,
                    request.client_spec_revision,
                    spec,
                    request_id,
                    draws.registrations[0].incarnation_id,
                    now,
                ),
                crate::messages::ClientPayloadModel::ReleaseParticipant(request) => after
                    == counted.released(
                    id,
                    request.participant_id,
                    request.registration_id,
                    request.ownership_token,
                    OwnershipRevocationReason::ParticipantReleased,
                    Some(request_id),
                    now,
                ),
                crate::messages::ClientPayloadModel::ReplaceObservedSpaces(request) => after
                    == counted.observations_replaced(
                    id,
                    request.observed_spaces_revision,
                    request.space_keys,
                    request_id,
                ),
                _ => true,
            }
        }),
{
    state.lemma_stream_has_a_session(stream_id);
    let id = state.streams[stream_id];
    assert(state.core_sessions.sessions.dom().contains(id));
    assert(state.reliable.sessions.dom().contains(id));
}

/// After a snapshot that a session sent and that was taken, the session owns nobody but
/// whom the snapshot names, and whom it owned before and did not name is let go of.
pub proof fn a_sent_snapshot_keeps_only_what_it_names(
    state: ActorModel,
    stream_id: u64,
    frame: crate::messages::ClientFrameModel,
    snapshot: DesiredStateSnapshotModel,
    draws: crate::actor_model::DrawsModel,
    now: nat,
    p: Seq<char>,
)
    requires
        state.consistent(),
        state.streams.dom().contains(stream_id),
        frame.request_id.len() > 0,
        ({
            let id = state.streams[stream_id];
            &&& frame.payload matches Some(
                crate::messages::ClientPayloadModel::SyncDesiredState(request),
            ) && request.desired_state == Some(snapshot) && request.session_token
                == state.core_sessions.sessions[id].session_token
            &&& !state.reliable.sessions[id].results.dom().contains(frame.request_id)
            &&& crate::actor_model::snapshot_fault(state.config, Some(snapshot)) is Ok
        }),
    ensures
        ({
            let id = state.streams[stream_id];
            let after = state.framed_command(stream_id, frame, draws, now);
            &&& after.ownership.entries.dom().contains(p) && after.ownership.entries[p].owner == id
                ==> names(snapshot, p)
            &&& state.ownership.entries.dom().contains(p) && state.ownership.entries[p].owner == id
                && !names(snapshot, p) ==> {
                &&& !after.ownership.entries.dom().contains(p)
                &&& !after.participants.dom().contains(p)
                &&& !after.host.participants.dom().contains(p)
                &&& lets_go(state, after, p, 3)
            }
        }),
{
    state.lemma_stream_has_a_session(stream_id);
    a_request_is_carried_out(state, stream_id, frame, draws, now);
    a_snapshot_keeps_only_what_it_names(
        state,
        state.streams[stream_id],
        snapshot,
        frame.request_id,
        draws.registrations,
        now,
        p,
    );
}

proof fn lemma_statuses_sent_adds(a: ActorModel, ids: Seq<Seq<char>>)
    ensures
        a.adds(a.statuses_sent(ids)),
    decreases ids.len(),
{
    lemma_adds();
    lemma_status_sent_adds();
    if ids.len() > 0 {
        lemma_statuses_sent_adds(a.status_sent(ids[0]), ids.drop_first());
    }
}

proof fn lemma_each_status_is_told(a: ActorModel, ids: Seq<Seq<char>>, p: Seq<char>)
    requires
        a.consistent(),
        a.participants.dom().contains(p),
        ids.contains(p),
    ensures
        tells_the_status(a, a.statuses_sent(ids), p),
    decreases ids.len(),
{
    lemma_adds();
    lemma_status_sent_adds();
    let next = a.status_sent(ids[0]);
    let rest = ids.drop_first();
    let after = a.statuses_sent(ids);
    a.lemma_status_sent(ids[0]);
    a.lemma_status_consistent(ids[0]);
    next.lemma_statuses_sent(rest);
    lemma_statuses_sent_adds(next, rest);
    if ids[0] == p {
        lemma_status_is_told(a, p);
    } else {
        let k = choose|k: int| 0 <= k < ids.len() && ids[k] == p;
        assert(rest[k - 1] == p);
        lemma_each_status_is_told(next, rest, p);
    }
}

proof fn lemma_status_told_still(
    before: ActorModel,
    a: ActorModel,
    middle: ActorModel,
    after: ActorModel,
    p: Seq<char>,
)
    requires
        before.adds(a),
        before.sessions == a.sessions,
        tells_the_status(a, middle, p),
        middle.adds(after),
        middle.only_said(after),
    ensures
        tells_the_status(before, after, p),
{
    lemma_adds();
}

proof fn lemma_broadcast_adds(a: ActorModel, key: Seq<char>)
    ensures
        a.adds(a.snapshot_broadcast(key)),
{
    lemma_adds();
    if let Some(snapshot) = a.snapshot_of(key) {
        lemma_sent_to_each_adds(
            a,
            a.observers(key),
            framed(Seq::empty(), ServerPayloadModel::SpaceSnapshot(snapshot)),
        );
    }
}

proof fn lemma_broadcast_tells(a: ActorModel, key: Seq<char>, id: SessionId, stream_id: u64)
    requires
        a.consistent(),
        a.spaces.dom().contains(key),
        watches(a, id, key),
        a.stream_of(id) == Some(stream_id),
    ensures
        tells_the_session(a, a.snapshot_broadcast(key), id, stream_id, key),
{
    let after = a.snapshot_broadcast(key);
    let snapshot = a.snapshot_of(key)->0;
    let frame = framed(Seq::empty(), ServerPayloadModel::SpaceSnapshot(snapshot));
    lemma_watches(a, id, key);
    a.lemma_snapshot_broadcast(key);
    lemma_each_is_sent(a, a.observers(key), frame, id, stream_id);
    a_snapshot_tells_the_whole_space(a, key);
    assert(tells_the_space(after, key, snapshot)) by {
        assert forall|p: Seq<char>|
            #![trigger after.participants.dom().contains(p)]
            after.participants.dom().contains(p) && after.participants[p].spec.space_key == key
                <==> exists|i: int|
            0 <= i < snapshot.participants.len() && (
            #[trigger] snapshot.participants[i]).participant_id == p by {
            assert(a.participants.dom().contains(p) == after.participants.dom().contains(p));
        }
    }
}

/// Who loses a participant to another session's registration is counted a change, once.
#[verifier::rlimit(50)]
pub proof fn a_takeover_is_counted_for_the_previous_owner(
    state: ActorModel,
    id: SessionId,
    registration: ParticipantRegistrationModel,
    request_id: Seq<u8>,
    draws: RegistrationDrawsModel,
    now: nat,
)
    requires
        state.consistent(),
        state.sessions.dom().contains(id),
        can_be_registered(state, id, registration, draws),
        state.ownership.entries.dom().contains(registration.participant_id),
        state.ownership.entries[registration.participant_id].owner != id,
        state.core_sessions.sessions[state.ownership.entries[registration.participant_id].owner].desired_revision
            < u64::MAX,
    ensures
        ({
            let after = state.registered_explicitly(id, registration, request_id, draws, now);
            let owner = state.ownership.entries[registration.participant_id].owner;
            &&& after.core_sessions.sessions[owner].desired_revision
                == state.core_sessions.sessions[owner].desired_revision + 1
            &&& after.core_sessions.sessions[id].desired_revision
                == state.core_sessions.sessions[id].desired_revision
            &&& after.core_sessions.sessions[owner].expires_at
                == state.core_sessions.sessions[owner].expires_at
        }),
{
    lemma_leases();
    lemma_said_leases();
    let p = registration.participant_id;
    let spec = registration.spec->0;
    let owner = state.ownership.entries[p].owner;
    let after = state.registered_explicitly(id, registration, request_id, draws, now);
    let claim = crate::ownership::ClaimModel {
        entity_id: p,
        owner: id,
        registration_id: registration.registration_id,
        presented_fencing_token: registration.ownership_token,
        client_revision: registration.client_spec_revision,
        new_fencing_token: draws.ownership_token->0,
        mode: ClaimMode::Explicit,
    };
    let entries = state.ownership.entries;
    let mine = |p: Seq<char>| entries[p].owner == id;
    lemma_in_order_of::<String>(entries.dom());
    crate::ordered::lemma_ascending_distinct::<String>(in_order::<String>(entries.dom()));
    crate::ownership::lemma_walk_counts(in_order::<String>(entries.dom()), mine);
    assert(state.ownership.owned(id).len() == state.ownership.owned_set(id).len());
    assert(state.participants.dom() == entries.dom());
    assert(state.participants.len() == entries.len());
    assert(!state.ownership.has_token(draws.ownership_token->0));
    assert(!state.host.credential_taken(draws.join_token->0)) by {
        if state.host.credential_taken(draws.join_token->0) {
            let q = choose|q: Seq<char>| state.host.holds(q, draws.join_token->0);
            assert(state.host.participants.dom().contains(q));
        }
    }
    assert(state.acquisition_fault(id, p) is None) by {
        assert(state.host.participants.dom().contains(p));
        assert(state.participants.dom().contains(p));
    }
    let ensured = state.space_ensured(spec.space_key, draws.incarnation_id).0;
    assert(ensured.core_sessions == state.core_sessions);
    let claimed = ActorModel { ownership: ensured.ownership.claimed(claim).0, ..ensured };
    let previous = ensured.ownership.claimed(claim).1->Ok_0->previous;
    assert(previous == Some(state.ownership.entries[p]));
    let start = claimed.advanced(owner);
    lemma_installed_leases(
        claimed,
        start,
        id,
        registration,
        spec,
        request_id,
        previous,
        draws.join_token->0,
        now,
    );
    assert(start.keeps_the_leases(after));
    reveal(ActorModel::keeps_the_leases);
    assert(state.sessions.dom().contains(owner));
    assert(start.core_sessions.sessions.dom().contains(owner));
    assert(start.core_sessions.sessions.dom().contains(id));
}

/// A connection that belongs to somebody else is turned away, whatever token it brings, and
/// nothing changes.
pub proof fn a_connection_of_another_is_turned_away(
    state: ActorModel,
    connection: u64,
    credential: Seq<char>,
    now: nat,
    p: Seq<char>,
    q: Seq<char>,
)
    requires
        state.consistent(),
        state.host.valid(),
        state.participants.dom().contains(p),
        state.host.participants[p].credential == credential,
        state.participants.dom().contains(q),
        q != p,
        state.host.participants[q].connection == Some(connection),
    ensures
        state.routed(connection, Some(credential), now).0 == state,
        state.routed(connection, Some(credential), now).1 is Err,
{
    assert(state.host.participants.dom().contains(p));
    assert(state.host.participants.dom().contains(q));
    crate::host::a_credential_lets_its_participant_in(state.host, credential, connection, p, q);
    crate::host::a_refused_binding_changes_nothing(state.host, p, credential, connection);
}

/// A spec that leads into a new Space is refused for want of resources where there is no
/// room for one, and nothing else happens.
pub proof fn a_spec_needs_room_for_its_space(
    state: ActorModel,
    id: SessionId,
    p: Seq<char>,
    token: Seq<u8>,
    revision: u64,
    spec: ParticipantSpecModel,
    request_id: Seq<u8>,
    incarnation_id: Option<Seq<u8>>,
    now: nat,
)
    requires
        state.consistent(),
        state.sessions.dom().contains(id),
        state.participants.dom().contains(p),
        state.ownership.entries[p].owner == id,
        state.ownership.entries[p].fencing_token == token,
        revision > state.ownership.entries[p].client_revision,
        !state.spaces.dom().contains(spec.space_key),
        state.spaces.len() >= state.config.max_spaces,
    ensures
        ({
            let after = state.spec_set(
                id,
                p,
                token,
                revision,
                spec,
                request_id,
                incarnation_id,
                now,
            );
            &&& state.only_said(after)
            &&& state.stream_of(id) matches Some(stream_id) ==> refuses(
                state,
                after,
                id,
                stream_id,
                request_id,
                6,
            )
        }),
{
    let exhausted = crate::messages::CommandErrorCode::ResourceExhausted;
    let message = "the materialized Space limit is reached"@;
    assert(state.ownership.entries.dom().contains(p));
    assert(state.reliable.sessions.dom().contains(id));
    lemma_refused(state, id, request_id, exhausted, message);
    state.lemma_rejected(id, request_id, exhausted, message);
}

/// A full server opens no session for a stranger: the stream is answered that there is no
/// room, and ends.
pub proof fn a_full_server_opens_no_session(
    state: ActorModel,
    stream_id: u64,
    request_id: Seq<u8>,
    open: crate::messages::OpenSessionModel,
    draws: crate::actor_model::DrawsModel,
    now: nat,
)
    requires
        request_id.len() > 0,
        open.controller_id.len() > 0,
        open.controller_instance_id.len() > 0,
        open.profile == Some(crate::profile::written_profile(state.profile)),
        state.profile.complete(),
        crate::actor_model::snapshot_fault(state.config, open.desired_state) is Ok,
        draws.session_token matches Some(token) && token.len() > 0,
        draws.resume_token matches Some(token) && token.len() > 0,
        state.core_sessions.sessions.len() >= state.core_sessions.maximum_sessions,
        forall|other: SessionId| #[trigger]
            state.core_sessions.sessions.dom().contains(other)
                ==> state.core_sessions.sessions[other].resume_token != open.resume_token,
    ensures
        ({
            let after = state.open_requested(stream_id, request_id, open, draws, now);
            &&& state.only_said(after)
            &&& after.effects.len() == state.effects.len() + 2
            &&& after.effects[state.effects.len() as int] matches EffectModel::Reply {
                stream_id: told,
                frame,
            } && told == stream_id && frame.request_id == request_id && (
            frame.payload matches Some(ServerPayloadModel::CommandRejected(rejected))
                && rejected.code == 6)
            &&& after.effects.last() matches EffectModel::EndStream { stream_id: ended, .. }
                && ended == stream_id
        }),
{
    let request = crate::session::OpenModel {
        controller_id: open.controller_id,
        controller_instance_id: open.controller_instance_id,
        resume_token: open.resume_token,
        profile: state.profile,
        credentials: crate::session::CredentialsModel {
            session_token: draws.session_token->0,
            resume_token: draws.resume_token->0,
        },
        now,
    };
    assert forall|id: SessionId| !state.core_sessions.resumes(request, id) by {}
}

/// A registration for which nothing could be drawn is refused as a fault of the server,
/// and nobody's ownership changes.
pub proof fn a_registration_needs_what_is_drawn_for_it(
    state: ActorModel,
    id: SessionId,
    registration: ParticipantRegistrationModel,
    request_id: Seq<u8>,
    draws: RegistrationDrawsModel,
    now: nat,
)
    requires
        state.consistent(),
        state.sessions.dom().contains(id),
        proper_registration(registration),
        state.spaces.dom().contains(registration.spec->0.space_key),
        !state.ownership.entries.dom().contains(registration.participant_id),
        state.participants.len() < state.config.max_participants,
        state.ownership.owned(id).len() < state.config.max_participants_per_session,
        draws.ownership_token is None || draws.join_token is None,
    ensures
        ({
            let after = state.registered_explicitly(id, registration, request_id, draws, now);
            &&& state.only_said(after)
            &&& state.stream_of(id) matches Some(stream_id) ==> refuses(
                state,
                after,
                id,
                stream_id,
                request_id,
                7,
            )
        }),
{
    let p = registration.participant_id;
    let internal = crate::messages::CommandErrorCode::InternalError;
    let message = crate::entropy::ActorStartError::Randomness.text();
    assert(state.reliable.sessions.dom().contains(id));
    assert(state.participants.dom().contains(p) == state.ownership.entries.dom().contains(p));
    assert(state.host.participants.dom().contains(p) == state.ownership.entries.dom().contains(p));
    lemma_refused(state, id, request_id, internal, message);
    state.lemma_rejected(id, request_id, internal, message);
    assert(state.registered_explicitly(id, registration, request_id, draws, now)
        == state.rejected(id, request_id, internal, message));
}

/// An answer that cannot be recorded is not sent, and its session is to resynchronise.
pub proof fn an_answer_is_recorded_or_not_sent(
    state: ActorModel,
    id: SessionId,
    frame: ServerFrameModel,
)
    requires
        frame.request_id.len() > 0,
    ensures
        ({
            let after = state.sent(id, frame);
            let recordable = state.reliable.sessions.dom().contains(id);
            &&& !recordable ==> after.effects == state.effects && (
            state.core_sessions.sessions.dom().contains(id)
                ==> after.core_sessions.sessions[id].needs_resync)
            &&& recordable && state.reliable.valid()
                && state.reliable.maximum_completed_per_session >= 1
                ==> after.reliable.sessions[id].results.dom().contains(frame.request_id)
                && after.reliable.sessions[id].results[frame.request_id] == frame
            &&& recordable && state.stream_of(id) is Some ==> after.effects.len()
                == state.effects.len() + 1
        }),
{
    if state.reliable.sessions.dom().contains(id) && state.reliable.valid()
        && state.reliable.maximum_completed_per_session >= 1 {
        crate::reliable::the_last_result_is_replayed(
            state.reliable,
            id,
            frame.request_id,
            frame,
        );
    }
}

} // verus!
