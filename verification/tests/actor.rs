//! The server, driven command by command.

use std::collections::{BTreeMap, VecDeque};

use mumble_spaces::actor::{draw_for, ActorCommand, ControllerActor, Effect};
use mumble_spaces::clock::{Duration, Instant};
use mumble_spaces::config::ControllerConfig;
use mumble_spaces::host::ConnectionId;
use mumble_spaces::messages::{
    ClientFrame, ClientPayload, CloseSession, CommandErrorCode, CommandRejected,
    DesiredStateReconciled, DesiredStateSnapshot, FetchResult, FetchSpace, FetchSpaceResult,
    OpenSession, OwnershipRevocationReason, ParticipantOwnershipGranted,
    ParticipantOwnershipRevoked, ParticipantRegistration, ParticipantSpec, RegisterParticipant,
    ReleaseParticipant, RenewLease, ReplaceObservedSpaces, ServerFrame, ServerPayload,
    SetParticipantSpec, SyncDesiredState,
};
use mumble_spaces::profile;
use mumble_spaces::session::ProfileRef;
use mumble_spaces::spaces::{ReconcileReport, SpaceEvent, SpaceEventKind, SpaceReport};

/// What a stream brought back.
enum Delivered {
    Frame(ServerFrame),
    End,
}

/// One controller's side of a stream.
struct Stream {
    capacity: usize,
    open: bool,
    received: VecDeque<Delivered>,
    session_token: Vec<u8>,
    resume_token: Vec<u8>,
}

/// A server, with its streams and its Spaces carried out in place.
struct Harness {
    actor: ControllerActor,
    now: u128,
    next_stream: u64,
    streams: BTreeMap<u64, Stream>,
    /// The newest revision of each Space that its renderer has not shown yet.
    pending: BTreeMap<String, u64>,
    generation: u64,
    routed: Option<Result<String, String>>,
    moved: Vec<(u64, String)>,
    closed: Vec<u64>,
    destroyed: Vec<String>,
}

fn supported() -> ProfileRef {
    profile::spaces("digest").expect("compiled Spaces profile is valid")
}

impl Harness {
    fn new(config: ControllerConfig) -> Self {
        Self {
            actor: ControllerActor::new(config, supported(), vec![0; 16]),
            now: 1_000_000_000,
            next_stream: 1,
            streams: BTreeMap::new(),
            pending: BTreeMap::new(),
            generation: 0,
            routed: None,
            moved: Vec::new(),
            closed: Vec::new(),
            destroyed: Vec::new(),
        }
    }

    fn clock(&self) -> Instant {
        Instant { nanos: self.now }
    }

    fn carry_out(&mut self) {
        for effect in self.actor.take_effects() {
            match effect {
                Effect::Send { session_id, stream_id, frame } => {
                    match self.streams.get_mut(&stream_id) {
                        Some(stream) if stream.open => {
                            if stream.received.len() >= stream.capacity {
                                self.actor.delivery_full(session_id);
                            } else {
                                stream.received.push_back(Delivered::Frame(frame));
                            }
                        }
                        _ => self.actor.delivery_closed(session_id),
                    }
                }
                Effect::Reply { stream_id, frame } => {
                    if let Some(stream) = self.streams.get_mut(&stream_id) {
                        stream.received.push_back(Delivered::Frame(frame));
                    }
                }
                Effect::EndStream { stream_id, .. } => {
                    if let Some(stream) = self.streams.get_mut(&stream_id) {
                        stream.received.push_back(Delivered::End);
                    }
                }
                Effect::CreateShard { .. } => {}
                Effect::Publish { desired } => {
                    self.pending.insert(desired.space_key.clone(), desired.application_revision);
                }
                Effect::MoveConnection { connection, space_key } => {
                    self.moved.push((connection.0, space_key));
                }
                Effect::CloseConnection { connection } => self.closed.push(connection.0),
                Effect::DestroyShard { space_key, .. } => self.destroyed.push(space_key),
                Effect::RouteReply { result, .. } => self.routed = Some(result),
            }
        }
    }

    fn handle(&mut self, command: ActorCommand) {
        self.actor.handle(command, Instant { nanos: self.now });
        self.carry_out();
    }

    /// Shows what every Space published last.
    fn render(&mut self) {
        for (space_key, application_revision) in std::mem::take(&mut self.pending) {
            self.generation += 1;
            let report = ReconcileReport {
                version: self.generation,
                refused: None,
                delta_len: 1,
                routing_recompiled: false,
            };
            self.handle(ActorCommand::Reconciled { space_key, application_revision, report });
        }
    }

    fn advance(&mut self, seconds: u64) {
        self.now += u128::from(seconds) * 1_000_000_000;
        let now = self.clock();
        self.actor.expire_due(now);
        self.carry_out();
    }

    fn attach(&mut self, capacity: usize) -> u64 {
        let stream_id = self.next_stream;
        self.next_stream += 1;
        self.streams.insert(
            stream_id,
            Stream {
                capacity,
                open: true,
                received: VecDeque::new(),
                session_token: Vec::new(),
                resume_token: Vec::new(),
            },
        );
        stream_id
    }

    fn open(
        &mut self,
        controller: &str,
        instance: Vec<u8>,
        resume_token: Vec<u8>,
        desired: DesiredStateSnapshot,
    ) -> u64 {
        let stream_id = self.attach(128);
        let profile = Some(profile::to_protocol(&supported()));
        self.open_on(stream_id, vec![1], controller, instance, resume_token, desired, profile);
        stream_id
    }

    #[allow(clippy::too_many_arguments)]
    fn open_on(
        &mut self,
        stream_id: u64,
        request_id: Vec<u8>,
        controller: &str,
        instance: Vec<u8>,
        resume_token: Vec<u8>,
        desired: DesiredStateSnapshot,
        profile: Option<mumble_spaces::messages::ProfileRef>,
    ) {
        self.handle(ActorCommand::Open {
            stream_id,
            frame: ClientFrame {
                request_id,
                payload: Some(ClientPayload::OpenSession(OpenSession {
                    controller_id: controller.to_owned(),
                    controller_instance_id: instance,
                    resume_token,
                    desired_state: Some(desired),
                    profile,
                })),
            },
        });
    }

    fn send(&mut self, stream_id: u64, request_id: u8, payload: ClientPayload) {
        self.handle(ActorCommand::Frame {
            stream_id,
            frame: ClientFrame { request_id: vec![request_id], payload: Some(payload) },
        });
    }

    fn next(&mut self, stream_id: u64) -> Option<Delivered> {
        let stream = self.streams.get_mut(&stream_id).expect("a known stream");
        let delivered = stream.received.pop_front();
        if let Some(Delivered::Frame(ServerFrame {
            payload: Some(ServerPayload::SessionReady(ready)),
            ..
        })) = &delivered
        {
            stream.session_token = ready.session_token.clone();
            stream.resume_token = ready.resume_token.clone();
        }
        delivered
    }

    fn until(
        &mut self,
        stream_id: u64,
        predicate: impl Fn(&ServerPayload) -> bool,
    ) -> ServerPayload {
        loop {
            match self.next(stream_id) {
                Some(Delivered::Frame(ServerFrame { payload: Some(payload), .. })) => {
                    if predicate(&payload) {
                        return payload;
                    }
                }
                Some(_) => panic!("unexpected end of the stream"),
                None => panic!("the server never produced the requested payload"),
            }
        }
    }

    fn drain(&mut self, stream_id: u64) {
        while self.next(stream_id).is_some() {}
    }

    fn token(&self, stream_id: u64) -> Vec<u8> {
        self.streams[&stream_id].session_token.clone()
    }

    fn route(&mut self, connection: u64, credential: String) -> Result<String, String> {
        self.handle(ActorCommand::Route {
            connection: ConnectionId(connection),
            credential: Some(credential),
        });
        self.routed.take().expect("route response")
    }
}

fn spec(space: &str, name: &str) -> ParticipantSpec {
    ParticipantSpec {
        space_key: space.to_owned(),
        display_name: name.to_owned(),
        server_mute: false,
        server_deaf: false,
    }
}

fn registration(
    participant_id: &str,
    registration_id: u8,
    ownership_token: Vec<u8>,
    revision: u64,
    participant_spec: ParticipantSpec,
) -> ParticipantRegistration {
    ParticipantRegistration {
        participant_id: participant_id.to_owned(),
        registration_id: vec![registration_id],
        ownership_token,
        client_spec_revision: revision,
        spec: Some(participant_spec),
    }
}

fn snapshot(revision: u64, participants: Vec<ParticipantRegistration>) -> DesiredStateSnapshot {
    DesiredStateSnapshot {
        desired_state_revision: revision,
        participants,
        observed_space_keys: Vec::new(),
    }
}

fn granted(payload: ServerPayload) -> ParticipantOwnershipGranted {
    match payload {
        ServerPayload::ParticipantOwnershipGranted(grant) => grant,
        _ => unreachable!(),
    }
}

fn is_grant(payload: &ServerPayload) -> bool {
    matches!(payload, ServerPayload::ParticipantOwnershipGranted(_))
}

fn is_reconciled(payload: &ServerPayload) -> bool {
    matches!(payload, ServerPayload::DesiredStateReconciled(_))
}

fn open_owned(harness: &mut Harness) -> (u64, ParticipantOwnershipGranted) {
    let session = harness.open(
        "controller",
        vec![9],
        Vec::new(),
        snapshot(1, vec![registration("alice", 7, Vec::new(), 1, spec("lobby", "Alice"))]),
    );
    let grant = granted(harness.until(session, is_grant));
    (session, grant)
}

#[test]
fn actor_opening_reconciles_a_full_snapshot_and_issues_distinct_credentials() {
    let mut harness = Harness::new(ControllerConfig::default());
    let (session, grant) = open_owned(&mut harness);
    assert_eq!(grant.ownership_token.len(), 32);
    assert_eq!(grant.connection_credential.len(), 43);
    assert_ne!(grant.ownership_token, grant.connection_credential.as_bytes());

    let barrier = harness.until(session, is_reconciled);
    assert!(matches!(
        barrier,
        ServerPayload::DesiredStateReconciled(DesiredStateReconciled { desired_state_revision: 1 })
    ));
    assert!(!harness.streams[&session].session_token.is_empty());
    assert!(!harness.streams[&session].resume_token.is_empty());
}

#[test]
fn actor_a_valid_resume_keeps_ownership_and_join_tokens() {
    let mut harness = Harness::new(ControllerConfig::default());
    let (first, grant) = open_owned(&mut harness);
    harness.until(first, is_reconciled);
    let resume = harness.streams[&first].resume_token.clone();

    let resumed = harness.open(
        "controller",
        vec![9],
        resume,
        snapshot(
            1,
            vec![registration("alice", 7, grant.ownership_token.clone(), 1, spec("lobby", "Alice"))],
        ),
    );
    let restored = granted(harness.until(resumed, is_grant));
    assert_eq!(restored.ownership_token, grant.ownership_token);
    assert_eq!(restored.connection_credential, grant.connection_credential);
}

#[test]
fn actor_a_snapshot_cannot_take_ownership_from_another_session() {
    let mut harness = Harness::new(ControllerConfig::default());
    let (owner, grant) = open_owned(&mut harness);
    harness.until(owner, is_reconciled);

    let contender = harness.open(
        "controller",
        vec![10],
        Vec::new(),
        snapshot(1, vec![registration("alice", 8, Vec::new(), 1, spec("lobby", "Impostor"))]),
    );
    let revoked = harness.until(contender, |payload| {
        matches!(payload, ServerPayload::ParticipantOwnershipRevoked(_))
    });
    assert!(matches!(
        revoked,
        ServerPayload::ParticipantOwnershipRevoked(ParticipantOwnershipRevoked { reason, .. })
            if reason == OwnershipRevocationReason::RegistrationRejected.code()
    ));

    assert!(harness.route(98, grant.connection_credential).is_ok());
}

#[test]
fn actor_a_lease_watermark_mismatch_requests_a_full_resync() {
    let mut harness = Harness::new(ControllerConfig::default());
    let (session, _grant) = open_owned(&mut harness);
    harness.until(session, is_reconciled);
    let session_token = harness.token(session);
    harness.send(
        session,
        15,
        ClientPayload::RenewLease(RenewLease { session_token, desired_state_revision: 99 }),
    );
    let resync =
        harness.until(session, |payload| matches!(payload, ServerPayload::ResyncRequired(_)));
    assert!(matches!(resync, ServerPayload::ResyncRequired(_)));
}

#[test]
fn actor_transfer_rotates_capabilities_and_a_stale_release_cannot_detach_it() {
    let mut harness = Harness::new(ControllerConfig::default());
    let (old, old_grant) = open_owned(&mut harness);
    harness.until(old, is_reconciled);
    harness.render();
    harness.until(old, |payload| {
        matches!(payload, ServerPayload::ParticipantStatusChanged(value)
            if value.status.as_ref().is_some_and(|status| status.applied_spec_revision == 1))
    });

    let new = harness.open("controller", vec![10], Vec::new(), snapshot(0, Vec::new()));
    harness.until(new, is_reconciled);
    let session_token = harness.token(new);
    harness.send(
        new,
        2,
        ClientPayload::RegisterParticipant(RegisterParticipant {
            session_token,
            participant: Some(registration("alice", 8, Vec::new(), 1, spec("arena", "Alice 2"))),
        }),
    );
    let new_grant = granted(harness.until(new, is_grant));
    assert_ne!(new_grant.ownership_token, old_grant.ownership_token);
    assert_ne!(new_grant.connection_credential, old_grant.connection_credential);
    assert_eq!(new_grant.accepted_spec_revision, 1);
    assert_eq!(new_grant.applied_spec_revision, 0);

    harness.render();
    let applied = harness.until(new, |payload| {
        matches!(payload, ServerPayload::ParticipantStatusChanged(value)
            if value.status.as_ref().is_some_and(|status|
                status.applied_spec_revision == 1 && status.applied_space_key == "arena"))
    });
    assert!(matches!(applied, ServerPayload::ParticipantStatusChanged(_)));

    let session_token = harness.token(old);
    harness.send(
        old,
        3,
        ClientPayload::ReleaseParticipant(ReleaseParticipant {
            session_token,
            participant_id: "alice".to_owned(),
            registration_id: old_grant.registration_id,
            ownership_token: old_grant.ownership_token,
        }),
    );
    let rejected =
        harness.until(old, |payload| matches!(payload, ServerPayload::CommandRejected(_)));
    assert!(matches!(
        rejected,
        ServerPayload::CommandRejected(CommandRejected { code, .. })
            if code == CommandErrorCode::OwnershipLost.code()
    ));

    assert!(harness.route(99, new_grant.connection_credential).is_ok());
    assert!(harness.route(97, old_grant.connection_credential).is_err());
}

#[test]
fn actor_coalesced_specs_separate_acceptance_from_application_and_publication() {
    let mut harness = Harness::new(ControllerConfig::default());
    let (session, grant) = open_owned(&mut harness);
    harness.until(session, is_reconciled);
    for revision in [2, 3] {
        let session_token = harness.token(session);
        harness.send(
            session,
            u8::try_from(revision).expect("small revision"),
            ClientPayload::SetParticipantSpec(SetParticipantSpec {
                session_token,
                participant_id: "alice".to_owned(),
                ownership_token: grant.ownership_token.clone(),
                client_spec_revision: revision,
                spec: Some(spec("lobby", &format!("Alice {revision}"))),
            }),
        );
    }
    let accepted = harness.until(session, |payload| {
        matches!(payload, ServerPayload::ParticipantSpecAccepted(value)
            if value.client_spec_revision == 3)
    });
    let ServerPayload::ParticipantSpecAccepted(accepted) = accepted else { unreachable!() };
    assert_eq!(accepted.accepted_spec_revision, 3);
    assert!(accepted.applied_spec_revision < 3);

    harness.render();
    let status = harness.until(session, |payload| {
        matches!(payload, ServerPayload::ParticipantStatusChanged(value)
            if value.status.as_ref().is_some_and(|status| status.applied_spec_revision == 3))
    });
    let ServerPayload::ParticipantStatusChanged(status) = status else { unreachable!() };
    let status = status.status.expect("status exists");
    assert_eq!(status.accepted_spec_revision, 3);
    assert_eq!(status.applied_spec_revision, 3);
    assert!(status.published_generation > 0);
}

#[test]
fn actor_lease_expiry_revokes_the_join_token_and_empty_space_gets_a_new_incarnation() {
    let config = ControllerConfig {
        lease_duration: Duration::from_secs(10),
        empty_space_grace: Duration::from_secs(5),
        ..ControllerConfig::default()
    };
    let mut harness = Harness::new(config);
    let (session, grant) = open_owned(&mut harness);
    let first_space =
        harness.until(session, |payload| matches!(payload, ServerPayload::SpaceSnapshot(_)));
    let ServerPayload::SpaceSnapshot(first_space) = first_space else { unreachable!() };

    assert_eq!(harness.actor.population(), (1, 1, 1));
    harness.advance(10);
    assert_eq!(harness.actor.population(), (0, 0, 1));
    assert!(harness.route(100, grant.connection_credential).is_err());

    harness.advance(5);
    assert_eq!(harness.destroyed, ["lobby"]);
    let replacement = harness.open(
        "controller",
        vec![11],
        Vec::new(),
        snapshot(1, vec![registration("bob", 9, Vec::new(), 1, spec("lobby", "Bob"))]),
    );
    let second_space =
        harness.until(replacement, |payload| matches!(payload, ServerPayload::SpaceSnapshot(_)));
    let ServerPayload::SpaceSnapshot(second_space) = second_space else { unreachable!() };
    assert_ne!(first_space.incarnation_id, second_space.incarnation_id);
}

#[test]
fn actor_closing_is_immediate_and_idempotent_at_the_process_boundary() {
    let mut harness = Harness::new(ControllerConfig::default());
    let (session, _grant) = open_owned(&mut harness);
    harness.until(session, is_reconciled);
    let session_token = harness.token(session);
    harness.send(session, 4, ClientPayload::CloseSession(CloseSession { session_token }));
    let closing =
        harness.until(session, |payload| matches!(payload, ServerPayload::SessionClosing(_)));
    assert!(matches!(closing, ServerPayload::SessionClosing(_)));
}

#[test]
fn actor_request_ids_replay_the_release_result_without_touching_new_state() {
    let mut harness = Harness::new(ControllerConfig::default());
    let (session, grant) = open_owned(&mut harness);
    harness.until(session, is_reconciled);
    let release = |harness: &Harness| {
        ClientPayload::ReleaseParticipant(ReleaseParticipant {
            session_token: harness.token(session),
            participant_id: "alice".to_owned(),
            registration_id: grant.registration_id.clone(),
            ownership_token: grant.ownership_token.clone(),
        })
    };
    let command = release(&harness);
    harness.send(session, 12, command);
    let first = harness.until(session, |payload| {
        matches!(payload, ServerPayload::ParticipantOwnershipRevoked(_))
    });
    let command = release(&harness);
    harness.send(session, 12, command);
    let replay = harness.until(session, |payload| {
        matches!(payload, ServerPayload::ParticipantOwnershipRevoked(_))
    });
    assert_eq!(first, replay);
}

#[test]
fn actor_a_stale_report_from_the_previous_space_is_not_applied() {
    let mut harness = Harness::new(ControllerConfig::default());
    let (session, grant) = open_owned(&mut harness);
    harness.until(session, is_reconciled);
    let lobby_revision = harness.pending["lobby"];
    let session_token = harness.token(session);
    harness.send(
        session,
        2,
        ClientPayload::SetParticipantSpec(SetParticipantSpec {
            session_token,
            participant_id: "alice".to_owned(),
            ownership_token: grant.ownership_token,
            client_spec_revision: 2,
            spec: Some(spec("arena", "Alice")),
        }),
    );
    let arena_revision = harness.pending["arena"];
    let report = |version: u64| ReconcileReport {
        version,
        refused: None,
        delta_len: 0,
        routing_recompiled: false,
    };

    harness.handle(ActorCommand::Reconciled {
        space_key: "arena".to_owned(),
        application_revision: arena_revision,
        report: report(9),
    });
    let status = harness.until(session, |payload| {
        matches!(payload, ServerPayload::ParticipantStatusChanged(value)
            if value.status.as_ref().is_some_and(|status| status.applied_space_key == "arena"))
    });
    let ServerPayload::ParticipantStatusChanged(status) = status else { unreachable!() };
    assert_eq!(status.status.expect("status exists").published_generation, 9);
    harness.drain(session);

    harness.handle(ActorCommand::Reconciled {
        space_key: "lobby".to_owned(),
        application_revision: lobby_revision,
        report: report(4),
    });
    while let Some(Delivered::Frame(frame)) = harness.next(session) {
        if let Some(ServerPayload::ParticipantStatusChanged(status)) = frame.payload {
            let status = status.status.expect("status exists");
            assert_eq!(
                status.applied_space_key, "arena",
                "a report rendered before the move republished the Space Alice left"
            );
            assert_eq!(
                status.published_generation, 9,
                "the stale report also rewound the published generation"
            );
        }
    }
    let session_token = harness.token(session);
    harness.send(
        session,
        3,
        ClientPayload::FetchSpace(FetchSpace { session_token, space_key: "arena".to_owned() }),
    );
    let fetched =
        harness.until(session, |payload| matches!(payload, ServerPayload::FetchSpaceResult(_)));
    assert!(matches!(
        fetched,
        ServerPayload::FetchSpaceResult(FetchSpaceResult {
            result: Some(FetchResult::Snapshot(snapshot))
        }) if snapshot.published_generation == 9 && snapshot.participants.len() == 1
    ));
}

#[test]
fn actor_a_full_response_queue_demands_a_resync_instead_of_muting_the_stream() {
    let mut harness = Harness::new(ControllerConfig::default());
    let stream = harness.attach(2);
    let profile = Some(profile::to_protocol(&supported()));
    harness.open_on(stream, vec![1], "controller", vec![9], Vec::new(), snapshot(3, Vec::new()), profile);
    harness.until(stream, is_reconciled);
    let session_token = harness.token(stream);
    let fetch = |session_token: &Vec<u8>| {
        ClientPayload::FetchSpace(FetchSpace {
            session_token: session_token.clone(),
            space_key: "absent".to_owned(),
        })
    };
    for request in [1, 2, 3] {
        harness.send(stream, request + 10, fetch(&session_token));
    }
    assert_eq!(harness.streams[&stream].received.len(), 2, "the third frame overflowed");
    harness.streams.get_mut(&stream).expect("a known stream").received.clear();

    harness.send(
        stream,
        3,
        ClientPayload::RenewLease(RenewLease { session_token, desired_state_revision: 3 }),
    );
    let mut answered = false;
    while let Some(Delivered::Frame(frame)) = harness.next(stream) {
        answered |= matches!(frame.payload, Some(ServerPayload::ResyncRequired(_)));
    }
    assert!(answered, "the renewal was swallowed, so this lease expires in silence");
}

#[test]
fn actor_a_closed_response_queue_detaches_the_stream() {
    let mut harness = Harness::new(ControllerConfig::default());
    let (session, _grant) = open_owned(&mut harness);
    harness.until(session, is_reconciled);
    let session_token = harness.token(session);
    harness.drain(session);
    harness.streams.get_mut(&session).expect("a known stream").open = false;
    let fetch = || {
        ClientPayload::FetchSpace(FetchSpace {
            session_token: session_token.clone(),
            space_key: "absent".to_owned(),
        })
    };
    harness.send(session, 1, fetch());
    harness.streams.get_mut(&session).expect("a known stream").open = true;
    harness.send(session, 2, fetch());
    assert!(
        harness.next(session).is_none(),
        "a closed stream must not stay attached to the session"
    );
}

fn rejected_open(request_id: Vec<u8>, profile: Option<mumble_spaces::messages::ProfileRef>) {
    let mut harness = Harness::new(ControllerConfig::default());
    let stream = harness.attach(8);
    harness.open_on(
        stream,
        request_id,
        "controller",
        vec![9],
        Vec::new(),
        snapshot(1, Vec::new()),
        profile,
    );
    assert!(matches!(
        harness.next(stream),
        Some(Delivered::Frame(ServerFrame {
            payload: Some(ServerPayload::CommandRejected(_)),
            ..
        }))
    ));
    assert!(
        matches!(harness.next(stream), Some(Delivered::End)),
        "the stream carries no session, so it must not stay open in silence"
    );
    assert_eq!(harness.actor.next_deadline(), None, "no session was created");
    harness.send(
        stream,
        2,
        ClientPayload::CloseSession(CloseSession { session_token: Vec::new() }),
    );
    assert!(harness.next(stream).is_none());
}

#[test]
fn actor_a_rejected_open_session_terminates_the_stream() {
    rejected_open(Vec::new(), None);
}

#[test]
fn an_unknown_profile_is_rejected_before_session_creation() {
    let mut unknown = profile::to_protocol(&supported());
    unknown.profile_id = "unknown".to_owned();
    rejected_open(vec![1], Some(unknown));
}

#[test]
fn a_missing_profile_is_rejected_before_session_creation() {
    rejected_open(vec![1], None);
}

#[test]
fn actor_observation_and_fetch_do_not_materialize_an_absent_space() {
    let mut harness = Harness::new(ControllerConfig::default());
    let session = harness.open("observer", vec![12], Vec::new(), snapshot(0, Vec::new()));
    harness.until(session, is_reconciled);
    let session_token = harness.token(session);
    harness.send(
        session,
        13,
        ClientPayload::ReplaceObservedSpaces(ReplaceObservedSpaces {
            session_token: session_token.clone(),
            observed_spaces_revision: 1,
            space_keys: vec!["absent".to_owned()],
        }),
    );
    harness
        .until(session, |payload| matches!(payload, ServerPayload::ObservedSpacesAccepted(_)));
    harness.send(
        session,
        14,
        ClientPayload::FetchSpace(FetchSpace { session_token, space_key: "absent".to_owned() }),
    );
    let result =
        harness.until(session, |payload| matches!(payload, ServerPayload::FetchSpaceResult(_)));
    assert!(matches!(
        result,
        ServerPayload::FetchSpaceResult(FetchSpaceResult { result: Some(FetchResult::Absent(_)) })
    ));
    assert!(harness.pending.is_empty());
}

#[test]
fn a_connection_follows_its_participant_and_leaves_with_it() {
    let mut harness = Harness::new(ControllerConfig::default());
    let (session, grant) = open_owned(&mut harness);
    harness.until(session, is_reconciled);
    assert_eq!(harness.route(5, grant.connection_credential.clone()), Ok("lobby".to_owned()));
    // Another connection with the same credential replaces it.
    assert_eq!(harness.route(6, grant.connection_credential.clone()), Ok("lobby".to_owned()));
    assert_eq!(harness.closed, [5]);

    let session_token = harness.token(session);
    harness.send(
        session,
        2,
        ClientPayload::SetParticipantSpec(SetParticipantSpec {
            session_token: session_token.clone(),
            participant_id: "alice".to_owned(),
            ownership_token: grant.ownership_token.clone(),
            client_spec_revision: 2,
            spec: Some(spec("arena", "Alice")),
        }),
    );
    assert_eq!(harness.moved, [(6, "arena".to_owned())]);

    harness.send(
        session,
        3,
        ClientPayload::ReleaseParticipant(ReleaseParticipant {
            session_token,
            participant_id: "alice".to_owned(),
            registration_id: grant.registration_id,
            ownership_token: grant.ownership_token,
        }),
    );
    assert_eq!(harness.closed, [5, 6]);
    assert!(harness.route(7, grant.connection_credential).is_err());
}

#[test]
fn a_departure_is_reported_as_a_change_of_status() {
    let mut harness = Harness::new(ControllerConfig::default());
    let (session, grant) = open_owned(&mut harness);
    harness.until(session, is_reconciled);
    harness.route(5, grant.connection_credential).expect("a live credential");
    harness.until(session, |payload| {
        matches!(payload, ServerPayload::ParticipantStatusChanged(value)
            if value.status.as_ref().is_some_and(|status| status.connected))
    });
    harness.handle(ActorCommand::SpaceEvent(SpaceReport {
        space_key: "lobby".to_owned(),
        event: SpaceEvent { connection: ConnectionId(5), kind: SpaceEventKind::Disconnected },
    }));
    harness.until(session, |payload| {
        matches!(payload, ServerPayload::ParticipantStatusChanged(value)
            if value.status.as_ref().is_some_and(|status| !status.connected))
    });
}

#[test]
fn random_values_are_drawn_for_each_registration() {
    let registration = |participant_id: &str| ParticipantRegistration {
        participant_id: participant_id.to_owned(),
        registration_id: vec![1],
        ownership_token: Vec::new(),
        client_spec_revision: 1,
        spec: None,
    };
    let snapshot = DesiredStateSnapshot {
        desired_state_revision: 1,
        participants: vec![registration("alice"), registration("bob")],
        observed_space_keys: Vec::new(),
    };
    let command = ActorCommand::Frame {
        stream_id: 1,
        frame: ClientFrame {
            request_id: vec![1],
            payload: Some(ClientPayload::SyncDesiredState(SyncDesiredState {
                session_token: vec![1],
                desired_state: Some(snapshot),
            })),
        },
    };
    let draws = draw_for(&command);
    assert_eq!(draws.session_token.map(|token| token.len()), Some(32));
    assert_eq!(draws.resume_token.map(|token| token.len()), Some(32));
    assert_eq!(draws.registrations.len(), 2);
    for drawn in draws.registrations {
        assert_eq!(drawn.incarnation_id.map(|id| id.len()), Some(16));
        assert_eq!(drawn.ownership_token.map(|token| token.len()), Some(32));
        assert_eq!(drawn.join_token.map(|token| token.len()), Some(43));
    }
}
