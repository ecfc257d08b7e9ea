//! What two controllers can rely on, over the frames of the core protocol.

use std::collections::{BTreeMap, VecDeque};

use mumble_spaces::actor::{ControllerActor, Effect};
use mumble_spaces::clock::Instant;
use mumble_spaces::config::ControllerConfig;
use mumble_spaces::core_wire::{
    CoreClientFrame, CoreClientPayload, CoreOpenSession, CoreRegisterParticipant,
    CoreRegistration, CoreServerFrame, CoreServerPayload, CoreSetParticipantSpec, CoreSnapshot,
    CoreSyncDesiredState, ProfilePayload, StatusCode, WireStatus,
};
use mumble_spaces::messages::{
    CloseSession, CommandErrorCode, OwnershipRevocationReason, ParticipantOwnershipGranted,
    ReleaseParticipant, RenewLease, SessionReady,
};
use mumble_spaces::profile;
use mumble_spaces::service::{
    outgoing_frame, ControllerService, ControllerStream, Incoming, StreamStep,
};
use mumble_spaces::session::ProfileRef;

fn supported() -> ProfileRef {
    profile::spaces("digest").expect("a valid profile")
}

struct Connection {
    stream: ControllerStream,
    received: VecDeque<Result<CoreServerFrame, WireStatus>>,
}

struct Server {
    actor: ControllerActor,
    service: ControllerService,
    connections: BTreeMap<u64, Connection>,
}

impl Server {
    fn new(max_sessions: usize) -> Self {
        let config = ControllerConfig { max_sessions, ..ControllerConfig::default() };
        Self {
            actor: ControllerActor::new(config, supported(), vec![3; 16]),
            service: ControllerService::new(config.queue_capacity),
            connections: BTreeMap::new(),
        }
    }

    fn connect(&mut self) -> u64 {
        let stream = self.service.connect();
        let stream_id = stream.stream_id();
        self.connections.insert(stream_id, Connection { stream, received: VecDeque::new() });
        stream_id
    }

    fn deliver(&mut self, stream_id: u64, result: Result<CoreServerFrame, WireStatus>) -> bool {
        match self.connections.get_mut(&stream_id) {
            Some(connection) => {
                connection.received.push_back(result);
                true
            }
            None => false,
        }
    }

    fn receive(&mut self, stream_id: u64, incoming: Incoming) {
        let connection = self.connections.get_mut(&stream_id).expect("connected");
        match connection.stream.receive(incoming) {
            StreamStep::Forward(command) | StreamStep::Close(command) => {
                self.actor.handle(command, Instant { nanos: 1_000_000_000 });
            }
            StreamStep::Refuse(status) => {
                self.deliver(stream_id, Err(status));
            }
            StreamStep::PassOn | StreamStep::Nothing => {}
        }
        for effect in self.actor.take_effects() {
            match effect {
                Effect::Send { session_id, stream_id, frame } => {
                    if !self.deliver(stream_id, outgoing_frame(frame)) {
                        self.actor.delivery_closed(session_id);
                    }
                }
                Effect::Reply { stream_id, frame } => {
                    self.deliver(stream_id, outgoing_frame(frame));
                }
                _ => {}
            }
        }
    }

    fn send(&mut self, stream_id: u64, frame: CoreClientFrame) {
        self.receive(stream_id, Incoming::Frame(frame));
    }

    fn disconnect(&mut self, stream_id: u64) {
        self.receive(stream_id, Incoming::End);
        self.connections.remove(&stream_id);
    }

    fn next_result(&mut self, stream_id: u64) -> Result<CoreServerFrame, WireStatus> {
        let connection = self.connections.get_mut(&stream_id).expect("connected");
        connection.received.pop_front().expect("a response")
    }

    fn next_matching(
        &mut self,
        stream_id: u64,
        predicate: impl Fn(&CoreServerPayload) -> bool,
    ) -> CoreServerFrame {
        loop {
            let frame = self.next_result(stream_id).expect("no refusal");
            if frame.payload.as_ref().is_some_and(&predicate) {
                return frame;
            }
        }
    }

    fn ready(&mut self, stream_id: u64) -> SessionReady {
        let frame = self.next_matching(stream_id, |payload| {
            matches!(payload, CoreServerPayload::SessionReady(_))
        });
        match frame.payload {
            Some(CoreServerPayload::SessionReady(ready)) => ready,
            _ => unreachable!(),
        }
    }

    fn open(
        &mut self,
        controller: &str,
        instance: &[u8],
        resume_token: Vec<u8>,
    ) -> (u64, SessionReady) {
        let stream = self.connect();
        self.send(stream, open_frame("open", controller, instance, resume_token));
        let ready = self.ready(stream);
        let reconciled = self.next_matching(stream, |payload| {
            matches!(payload, CoreServerPayload::DesiredStateReconciled(_))
        });
        assert_eq!(reconciled.request_id, request_id("open"));
        (stream, ready)
    }

    fn grant(&mut self, stream: u64) -> ParticipantOwnershipGranted {
        let frame = self.next_matching(stream, |payload| {
            matches!(payload, CoreServerPayload::ParticipantOwnershipGranted(_))
        });
        match frame.payload {
            Some(CoreServerPayload::ParticipantOwnershipGranted(grant)) => grant,
            _ => unreachable!(),
        }
    }

    fn register(
        &mut self,
        stream: u64,
        request: &str,
        session_token: &[u8],
        registration: CoreRegistration,
    ) -> ParticipantOwnershipGranted {
        self.send(stream, register_frame(request, session_token, registration));
        self.grant(stream)
    }

    fn expect_accepted(&mut self, stream: u64) -> CoreServerFrame {
        self.next_matching(stream, |payload| {
            matches!(payload, CoreServerPayload::ParticipantSpecAccepted(_))
        })
    }

    fn expect_rejected(&mut self, stream: u64, expected: CommandErrorCode) {
        let frame = self.next_matching(stream, |payload| {
            matches!(payload, CoreServerPayload::CommandRejected(_))
        });
        match frame.payload {
            Some(CoreServerPayload::CommandRejected(rejection)) => {
                assert_eq!(rejection.code, expected.code())
            }
            _ => unreachable!(),
        }
    }

    fn expect_revoked(&mut self, stream: u64) -> CoreServerFrame {
        self.next_matching(stream, |payload| {
            matches!(payload, CoreServerPayload::ParticipantOwnershipRevoked(_))
        })
    }
}

fn request_id(value: &str) -> Vec<u8> {
    value.as_bytes().to_vec()
}

fn desired_state(revision: u64, participants: Vec<CoreRegistration>) -> CoreSnapshot {
    CoreSnapshot {
        desired_state_revision: revision,
        participants,
        profile_state: Some(ProfilePayload { protobuf: Vec::new() }),
    }
}

fn open_with(
    request: &str,
    controller: &str,
    instance: &[u8],
    resume_token: Vec<u8>,
    desired: CoreSnapshot,
) -> CoreClientFrame {
    CoreClientFrame {
        request_id: request_id(request),
        payload: Some(CoreClientPayload::OpenSession(CoreOpenSession {
            controller_id: controller.to_owned(),
            controller_instance_id: instance.to_vec(),
            resume_token,
            desired_state: Some(desired),
            profile: Some(profile::to_protocol(&supported())),
        })),
    }
}

fn open_frame(
    request: &str,
    controller: &str,
    instance: &[u8],
    resume_token: Vec<u8>,
) -> CoreClientFrame {
    open_with(request, controller, instance, resume_token, desired_state(1, Vec::new()))
}

/// A spec as the protobuf library writes it.
fn participant(space: &str, name: &str) -> ProfilePayload {
    let mut protobuf = Vec::new();
    prost::encoding::string::encode(1, &space.to_owned(), &mut protobuf);
    prost::encoding::string::encode(2, &name.to_owned(), &mut protobuf);
    ProfilePayload { protobuf }
}

fn registration_for(
    participant_id: &str,
    registration_id: &[u8],
    ownership_token: Vec<u8>,
    client_spec_revision: u64,
    spec: ProfilePayload,
) -> CoreRegistration {
    CoreRegistration {
        participant_id: participant_id.to_owned(),
        registration_id: registration_id.to_vec(),
        ownership_token,
        client_spec_revision,
        profile_spec: Some(spec),
    }
}

fn registration(registration_id: &[u8], spec: ProfilePayload) -> CoreRegistration {
    registration_for("participant", registration_id, Vec::new(), 1, spec)
}

fn register_frame(
    request: &str,
    session_token: &[u8],
    registration: CoreRegistration,
) -> CoreClientFrame {
    CoreClientFrame {
        request_id: request_id(request),
        payload: Some(CoreClientPayload::RegisterParticipant(CoreRegisterParticipant {
            session_token: session_token.to_vec(),
            participant: Some(registration),
        })),
    }
}

fn spec_frame(
    request: &str,
    session_token: &[u8],
    participant_id: &str,
    ownership_token: &[u8],
    client_spec_revision: u64,
    spec: ProfilePayload,
) -> CoreClientFrame {
    CoreClientFrame {
        request_id: request_id(request),
        payload: Some(CoreClientPayload::SetParticipantSpec(CoreSetParticipantSpec {
            session_token: session_token.to_vec(),
            participant_id: participant_id.to_owned(),
            ownership_token: ownership_token.to_vec(),
            client_spec_revision,
            profile_spec: Some(spec),
        })),
    }
}

fn release_frame(
    request: &str,
    session_token: &[u8],
    grant: &ParticipantOwnershipGranted,
) -> CoreClientFrame {
    CoreClientFrame {
        request_id: request_id(request),
        payload: Some(CoreClientPayload::ReleaseParticipant(ReleaseParticipant {
            session_token: session_token.to_vec(),
            participant_id: "participant".to_owned(),
            registration_id: grant.registration_id.clone(),
            ownership_token: grant.ownership_token.clone(),
        })),
    }
}

#[test]
fn session_conformance_resume_rotates_only_the_session_capability() {
    let mut server = Server::new(4);
    let (first, first_ready) = server.open("resume-controller", b"stable-instance", Vec::new());
    let resume_token = first_ready.resume_token.clone();
    server.disconnect(first);

    let (_resumed, resumed_ready) =
        server.open("resume-controller", b"stable-instance", resume_token.clone());
    assert_eq!(resumed_ready.resume_token, resume_token);
    assert_ne!(resumed_ready.session_token, first_ready.session_token);
    assert_eq!(resumed_ready.control_epoch, first_ready.control_epoch);
}

#[test]
fn session_conformance_takeover_fences_stale_commands_and_request_replays_are_idempotent() {
    let mut server = Server::new(4);
    let (first, first_ready) = server.open("first-controller", b"first-instance", Vec::new());
    let first_grant = server.register(
        first,
        "first-register",
        &first_ready.session_token,
        registration(b"first-registration", participant("lobby", "First")),
    );

    let (second, second_ready) = server.open("second-controller", b"second-instance", Vec::new());
    let second_grant = server.register(
        second,
        "second-register",
        &second_ready.session_token,
        registration(b"second-registration", participant("lobby", "Second")),
    );
    assert_ne!(second_grant.ownership_token, first_grant.ownership_token);
    assert_ne!(second_grant.connection_credential, first_grant.connection_credential);

    server.send(first, release_frame("stale-release", &first_ready.session_token, &first_grant));
    server.expect_rejected(first, CommandErrorCode::OwnershipLost);

    let write = |request: &str, revision: u64, space: &str| {
        spec_frame(
            request,
            &second_ready.session_token,
            "participant",
            &second_grant.ownership_token,
            revision,
            participant(space, "Second"),
        )
    };
    server.send(second, write("revision-two", 2, "arena"));
    server.expect_accepted(second);
    server.send(second, write("stale-revision", 1, "lobby"));
    server.expect_rejected(second, CommandErrorCode::StaleRevision);

    let release = || release_frame("release", &second_ready.session_token, &second_grant);
    server.send(second, release());
    let first_result = server.expect_revoked(second);
    server.send(second, release());
    let replayed = server.expect_revoked(second);
    assert_eq!(replayed, first_result);
}

#[test]
fn session_conformance_lease_watermark_and_session_limits_fail_closed() {
    let mut server = Server::new(1);
    let (first, ready) = server.open("limited-controller", b"limited-instance", Vec::new());
    server.send(
        first,
        CoreClientFrame {
            request_id: request_id("renew-stale"),
            payload: Some(CoreClientPayload::RenewLease(RenewLease {
                session_token: ready.session_token,
                desired_state_revision: 0,
            })),
        },
    );
    server.next_matching(first, |payload| matches!(payload, CoreServerPayload::ResyncRequired(_)));

    let refused = server.connect();
    server.send(
        refused,
        open_frame("open-refused", "second-controller", b"second-instance", Vec::new()),
    );
    server.expect_rejected(refused, CommandErrorCode::ResourceExhausted);
}

#[test]
fn reconnect_resumes_participant_and_rejects_the_rotated_session_token() {
    let mut server = Server::new(4);
    let (first, first_ready) =
        server.open("reconnect-controller", b"reconnect-instance", Vec::new());
    let first_grant = server.register(
        first,
        "register",
        &first_ready.session_token,
        registration(b"stable-registration", participant("lobby", "Before")),
    );
    server.disconnect(first);

    let resumed = server.connect();
    let desired = desired_state(
        2,
        vec![registration_for(
            "participant",
            b"stable-registration",
            first_grant.ownership_token.clone(),
            1,
            participant("lobby", "Before"),
        )],
    );
    server.send(
        resumed,
        open_with(
            "resume",
            "reconnect-controller",
            b"reconnect-instance",
            first_ready.resume_token.clone(),
            desired,
        ),
    );
    let resumed_ready = server.ready(resumed);
    let resumed_grant = server.grant(resumed);
    server.next_matching(resumed, |payload| {
        matches!(payload, CoreServerPayload::DesiredStateReconciled(_))
    });

    assert_eq!(resumed_grant.ownership_token, first_grant.ownership_token);
    assert_eq!(resumed_grant.connection_credential, first_grant.connection_credential);
    assert_ne!(resumed_ready.session_token, first_ready.session_token);

    server.send(
        resumed,
        spec_frame(
            "rotated-token",
            &first_ready.session_token,
            "participant",
            &resumed_grant.ownership_token,
            2,
            participant("arena", "Stale session token"),
        ),
    );
    server.expect_rejected(resumed, CommandErrorCode::SessionExpiredError);

    server.send(
        resumed,
        spec_frame(
            "current-token",
            &resumed_ready.session_token,
            "participant",
            &resumed_grant.ownership_token,
            2,
            participant("arena", "Resumed"),
        ),
    );
    server.expect_accepted(resumed);
}

#[test]
fn foreign_identity_cannot_resume_or_use_a_leaked_ownership_token() {
    let mut server = Server::new(4);
    let (owner, owner_ready) = server.open("owner-controller", b"owner-instance", Vec::new());
    let grant = server.register(
        owner,
        "owner-register",
        &owner_ready.session_token,
        registration(b"owner-registration", participant("lobby", "Owner")),
    );

    let (foreign, foreign_ready) =
        server.open("foreign-controller", b"foreign-instance", owner_ready.resume_token.clone());
    assert_ne!(foreign_ready.resume_token, owner_ready.resume_token);
    assert_ne!(foreign_ready.session_token, owner_ready.session_token);

    server.send(
        foreign,
        spec_frame(
            "foreign-write",
            &foreign_ready.session_token,
            "participant",
            &grant.ownership_token,
            2,
            participant("arena", "Foreign"),
        ),
    );
    server.expect_rejected(foreign, CommandErrorCode::OwnershipLost);

    server.send(
        owner,
        spec_frame(
            "owner-write",
            &owner_ready.session_token,
            "participant",
            &grant.ownership_token,
            2,
            participant("arena", "Owner retained"),
        ),
    );
    server.expect_accepted(owner);
}

#[test]
fn snapshot_conflict_cannot_take_over_but_explicit_registration_can() {
    let mut server = Server::new(4);
    let (first, first_ready) =
        server.open("snapshot-owner", b"snapshot-owner-instance", Vec::new());
    let first_grant = server.register(
        first,
        "first-register",
        &first_ready.session_token,
        registration(b"first-registration", participant("lobby", "First")),
    );
    let (second, second_ready) =
        server.open("snapshot-contender", b"snapshot-contender-instance", Vec::new());

    server.send(
        second,
        CoreClientFrame {
            request_id: request_id("conflicting-snapshot"),
            payload: Some(CoreClientPayload::SyncDesiredState(CoreSyncDesiredState {
                session_token: second_ready.session_token.clone(),
                desired_state: Some(desired_state(
                    2,
                    vec![registration_for(
                        "participant",
                        b"snapshot-registration",
                        Vec::new(),
                        1,
                        participant("arena", "Snapshot contender"),
                    )],
                )),
            })),
        },
    );
    match server.expect_revoked(second).payload {
        Some(CoreServerPayload::ParticipantOwnershipRevoked(revoked)) => {
            assert_eq!(revoked.reason, OwnershipRevocationReason::RegistrationRejected.code())
        }
        _ => unreachable!(),
    }
    server.next_matching(second, |payload| {
        matches!(payload, CoreServerPayload::DesiredStateReconciled(_))
    });

    server.send(
        first,
        spec_frame(
            "owner-still-valid",
            &first_ready.session_token,
            "participant",
            &first_grant.ownership_token,
            2,
            participant("lobby", "Still first"),
        ),
    );
    server.expect_accepted(first);

    let second_grant = server.register(
        second,
        "explicit-takeover",
        &second_ready.session_token,
        registration(b"explicit-registration", participant("arena", "Second")),
    );
    assert_ne!(second_grant.ownership_token, first_grant.ownership_token);
}

#[test]
fn conflicting_equal_and_older_revisions_leave_the_current_spec_writable() {
    let mut server = Server::new(2);
    let (stream, ready) = server.open("revision-controller", b"revision-instance", Vec::new());
    let grant = server.register(
        stream,
        "register",
        &ready.session_token,
        registration(b"revision-registration", participant("lobby", "One")),
    );
    let write = |request: &str, revision: u64, space: &str, name: &str| {
        spec_frame(
            request,
            &ready.session_token,
            "participant",
            &grant.ownership_token,
            revision,
            participant(space, name),
        )
    };
    server.send(stream, write("revision-two", 2, "arena", "Two"));
    server.expect_accepted(stream);
    server.send(stream, write("equal-conflict", 2, "lobby", "Conflicting two"));
    server.expect_rejected(stream, CommandErrorCode::StaleRevision);
    server.send(stream, write("older-conflict", 1, "lobby", "Old"));
    server.expect_rejected(stream, CommandErrorCode::StaleRevision);
    server.send(stream, write("revision-three", 3, "arena", "Three"));
    server.expect_accepted(stream);
}

#[test]
fn duplicate_request_id_with_different_payload_replays_without_mutation() {
    let mut server = Server::new(2);
    let (stream, ready) = server.open("dedup-controller", b"dedup-instance", Vec::new());
    let grant = server.register(
        stream,
        "register",
        &ready.session_token,
        registration(b"dedup-registration", participant("lobby", "One")),
    );
    let write = |request: &str, revision: u64, space: &str, name: &str| {
        spec_frame(
            request,
            &ready.session_token,
            "participant",
            &grant.ownership_token,
            revision,
            participant(space, name),
        )
    };
    server.send(stream, write("duplicate", 2, "lobby", "Two"));
    let original = server.expect_accepted(stream);
    server.send(stream, write("duplicate", 3, "arena", "Ignored duplicate"));
    let replay = server.expect_accepted(stream);
    assert_eq!(replay, original);

    server.send(stream, write("revision-three", 3, "arena", "Applied once"));
    server.expect_accepted(stream);
}

/// Two controllers claim one participant; whoever comes last owns it.
fn claims_in_turn(first_goes_last: bool) {
    let mut server = Server::new(4);
    let (first, first_ready) = server.open("race-first", b"race-first-instance", Vec::new());
    let (second, second_ready) = server.open("race-second", b"race-second-instance", Vec::new());
    let first_register = register_frame(
        "simultaneous-first",
        &first_ready.session_token,
        registration(b"simultaneous-first", participant("first", "First")),
    );
    let second_register = register_frame(
        "simultaneous-second",
        &second_ready.session_token,
        registration(b"simultaneous-second", participant("second", "Second")),
    );
    if first_goes_last {
        server.send(second, second_register);
        server.send(first, first_register);
    } else {
        server.send(first, first_register);
        server.send(second, second_register);
    }
    let first_grant = server.grant(first);
    let second_grant = server.grant(second);
    assert_ne!(first_grant.ownership_token, second_grant.ownership_token);

    server.send(
        first,
        spec_frame(
            "first-race-write",
            &first_ready.session_token,
            "participant",
            &first_grant.ownership_token,
            2,
            participant("first", "First write"),
        ),
    );
    server.send(
        second,
        spec_frame(
            "second-race-write",
            &second_ready.session_token,
            "participant",
            &second_grant.ownership_token,
            2,
            participant("second", "Second write"),
        ),
    );
    let (owner, loser) = if first_goes_last { (first, second) } else { (second, first) };
    server.expect_accepted(owner);
    server.expect_rejected(loser, CommandErrorCode::OwnershipLost);
}

#[test]
fn simultaneous_explicit_claims_converge_to_exactly_one_owner() {
    claims_in_turn(true);
    claims_in_turn(false);
}

#[test]
fn crossed_takeovers_of_two_participants_do_not_cross_fencing_tokens() {
    let mut server = Server::new(4);
    let (first, first_ready) = server.open("cross-first", b"cross-first-instance", Vec::new());
    let (second, second_ready) = server.open("cross-second", b"cross-second-instance", Vec::new());
    let first_original = server.register(
        first,
        "first-original",
        &first_ready.session_token,
        registration_for(
            "first-participant",
            b"first-original",
            Vec::new(),
            1,
            participant("lobby", "First original"),
        ),
    );
    let second_original = server.register(
        second,
        "second-original",
        &second_ready.session_token,
        registration_for(
            "second-participant",
            b"second-original",
            Vec::new(),
            1,
            participant("lobby", "Second original"),
        ),
    );

    let first_new = server.register(
        first,
        "first-takes-second",
        &first_ready.session_token,
        registration_for(
            "second-participant",
            b"first-takes-second",
            Vec::new(),
            1,
            participant("first-space", "First owns second"),
        ),
    );
    assert_eq!(first_new.participant_id, "second-participant");
    let second_new = server.register(
        second,
        "second-takes-first",
        &second_ready.session_token,
        registration_for(
            "first-participant",
            b"second-takes-first",
            Vec::new(),
            1,
            participant("second-space", "Second owns first"),
        ),
    );
    assert_eq!(second_new.participant_id, "first-participant");

    server.send(
        first,
        spec_frame(
            "first-stale",
            &first_ready.session_token,
            "first-participant",
            &first_original.ownership_token,
            2,
            participant("lobby", "Stale first"),
        ),
    );
    server.expect_rejected(first, CommandErrorCode::OwnershipLost);
    server.send(
        second,
        spec_frame(
            "second-stale",
            &second_ready.session_token,
            "second-participant",
            &second_original.ownership_token,
            2,
            participant("lobby", "Stale second"),
        ),
    );
    server.expect_rejected(second, CommandErrorCode::OwnershipLost);
    server.send(
        first,
        spec_frame(
            "first-current",
            &first_ready.session_token,
            "second-participant",
            &first_new.ownership_token,
            2,
            participant("first-space", "Current first"),
        ),
    );
    server.expect_accepted(first);
    server.send(
        second,
        spec_frame(
            "second-current",
            &second_ready.session_token,
            "first-participant",
            &second_new.ownership_token,
            2,
            participant("second-space", "Current second"),
        ),
    );
    server.expect_accepted(second);
}

#[test]
fn closing_the_replaced_session_cannot_release_the_new_owner() {
    let mut server = Server::new(4);
    let (first, first_ready) = server.open("close-first", b"close-first-instance", Vec::new());
    server.register(
        first,
        "first-register",
        &first_ready.session_token,
        registration(b"first-registration", participant("lobby", "First")),
    );
    let (second, second_ready) = server.open("close-second", b"close-second-instance", Vec::new());
    let second_grant = server.register(
        second,
        "second-register",
        &second_ready.session_token,
        registration(b"second-registration", participant("handoff", "Second")),
    );

    server.send(
        first,
        CoreClientFrame {
            request_id: request_id("close-old-session"),
            payload: Some(CoreClientPayload::CloseSession(CloseSession {
                session_token: first_ready.session_token,
            })),
        },
    );
    server.next_matching(first, |payload| matches!(payload, CoreServerPayload::SessionClosing(_)));

    server.send(
        second,
        spec_frame(
            "new-owner-write",
            &second_ready.session_token,
            "participant",
            &second_grant.ownership_token,
            2,
            participant("handoff", "Still second"),
        ),
    );
    server.expect_accepted(second);
}

#[test]
fn identical_request_ids_on_different_sessions_do_not_alias() {
    let mut server = Server::new(4);
    let (first, first_ready) = server.open("request-first", b"request-first-instance", Vec::new());
    let (second, second_ready) =
        server.open("request-second", b"request-second-instance", Vec::new());
    let first_grant = server.register(
        first,
        "same-request-id",
        &first_ready.session_token,
        registration_for(
            "first-participant",
            b"first-registration",
            Vec::new(),
            1,
            participant("first", "First"),
        ),
    );
    let second_grant = server.register(
        second,
        "same-request-id",
        &second_ready.session_token,
        registration_for(
            "second-participant",
            b"second-registration",
            Vec::new(),
            1,
            participant("second", "Second"),
        ),
    );
    assert_eq!(first_grant.participant_id, "first-participant");
    assert_eq!(second_grant.participant_id, "second-participant");
    assert_ne!(first_grant.ownership_token, second_grant.ownership_token);
}

#[test]
fn explicit_resume_of_the_same_registration_keeps_bearer_credentials() {
    let mut server = Server::new(2);
    let (stream, ready) = server.open("explicit-resume", b"explicit-resume-instance", Vec::new());
    let first_grant = server.register(
        stream,
        "first-register",
        &ready.session_token,
        registration(b"stable-registration", participant("lobby", "First")),
    );
    let resumed_grant = server.register(
        stream,
        "same-registration",
        &ready.session_token,
        registration_for(
            "participant",
            b"stable-registration",
            first_grant.ownership_token.clone(),
            2,
            participant("arena", "Resumed"),
        ),
    );
    assert_eq!(resumed_grant.ownership_token, first_grant.ownership_token);
    assert_eq!(resumed_grant.connection_credential, first_grant.connection_credential);
    assert_eq!(resumed_grant.client_spec_revision, 2);
}

#[test]
fn rejected_malformed_registration_does_not_poison_a_valid_retry() {
    let mut server = Server::new(2);
    let (stream, ready) = server.open("malformed-controller", b"malformed-instance", Vec::new());
    server.send(
        stream,
        register_frame(
            "malformed",
            &ready.session_token,
            CoreRegistration {
                participant_id: "participant".to_owned(),
                registration_id: b"malformed-registration".to_vec(),
                ownership_token: Vec::new(),
                client_spec_revision: 1,
                profile_spec: None,
            },
        ),
    );
    let failure = loop {
        if let Err(failure) = server.next_result(stream) {
            break failure;
        }
    };
    assert_eq!(failure.code, StatusCode::InvalidArgument);
    server.connections.remove(&stream);

    let (resumed, resumed_ready) =
        server.open("malformed-controller", b"malformed-instance", ready.resume_token);
    let grant = server.register(
        resumed,
        "valid-retry",
        &resumed_ready.session_token,
        registration(b"valid-registration", participant("lobby", "Valid")),
    );
    assert_eq!(grant.participant_id, "participant");
}
