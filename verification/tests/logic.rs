//! What a Space shows and reports, and the runtime around it.

use std::collections::VecDeque;
use std::sync::{Arc, Mutex};

use mumble_spaces::clock::Duration;
use mumble_spaces::config::{ConfigError, ControllerConfig, IpAddress, SocketAddress};
use mumble_spaces::core_wire::{
    CoreClientFrame, CoreClientPayload, CoreServerPayload, StatusCode,
};
use mumble_spaces::entropy::{random_bytes, random_join_token};
use mumble_spaces::host::{ConnectionId, ShardId};
use mumble_spaces::messages::{CloseSession, ResyncRequired, ServerFrame, ServerPayload};
use mumble_spaces::metrics::{ActorMetrics, MetricsOutput};
use mumble_spaces::router::{
    route_request, route_verdict, AlwaysAttach, ConnectionIdentity, ConnectionRouter, RouteAnswer,
    RouteDecision,
};
use mumble_spaces::runtime::{
    delivered, handed_over, moving_reason, view_answered, AttachError, MigrationStep, PeerPosition,
    RuntimeHandle, ShardStatus, ViewAnswer,
};
use mumble_spaces::server::{
    check_start, identity_source, IdentityError, IdentitySource, ServerStartError,
};
use mumble_spaces::service::{
    outgoing_frame, ControllerService, Incoming, StreamStep,
};
use mumble_spaces::actor::ActorCommand;
use mumble_spaces::snapshot::{snapshot_channel, SnapshotChannel, VersionedSnapshot};
use mumble_spaces::space_logic::{
    Audience, ControllerSpaceLogic, RenderedUser, Reply, SpaceReporter, Spoken, VoiceEvent,
};
use mumble_spaces::spaces::{
    ReconcileReport, RenderParticipant, RenderState, SpaceEvent, SpaceEventKind, SpaceReport,
};

#[derive(Clone)]
struct TestReporter {
    capacity: usize,
    events: Arc<Mutex<VecDeque<SpaceReport>>>,
}

impl TestReporter {
    fn new(capacity: usize) -> Self {
        Self { capacity, events: Arc::new(Mutex::new(VecDeque::new())) }
    }

    fn pop(&self) -> Option<SpaceReport> {
        self.events.lock().expect("event queue lock").pop_front()
    }

    fn is_empty(&self) -> bool {
        self.events.lock().expect("event queue lock").is_empty()
    }
}

impl SpaceReporter for TestReporter {
    fn try_report(&self, report: SpaceReport) -> Result<(), SpaceReport> {
        let mut events = self.events.lock().expect("event queue lock");
        if events.len() >= self.capacity {
            return Err(report);
        }
        events.push_back(report);
        Ok(())
    }
}

struct Snapshot(u64);

impl VersionedSnapshot for Snapshot {
    fn revision(&self) -> u64 {
        self.0
    }
}

fn participant(connection: ConnectionId, self_mute: bool, self_deaf: bool) -> RenderParticipant {
    RenderParticipant {
        participant_id: "alice".to_owned(),
        connection: Some(connection),
        display_name: "Alice".to_owned(),
        server_mute: false,
        server_deaf: false,
        self_mute,
        self_deaf,
        accepted_revision: 1,
    }
}

fn logic_with(
    participants: Vec<RenderParticipant>,
    actor_capacity: usize,
) -> (ControllerSpaceLogic<TestReporter>, SnapshotChannel<RenderState>, TestReporter) {
    let channel = snapshot_channel(Arc::new(RenderState {
        application_revision: 1,
        space_key: "lobby".to_owned(),
        participants,
    }));
    let events = TestReporter::new(actor_capacity);
    let logic = ControllerSpaceLogic::new("lobby".to_owned(), events.clone());
    (logic, channel, events)
}

fn partial_self_state() {
    let (mut logic, desired, events) =
        logic_with(vec![participant(ConnectionId(7), true, false)], 4);
    let mut reply = Reply::new();
    logic.observe(
        &desired.current(),
        &VoiceEvent::RequestedSelfState {
            connection: ConnectionId(7),
            self_mute: None,
            self_deaf: Some(true),
        },
        &mut reply,
    );

    let report = events.pop().expect("a self-state event");
    assert_eq!(report.space_key, "lobby");
    assert_eq!(
        report.event,
        SpaceEvent {
            connection: ConnectionId(7),
            kind: SpaceEventKind::SelfState { self_mute: true, self_deaf: true },
        }
    );
    assert!(events.is_empty());
}

fn refused_departure() {
    let (mut logic, desired, events) =
        logic_with(vec![participant(ConnectionId(7), false, false)], 1);
    let mut reply = Reply::new();
    logic.observe(
        &desired.current(),
        &VoiceEvent::Connected { connection: ConnectionId(7) },
        &mut reply,
    );
    logic.observe(
        &desired.current(),
        &VoiceEvent::Disconnected {
            connection: ConnectionId(7),
            reason: "test departure".to_owned(),
        },
        &mut reply,
    );

    let event = events.pop().expect("the arrival").event;
    assert_eq!(
        event,
        SpaceEvent { connection: ConnectionId(7), kind: SpaceEventKind::Connected }
    );
    assert!(events.is_empty(), "the departure could not fit in the mailbox");

    logic.observe(
        &desired.current(),
        &VoiceEvent::Connected { connection: ConnectionId(8) },
        &mut reply,
    );
    let report = events.pop().expect("the retried departure");
    assert_eq!(report.space_key, "lobby");
    assert_eq!(
        report.event,
        SpaceEvent { connection: ConnectionId(7), kind: SpaceEventKind::Disconnected }
    );
}

fn relayed_text() {
    let (mut logic, desired, _events) = logic_with(Vec::new(), 1);
    let mut reply = Reply::new();
    logic.observe(
        &desired.current(),
        &VoiceEvent::Said {
            connection: ConnectionId(7),
            to: Audience::Channel(0),
            text: "hello".to_owned(),
        },
        &mut reply,
    );

    assert_eq!(
        reply.drain_spoken(),
        vec![Spoken {
            from: Some(ConnectionId(7)),
            to: Audience::Channel(0),
            text: "hello".to_owned(),
        }]
    );
    assert!(reply.drain_spoken().is_empty());
}

#[test]
fn mumble_controller_spaces_a_partial_self_state_keeps_the_flag_it_does_not_carry() {
    partial_self_state();
}

#[test]
fn space_a_partial_self_state_keeps_the_flag_it_does_not_carry() {
    partial_self_state();
}

#[test]
fn mumble_controller_spaces_a_departure_refused_under_backpressure_is_retried() {
    refused_departure();
}

#[test]
fn space_a_departure_refused_under_backpressure_is_retried() {
    refused_departure();
}

#[test]
fn mumble_controller_spaces_room_text_is_relayed_to_the_exact_runtime_audience() {
    relayed_text();
}

#[test]
fn space_room_text_is_relayed_to_the_exact_runtime_audience() {
    relayed_text();
}

#[test]
fn snapshots_are_coalesced_and_marked_only_when_rendered() {
    let mut channel = snapshot_channel(Arc::new(Snapshot(0)));
    let marker = channel.publication_marker();
    channel.publish(Arc::new(Snapshot(1)));
    channel.publish(Arc::new(Snapshot(2)));

    assert_eq!(marker.rendered_revision(&channel), 0);
    assert_eq!(channel.latest().0, 2);
    assert_eq!(marker.rendered_revision(&channel), 2);
}

#[test]
fn a_marker_follows_its_channel_and_so_does_a_copy_of_it() {
    let mut channel = snapshot_channel(Arc::new(Snapshot(7)));
    let marker = channel.publication_marker();
    let copy = marker.clone();
    let mut other = snapshot_channel(Arc::new(Snapshot(9)));
    assert_eq!(other.latest().0, 9);
    assert_eq!(copy.rendered_revision(&channel), 0);
    assert_eq!(channel.latest().0, 7);
    channel.publish(Arc::new(Snapshot(8)));
    assert_eq!(copy.rendered_revision(&channel), 7);
    assert_eq!(channel.latest().0, 8);
    assert_eq!(marker.rendered_revision(&channel), 8);
    assert_eq!(copy.rendered_revision(&channel), 8);
    assert_eq!(other.publication_marker().rendered_revision(&other), 9);
}

#[test]
fn a_render_reports_kept_departures_again_in_order() {
    let (mut logic, mut channel, events) = logic_with(Vec::new(), 1);
    let mut reply = Reply::new();
    for connection in [3, 5, 4] {
        logic.observe(
            &channel.current(),
            &VoiceEvent::Disconnected {
                connection: ConnectionId(connection),
                reason: "gone".to_owned(),
            },
            &mut reply,
        );
    }
    let expected = |connection: u64| SpaceReport {
        space_key: "lobby".to_owned(),
        event: SpaceEvent {
            connection: ConnectionId(connection),
            kind: SpaceEventKind::Disconnected,
        },
    };
    assert_eq!(events.pop(), Some(expected(3)));
    logic.render(&mut channel);
    assert_eq!(events.pop(), Some(expected(5)));
    assert!(events.is_empty());
    logic.render(&mut channel);
    assert_eq!(events.pop(), Some(expected(4)));
    logic.render(&mut channel);
    assert!(events.is_empty());
}

#[test]
fn a_render_shows_connected_participants_and_marks_its_revision() {
    let absent = RenderParticipant { connection: None, ..participant(ConnectionId(0), false, false) };
    let (mut logic, mut channel, events) =
        logic_with(vec![absent, participant(ConnectionId(7), true, false)], 4);
    let marker = channel.publication_marker();
    let mut reply = Reply::new();
    logic.observe(
        &channel.current(),
        &VoiceEvent::RequestedSelfState {
            connection: ConnectionId(7),
            self_mute: Some(false),
            self_deaf: None,
        },
        &mut reply,
    );
    assert!(events.pop().is_some());

    let rendering = logic.render(&mut channel);
    assert_eq!(rendering.root, "lobby");
    assert_eq!(
        rendering.users,
        vec![RenderedUser {
            connection: ConnectionId(7),
            display_name: "Alice".to_owned(),
            mute: false,
            deaf: false,
            self_mute: false,
            self_deaf: false,
        }]
    );
    assert_eq!(rendering.audible, vec![ConnectionId(7)]);
    assert_eq!(marker.rendered_revision(&channel), 1);

    // After a migration the published flags count again.
    logic.observe(
        &channel.current(),
        &VoiceEvent::Migrated { connection: ConnectionId(7) },
        &mut reply,
    );
    assert!(logic.render(&mut channel).users[0].self_mute);
    assert!(events.is_empty());
}

#[test]
fn a_kept_departure_is_reported_by_the_next_render() {
    let (mut logic, mut channel, events) = logic_with(Vec::new(), 1);
    let mut reply = Reply::new();
    logic.observe(
        &channel.current(),
        &VoiceEvent::Connected { connection: ConnectionId(1) },
        &mut reply,
    );
    logic.observe(
        &channel.current(),
        &VoiceEvent::Disconnected { connection: ConnectionId(1), reason: "gone".to_owned() },
        &mut reply,
    );
    assert!(events.pop().is_some());
    logic.render(&mut channel);
    assert_eq!(
        events.pop().expect("the departure"),
        SpaceReport {
            space_key: "lobby".to_owned(),
            event: SpaceEvent { connection: ConnectionId(1), kind: SpaceEventKind::Disconnected },
        }
    );
}

fn identity(credential: Option<&str>) -> ConnectionIdentity {
    ConnectionIdentity {
        name: "alice".to_owned(),
        certificate_hash: None,
        credential: credential.map(str::to_owned),
    }
}

#[test]
fn arrivals_are_routed_as_the_server_answers() {
    let router = AlwaysAttach(ShardId(3));
    assert_eq!(
        router.route(ConnectionId(1), &identity(None)),
        RouteDecision::Attach(ShardId(3))
    );
    let request = route_request(ConnectionId(1), &identity(Some("token")));
    assert_eq!(request.connection, ConnectionId(1));
    assert_eq!(request.credential.as_deref(), Some("token"));
    assert_eq!(
        route_verdict(RouteAnswer::Answered(Ok(ShardId(2)))),
        RouteDecision::Attach(ShardId(2))
    );
    assert_eq!(
        route_verdict(RouteAnswer::Answered(Err("no".to_owned()))),
        RouteDecision::Reject("no".to_owned())
    );
    assert_eq!(
        route_verdict(RouteAnswer::Stopped),
        RouteDecision::Reject("the Controller service is unavailable".to_owned())
    );
}

fn peer(connection: u64, shard: ShardId, cursor: u64) -> PeerPosition {
    PeerPosition { connection: ConnectionId(connection), shard, cursor }
}

#[test]
fn a_runtime_counts_its_shards_and_how_far_they_lag() {
    let mut runtime = RuntimeHandle::new();
    let first = runtime.create_shard();
    let second = runtime.create_shard();
    assert_eq!((first, second), (ShardId(1), ShardId(2)));
    assert_eq!(runtime.next_connection(), ConnectionId(1));
    assert_eq!(runtime.next_connection(), ConnectionId(2));

    let peers = [peer(1, first, 10), peer(2, second, 4), peer(3, first, 7), peer(4, first, 12)];
    assert_eq!(
        runtime.status(&peers),
        vec![
            ShardStatus { shard: first, connections: 3, worst_lag: 5 },
            ShardStatus { shard: second, connections: 1, worst_lag: 0 },
        ]
    );
    assert_eq!(runtime.status(&[])[0].worst_lag, 0);

    let closing = runtime.destroy_shard(first, &peers);
    let closing: Vec<u64> = closing.iter().map(|peer| peer.connection.0).collect();
    assert_eq!(closing, [1, 3, 4]);
    assert_eq!(runtime.shard_handle(first), None);
    assert_eq!(runtime.shard_handle(second), Some(second));
    assert_eq!(runtime.create_shard(), ShardId(3));
}

#[test]
fn a_shard_that_does_not_exist_takes_nothing() {
    let mut runtime = RuntimeHandle::new();
    let shard = runtime.create_shard();
    let mut arriving = peer(1, ShardId(0), 0);
    let missing = ShardId(9);
    assert_eq!(runtime.attach(&mut arriving, missing), Err(AttachError::NoSuchShard(missing)));
    assert_eq!(arriving.shard, ShardId(0));
    assert_eq!(runtime.attach(&mut arriving, shard), Ok(()));
    assert_eq!(arriving.shard, shard);
    assert_eq!(runtime.send(missing), Err(AttachError::NoSuchShard(missing)));
    assert_eq!(runtime.send(shard), Ok(()));
    assert!(runtime.detach(shard));
    assert!(!runtime.detach(missing));
    assert_eq!(delivered(shard, true), Ok(()));
    assert_eq!(delivered(shard, false), Err(AttachError::Unreachable(shard)));
    assert_eq!(AttachError::NoSuchShard(missing).message(), "shard ShardId(9) does not exist");
    assert_eq!(
        AttachError::Unreachable(shard).message(),
        "shard ShardId(1) is not taking commands"
    );
}

#[test]
fn a_connection_moves_only_with_its_view() {
    let mut runtime = RuntimeHandle::new();
    let from = runtime.create_shard();
    let to = runtime.create_shard();
    assert_eq!(runtime.move_connection(None, to), MigrationStep::Finished);
    assert_eq!(runtime.move_connection(Some(to), to), MigrationStep::Finished);
    assert_eq!(runtime.move_connection(Some(from), ShardId(9)), MigrationStep::NoSuchShard);
    assert_eq!(runtime.move_connection(Some(ShardId(9)), to), MigrationStep::Close);
    assert_eq!(runtime.move_connection(Some(from), to), MigrationStep::TakeView { from });
    assert_eq!(view_answered(ViewAnswer::Refused), MigrationStep::Close);
    assert_eq!(view_answered(ViewAnswer::Dropped), MigrationStep::Close);
    assert_eq!(view_answered(ViewAnswer::Held), MigrationStep::HandOver);
    assert_eq!(handed_over(true), MigrationStep::Finished);
    assert_eq!(handed_over(false), MigrationStep::Close);
    assert_eq!(moving_reason(to), "moving to ShardId(2)");
}

#[test]
fn counters_count() {
    let mut metrics = ActorMetrics::default();
    metrics.command(4);
    metrics.command(2);
    metrics.gauges(1, 2, 3);
    metrics.response();
    metrics.rejection();
    metrics.resync();
    metrics.saturated();
    metrics.expired(5);
    let report = ReconcileReport {
        version: 1,
        refused: Some("full".to_owned()),
        delta_len: 6,
        routing_recompiled: true,
    };
    metrics.reconciled(Duration::from_millis(2), &report);
    let quiet = ReconcileReport { version: 2, refused: None, delta_len: 1, routing_recompiled: false };
    metrics.reconciled(Duration::from_millis(1), &quiet);

    let counted = metrics.snapshot();
    assert_eq!((counted.commands, counted.queue_depth, counted.queue_depth_max), (2, 2, 4));
    assert_eq!((counted.sessions, counted.participants, counted.spaces), (1, 2, 3));
    assert_eq!((counted.responses, counted.rejections, counted.resyncs), (1, 1, 1));
    assert_eq!((counted.queue_saturations, counted.lease_expirations), (1, 5));
    assert_eq!(counted.reconciliations, 2);
    assert_eq!(counted.reconciliation_total_nanos, 3_000_000);
    assert_eq!(counted.reconciliation_max_nanos, 2_000_000);
    assert_eq!(counted.view_delta_ops, 7);
    assert_eq!((counted.refused_publications, counted.routing_recompiles), (1, 1));
}

#[test]
fn zero_metrics_interval_is_rejected_before_binding() {
    let metrics = Some(MetricsOutput {
        path: "unused.jsonl".to_owned(),
        interval: Duration::from_secs(0),
    });
    let result = check_start(&ControllerConfig::default(), &metrics);
    assert!(matches!(result, Err(ServerStartError::ZeroMetricsInterval)));
    assert_eq!(
        ServerStartError::ZeroMetricsInterval.message(""),
        "metrics interval must be positive"
    );
}

#[test]
fn an_invalid_configuration_does_not_start() {
    let open = ControllerConfig {
        controller_bind: SocketAddress { ip: IpAddress::V4(0, 0, 0, 0), port: 4_000 },
        ..ControllerConfig::default()
    };
    assert!(matches!(
        check_start(&open, &None),
        Err(ServerStartError::Config(ConfigError::UnauthenticatedNetworkBind(_)))
    ));
    assert_eq!(check_start(&ControllerConfig::default(), &None), Ok(()));
    let failed = ServerStartError::MumbleBind("in use".to_owned());
    assert_eq!(failed.message(""), "binding the Mumble listener failed: in use");
}

#[test]
fn a_certificate_comes_from_one_place() {
    assert_eq!(identity_source(true, false, false), Ok(IdentitySource::SelfSigned));
    assert_eq!(identity_source(false, true, true), Ok(IdentitySource::Files));
    assert_eq!(identity_source(true, true, true), Err(IdentityError::Conflicting));
    assert_eq!(identity_source(true, false, true), Err(IdentityError::Conflicting));
    assert_eq!(identity_source(false, true, false), Err(IdentityError::Missing));
    assert_eq!(
        IdentityError::Conflicting.message(),
        "--dev-self-signed cannot be combined with certificate files"
    );
    assert_eq!(
        IdentityError::Missing.message(),
        "provide --mumble-cert and --mumble-key, or explicitly use --dev-self-signed"
    );
}

fn closing_frame() -> CoreClientFrame {
    CoreClientFrame {
        request_id: vec![1],
        payload: Some(CoreClientPayload::CloseSession(CloseSession { session_token: vec![2] })),
    }
}

#[test]
fn a_stream_opens_speaks_and_closes() {
    let mut service = ControllerService::new(16);
    assert_eq!(service.queue_capacity(), 16);
    let mut stream = service.connect();
    assert_eq!(stream.stream_id(), 1);
    assert_eq!(service.connect().stream_id(), 2);
    assert!(matches!(
        stream.receive(Incoming::Frame(closing_frame())),
        StreamStep::Forward(ActorCommand::Open { stream_id: 1, .. })
    ));
    assert!(matches!(
        stream.receive(Incoming::Frame(closing_frame())),
        StreamStep::Forward(ActorCommand::Frame { stream_id: 1, .. })
    ));
    assert!(matches!(
        stream.receive(Incoming::End),
        StreamStep::Close(ActorCommand::StreamClosed { stream_id: 1 })
    ));
    assert!(matches!(stream.receive(Incoming::End), StreamStep::Nothing));
}

#[test]
fn a_stream_that_cannot_start_is_refused() {
    let mut service = ControllerService::new(16);
    match service.connect().receive(Incoming::End) {
        StreamStep::Refuse(status) => {
            assert_eq!(status.code, StatusCode::InvalidArgument);
            assert_eq!(status.message, "Controller stream is empty");
        }
        other => panic!("expected a refusal, got {other:?}"),
    }
    assert!(matches!(service.connect().receive(Incoming::Failed), StreamStep::PassOn));
    let mut unreadable = service.connect();
    let empty = CoreClientFrame { request_id: Vec::new(), payload: None };
    assert!(matches!(unreadable.receive(Incoming::Frame(empty)), StreamStep::Refuse(_)));
    assert!(matches!(
        unreadable.receive(Incoming::Frame(closing_frame())),
        StreamStep::Nothing
    ));
    let mut stopped = service.connect();
    let status = stopped.server_stopped();
    assert_eq!(status.code, StatusCode::Unavailable);
    assert_eq!(status.message, "Controller actor stopped");
    assert!(matches!(stopped.receive(Incoming::End), StreamStep::Nothing));
}

#[test]
fn answers_go_back_on_their_stream() {
    let frame = ServerFrame {
        request_id: vec![3],
        payload: Some(ServerPayload::ResyncRequired(ResyncRequired {
            reason: "lost".to_owned(),
        })),
    };
    let core = outgoing_frame(frame).expect("a payload");
    assert_eq!(core.request_id, [3]);
    assert!(matches!(core.payload, Some(CoreServerPayload::ResyncRequired(_))));
    let error = outgoing_frame(ServerFrame { request_id: Vec::new(), payload: None })
        .expect_err("nothing to say");
    assert_eq!(error.code, StatusCode::Internal);
}

#[test]
fn random_values_are_drawn_anew() {
    let first = random_bytes(32).expect("randomness");
    let second = random_bytes(32).expect("randomness");
    assert_eq!(first.len(), 32);
    assert_ne!(first, second);
    assert_ne!(first, vec![0; 32]);
    assert!(random_bytes(0).expect("randomness").is_empty());
    let token = random_join_token().expect("randomness");
    assert_eq!(token.len(), 43);
    assert!(token.bytes().all(|b| b.is_ascii_alphanumeric() || b == b'-' || b == b'_'));
    assert_ne!(token, random_join_token().expect("randomness"));
}

#[test]
fn a_faulty_configuration_is_told_in_words() {
    let bind = SocketAddress { ip: IpAddress::V4(0, 0, 0, 0), port: 4_000 };
    assert_eq!(
        ConfigError::UnauthenticatedNetworkBind(bind).message("0.0.0.0:4000"),
        "controller bind 0.0.0.0:4000 is not loopback; pass --allow-unauthenticated-controller-network to acknowledge plaintext unauthenticated access"
    );
    assert_eq!(
        ConfigError::ZeroLease.message(""),
        "controller lease duration must be positive"
    );
    assert_eq!(
        ConfigError::ZeroQueue.message(""),
        "controller queue capacity must be positive"
    );
    assert_eq!(
        ConfigError::ZeroLimit.message(""),
        "controller resource limits must be positive"
    );
}
