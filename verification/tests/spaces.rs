//! Bindings, Spaces and their configuration.

use mumble_spaces::config::{ConfigError, ControllerConfig, IpAddress, SocketAddress};
use mumble_spaces::clock::{Duration, Instant};
use mumble_spaces::host::{Bindings, ConnectionId, HostError, MumbleHost};
use mumble_spaces::spaces::{
    MaterializedSpace, ParticipantSpec, ReconcileReport, RenderParticipant, SpaceKey,
    SpacesValidationError,
};

#[test]
fn credential_rotation_keeps_the_live_connection_and_revokes_the_old_token() {
    let mut bindings = Bindings::new();
    bindings.register("alice", "first".to_owned()).expect("register first credential");
    bindings.attach("first", ConnectionId(7)).expect("attach first connection");

    bindings.register("alice", "second".to_owned()).expect("rotate credential");

    assert_eq!(bindings.connection("alice"), Some(ConnectionId(7)));
    assert_eq!(
        bindings.attach("first", ConnectionId(8)),
        Err(HostError::UnknownCredential)
    );
    assert_eq!(bindings.credential("alice"), Some("second"));
}

#[test]
fn replacement_and_departure_keep_all_indexes_consistent() {
    let mut bindings = Bindings::new();
    bindings.register("alice", "join".to_owned()).expect("register credential");
    bindings.attach("join", ConnectionId(7)).expect("attach first connection");
    let replacement = bindings.attach("join", ConnectionId(8)).expect("replace connection");

    assert_eq!(replacement.replaced_connection, Some(ConnectionId(7)));
    assert_eq!(bindings.participant(ConnectionId(7)), None);
    assert_eq!(bindings.participant(ConnectionId(8)), Some("alice"));
    assert_eq!(bindings.disconnect(ConnectionId(8)), Some("alice".to_owned()));
    assert_eq!(bindings.connection("alice"), None);
}

#[test]
fn credentials_and_connections_are_unique_across_participants() {
    let mut bindings = Bindings::new();
    bindings.register("alice", "alice-token".to_owned()).expect("register Alice");
    bindings.register("bob", "bob-token".to_owned()).expect("register Bob");
    bindings.attach("alice-token", ConnectionId(7)).expect("attach Alice");

    assert_eq!(
        bindings.register("bob", "alice-token".to_owned()),
        Err(HostError::CredentialConflict)
    );
    assert_eq!(
        bindings.attach("bob-token", ConnectionId(7)),
        Err(HostError::ConnectionConflict)
    );
}

#[test]
fn a_revoked_participant_is_unknown() {
    let mut host = MumbleHost::new();
    assert_eq!(host.register("", "x".to_owned()), Err(HostError::InvalidRegistration));
    host.register("alice", "join".to_owned()).expect("register credential");
    assert!(!host.credential_available("join"));
    assert!(!host.credential_available(""));
    assert!(host.credential_available("other"));
    let attached = host.attach("join", ConnectionId(3)).expect("attach");
    assert_eq!(attached.participant_id, "alice");
    assert_eq!(attached.replaced_connection, None);
    assert_eq!(host.attach("join", ConnectionId(3)).expect("again").replaced_connection, None);
    assert_eq!(host.participant(ConnectionId(3)), Some("alice"));
    assert_eq!(host.revoke("alice"), Some(ConnectionId(3)));
    assert!(!host.contains("alice"));
    assert_eq!(host.connection("alice"), None);
    assert_eq!(host.credential("alice"), None);
    assert_eq!(host.disconnect(ConnectionId(3)), None);
    assert_eq!(
        HostError::InconsistentBinding.message(),
        "the host binding indexes disagree"
    );
}

#[test]
fn participant_specs_are_validated_by_the_spaces_profile() {
    assert_eq!(
        ParticipantSpec::new(String::new(), "Alice".to_owned(), false, false),
        Err(SpacesValidationError::InvalidSpaceKey)
    );
    assert_eq!(
        ParticipantSpec::new("lobby".to_owned(), String::new(), false, false),
        Err(SpacesValidationError::InvalidDisplayName)
    );
    assert!(ParticipantSpec::new("lobby".to_owned(), "Alice".to_owned(), true, false).is_ok());
}

#[test]
fn keys_are_measured_in_bytes_and_names_in_characters() {
    assert!(SpaceKey::new("k".repeat(128)).is_ok());
    assert_eq!(
        SpaceKey::new("é".repeat(65)),
        Err(SpacesValidationError::InvalidSpaceKey)
    );
    let spec = ParticipantSpec::new("lobby".to_owned(), "é".repeat(64), true, false)
        .expect("64 characters");
    assert_eq!(spec.space_key().as_str(), "lobby");
    assert_eq!(spec.display_name(), "é".repeat(64));
    assert!(spec.server_mute());
    assert!(!spec.server_deaf());
    assert_eq!(
        ParticipantSpec::new("lobby".to_owned(), "n".repeat(65), true, false),
        Err(SpacesValidationError::InvalidDisplayName)
    );
}

fn participant(id: &str, revision: u64) -> RenderParticipant {
    RenderParticipant {
        participant_id: id.to_owned(),
        connection: None,
        display_name: id.to_owned(),
        server_mute: false,
        server_deaf: false,
        self_mute: false,
        self_deaf: false,
        accepted_revision: revision,
    }
}

fn report(version: u64, refused: Option<&str>) -> ReconcileReport {
    ReconcileReport {
        version,
        refused: refused.map(str::to_owned),
        delta_len: 0,
        routing_recompiled: false,
    }
}

#[test]
fn a_report_settles_its_render_and_every_older_one() {
    let now = Instant { nanos: 0 };
    let grace = Duration::from_secs(30);
    let mut space = MaterializedSpace::new(vec![1, 2]);
    let desired = space.refresh(4, "lobby", vec![participant("alice", 7)], now, grace);
    assert_eq!(desired.application_revision, 4);
    assert_eq!(desired.participants, vec![participant("alice", 7)]);
    space.refresh(5, "lobby", vec![participant("alice", 8)], now, grace);
    space.refresh(6, "lobby", Vec::new(), now, grace);
    assert_eq!(space.revision(), 3);
    assert_eq!(space.incarnation_id(), &[1, 2]);
    assert_eq!(space.close_deadline(), Some(Instant { nanos: 30_000_000_000 }));

    assert!(space.reconcile(3, &report(1, None)).is_none());
    let settled = space.reconcile(5, &report(9, None)).expect("render 5 is pending");
    assert_eq!(settled.revisions.get("alice"), Some(&8));
    assert_eq!(settled.published_generation, 9);
    assert_eq!(space.published_generation(), 9);
    assert!(space.reconcile(4, &report(10, None)).is_none());
    let refused = space.reconcile(6, &report(11, Some("no"))).expect("render 6 is pending");
    assert_eq!(refused.refusal, Some("no".to_owned()));
    assert_eq!(space.published_generation(), 9);
}

#[test]
fn an_empty_space_keeps_its_deadline_until_somebody_comes() {
    let grace = Duration::from_millis(1_500);
    let mut space = MaterializedSpace::new(Vec::new());
    space.refresh(1, "lobby", Vec::new(), Instant { nanos: 10 }, grace);
    space.refresh(2, "lobby", Vec::new(), Instant { nanos: 99 }, grace);
    assert_eq!(space.close_deadline(), Some(Instant { nanos: 1_500_000_010 }));
    space.refresh(3, "lobby", vec![participant("a", 1)], Instant { nanos: 99 }, grace);
    assert_eq!(space.close_deadline(), None);
}

#[test]
fn non_loopback_controller_bind_requires_explicit_acknowledgement() {
    let mut config = ControllerConfig {
        controller_bind: SocketAddress { ip: IpAddress::V4(0, 0, 0, 0), port: 4_000 },
        ..ControllerConfig::default()
    };
    assert!(matches!(
        config.validate(),
        Err(ConfigError::UnauthenticatedNetworkBind(_))
    ));

    config.allow_unauthenticated_controller_network = true;
    assert_eq!(config.validate(), Ok(()));
}

#[test]
fn a_configuration_without_room_is_refused() {
    let good = ControllerConfig::default();
    assert_eq!(good.validate(), Ok(()));
    let mut config = good;
    config.controller_bind.ip = IpAddress::V6(1);
    assert_eq!(config.validate(), Ok(()));
    config.lease_duration = Duration::from_secs(0);
    assert_eq!(config.validate(), Err(ConfigError::ZeroLease));
    let mut config = good;
    config.queue_capacity = 0;
    assert_eq!(config.validate(), Err(ConfigError::ZeroQueue));
    let mut config = good;
    config.max_mumble_connections = 0;
    assert_eq!(config.validate(), Err(ConfigError::ZeroLimit));
}
