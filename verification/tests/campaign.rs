//! Load campaigns.

use std::collections::BTreeMap;

use mumble_spaces::arguments::{
    duration_argument, duration_millis, parse_duration, parse_participants,
    parse_participants_per_space,
};
use mumble_spaces::campaign::{
    apply_scenario, check_talk_percent, controller_id, managed_config, participant_plans,
    registrations, validate_run_arguments, worker_batches, worker_clients, CampaignError,
    DriverRequest, Mode, Scenario, WorkerBatch, WorkerError,
};
use mumble_spaces::clock::Duration;
use mumble_spaces::ledger::{
    audit_ledger, expected_participants, note_owned, record_driver_event, AuditError, Credentials,
    DriverEvent, EventError, FieldValue, Ledger, Summary,
};
use mumble_spaces::ordered::SortedMap;
use mumble_spaces::text_set::TextSet;

fn event(fields: &[(&str, &str)]) -> DriverEvent {
    let mut event = DriverEvent::new();
    for (name, value) in fields {
        event.set(name, FieldValue::Text((*value).to_owned()));
    }
    event
}

#[test]
fn fixed_spaces_are_full_and_seeded_assignment_is_repeatable() {
    let first = participant_plans(64, 8, 4, Scenario::FixedSpaces, 17);
    let second = participant_plans(64, 8, 4, Scenario::FixedSpaces, 17);

    assert_eq!(
        first.iter().map(|plan| &plan.space_key).collect::<Vec<_>>(),
        second.iter().map(|plan| &plan.space_key).collect::<Vec<_>>()
    );
    let counts = first.iter().fold(BTreeMap::new(), |mut counts, plan| {
        *counts.entry(&plan.space_key).or_insert(0usize) += 1;
        counts
    });
    assert!(counts.values().all(|count| *count == 8));
}

#[test]
fn only_documented_space_cardinalities_are_accepted() {
    for allowed in [8, 32, 64, 128, 256] {
        assert_eq!(parse_participants_per_space(&allowed.to_string()), Ok(allowed));
    }
    assert!(parse_participants_per_space("16").is_err());
}

#[test]
fn persisted_credential_event_is_redacted() {
    let mut credential = event(&[
        ("kind", "credential"),
        ("participant_id", "p1"),
        ("credential", "secret-token"),
    ]);
    let mut credentials = Credentials::new();
    let mut summary = Summary::new("Idle", 1, 1);
    let mut ledger = Ledger::new();
    record_driver_event(&mut credential, &mut credentials, &mut summary, &mut ledger, "12")
        .expect("complete");
    assert_eq!(credentials.get("p1"), Some("secret-token"));
    let mut persisted = Vec::new();
    for i in 0..credential.len() {
        persisted.push(format!("{:?}", credential.field(i)));
    }
    let persisted = persisted.join(",");
    assert!(!persisted.contains("secret-token"));
    assert!(!persisted.contains("\"credential\""));
    assert_eq!(credential.text("kind"), Some("credential_rotated"));
    assert_eq!(credential.text("coordinator_unix_nanos"), Some("12"));
    assert_eq!(summary.credentials_received, 1);
    assert_eq!(summary.credential_rotations, 1);
}

#[test]
fn numbers_are_read_as_documented() {
    assert_eq!(parse_participants("+10"), Ok(10));
    assert_eq!(parse_participants("0010"), Ok(10));
    assert_eq!(
        parse_participants("0"),
        Err("participants must be between 1 and 10000".to_owned())
    );
    assert!(parse_participants("10001").is_err());
    for wrong in ["", "+", "-1", " 1", "1 ", "1x", "99999999999999999999999"] {
        assert!(parse_participants(wrong).is_err(), "{wrong:?}");
    }
    assert_eq!(
        parse_participants_per_space("16"),
        Err("participants per Space must be 8, 32, 64, 128, or 256".to_owned())
    );
}

#[test]
fn what_is_no_number_is_refused_in_the_words_of_the_parser() {
    for wrong in ["", "+", "many", "-1", "8 ", "99999999999999999999999999"] {
        let words = wrong.parse::<usize>().expect_err("no number").to_string();
        assert_eq!(parse_participants(wrong), Err(words.clone()));
        assert_eq!(parse_participants_per_space(wrong), Err(words));
        let words = wrong.parse::<u64>().expect_err("no number").to_string();
        assert_eq!(parse_duration(&format!("{wrong}s")).map(|span| span.as_nanos()), Err(words));
    }
}

#[test]
fn durations_have_a_unit() {
    let nanos = |text: &str| parse_duration(text).map(|span| span.as_nanos());
    assert_eq!(nanos("250ms"), Ok(250_000_000));
    assert_eq!(nanos("30s"), Ok(30_000_000_000));
    assert_eq!(nanos("2m"), Ok(120_000_000_000));
    assert_eq!(nanos("5"), Err("use a duration suffix: ms, s, or m".to_owned()));
    assert_eq!(nanos(""), Err("use a duration suffix: ms, s, or m".to_owned()));
    assert_eq!(
        nanos("18446744073709551615s"),
        Err("duration is too large".to_owned())
    );
    assert!(nanos("ms").is_err());
    assert!(nanos("-1s").is_err());
    assert_eq!(duration_argument(Duration::from_secs(3)), "3000ms");
    assert_eq!(nanos(&duration_argument(Duration::from_millis(1_234))), Ok(1_234_000_000));
    assert_eq!(duration_millis(Duration::from_millis(77)), 77);
    assert_eq!(Duration::from_nanos(1_234_567_890).as_nanos(), 1_234_567_890);
}

#[test]
fn what_cannot_run_is_rejected() {
    assert_eq!(validate_run_arguments(Mode::Managed, false, false, 64, 8), Ok(()));
    assert_eq!(
        validate_run_arguments(Mode::Managed, false, false, 63, 8),
        Err(CampaignError::NotDivisible)
    );
    assert_eq!(
        validate_run_arguments(Mode::Managed, false, false, 0, 8),
        Err(CampaignError::NoFullSpace)
    );
    assert_eq!(
        validate_run_arguments(Mode::External, true, false, 64, 8),
        Err(CampaignError::MissingExternalEndpoints)
    );
    assert_eq!(validate_run_arguments(Mode::External, true, true, 64, 8), Ok(()));
    assert_eq!(
        validate_run_arguments(Mode::Managed, false, false, 10_008, 8),
        Err(CampaignError::TooManyManagedConnections(10_008))
    );
    assert_eq!(
        CampaignError::TooManyManagedConnections(10_008).message(),
        "managed mode allocates at most 10008 Mumble connections"
    );
    assert_eq!(
        CampaignError::NotDivisible.message(),
        "--participants must be divisible by --participants-per-space"
    );
    assert_eq!(CampaignError::NoFullSpace.message(), "at least one full Space is required");
    assert_eq!(
        CampaignError::MissingExternalEndpoints.message(),
        "external mode requires both --controller-endpoint and --mumble-server"
    );
}

#[test]
fn plans_name_participants_spaces_and_drivers() {
    let plans = participant_plans(3, 2, 2, Scenario::Idle, 1);
    assert_eq!(plans[2].participant_id, "load-participant-2");
    assert_eq!(plans[2].display_name, "Load participant 2");
    assert_eq!(plans[2].space_key, "load-space-1");
    let drivers: Vec<usize> = plans.iter().map(|plan| plan.controller).collect();
    assert_eq!(drivers, [1, 0, 1]);
    assert!(participant_plans(3, 2, 1, Scenario::OneSpace, 0)
        .iter()
        .all(|plan| plan.space_key == "load-space-0"));
    assert_eq!(participant_plans(3, 2, 1, Scenario::ManySpaces, 0)[2].space_key, "load-space-2");
    assert_eq!(controller_id(12), "load-controller-12");
}

#[test]
fn scenarios_ask_their_drivers() {
    let plans = participant_plans(9, 3, 2, Scenario::Migration, 0);
    let registered = registrations(&plans);
    assert_eq!(registered.len(), 9);
    assert_eq!(registered[1].correlation_id, "register-load-participant-1");
    assert_eq!(registered[1].controller, 1);

    let moved = apply_scenario(Scenario::Migration, &plans);
    assert_eq!(moved[8].correlation_id, "spec-load-participant-8");
    assert_eq!(
        moved[8].request,
        DriverRequest::SetSpec {
            space_key: "load-space-2-migrated".to_owned(),
            display_name: "Load participant 8".to_owned(),
            server_mute: false,
            server_deaf: false,
        }
    );
    let muted = apply_scenario(Scenario::MuteDeaf, &plans);
    let flags: Vec<(bool, bool)> = muted
        .iter()
        .map(|command| match &command.request {
            DriverRequest::SetSpec { server_mute, server_deaf, .. } => (*server_mute, *server_deaf),
            _ => unreachable!(),
        })
        .collect();
    assert_eq!(flags[..4], [(true, true), (false, false), (true, false), (false, true)]);
    let left: Vec<String> = apply_scenario(Scenario::Churn, &plans)
        .into_iter()
        .map(|command| command.participant_id)
        .collect();
    assert_eq!(left, ["load-participant-0", "load-participant-4", "load-participant-8"]);
    assert!(apply_scenario(Scenario::Voice, &plans).is_empty());
    assert_eq!(Scenario::MuteDeaf.name(), "MuteDeaf");
    assert!(!Scenario::ControlOnly.connects());
    assert!(Scenario::Idle.connects());
}

#[test]
fn a_managed_server_has_room_for_everybody() {
    let config = managed_config(600, 3).expect("few enough");
    assert_eq!(config.max_participants, 600);
    assert_eq!(config.max_mumble_connections, 600);
    assert_eq!(config.max_sessions, 3);
    assert_eq!(config.queue_capacity, 1_200);
    assert_eq!(managed_config(0, 0).expect("few enough").queue_capacity, 1_024);
    assert!(config.validate().is_ok());
}

#[test]
fn workers_share_the_credentials() {
    assert_eq!(
        worker_batches(1_025),
        vec![
            WorkerBatch { start: 0, end: 512 },
            WorkerBatch { start: 512, end: 1_024 },
            WorkerBatch { start: 1_024, end: 1_025 },
        ]
    );
    assert_eq!(worker_batches(512).len(), 1);
    assert!(worker_batches(0).is_empty());
    assert_eq!(worker_clients(512), Ok(512));
    assert_eq!(worker_clients(513), Err(WorkerError::TooManyCredentials));
    assert_eq!(worker_clients(0), Err(WorkerError::NoCredentials));
    assert_eq!(check_talk_percent(100), Ok(()));
    assert_eq!(check_talk_percent(101), Err(WorkerError::TalkPercent));
    assert_eq!(WorkerError::TalkPercent.message(), "--talk-percent must be at most 100");
    assert_eq!(WorkerError::TooManyCredentials.message(), "worker credential limit exceeded");
    assert_eq!(WorkerError::NoCredentials.message(), "worker received no credentials");
}

#[test]
fn a_ledger_adds_up_once_everybody_reported() {
    let plans = participant_plans(2, 2, 1, Scenario::Idle, 0);
    let mut ledger = Ledger::from_plans(&plans);
    assert_eq!(ledger.participants(), 2);
    let missing = audit_ledger(&plans, &ledger).expect_err("nobody is owned");
    assert_eq!(missing, AuditError::NeverOwned("load-participant-0".to_owned()));
    assert_eq!(missing.message(), "load-participant-0 was never owned");
    for plan in &plans {
        ledger.record(&event(&[("kind", "owned"), ("participant_id", &plan.participant_id)]));
    }
    let missing = audit_ledger(&plans, &ledger).expect_err("nobody has a credential");
    assert_eq!(missing, AuditError::NoCredential("load-participant-0".to_owned()));
    assert_eq!(missing.message(), "load-participant-0 never received a credential");
    for plan in &plans {
        ledger.record(&event(&[
            ("kind", "credential_rotated"),
            ("participant_id", &plan.participant_id),
        ]));
    }
    assert_eq!(audit_ledger(&plans, &ledger), Ok(()));
    assert_eq!(audit_ledger(&plans[..1], &ledger), Err(AuditError::Count));
    let elsewhere = participant_plans(2, 2, 1, Scenario::ManySpaces, 0);
    let diverged = audit_ledger(&elsewhere, &ledger).expect_err("another Space");
    assert_eq!(diverged.message(), "ledger desired Space diverged for load-participant-1");
    let others = participant_plans(2, 2, 2, Scenario::Idle, 0);
    let diverged = audit_ledger(&others, &ledger).expect_err("another driver");
    assert_eq!(diverged.message(), "ledger controller assignment diverged for load-participant-1");
}

#[test]
fn a_status_event_is_entered() {
    let plans = participant_plans(1, 1, 1, Scenario::Idle, 0);
    let mut ledger = Ledger::from_plans(&plans);
    let mut status = event(&[
        ("kind", "participant_status"),
        ("participant_id", "load-participant-0"),
        ("accepted_spec_revision", "4"),
        ("applied_spec_revision", "3"),
        ("published_generation", "2"),
        ("space_key", "load-space-0"),
    ]);
    status.set("connected", FieldValue::Flag(true));
    ledger.record(&status);
    let known = ledger.participant("load-participant-0").expect("planned");
    assert!(known.connected);
    assert_eq!(known.accepted_revision, "4");
    assert_eq!(known.applied_revision, "3");
    assert_eq!(known.published_generation, "2");
    assert_eq!(known.applied_space, "load-space-0");
    assert!(ledger.participant("nobody").is_none());
}

#[test]
fn an_incomplete_credential_is_refused() {
    let mut credentials = Credentials::new();
    let mut summary = Summary::new("Idle", 1, 1);
    let mut ledger = Ledger::new();
    let mut nobody = event(&[("kind", "credential"), ("credential", "c")]);
    assert_eq!(
        record_driver_event(&mut nobody, &mut credentials, &mut summary, &mut ledger, "1"),
        Err(EventError::NoParticipant)
    );
    let mut nothing = event(&[("kind", "credential"), ("participant_id", "p")]);
    assert_eq!(
        record_driver_event(&mut nothing, &mut credentials, &mut summary, &mut ledger, "1"),
        Err(EventError::NoCredential)
    );
    let mut failed = event(&[("kind", "error")]);
    record_driver_event(&mut failed, &mut credentials, &mut summary, &mut ledger, "1")
        .expect("complete");
    assert_eq!((summary.driver_events, summary.errors, credentials.len()), (3, 1, 0));
    assert_eq!(EventError::NoParticipant.message(), "credential participant_id");
    assert_eq!(EventError::NoCredential.message(), "credential value");
    assert_eq!(summary.row(), "Idle,1,1,0,0,3,0,1,0");
    assert!(Summary::header().starts_with("scenario,controllers,"));
}

#[test]
fn owned_participants_are_counted_once() {
    let plans = participant_plans(3, 3, 1, Scenario::Idle, 0);
    assert_eq!(expected_participants(&plans), 3);
    let mut owned: TextSet = SortedMap::new();
    let first = event(&[("kind", "owned"), ("participant_id", "a")]);
    note_owned(&first, &mut owned);
    note_owned(&first, &mut owned);
    note_owned(&event(&[("kind", "error"), ("participant_id", "b")]), &mut owned);
    assert_eq!(owned.len(), 1);
}
