//! Sessions, ownership, reliable commands and profiles.

use mumble_spaces::clock::{Duration, Instant};
use mumble_spaces::messages;
use mumble_spaces::ownership::{
    ClaimMode, ClaimOutcome, ClaimRequest, OwnershipError, OwnershipRegistry, RevisionOutcome,
};
use mumble_spaces::profile;
use mumble_spaces::reliable::{ReliableCommands, ReliableError};
use mumble_spaces::session::{
    negotiate_profile, OpenSession, ProfileError, ProfileRef, RenewOutcome, SessionCredentials,
    SessionError, SessionId, SessionRegistry,
};

fn at(seconds: u64) -> Instant {
    Instant { nanos: u128::from(seconds) * 1_000_000_000 }
}

fn profile(identifier: &str) -> ProfileRef {
    ProfileRef::new(identifier.to_owned(), 1, "digest".to_owned()).expect("valid test profile")
}

fn credentials(seed: u8) -> SessionCredentials {
    SessionCredentials::new(vec![seed; 32], vec![seed.saturating_add(1); 32])
        .expect("valid test credentials")
}

fn open<'a>(
    resume_token: &'a [u8],
    selected_profile: ProfileRef,
    credentials: SessionCredentials,
    now: Instant,
) -> OpenSession<'a> {
    OpenSession {
        controller_id: "controller",
        controller_instance_id: b"instance",
        resume_token,
        profile: selected_profile,
        credentials,
        now,
    }
}

#[test]
fn exact_profile_negotiation_fails_closed() {
    let supported = profile("spaces");
    assert_eq!(negotiate_profile(&supported, &supported), Ok(supported.clone()));
    assert_eq!(
        negotiate_profile(&profile("unknown"), &supported),
        Err(ProfileError::UnknownProfile)
    );

    let wrong_version = ProfileRef::new("spaces".to_owned(), 2, "digest".to_owned())
        .expect("valid alternate version");
    assert_eq!(
        negotiate_profile(&wrong_version, &supported),
        Err(ProfileError::UnknownSchemaVersion)
    );
}

#[test]
fn a_profile_reference_names_all_three_parts() {
    for reference in [
        ProfileRef::new(String::new(), 1, "digest".to_owned()),
        ProfileRef::new("spaces".to_owned(), 0, "digest".to_owned()),
        ProfileRef::new("spaces".to_owned(), 1, String::new()),
    ] {
        assert_eq!(reference, Err(ProfileError::InvalidReference));
    }
    let reference = profile("spaces");
    assert_eq!(reference.profile_id(), "spaces");
    assert_eq!(reference.schema_version(), 1);
    assert_eq!(reference.descriptor_digest(), "digest");
    assert_eq!(
        ProfileError::InvalidReference.message(),
        "profile_id, schema_version and descriptor_digest must be present"
    );
}

#[test]
fn mumble_controller_core_resume_rotates_only_the_session_capability() {
    let now = at(100);
    let mut sessions = SessionRegistry::new(2, Duration::from_secs(30));
    let first = sessions
        .open(open(&[], profile("spaces"), credentials(1), now))
        .expect("create session");
    let resumed = sessions
        .open(open(&first.resume_token, profile("spaces"), credentials(3), at(101)))
        .expect("resume session");

    assert!(resumed.resumed);
    assert_eq!(resumed.session_id, first.session_id);
    assert_eq!(resumed.resume_token, first.resume_token);
    assert_ne!(resumed.session_token, first.session_token);
}

#[test]
fn renewals_are_bounded_by_token_revision_and_resync_state() {
    let now = at(100);
    let mut sessions = SessionRegistry::new(1, Duration::from_secs(30));
    let ready = sessions
        .open(open(&[], profile("spaces"), credentials(1), now))
        .expect("create session");
    sessions.set_desired_revision(ready.session_id, 4);
    sessions.mark_resync_required(ready.session_id);

    assert_eq!(
        sessions.renew(ready.session_id, &ready.session_token, 4, now),
        Ok(RenewOutcome::ResyncRequired)
    );
    assert_eq!(
        sessions.renew(ready.session_id, &ready.session_token, 4, now),
        Ok(RenewOutcome::Current)
    );
    assert_eq!(
        sessions.renew(ready.session_id, b"stale", 4, now),
        Err(SessionError::InvalidSessionToken)
    );
}

#[test]
fn limits_and_expiry_are_decided_without_a_runtime_clock() {
    let now = at(100);
    let mut sessions = SessionRegistry::new(1, Duration::from_secs(30));
    let ready = sessions
        .open(open(&[], profile("spaces"), credentials(1), now))
        .expect("create session");
    assert_eq!(
        sessions.open(open(&[], profile("spaces"), credentials(3), now)),
        Err(SessionError::ResourceExhausted)
    );
    assert_eq!(sessions.expired_sessions(at(130)), vec![ready.session_id]);
    assert_eq!(sessions.expired_sessions(at(129)), Vec::<SessionId>::new());
    assert_eq!(sessions.next_deadline(), Some(at(130)));
}

#[test]
fn a_session_is_resumed_by_its_own_controller_in_time() {
    let mut sessions = SessionRegistry::new(8, Duration::from_secs(30));
    let first = sessions
        .open(open(&[], profile("spaces"), credentials(1), at(0)))
        .expect("create session");

    let foreign = sessions
        .open(OpenSession {
            controller_id: "other",
            ..open(&first.resume_token, profile("spaces"), credentials(3), at(1))
        })
        .expect("another controller gets a session of its own");
    assert!(!foreign.resumed);
    assert_eq!(foreign.session_id, first.session_id + 1);

    let late = sessions
        .open(open(&first.resume_token, profile("spaces"), credentials(5), at(30)))
        .expect("an ended lease is not resumed");
    assert!(!late.resumed);
    assert_eq!(late.session_id, first.session_id + 2);
}

#[test]
fn session_errors_come_on_their_inputs() {
    let mut sessions = SessionRegistry::new(8, Duration::from_secs(30));
    assert!(sessions.is_empty());
    assert_eq!(
        sessions.open(OpenSession {
            controller_id: "",
            ..open(&[], profile("spaces"), credentials(1), at(0))
        }),
        Err(SessionError::InvalidIdentity)
    );
    assert_eq!(
        SessionCredentials::new(Vec::new(), vec![1]),
        Err(SessionError::EmptyCredential)
    );
    let first = sessions
        .open(open(&[], profile("spaces"), credentials(1), at(0)))
        .expect("create session");
    assert_eq!(
        sessions.open(open(&[], profile("spaces"), credentials(1), at(0))),
        Err(SessionError::CredentialCollision)
    );
    assert_eq!(
        sessions.open(open(&first.resume_token, profile("spaces"), credentials(1), at(0))),
        Err(SessionError::CredentialCollision)
    );
    assert!(sessions.contains(first.session_id));
    assert!(sessions.authorize(first.session_id, &first.session_token));
    assert!(!sessions.authorize(first.session_id, b"stale"));
    sessions.refresh_lease(first.session_id, at(5));
    assert_eq!(sessions.next_deadline(), Some(at(35)));
    sessions.advance_desired_revision(first.session_id);
    assert_eq!(
        sessions.renew(first.session_id, &first.session_token, 1, at(5)),
        Ok(RenewOutcome::Current)
    );
    assert!(sessions.remove(first.session_id));
    assert!(!sessions.remove(first.session_id));
    assert_eq!(sessions.next_deadline(), None);
    assert_eq!(
        SessionError::MissingSession(1024).message(),
        "Controller session 1024 is missing"
    );
}

fn claim<'a>(
    entity_id: &'a str,
    owner: SessionId,
    registration_id: &'a [u8],
    presented_fencing_token: &'a [u8],
    new_token: u8,
    mode: ClaimMode,
) -> ClaimRequest<'a> {
    ClaimRequest {
        entity_id,
        owner,
        registration_id,
        presented_fencing_token,
        client_revision: 1,
        new_fencing_token: vec![new_token; 32],
        mode,
    }
}

#[test]
fn explicit_takeover_rotates_fencing_and_snapshot_takeover_is_refused() {
    let mut ownership = OwnershipRegistry::new(2, 2);
    let first = ownership
        .claim(claim("entity", 1, b"first", &[], 1, ClaimMode::Explicit))
        .expect("first claim");
    let ClaimOutcome::Acquired { fencing_token: first_token, .. } = first else {
        panic!("first claim acquires ownership");
    };

    assert_eq!(
        ownership.claim(claim("entity", 2, b"second", &[], 2, ClaimMode::Snapshot)),
        Err(OwnershipError::SnapshotConflict)
    );
    let second = ownership
        .claim(claim("entity", 2, b"second", &[], 2, ClaimMode::Explicit))
        .expect("explicit takeover");
    let ClaimOutcome::Acquired { fencing_token: second_token, previous: Some(previous) } = second
    else {
        panic!("takeover reports previous ownership");
    };
    assert_eq!(previous.owner, 1);
    assert_ne!(first_token, second_token);
}

#[test]
fn stale_release_and_revision_are_rejected() {
    let mut ownership = OwnershipRegistry::new(1, 1);
    let acquired = ownership
        .claim(claim("entity", 1, b"registration", &[], 1, ClaimMode::Explicit))
        .expect("claim ownership");
    let ClaimOutcome::Acquired { fencing_token, .. } = acquired else {
        panic!("claim acquires ownership");
    };

    assert_eq!(
        ownership.accept_revision("entity", 1, &fencing_token, 2, false),
        Ok(RevisionOutcome::Advanced)
    );
    assert_eq!(
        ownership.accept_revision("entity", 1, &fencing_token, 1, true),
        Err(OwnershipError::StaleRevision)
    );
    assert_eq!(
        ownership.release("entity", 1, b"registration", b"stale"),
        Err(OwnershipError::OwnershipLost)
    );
    assert!(ownership.get("entity").is_some());
}

#[test]
fn limits_are_counted_globally_and_per_owner() {
    let mut ownership = OwnershipRegistry::new(2, 1);
    ownership
        .claim(claim("one", 1, b"one", &[], 1, ClaimMode::Explicit))
        .expect("first claim");
    assert_eq!(
        ownership.claim(claim("two", 1, b"two", &[], 2, ClaimMode::Explicit)),
        Err(OwnershipError::OwnerLimit)
    );
    ownership
        .claim(claim("two", 2, b"two", &[], 2, ClaimMode::Explicit))
        .expect("second owner claim");
    assert_eq!(
        ownership.claim(claim("three", 3, b"three", &[], 3, ClaimMode::Explicit)),
        Err(OwnershipError::GlobalLimit)
    );
}

#[test]
fn ownership_resumes_releases_and_refuses_collisions() {
    let mut ownership = OwnershipRegistry::new(4, 4);
    assert!(ownership.is_empty());
    assert_eq!(
        ownership.claim(claim("", 1, b"r", &[], 1, ClaimMode::Explicit)),
        Err(OwnershipError::InvalidClaim)
    );
    assert_eq!(
        ownership.claim(ClaimRequest {
            new_fencing_token: Vec::new(),
            ..claim("b", 1, b"r", &[], 1, ClaimMode::Explicit)
        }),
        Err(OwnershipError::InvalidClaim)
    );
    ownership.claim(claim("b", 1, b"r", &[], 1, ClaimMode::Explicit)).expect("claim b");
    ownership.claim(claim("a", 1, b"r", &[], 2, ClaimMode::Snapshot)).expect("claim a");
    assert_eq!(
        ownership.claim(claim("c", 1, b"r", &[], 2, ClaimMode::Explicit)),
        Err(OwnershipError::FencingTokenCollision)
    );
    assert_eq!(ownership.owned_entities(1), vec!["a".to_owned(), "b".to_owned()]);
    assert_eq!(
        ownership.claim(ClaimRequest {
            client_revision: 9,
            ..claim("a", 1, b"r", &[2; 32], 7, ClaimMode::Snapshot)
        }),
        Ok(ClaimOutcome::Resumed { fencing_token: vec![2; 32], revision_advanced: true })
    );
    assert_eq!(
        ownership.accept_revision("a", 1, &[2; 32], 9, true),
        Ok(RevisionOutcome::Unchanged)
    );
    assert_eq!(
        ownership.accept_revision("a", 2, &[2; 32], 10, false),
        Err(OwnershipError::OwnershipLost)
    );
    assert_eq!(
        ownership.accept_revision("z", 1, &[2; 32], 10, false),
        Err(OwnershipError::NotFound)
    );
    let released = ownership.release("a", 1, b"r", &[2; 32]).expect("release");
    assert_eq!(released.client_revision, 9);
    assert_eq!(ownership.owned_entities(1), vec!["b".to_owned()]);
}

#[test]
fn duplicate_requests_replay_the_last_completed_result() {
    let mut commands = ReliableCommands::new(2);
    commands.attach_session(1);
    assert_eq!(commands.replay(1, b"request"), None);
    assert_eq!(commands.complete(1, b"request".to_vec(), 10), Ok(()));
    assert_eq!(commands.replay(1, b"request"), Some(10));
    assert_eq!(commands.complete(1, b"request".to_vec(), 11), Ok(()));
    assert_eq!(commands.replay(1, b"request"), Some(11));
}

#[test]
fn completion_history_is_bounded_in_insertion_order() {
    let mut commands = ReliableCommands::new(2);
    commands.attach_session(1);
    assert_eq!(commands.complete(1, b"one".to_vec(), 1), Ok(()));
    assert_eq!(commands.complete(1, b"two".to_vec(), 2), Ok(()));
    assert_eq!(commands.complete(1, b"three".to_vec(), 3), Ok(()));
    assert_eq!(commands.replay(1, b"one"), None);
    assert_eq!(commands.replay(1, b"two"), Some(2));
    assert_eq!(commands.replay(1, b"three"), Some(3));
}

#[test]
fn unknown_sessions_and_empty_request_ids_fail_closed() {
    let mut commands = ReliableCommands::new(2);
    assert_eq!(
        commands.complete(4, b"request".to_vec(), 1),
        Err(ReliableError::MissingSession(4))
    );
    commands.attach_session(4);
    assert_eq!(commands.complete(4, Vec::new(), 1), Err(ReliableError::EmptyRequestId));
}

#[test]
fn a_removed_session_forgets_its_requests() {
    let mut commands = ReliableCommands::new(2);
    commands.attach_session(1);
    commands.attach_session(2);
    assert_eq!(commands.complete(1, b"same".to_vec(), 1), Ok(()));
    assert_eq!(commands.complete(2, b"same".to_vec(), 2), Ok(()));
    commands.attach_session(1);
    assert_eq!(commands.replay(1, b"same"), Some(1));
    commands.remove_session(1);
    assert_eq!(commands.replay(1, b"same"), None);
    assert_eq!(commands.replay(2, b"same"), Some(2));
    assert_eq!(
        ReliableError::MissingSession(70).message(),
        "Controller session 70 has no reliable-command log"
    );
}

#[test]
fn profile_only_the_exact_compiled_profile_is_accepted() {
    let Ok(supported) = profile::spaces(" digest-of-the-descriptor\n") else {
        panic!("compiled Spaces profile is valid");
    };
    let protocol = profile::to_protocol(&supported);
    assert_eq!(
        profile::negotiate_optional(Some(&protocol), &supported),
        Ok(supported.clone())
    );
    assert_eq!(profile::negotiate_optional(None, &supported), Ok(supported.clone()));

    let mut unknown = protocol.clone();
    unknown.profile_id = "unknown".to_owned();
    assert_eq!(
        profile::negotiate_optional(Some(&unknown), &supported),
        Err(ProfileError::UnknownProfile)
    );

    let mut wrong_version = protocol.clone();
    wrong_version.schema_version = supported.schema_version() + 1;
    assert_eq!(
        profile::negotiate_optional(Some(&wrong_version), &supported),
        Err(ProfileError::UnknownSchemaVersion)
    );

    let mut wrong_digest = protocol;
    wrong_digest.descriptor_digest = "wrong".to_owned();
    assert_eq!(
        profile::negotiate_optional(Some(&wrong_digest), &supported),
        Err(ProfileError::DescriptorMismatch)
    );
}

#[test]
fn only_the_exact_compiled_profile_is_accepted() {
    let Ok(supported) = profile::spaces(" digest-of-the-descriptor\n") else {
        panic!("compiled Spaces profile is valid");
    };
    let protocol = profile::to_protocol(&supported);
    assert_eq!(profile::negotiate(&protocol, &supported), Ok(supported.clone()));
    assert_eq!(supported.descriptor_digest(), "digest-of-the-descriptor");

    let mut unknown = protocol.clone();
    unknown.profile_id = "unknown".to_owned();
    assert_eq!(
        profile::negotiate(&unknown, &supported),
        Err(ProfileError::UnknownProfile)
    );

    let mut wrong_version = protocol.clone();
    wrong_version.schema_version = supported.schema_version() + 1;
    assert_eq!(
        profile::negotiate(&wrong_version, &supported),
        Err(ProfileError::UnknownSchemaVersion)
    );

    let mut wrong_digest = protocol;
    wrong_digest.descriptor_digest = "wrong".to_owned();
    assert_eq!(
        profile::negotiate(&wrong_digest, &supported),
        Err(ProfileError::DescriptorMismatch)
    );
    let absent = messages::ProfileRef {
        profile_id: String::new(),
        schema_version: 1,
        descriptor_digest: "d".to_owned(),
    };
    assert_eq!(
        profile::negotiate(&absent, &supported),
        Err(ProfileError::InvalidReference)
    );
    assert_eq!(profile::spaces(" \n"), Err(ProfileError::InvalidReference));
}

#[test]
fn a_digest_loses_exactly_the_white_space_at_its_ends() {
    let mut codes: Vec<u32> = vec![0x20, 0x85, 0xA0, 0x1680, 0x2028, 0x2029, 0x202F, 0x205F, 0x3000];
    codes.extend(0x09..=0x0D);
    codes.extend(0x2000..=0x200A);
    for code in 0..=0x10_FFFF_u32 {
        let Some(character) = char::from_u32(code) else {
            continue;
        };
        let written: String = [character, 'a', character, 'b', character].iter().collect();
        let kept: String = if codes.contains(&code) {
            ['a', character, 'b'].iter().collect()
        } else {
            written.clone()
        };
        let Ok(profile) = profile::spaces(&written) else {
            panic!("a digest with letters is not empty");
        };
        assert_eq!(profile.descriptor_digest(), kept);
    }
}
