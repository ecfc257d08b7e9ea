//! Voice packets: keys, association, dispatch, routing and delivery.

use mumble_spaces::config::{IpAddress, SocketAddress};
use mumble_spaces::control::ControlMessage;
use mumble_spaces::ocb2::CryptState;
use mumble_spaces::voice::{
    associate, crypt_setup, deliver, dispatch, dispatch_unassociated, generate_crypt_setup,
    outgoing, ping_reply, relay, route, Association, Audio, AudioHeader, CryptSetupError, Delivery,
    Dispatch, Listener, Ping, ServerStatistics, SessionId, SizeBand, SpeakerRoute, UdpMessage,
    VoiceDrop, NORMAL_CONTEXT,
};

fn audio(header: Option<AudioHeader>) -> Audio {
    Audio {
        header,
        sender_session: 0,
        frame_number: 42,
        opus_data: vec![1, 2, 3],
        positional_data: vec![1.0f32.to_bits(), 2.0f32.to_bits(), 3.0f32.to_bits()],
        volume_adjustment: 0.0f32.to_bits(),
        is_terminator: false,
    }
}

fn speaker() -> SpeakerRoute {
    SpeakerRoute {
        session: SessionId(1),
        may_speak: true,
        since: Some(5),
        receivers: vec![SessionId(2), SessionId(3), SessionId(4)],
    }
}

fn statistics() -> ServerStatistics {
    ServerStatistics { version_v2: 0x0001_0005_0000_0000, users: 3, max_users: 100, max_bandwidth: 72_000 }
}

fn ping() -> Ping {
    Ping {
        timestamp: 99,
        request_extended_information: true,
        server_version_v2: 0,
        user_count: 0,
        max_user_count: 0,
        max_bandwidth_per_user: 0,
    }
}

#[test]
fn the_outgoing_envelope_replaces_the_target_with_a_context() {
    let source = audio(Some(AudioHeader::Target(0)));

    let rewritten = outgoing(&source, SessionId(9));

    assert_eq!(rewritten.header, Some(AudioHeader::Context(NORMAL_CONTEXT)));
    assert_eq!(rewritten.sender_session, 9);
    assert_eq!(rewritten.frame_number, 42);
    assert_eq!(rewritten.opus_data, source.opus_data, "routing must never decode Opus");
    assert!(
        rewritten.positional_data.is_empty(),
        "coordinates no flavor authorised must not travel"
    );
}

#[test]
fn a_generated_crypt_setup_round_trips_through_its_own_state() {
    let rng = ring::rand::SystemRandom::new();
    let (setup, mut server) = generate_crypt_setup(&rng).expect("randomness");

    let key: [u8; 16] = setup.key.expect("a key").try_into().expect("the right length");
    let server_nonce: [u8; 16] =
        setup.server_nonce.expect("a nonce").try_into().expect("the right length");
    let client_nonce: [u8; 16] =
        setup.client_nonce.expect("a nonce").try_into().expect("the right length");

    // The client mirrors the two nonces.
    let mut client = CryptState::new(&key, &client_nonce, &server_nonce);
    let sealed = server.encrypt(b"a voice packet").expect("encryptable");

    assert_eq!(client.decrypt(&sealed).as_deref(), Some(&b"a voice packet"[..]));
}

#[test]
fn two_generated_setups_differ() {
    let rng = ring::rand::SystemRandom::new();
    let (first, _) = generate_crypt_setup(&rng).expect("randomness");
    let (second, _) = generate_crypt_setup(&rng).expect("randomness");
    assert_ne!(first.key, second.key);
    assert_ne!(first.server_nonce, first.client_nonce);
}

#[test]
fn a_failed_draw_says_which() {
    assert_eq!(CryptSetupError::Key.message(), "rng failed for the OCB2 key");
    assert_eq!(CryptSetupError::ServerNonce.message(), "rng failed for the server nonce");
    assert_eq!(CryptSetupError::ClientNonce.message(), "rng failed for the client nonce");
}

#[test]
fn a_datagram_is_found_by_the_key_it_decrypts_under() {
    let (_, alice) = crypt_setup(&[1; 16], &[2; 16], &[3; 16]);
    let (_, bob) = crypt_setup(&[4; 16], &[5; 16], &[6; 16]);
    let mut client = CryptState::new(&[4; 16], &[6; 16], &[5; 16]);
    let sealed = client.encrypt(b"hello").expect("encryptable");
    let mut states = vec![alice, bob];

    assert_eq!(
        associate(&mut states, None, &[0, 1], &sealed),
        Association::Fresh { peer: 1, plaintext: b"hello".to_vec() }
    );
    // The same datagram again is a replay.
    assert_eq!(
        associate(&mut states, Some(1), &[0, 1], &sealed),
        Association::Undecryptable { peer: 1 }
    );
    assert_eq!(associate(&mut states, None, &[0, 1], &sealed), Association::Unassociated);
    let next = client.encrypt(b"again").expect("encryptable");
    assert_eq!(
        associate(&mut states, Some(1), &[], &next),
        Association::Bound { peer: 1, plaintext: b"again".to_vec() }
    );
}

#[test]
fn a_ping_is_answered_and_other_packets_are_routed_or_dropped() {
    let band = SizeBand { minimum: 2, maximum: 4 };
    let server = statistics();
    let reply = Ping {
        timestamp: 99,
        request_extended_information: false,
        server_version_v2: 0x0001_0005_0000_0000,
        user_count: 3,
        max_user_count: 100,
        max_bandwidth_per_user: 72_000,
    };
    assert_eq!(ping_reply(&ping(), &server), reply);
    assert_eq!(dispatch(&band, 3, Some(UdpMessage::Ping(ping())), &server), Dispatch::Answer(reply));
    assert_eq!(dispatch(&band, 1, Some(UdpMessage::Ping(ping())), &server), Dispatch::OutOfBand);
    assert_eq!(dispatch(&band, 5, Some(UdpMessage::Ping(ping())), &server), Dispatch::OutOfBand);
    assert_eq!(dispatch(&band, 3, None, &server), Dispatch::BadEnvelope);
    let voice = audio(Some(AudioHeader::Target(0)));
    assert_eq!(
        dispatch(&band, 4, Some(UdpMessage::Audio(audio(Some(AudioHeader::Target(0))))), &server),
        Dispatch::Route(voice)
    );
    assert_eq!(dispatch_unassociated(Some(UdpMessage::Audio(audio(None))), &server), None);
    assert!(dispatch_unassociated(Some(UdpMessage::Ping(ping())), &server).is_some());
}

#[test]
fn only_listeners_whose_view_holds_the_speaker_hear_it() {
    let cursors = [Some(5), Some(4), None];
    let voice = audio(Some(AudioHeader::Target(0)));
    assert_eq!(route(&speaker(), &cursors, true, &voice), Ok(vec![SessionId(2)]));
}

#[test]
fn packets_without_a_known_target_are_dropped() {
    let cursors = [Some(5), Some(5), Some(5)];
    let normal = audio(Some(AudioHeader::Target(0)));
    assert_eq!(route(&speaker(), &cursors, false, &normal), Err(VoiceDrop::BudgetExhausted));
    assert_eq!(route(&speaker(), &cursors, true, &audio(None)), Err(VoiceDrop::NoTarget));
    let context = audio(Some(AudioHeader::Context(0)));
    assert_eq!(route(&speaker(), &cursors, true, &context), Err(VoiceDrop::NoTarget));
    let whisper = audio(Some(AudioHeader::Target(7)));
    assert_eq!(
        route(&speaker(), &cursors, true, &whisper),
        Err(VoiceDrop::UnregisteredTarget(7))
    );
}

#[test]
fn loopback_returns_to_a_speaker_that_may_speak() {
    let cursors = [Some(5), Some(5), Some(5)];
    let echo = audio(Some(AudioHeader::Target(31)));
    assert_eq!(route(&speaker(), &cursors, true, &echo), Ok(vec![SessionId(1)]));
    let muted = SpeakerRoute { may_speak: false, ..speaker() };
    assert_eq!(route(&muted, &cursors, true, &echo), Err(VoiceDrop::Muted));
}

#[test]
fn a_listener_is_served_on_the_transport_it_used_last() {
    let (_, mut server) = crypt_setup(&[1; 16], &[2; 16], &[3; 16]);
    let mut client = CryptState::new(&[1; 16], &[3; 16], &[2; 16]);
    let address = SocketAddress { ip: IpAddress::V4(127, 0, 0, 1), port: 64_738 };

    match deliver(Some(address), &mut server, b"voice".to_vec()) {
        Delivery::Datagram { sealed, address: to } => {
            assert_eq!(to, address);
            assert_eq!(sealed.len(), 5 + 4);
            assert_eq!(client.decrypt(&sealed).as_deref(), Some(&b"voice"[..]));
        }
        other => panic!("expected a datagram, got {other:?}"),
    }
    assert_eq!(
        deliver(None, &mut server, b"voice".to_vec()),
        Delivery::Tunnel(ControlMessage::UdpTunnel(b"voice".to_vec()))
    );
}

#[test]
fn a_packet_is_relayed_to_each_listener_under_its_own_key() {
    let address = SocketAddress { ip: IpAddress::V4(127, 0, 0, 1), port: 64_738 };
    let listener = |session: u32, destination: Option<SocketAddress>| Listener {
        session: SessionId(session),
        destination,
        crypt: CryptState::new(&[session as u8; 16], &[2; 16], &[3; 16]),
    };
    // The third receiver has left; the fifth is not addressed.
    let mut listeners =
        vec![listener(4, None), listener(5, Some(address)), listener(2, Some(address))];
    let spoken = audio(Some(AudioHeader::Target(0)));
    let cursors = [Some(5), Some(6), Some(7)];
    let out = relay(&speaker(), &cursors, true, &spoken, b"voice", &mut listeners)
        .expect("the packet is routed");

    assert_eq!(out.len(), 2);
    let Delivery::Datagram { sealed, address: to } = &out[0] else {
        panic!("the second receiver uses UDP");
    };
    assert_eq!(*to, address);
    let mut client = CryptState::new(&[2; 16], &[3; 16], &[2; 16]);
    assert_eq!(client.decrypt(sealed).as_deref(), Some(&b"voice"[..]));
    let mut eavesdropper = CryptState::new(&[5; 16], &[3; 16], &[2; 16]);
    assert_eq!(eavesdropper.decrypt(sealed), None);
    assert_eq!(out[1], Delivery::Tunnel(ControlMessage::UdpTunnel(b"voice".to_vec())));
    assert_eq!(listeners[1].crypt.encrypt_iv(), [2; 16]);
    assert_ne!(listeners[2].crypt.encrypt_iv(), [2; 16]);

    assert_eq!(
        relay(&speaker(), &cursors, false, &spoken, b"voice", &mut listeners),
        Err(VoiceDrop::BudgetExhausted)
    );
}
