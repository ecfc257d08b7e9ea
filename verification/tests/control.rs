//! Control messages, their frames, and the queue they wait in.

use mumble_spaces::control::{
    decode_control, decode_frame, encode_control, encode_frame, ControlDecodeError, ControlMessage,
    Encoded,
};
use mumble_spaces::framing::{parse_frame, write_frame, FramingError, TcpMessageType};
use mumble_spaces::queue::{
    admission, queued, OutboundQueue, Refused, Reservation, VoiceAdmission, CAPACITY, MAX_DEPTH_FOR_VOICE,
};

/// The fields of a message, written by the protobuf library.
fn version(release: &str) -> Encoded {
    let mut bytes = Vec::new();
    prost::encoding::string::encode(2, &release.to_owned(), &mut bytes);
    Encoded::new(&bytes).expect("well-formed")
}

fn message(session: u32) -> ControlMessage {
    let mut bytes = Vec::new();
    prost::encoding::uint32::encode(1, &session, &mut bytes);
    ControlMessage::UserRemove(Encoded::new(&bytes).expect("well-formed"))
}

fn messages(session: u32, count: usize) -> Vec<ControlMessage> {
    (0..count).map(|_| message(session)).collect()
}

#[test]
fn decodes_a_normal_protobuf_message() {
    let release = version("voxloom");
    let decoded = decode_control(0, release.as_slice()).expect("decode Version");
    assert_eq!(decoded, ControlMessage::Version(release));
}

#[test]
fn udp_tunnel_payload_is_returned_raw() {
    // A raw audio packet, deliberately no valid protobuf.
    let raw_audio = vec![0x80u8, 0x00, 0xDE, 0xAD, 0xBE, 0xEF, 0xFF];
    let decoded = decode_control(1, &raw_audio).expect("decode UDPTunnel");
    assert_eq!(decoded, ControlMessage::UdpTunnel(raw_audio));
}

#[test]
fn udp_tunnel_is_raw_even_when_bytes_are_valid_protobuf() {
    let mut looks_like_protobuf = Vec::new();
    prost::encoding::bytes::encode(1, &vec![0xDEu8, 0xAD, 0xBE, 0xEF], &mut looks_like_protobuf);
    let decoded = decode_control(1, &looks_like_protobuf).expect("decode UDPTunnel");
    assert_eq!(decoded, ControlMessage::UdpTunnel(looks_like_protobuf));
}

#[test]
fn unknown_type_code_fails_closed() {
    match decode_control(99, &[]) {
        Err(ControlDecodeError::Framing(FramingError::UnknownMessageType(99))) => {}
        other => panic!("expected unknown-type error, got {other:?}"),
    }
}

#[test]
fn encode_then_decode_roundtrips_a_protobuf_message() {
    let mut bytes = Vec::new();
    prost::encoding::uint32::encode(1, &42, &mut bytes);
    prost::encoding::uint32::encode(2, &72_000, &mut bytes);
    prost::encoding::string::encode(3, &"hi".to_string(), &mut bytes);
    prost::encoding::uint64::encode(4, &0, &mut bytes);
    let message = ControlMessage::ServerSync(Encoded::new(&bytes).expect("well-formed"));
    let (message_type, payload) = encode_control(&message);
    assert_eq!(decode_control(message_type, &payload).expect("re-decode"), message);
}

#[test]
fn encode_preserves_udp_tunnel_raw_bytes() {
    // The raw-audio special case must survive a round trip byte-for-byte and
    // stay on type code 1.
    let raw_audio = vec![0x00u8, 0x18, 0x02, 0x20, 0xB0, 0x05, 0xDE, 0xAD];
    let message = ControlMessage::UdpTunnel(raw_audio.clone());
    let (message_type, payload) = encode_control(&message);
    assert_eq!(message_type, TcpMessageType::UdpTunnel.code());
    assert_eq!(payload, raw_audio);
    assert_eq!(decode_control(message_type, &payload).expect("re-decode"), message);
}

#[test]
fn encode_frame_then_parse_roundtrips() {
    let message = ControlMessage::Version(version("voxloom"));
    let mut framed = Vec::new();
    encode_frame(&message, &mut framed).expect("encode frame");
    let frame = parse_frame(&framed).expect("a complete frame");
    assert_eq!(decode_frame(&frame).expect("decode frame"), message);
}

#[test]
fn malformed_protobuf_is_an_error_not_a_default() {
    let malformed = [0x08u8]; // field 1, varint, but no value byte follows
    match decode_control(0, &malformed) {
        Err(ControlDecodeError::Protobuf { message_type: TcpMessageType::Version, .. }) => {}
        other => panic!("expected protobuf decode error, got {other:?}"),
    }
}

#[test]
fn a_frame_is_its_type_its_length_and_its_payload() {
    let mut framed = Vec::new();
    write_frame(3, &[0xAA, 0xBB], &mut framed).expect("small enough");
    assert_eq!(framed, [0, 3, 0, 0, 0, 2, 0xAA, 0xBB]);
    assert!(parse_frame(&framed[..7]).is_none(), "the last byte is missing");
}

#[test]
fn every_message_type_is_known_by_its_code() {
    for code in 0u16..27 {
        let message_type = TcpMessageType::from_code(code).expect("a known type");
        assert_eq!(message_type.code(), code);
    }
    assert_eq!(TcpMessageType::from_code(27), Err(FramingError::UnknownMessageType(27)));
}

#[test]
fn groups_and_unknown_fields_are_well_formed() {
    // A group of field 5 with one varint in it, and an unknown fixed field.
    let mut bytes = vec![0x2b, 0x08, 0x01, 0x2c];
    prost::encoding::fixed32::encode(7, &9, &mut bytes);
    assert!(Encoded::new(&bytes).is_ok());
    // The same group, not closed.
    assert!(Encoded::new(&[0x2b, 0x08, 0x01]).is_err());
    // An end without a start.
    assert!(Encoded::new(&[0x2c]).is_err());
    // Field number zero.
    assert!(Encoded::new(&[0x00, 0x01]).is_err());
}

#[test]
fn an_admitted_transition_arrives_whole_and_in_order() {
    let (mut queue, mut receiver) = OutboundQueue::new();
    queue
        .try_send_all(vec![message(1), message(2), message(3)])
        .expect("an empty queue has room");

    let mut received = Vec::new();
    for _ in 0..3 {
        received.push(receiver.try_recv().expect("queued message"));
    }
    assert_eq!(
        received,
        vec![message(1), message(2), message(3)],
        "plan order is what carries the ordering rules"
    );
}

#[test]
fn a_transition_that_does_not_fit_queues_nothing_at_all() {
    let (mut queue, mut receiver) = OutboundQueue::with_capacity(4);
    queue.try_send_all(vec![message(1), message(2)]).expect("room for two");
    let depth_before = queue.depth();

    let refused = queue
        .try_send_all(messages(3, 3))
        .expect_err("three messages cannot fit in two slots");
    assert_eq!(refused, Refused::Congested { needed: 3, free: 2 });
    assert_eq!(
        queue.depth(),
        depth_before,
        "a refused transition must leave the queue exactly as it was"
    );
    assert!(
        !queue.must_close(),
        "ordinary backpressure is not a reason to drop the connection"
    );

    receiver.try_recv().expect("queued message");
    queue.try_send_all(messages(3, 3)).expect("one drained slot is all that was missing");
}

#[test]
fn a_transition_larger_than_the_queue_ends_the_connection() {
    let (mut queue, _receiver) = OutboundQueue::with_capacity(4);
    let refused = queue.try_send_all(messages(1, 5)).expect_err("it cannot fit, now or ever");

    assert_eq!(refused, Refused::TooLarge { needed: 5, capacity: 4 });
    assert!(
        queue.must_close(),
        "retrying something that can never fit is a livelock, not backpressure"
    );
}

#[test]
fn a_closed_writer_ends_the_connection() {
    let (mut queue, receiver) = OutboundQueue::with_capacity(4);
    drop(receiver);

    assert_eq!(queue.try_send_all(vec![message(1)]), Err(Refused::Closed));
    assert!(queue.must_close());
}

#[test]
fn voice_is_refused_long_before_the_queue_is_full() {
    let (mut queue, _receiver) = OutboundQueue::new();
    for _ in 0..MAX_DEPTH_FOR_VOICE {
        assert_eq!(queue.push_voice(message(1)), VoiceAdmission::Accepted);
    }

    assert_eq!(queue.push_voice(message(1)), VoiceAdmission::Dropped);
    assert!(
        !queue.must_close(),
        "dropping late audio is the correct outcome, not a fault"
    );
    assert!(
        queue.depth() < CAPACITY,
        "the point of the voice bound is that control still has room"
    );
}

#[test]
fn control_still_fits_when_voice_has_been_refused() {
    let (mut queue, _receiver) = OutboundQueue::with_capacity(MAX_DEPTH_FOR_VOICE + 8);
    for _ in 0..MAX_DEPTH_FOR_VOICE {
        assert_eq!(queue.push_voice(message(1)), VoiceAdmission::Accepted);
    }
    assert_eq!(queue.push_voice(message(1)), VoiceAdmission::Dropped);

    assert_eq!(queue.try_send_all(messages(2, 8)), Ok(()));
}

#[test]
fn an_empty_transition_is_free() {
    let (mut queue, _receiver) = OutboundQueue::with_capacity(1);
    assert_eq!(queue.try_send_all(Vec::new()), Ok(()));
    assert_eq!(queue.depth(), 0);
}

#[test]
fn a_full_queue_drops_voice_and_a_gone_writer_ends_it() {
    let (mut queue, receiver) = OutboundQueue::with_capacity(1);
    assert_eq!(queue.push_voice(message(1)), VoiceAdmission::Accepted);
    assert_eq!(queue.push_voice(message(2)), VoiceAdmission::Dropped);
    assert!(!queue.must_close());
    drop(receiver);
    assert_eq!(queue.push_voice(message(3)), VoiceAdmission::Dropped);
    assert!(queue.must_close());
}

#[test]
fn a_connection_is_ended_only_where_it_is_hopeless() {
    let full = Reservation::Full { taken: 1 };
    assert_eq!(admission(2, 4, full), (Err(Refused::Congested { needed: 2, free: 1 }), false));
    assert_eq!(admission(0, 4, Reservation::Closed), (Ok(()), false));
    assert_eq!(admission(5, 4, full), (Err(Refused::TooLarge { needed: 5, capacity: 4 }), true));
    assert_eq!(admission(1, 4, Reservation::Closed), (Err(Refused::Closed), true));
    let (mut queue, _receiver) = OutboundQueue::new();
    queue.mark_fatal();
    assert!(queue.must_close());
}

#[test]
fn the_depth_is_the_number_of_slots_that_are_taken() {
    assert_eq!(queued(4, 4), 0);
    assert_eq!(queued(4, 1), 3);
    assert_eq!(queued(4, 5), 0);
    let (mut queue, mut receiver) = OutboundQueue::with_capacity(4);
    assert_eq!(queue.depth(), 0);
    for _ in 0..3 {
        let packet = ControlMessage::UdpTunnel(vec![1]);
        assert_eq!(queue.push_voice(packet), VoiceAdmission::Accepted);
    }
    assert_eq!(queue.depth(), 3);
    assert!(receiver.try_recv().is_ok());
    assert_eq!(queue.depth(), 2);
}

#[test]
fn each_queue_feeds_its_own_receiver() {
    let (mut first, mut first_receiver) = OutboundQueue::with_capacity(2);
    let (mut second, mut second_receiver) = OutboundQueue::with_capacity(2);
    assert_eq!(first.try_send_all(vec![ControlMessage::UdpTunnel(vec![1])]), Ok(()));
    assert_eq!(second.try_send_all(vec![ControlMessage::UdpTunnel(vec![2])]), Ok(()));
    assert_eq!(first_receiver.try_recv(), Ok(ControlMessage::UdpTunnel(vec![1])));
    assert_eq!(second_receiver.try_recv(), Ok(ControlMessage::UdpTunnel(vec![2])));
    assert!(first_receiver.try_recv().is_err());
    assert!(second_receiver.try_recv().is_err());
}

#[test]
fn refusals_and_faults_are_put_into_words() {
    assert_eq!(
        Refused::Congested { needed: 3, free: 2 }.message(),
        "output queue has 2 free slots, 3 were needed"
    );
    assert_eq!(
        Refused::TooLarge { needed: 9, capacity: 4 }.message(),
        "transition of 9 messages exceeds the queue capacity of 4"
    );
    assert_eq!(Refused::Closed.message(), "the connection's writer has ended");
    let unknown = decode_control(999, &[]).expect_err("no such type");
    assert_eq!(unknown.message(), "unknown Mumble message type 999");
    let broken = decode_control(3, &[0x0a]).expect_err("cut short");
    let mut rest: &[u8] = &[];
    let words = prost::encoding::decode_varint(&mut rest).expect_err("nothing there").to_string();
    assert_eq!(
        broken.message(),
        format!("protobuf decode failed for Ping (1 bytes): {words}")
    );
}
