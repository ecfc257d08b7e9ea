//! The encoded payloads of the profile, and the frames they travel in.

use mumble_spaces::core_wire::{
    from_core_frame, to_core_frame, CoreClientFrame, CoreClientPayload, CoreServerPayload,
    ProfileCommand, ProfilePayload, StatusCode,
};
use mumble_spaces::messages::{
    ClientPayload, CommandRejected, ObservedSpacesAccepted, ServerFrame, ServerPayload, SpaceClosed,
};
use mumble_spaces::spaces_wire::{
    decode_command, decode_desired_state, decode_participant_spec, encode_event,
    encode_participant_status, Command, Event, ParticipantStatus, PayloadDecodeError,
    MAX_PROFILE_PAYLOAD_BYTES,
};

/// A command to observe some Spaces, written by the protobuf library.
fn observe(revision: u64, keys: &[&str]) -> Vec<u8> {
    let mut inner = Vec::new();
    prost::encoding::uint64::encode(1, &revision, &mut inner);
    for key in keys {
        prost::encoding::string::encode(2, &(*key).to_owned(), &mut inner);
    }
    let mut bytes = Vec::new();
    prost::encoding::bytes::encode(1, &inner, &mut bytes);
    bytes
}

fn command_frame(payload: Option<Vec<u8>>) -> CoreClientFrame {
    CoreClientFrame {
        request_id: vec![1],
        payload: Some(CoreClientPayload::ProfileCommand(ProfileCommand {
            session_token: vec![2],
            payload: payload.map(|protobuf| ProfilePayload { protobuf }),
        })),
    }
}

#[test]
fn missing_and_oversized_profile_payloads_fail_closed() {
    assert!(matches!(decode_command(None), Err(PayloadDecodeError::Missing { .. })));
    assert!(matches!(
        decode_command(Some(&vec![0; MAX_PROFILE_PAYLOAD_BYTES + 1])),
        Err(PayloadDecodeError::TooLarge { .. })
    ));
}

#[test]
fn an_absent_desired_state_is_the_empty_spaces_state() {
    let Ok(state) = decode_desired_state(None) else {
        panic!("absent state must decode as empty");
    };
    assert!(state.observed_space_keys.is_empty());
}

#[test]
fn events_are_encoded_with_the_spaces_envelope() {
    let bytes = encode_event(Event::ObservedSpacesAccepted(ObservedSpacesAccepted {
        observed_spaces_revision: 7,
    }));
    let mut rest = bytes.as_slice();
    let (tag, wire) = prost::encoding::decode_key(&mut rest).expect("a key");
    assert_eq!(tag, 1);
    let mut message: Vec<u8> = Vec::new();
    prost::encoding::bytes::merge(
        wire,
        &mut message,
        &mut rest,
        prost::encoding::DecodeContext::default(),
    )
    .expect("a message");
    assert!(rest.is_empty());
    let mut rest = message.as_slice();
    let (tag, wire) = prost::encoding::decode_key(&mut rest).expect("a key");
    let mut revision = 0u64;
    prost::encoding::uint64::merge(
        wire,
        &mut revision,
        &mut rest,
        prost::encoding::DecodeContext::default(),
    )
    .expect("a number");
    assert_eq!((tag, revision), (1, 7));
}

#[test]
fn wire_rejects_an_untyped_profile_command_before_the_actor() {
    let Err(error) = from_core_frame(command_frame(None)) else {
        panic!("missing payload must fail");
    };
    assert_eq!(error.code, StatusCode::InvalidArgument);
}

#[test]
fn wire_rejects_a_profile_payload_over_the_explicit_limit() {
    let payload = vec![0; MAX_PROFILE_PAYLOAD_BYTES + 1];
    let Err(error) = from_core_frame(command_frame(Some(payload))) else {
        panic!("oversized payload must fail");
    };
    assert_eq!(error.code, StatusCode::ResourceExhausted);
}

#[test]
fn a_command_is_read_as_it_was_written() {
    let bytes = observe(300, &["lobby", "arena"]);
    match decode_command(Some(&bytes)) {
        Ok(Some(Command::ReplaceObservedSpaces(message))) => {
            assert_eq!(message.observed_spaces_revision, 300);
            assert_eq!(message.space_keys, ["lobby", "arena"]);
        }
        other => panic!("expected the command, got {other:?}"),
    }
    let frame = from_core_frame(command_frame(Some(bytes))).expect("readable");
    assert_eq!(frame.request_id, [1]);
    match frame.payload {
        Some(ClientPayload::ReplaceObservedSpaces(message)) => {
            assert_eq!(message.session_token, [2]);
            assert_eq!(message.space_keys, ["lobby", "arena"]);
        }
        other => panic!("expected the command, got {other:?}"),
    }
}

#[test]
fn a_frame_without_a_payload_or_a_command_is_refused() {
    let frame = CoreClientFrame { request_id: vec![1], payload: None };
    let error = from_core_frame(frame).expect_err("nothing to do");
    assert_eq!(error.code, StatusCode::InvalidArgument);
    assert_eq!(error.message, "ClientFrame has no payload");
    let error = from_core_frame(command_frame(Some(Vec::new()))).expect_err("nothing to do");
    assert_eq!(error.message, "Spaces command has no command");
}

#[test]
fn an_unreadable_payload_is_refused() {
    let error = decode_command(Some(&[0x0a, 0x05, 0x01])).expect_err("cut short");
    assert!(matches!(error, PayloadDecodeError::Invalid { .. }));
    assert!(!error.is_too_large());
    let PayloadDecodeError::Invalid { source, .. } = &error else {
        panic!("the payload is cut short");
    };
    assert_eq!(error.message(), format!("invalid Spaces command: {source}"));
    let missing = decode_command(None).expect_err("missing");
    assert_eq!(missing.message(), "Spaces command is missing");
}

#[test]
fn a_spec_is_read_field_by_field() {
    let mut bytes = Vec::new();
    prost::encoding::string::encode(1, &"lobby".to_owned(), &mut bytes);
    prost::encoding::string::encode(2, &"Alice".to_owned(), &mut bytes);
    prost::encoding::bool::encode(4, &true, &mut bytes);
    let spec = decode_participant_spec(Some(&bytes)).expect("readable");
    assert_eq!(spec.space_key, "lobby");
    assert_eq!(spec.display_name, "Alice");
    assert!(!spec.server_mute);
    assert!(spec.server_deaf);
    // What is no text is no name.
    assert!(decode_participant_spec(Some(&[0x0a, 0x01, 0xff])).is_err());
}

#[test]
fn a_status_is_written_field_by_field() {
    let bytes = encode_participant_status(ParticipantStatus {
        applied_space_key: "ab".to_owned(),
        self_mute: false,
        self_deaf: true,
    });
    assert_eq!(bytes, [0x0a, 2, b'a', b'b', 0x18, 1]);
}

#[test]
fn an_answer_keeps_its_request_and_becomes_an_event() {
    let frame = ServerFrame {
        request_id: vec![9],
        payload: Some(ServerPayload::SpaceClosed(SpaceClosed {
            space_key: "a".to_owned(),
            incarnation_id: vec![7],
            final_space_revision: 3,
        })),
    };
    let core = to_core_frame(frame).expect("a payload");
    assert_eq!(core.request_id, [9]);
    match core.payload {
        Some(CoreServerPayload::ProfileEvent(event)) => assert_eq!(
            event.payload.expect("a payload").protobuf,
            [0x1a, 8, 0x0a, 1, b'a', 0x12, 1, 7, 0x18, 3]
        ),
        other => panic!("expected an event, got {other:?}"),
    }
    let rejected = ServerFrame {
        request_id: vec![9],
        payload: Some(ServerPayload::CommandRejected(CommandRejected {
            code: 1,
            message: "no".to_owned(),
        })),
    };
    assert!(matches!(
        to_core_frame(rejected).expect("a payload").payload,
        Some(CoreServerPayload::CommandRejected(_))
    ));
    let empty = ServerFrame { request_id: vec![9], payload: None };
    assert_eq!(to_core_frame(empty), Err("ServerFrame has no payload".to_owned()));
}

/// `depth` groups, one in the other.
fn groups(depth: usize) -> Vec<u8> {
    let mut bytes = vec![0x7b; depth];
    bytes.extend(vec![0x7c; depth]);
    bytes
}

/// A message without any field of its own.
#[derive(Debug, Default)]
struct Blank;

impl prost::Message for Blank {
    fn encode_raw(&self, _buffer: &mut impl prost::bytes::BufMut) {}

    fn merge_field(
        &mut self,
        number: u32,
        kind: prost::encoding::WireType,
        buffer: &mut impl prost::bytes::Buf,
        context: prost::encoding::DecodeContext,
    ) -> Result<(), prost::DecodeError> {
        prost::encoding::skip_field(kind, number, buffer, context)
    }

    fn encoded_len(&self) -> usize {
        0
    }

    fn clear(&mut self) {}
}

/// A message with one other message in it.
#[derive(Debug, Default)]
struct Envelope {
    inner: Blank,
}

impl prost::Message for Envelope {
    fn encode_raw(&self, _buffer: &mut impl prost::bytes::BufMut) {}

    fn merge_field(
        &mut self,
        number: u32,
        kind: prost::encoding::WireType,
        buffer: &mut impl prost::bytes::Buf,
        context: prost::encoding::DecodeContext,
    ) -> Result<(), prost::DecodeError> {
        if number == 1 {
            prost::encoding::message::merge(kind, &mut self.inner, buffer, context)
        } else {
            prost::encoding::skip_field(kind, number, buffer, context)
        }
    }

    fn encoded_len(&self) -> usize {
        0
    }

    fn clear(&mut self) {}
}

#[test]
fn unknown_groups_nest_as_deep_as_the_protobuf_library_lets_them() {
    for depth in [0, 1, 2, 98, 99, 100, 101] {
        let outside = groups(depth);
        let read = <Envelope as prost::Message>::decode(outside.as_slice());
        assert_eq!(read.is_ok(), depth <= 100);
        assert_eq!(decode_command(Some(&outside)).is_ok(), depth <= 100);

        let mut inside = Vec::new();
        prost::encoding::bytes::encode(1, &groups(depth), &mut inside);
        let read = <Envelope as prost::Message>::decode(inside.as_slice());
        assert_eq!(read.is_ok(), depth <= 99);
        assert_eq!(decode_command(Some(&inside)).is_ok(), depth <= 99);
        inside[0] = 0x12;
        assert_eq!(decode_command(Some(&inside)).is_ok(), depth <= 99);
    }
}

#[test]
fn an_unknown_field_of_a_nested_message_is_skipped_whole() {
    let mut inner = groups(2);
    prost::encoding::uint64::encode(15, &300, &mut inner);
    prost::encoding::string::encode(14, &"unread".to_owned(), &mut inner);
    inner.extend([0x6d, 1, 2, 3, 4]);
    inner.extend([0x61, 1, 2, 3, 4, 5, 6, 7, 8]);
    prost::encoding::string::encode(1, &"lobby".to_owned(), &mut inner);
    let mut bytes = Vec::new();
    prost::encoding::bytes::encode(2, &inner, &mut bytes);
    match decode_command(Some(&bytes)) {
        Ok(Some(Command::FetchSpace(fetch))) => assert_eq!(fetch.space_key, "lobby"),
        other => panic!("{other:?}"),
    }
    // The end of a group that was never started.
    let mut bytes = Vec::new();
    prost::encoding::bytes::encode(2, &vec![0x7c], &mut bytes);
    assert!(decode_command(Some(&bytes)).is_err());
}
