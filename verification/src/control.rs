//! Messages of the Mumble control channel.
//!
//! Every message but one is a protobuf message. The exception is the UDP tunnel:
//! a frame of that type carries a raw audio packet, which is taken as it is.

use vstd::prelude::*;

use crate::framing::{written_frame, Frame, FrameModel, FramingError, TcpMessageType, write_frame};
use crate::protobuf::{
    check_fields, fields_read, protobuf_error_text, protobuf_error_words, well_formed,
};
use crate::text::{copy_bytes, decimal, decimal_text, join_text};

verus! {

/// An encoded protobuf message: a sequence of fields. Which fields a message has,
/// and of what kind, is not looked at here.
#[derive(Debug, PartialEq, Eq)]
pub struct Encoded {
    bytes: Vec<u8>,
}

impl View for Encoded {
    type V = Seq<u8>;

    closed spec fn view(&self) -> Seq<u8> {
        self.bytes@
    }
}

impl Encoded {
    #[verifier::type_invariant]
    spec fn valid(self) -> bool {
        well_formed(self.bytes@)
    }

    /// Takes bytes that are a sequence of fields.
    pub fn new(bytes: &[u8]) -> (result: Result<Encoded, prost::DecodeError>)
        ensures
            match result {
                Ok(encoded) => well_formed(bytes@) && encoded@ == bytes@,
                Err(error) => fields_read(bytes@) == Err::<(), prost::DecodeError>(error),
            },
    {
        match check_fields(bytes) {
            Ok(_) => Ok(Encoded { bytes: copy_bytes(bytes) }),
            Err(error) => Err(error),
        }
    }

    /// The fields, encoded.
    pub fn as_slice(&self) -> (bytes: &[u8])
        ensures
            bytes@ == self@,
            well_formed(bytes@),
    {
        proof {
            use_type_invariant(self);
        }
        self.bytes.as_slice()
    }
}

impl Clone for Encoded {
    fn clone(&self) -> (copy: Self)
        ensures
            copy@ == self@,
    {
        proof {
            use_type_invariant(self);
        }
        Encoded { bytes: copy_bytes(self.bytes.as_slice()) }
    }
}

/// A message of the control channel.
#[derive(Debug, PartialEq, Eq)]
pub enum ControlMessage {
    Version(Encoded),
    /// A raw audio packet, tunnelled over TCP.
    UdpTunnel(Vec<u8>),
    Authenticate(Encoded),
    Ping(Encoded),
    Reject(Encoded),
    ServerSync(Encoded),
    ChannelRemove(Encoded),
    ChannelState(Encoded),
    UserRemove(Encoded),
    UserState(Encoded),
    BanList(Encoded),
    TextMessage(Encoded),
    PermissionDenied(Encoded),
    Acl(Encoded),
    QueryUsers(Encoded),
    CryptSetup(Encoded),
    ContextActionModify(Encoded),
    ContextAction(Encoded),
    UserList(Encoded),
    VoiceTarget(Encoded),
    PermissionQuery(Encoded),
    CodecVersion(Encoded),
    UserStats(Encoded),
    RequestBlob(Encoded),
    ServerConfig(Encoded),
    SuggestConfig(Encoded),
    PluginDataTransmission(Encoded),
}

/// A message's type and payload.
#[verifier::ext_equal]
pub struct ControlModel {
    pub message_type: TcpMessageType,
    pub payload: Seq<u8>,
}

impl View for ControlMessage {
    type V = ControlModel;

    open spec fn view(&self) -> ControlModel {
        match self {
            ControlMessage::Version(payload) => ControlModel {
                message_type: TcpMessageType::Version,
                payload: payload@,
            },
            ControlMessage::UdpTunnel(payload) => ControlModel {
                message_type: TcpMessageType::UdpTunnel,
                payload: payload@,
            },
            ControlMessage::Authenticate(payload) => ControlModel {
                message_type: TcpMessageType::Authenticate,
                payload: payload@,
            },
            ControlMessage::Ping(payload) => ControlModel {
                message_type: TcpMessageType::Ping,
                payload: payload@,
            },
            ControlMessage::Reject(payload) => ControlModel {
                message_type: TcpMessageType::Reject,
                payload: payload@,
            },
            ControlMessage::ServerSync(payload) => ControlModel {
                message_type: TcpMessageType::ServerSync,
                payload: payload@,
            },
            ControlMessage::ChannelRemove(payload) => ControlModel {
                message_type: TcpMessageType::ChannelRemove,
                payload: payload@,
            },
            ControlMessage::ChannelState(payload) => ControlModel {
                message_type: TcpMessageType::ChannelState,
                payload: payload@,
            },
            ControlMessage::UserRemove(payload) => ControlModel {
                message_type: TcpMessageType::UserRemove,
                payload: payload@,
            },
            ControlMessage::UserState(payload) => ControlModel {
                message_type: TcpMessageType::UserState,
                payload: payload@,
            },
            ControlMessage::BanList(payload) => ControlModel {
                message_type: TcpMessageType::BanList,
                payload: payload@,
            },
            ControlMessage::TextMessage(payload) => ControlModel {
                message_type: TcpMessageType::TextMessage,
                payload: payload@,
            },
            ControlMessage::PermissionDenied(payload) => ControlModel {
                message_type: TcpMessageType::PermissionDenied,
                payload: payload@,
            },
            ControlMessage::Acl(payload) => ControlModel {
                message_type: TcpMessageType::Acl,
                payload: payload@,
            },
            ControlMessage::QueryUsers(payload) => ControlModel {
                message_type: TcpMessageType::QueryUsers,
                payload: payload@,
            },
            ControlMessage::CryptSetup(payload) => ControlModel {
                message_type: TcpMessageType::CryptSetup,
                payload: payload@,
            },
            ControlMessage::ContextActionModify(payload) => ControlModel {
                message_type: TcpMessageType::ContextActionModify,
                payload: payload@,
            },
            ControlMessage::ContextAction(payload) => ControlModel {
                message_type: TcpMessageType::ContextAction,
                payload: payload@,
            },
            ControlMessage::UserList(payload) => ControlModel {
                message_type: TcpMessageType::UserList,
                payload: payload@,
            },
            ControlMessage::VoiceTarget(payload) => ControlModel {
                message_type: TcpMessageType::VoiceTarget,
                payload: payload@,
            },
            ControlMessage::PermissionQuery(payload) => ControlModel {
                message_type: TcpMessageType::PermissionQuery,
                payload: payload@,
            },
            ControlMessage::CodecVersion(payload) => ControlModel {
                message_type: TcpMessageType::CodecVersion,
                payload: payload@,
            },
            ControlMessage::UserStats(payload) => ControlModel {
                message_type: TcpMessageType::UserStats,
                payload: payload@,
            },
            ControlMessage::RequestBlob(payload) => ControlModel {
                message_type: TcpMessageType::RequestBlob,
                payload: payload@,
            },
            ControlMessage::ServerConfig(payload) => ControlModel {
                message_type: TcpMessageType::ServerConfig,
                payload: payload@,
            },
            ControlMessage::SuggestConfig(payload) => ControlModel {
                message_type: TcpMessageType::SuggestConfig,
                payload: payload@,
            },
            ControlMessage::PluginDataTransmission(payload) => ControlModel {
                message_type: TcpMessageType::PluginDataTransmission,
                payload: payload@,
            },
        }
    }
}

impl Clone for ControlMessage {
    fn clone(&self) -> (copy: Self)
        ensures
            copy@ == self@,
    {
        match self {
            ControlMessage::Version(m) => ControlMessage::Version(m.clone()),
            ControlMessage::UdpTunnel(packet) => ControlMessage::UdpTunnel(
                copy_bytes(packet.as_slice()),
            ),
            ControlMessage::Authenticate(m) => ControlMessage::Authenticate(m.clone()),
            ControlMessage::Ping(m) => ControlMessage::Ping(m.clone()),
            ControlMessage::Reject(m) => ControlMessage::Reject(m.clone()),
            ControlMessage::ServerSync(m) => ControlMessage::ServerSync(m.clone()),
            ControlMessage::ChannelRemove(m) => ControlMessage::ChannelRemove(m.clone()),
            ControlMessage::ChannelState(m) => ControlMessage::ChannelState(m.clone()),
            ControlMessage::UserRemove(m) => ControlMessage::UserRemove(m.clone()),
            ControlMessage::UserState(m) => ControlMessage::UserState(m.clone()),
            ControlMessage::BanList(m) => ControlMessage::BanList(m.clone()),
            ControlMessage::TextMessage(m) => ControlMessage::TextMessage(m.clone()),
            ControlMessage::PermissionDenied(m) => ControlMessage::PermissionDenied(m.clone()),
            ControlMessage::Acl(m) => ControlMessage::Acl(m.clone()),
            ControlMessage::QueryUsers(m) => ControlMessage::QueryUsers(m.clone()),
            ControlMessage::CryptSetup(m) => ControlMessage::CryptSetup(m.clone()),
            ControlMessage::ContextActionModify(m) => ControlMessage::ContextActionModify(m.clone()),
            ControlMessage::ContextAction(m) => ControlMessage::ContextAction(m.clone()),
            ControlMessage::UserList(m) => ControlMessage::UserList(m.clone()),
            ControlMessage::VoiceTarget(m) => ControlMessage::VoiceTarget(m.clone()),
            ControlMessage::PermissionQuery(m) => ControlMessage::PermissionQuery(m.clone()),
            ControlMessage::CodecVersion(m) => ControlMessage::CodecVersion(m.clone()),
            ControlMessage::UserStats(m) => ControlMessage::UserStats(m.clone()),
            ControlMessage::RequestBlob(m) => ControlMessage::RequestBlob(m.clone()),
            ControlMessage::ServerConfig(m) => ControlMessage::ServerConfig(m.clone()),
            ControlMessage::SuggestConfig(m) => ControlMessage::SuggestConfig(m.clone()),
            ControlMessage::PluginDataTransmission(m) => ControlMessage::PluginDataTransmission(m.clone()),
        }
    }
}

/// Why a message could not be decoded.
#[derive(Debug)]
pub enum ControlDecodeError {
    /// The type is not one of the control channel.
    Framing(FramingError),
    /// The payload is not a protobuf message.
    Protobuf { message_type: TcpMessageType, payload_len: usize, source: prost::DecodeError },
}

/// What can be wrong with a message.
pub enum DecodeFault {
    Framing(FramingError),
    Protobuf { message_type: TcpMessageType, payload_len: nat, source: prost::DecodeError },
}

impl View for ControlDecodeError {
    type V = DecodeFault;

    open spec fn view(&self) -> DecodeFault {
        match self {
            ControlDecodeError::Framing(error) => DecodeFault::Framing(*error),
            ControlDecodeError::Protobuf { message_type, payload_len, source } =>
                DecodeFault::Protobuf {
                message_type: *message_type,
                payload_len: *payload_len as nat,
                source: *source,
            },
        }
    }
}

impl DecodeFault {
    pub open spec fn text(self) -> Seq<char> {
        match self {
            DecodeFault::Framing(error) => error.text(),
            DecodeFault::Protobuf { message_type, payload_len, source } =>
                "protobuf decode failed for "@ + message_type.named() + " ("@ + decimal(payload_len)
                + " bytes): "@ + protobuf_error_words(source),
        }
    }
}

impl ControlDecodeError {
    /// The error in words.
    pub fn message(&self) -> (message: String)
        ensures
            message@ == self@.text(),
    {
        match self {
            ControlDecodeError::Framing(error) => error.message(),
            ControlDecodeError::Protobuf { message_type, payload_len, source } => {
                let start = join_text("protobuf decode failed for ", message_type.name(), " (");
                let len = decimal_text(*payload_len as u64);
                let middle = join_text(start.as_str(), len.as_str(), " bytes): ");
                let words = protobuf_error_text(source);
                proof {
                    reveal_strlit("");
                }
                let message = join_text(middle.as_str(), words.as_str(), "");
                assert(message@ =~= self@.text());
                message
            },
        }
    }
}

/// The message with the given type code and payload. An unknown type and a
/// malformed payload are faults; a tunnelled packet is taken as it is.
pub open spec fn decoded(code: u16, payload: Seq<u8>) -> Result<ControlModel, DecodeFault> {
    match TcpMessageType::of(code) {
        None => Err(DecodeFault::Framing(FramingError::UnknownMessageType(code))),
        Some(message_type) => match fields_read(payload) {
            Err(source) if message_type != TcpMessageType::UdpTunnel => Err(
                DecodeFault::Protobuf { message_type, payload_len: payload.len(), source },
            ),
            _ => Ok(ControlModel { message_type, payload }),
        },
    }
}

fn decode_pb(message_type: TcpMessageType, payload: &[u8]) -> (result: Result<Encoded, ControlDecodeError>)
    ensures
        match result {
            Ok(encoded) => well_formed(payload@) && encoded@ == payload@,
            Err(error) => fields_read(payload@) matches Err(source) && error@ == (
            DecodeFault::Protobuf { message_type, payload_len: payload@.len(), source }),
        },
{
    match Encoded::new(payload) {
        Ok(encoded) => Ok(encoded),
        Err(source) => Err(
            ControlDecodeError::Protobuf { message_type, payload_len: payload.len(), source },
        ),
    }
}

/// Decodes a message from its type code and payload. A type that is not known is
/// refused, and so is a payload that is no sequence of fields. The fields themselves
/// are left to whoever reads them: a field of the wrong kind, or a text that is not
/// UTF-8, passes here.
pub fn decode_control(message_type: u16, payload: &[u8]) -> (result: Result<
    ControlMessage,
    ControlDecodeError,
>)
    ensures
        match result {
            Ok(message) => decoded(message_type, payload@) == Ok::<ControlModel, DecodeFault>(
                message@,
            ),
            Err(error) => decoded(message_type, payload@) == Err::<ControlModel, DecodeFault>(
                error@,
            ),
        },
{
    let message_type = match TcpMessageType::from_code(message_type) {
        Ok(message_type) => message_type,
        Err(error) => {
            return Err(ControlDecodeError::Framing(error));
        },
    };
    if message_type == TcpMessageType::UdpTunnel {
        return Ok(ControlMessage::UdpTunnel(copy_bytes(payload)));
    }
    let payload = match decode_pb(message_type, payload) {
        Ok(payload) => payload,
        Err(error) => {
            return Err(error);
        },
    };
    Ok(
        match message_type {
            TcpMessageType::UdpTunnel => ControlMessage::UdpTunnel(
                copy_bytes(payload.as_slice()),
            ),
            TcpMessageType::Version => ControlMessage::Version(payload),
            TcpMessageType::Authenticate => ControlMessage::Authenticate(payload),
            TcpMessageType::Ping => ControlMessage::Ping(payload),
            TcpMessageType::Reject => ControlMessage::Reject(payload),
            TcpMessageType::ServerSync => ControlMessage::ServerSync(payload),
            TcpMessageType::ChannelRemove => ControlMessage::ChannelRemove(payload),
            TcpMessageType::ChannelState => ControlMessage::ChannelState(payload),
            TcpMessageType::UserRemove => ControlMessage::UserRemove(payload),
            TcpMessageType::UserState => ControlMessage::UserState(payload),
            TcpMessageType::BanList => ControlMessage::BanList(payload),
            TcpMessageType::TextMessage => ControlMessage::TextMessage(payload),
            TcpMessageType::PermissionDenied => ControlMessage::PermissionDenied(payload),
            TcpMessageType::Acl => ControlMessage::Acl(payload),
            TcpMessageType::QueryUsers => ControlMessage::QueryUsers(payload),
            TcpMessageType::CryptSetup => ControlMessage::CryptSetup(payload),
            TcpMessageType::ContextActionModify => ControlMessage::ContextActionModify(payload),
            TcpMessageType::ContextAction => ControlMessage::ContextAction(payload),
            TcpMessageType::UserList => ControlMessage::UserList(payload),
            TcpMessageType::VoiceTarget => ControlMessage::VoiceTarget(payload),
            TcpMessageType::PermissionQuery => ControlMessage::PermissionQuery(payload),
            TcpMessageType::CodecVersion => ControlMessage::CodecVersion(payload),
            TcpMessageType::UserStats => ControlMessage::UserStats(payload),
            TcpMessageType::RequestBlob => ControlMessage::RequestBlob(payload),
            TcpMessageType::ServerConfig => ControlMessage::ServerConfig(payload),
            TcpMessageType::SuggestConfig => ControlMessage::SuggestConfig(payload),
            TcpMessageType::PluginDataTransmission => ControlMessage::PluginDataTransmission(payload),
        },
    )
}

/// Decodes the message of a frame.
pub fn decode_frame(frame: &Frame<'_>) -> (result: Result<ControlMessage, ControlDecodeError>)
    ensures
        match result {
            Ok(message) => decoded(frame@.message_type, frame@.payload) == Ok::<
                ControlModel,
                DecodeFault,
            >(message@),
            Err(error) => decoded(frame@.message_type, frame@.payload) == Err::<
                ControlModel,
                DecodeFault,
            >(error@),
        },
{
    decode_control(frame.message_type, frame.payload)
}

fn encode_pb(message_type: TcpMessageType, message: &Encoded) -> (result: (u16, Vec<u8>))
    ensures
        result.0 == message_type.number(),
        result.1@ == message@,
        well_formed(message@),
{
    (message_type.code(), copy_bytes(message.as_slice()))
}

/// The type code and payload of a message. Decoding them gives the message back.
pub fn encode_control(message: &ControlMessage) -> (result: (u16, Vec<u8>))
    ensures
        result.0 == message@.message_type.number(),
        result.1@ == message@.payload,
        decoded(result.0, result.1@) == Ok::<ControlModel, DecodeFault>(message@),
{
    match message {
        ControlMessage::UdpTunnel(bytes) => (
            TcpMessageType::UdpTunnel.code(),
            copy_bytes(bytes.as_slice()),
        ),
        ControlMessage::Version(m) => encode_pb(TcpMessageType::Version, m),
        ControlMessage::Authenticate(m) => encode_pb(TcpMessageType::Authenticate, m),
        ControlMessage::Ping(m) => encode_pb(TcpMessageType::Ping, m),
        ControlMessage::Reject(m) => encode_pb(TcpMessageType::Reject, m),
        ControlMessage::ServerSync(m) => encode_pb(TcpMessageType::ServerSync, m),
        ControlMessage::ChannelRemove(m) => encode_pb(TcpMessageType::ChannelRemove, m),
        ControlMessage::ChannelState(m) => encode_pb(TcpMessageType::ChannelState, m),
        ControlMessage::UserRemove(m) => encode_pb(TcpMessageType::UserRemove, m),
        ControlMessage::UserState(m) => encode_pb(TcpMessageType::UserState, m),
        ControlMessage::BanList(m) => encode_pb(TcpMessageType::BanList, m),
        ControlMessage::TextMessage(m) => encode_pb(TcpMessageType::TextMessage, m),
        ControlMessage::PermissionDenied(m) => encode_pb(TcpMessageType::PermissionDenied, m),
        ControlMessage::Acl(m) => encode_pb(TcpMessageType::Acl, m),
        ControlMessage::QueryUsers(m) => encode_pb(TcpMessageType::QueryUsers, m),
        ControlMessage::CryptSetup(m) => encode_pb(TcpMessageType::CryptSetup, m),
        ControlMessage::ContextActionModify(m) => encode_pb(TcpMessageType::ContextActionModify, m),
        ControlMessage::ContextAction(m) => encode_pb(TcpMessageType::ContextAction, m),
        ControlMessage::UserList(m) => encode_pb(TcpMessageType::UserList, m),
        ControlMessage::VoiceTarget(m) => encode_pb(TcpMessageType::VoiceTarget, m),
        ControlMessage::PermissionQuery(m) => encode_pb(TcpMessageType::PermissionQuery, m),
        ControlMessage::CodecVersion(m) => encode_pb(TcpMessageType::CodecVersion, m),
        ControlMessage::UserStats(m) => encode_pb(TcpMessageType::UserStats, m),
        ControlMessage::RequestBlob(m) => encode_pb(TcpMessageType::RequestBlob, m),
        ControlMessage::ServerConfig(m) => encode_pb(TcpMessageType::ServerConfig, m),
        ControlMessage::SuggestConfig(m) => encode_pb(TcpMessageType::SuggestConfig, m),
        ControlMessage::PluginDataTransmission(m) => encode_pb(TcpMessageType::PluginDataTransmission, m),
    }
}

/// Appends a message to `out` as a frame. Parsing and decoding that frame gives
/// the message back.
pub fn encode_frame(message: &ControlMessage, out: &mut Vec<u8>) -> (result: Result<
    (),
    FramingError,
>)
    ensures
        ({
            let frame = FrameModel {
                message_type: message@.message_type.number(),
                payload: message@.payload,
            };
            match result {
                Ok(_) => {
                    &&& frame.payload.len() <= u32::MAX
                    &&& final(out)@ == old(out)@ + written_frame(frame)
                    &&& decoded(frame.message_type, frame.payload) == Ok::<
                        ControlModel,
                        DecodeFault,
                    >(message@)
                },
                Err(error) => {
                    &&& frame.payload.len() > u32::MAX
                    &&& error == FramingError::PayloadTooLarge(frame.payload.len() as usize)
                    &&& final(out)@ == old(out)@
                },
            }
        }),
{
    let (message_type, payload) = encode_control(message);
    write_frame(message_type, payload.as_slice(), out)
}

/// Whatever its bytes are, a tunnelled packet is taken as it is.
pub proof fn a_tunnelled_packet_is_never_unwrapped(packet: Seq<u8>)
    ensures
        decoded(TcpMessageType::UdpTunnel.number(), packet) == Ok::<ControlModel, DecodeFault>(
            ControlModel { message_type: TcpMessageType::UdpTunnel, payload: packet },
        ),
{
}

/// What was decoded has the type and the payload that it was decoded from.
pub proof fn decoding_changes_nothing(code: u16, payload: Seq<u8>)
    ensures
        decoded(code, payload) matches Ok(message) ==> {
            &&& message.message_type.number() == code
            &&& message.payload == payload
        },
{
}

/// A message is decoded exactly where its type is one that there is, and its payload is a
/// sequence of fields or a tunnelled packet.
pub proof fn a_known_message_is_decoded(code: u16, payload: Seq<u8>)
    ensures
        decoded(code, payload) is Ok <==> code <= 26 && (code == 1 || well_formed(payload)),
        code > 26 ==> decoded(code, payload) == Err::<ControlModel, DecodeFault>(
            DecodeFault::Framing(FramingError::UnknownMessageType(code)),
        ),
{
    crate::framing::message_types_have_their_codes(code);
}

} // verus!
