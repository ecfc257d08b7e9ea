//! Frames of the Mumble control channel: a type, a length and a payload.

use vstd::prelude::*;

use crate::text::{decimal, decimal_text, join_text};

verus! {

/// The size of a frame's header: two bytes of type, four bytes of length.
pub const HEADER_SIZE: usize = 6;

/// The types of message that the control channel carries.
#[derive(Debug, Clone, Copy, PartialEq, Eq, Structural)]
pub enum TcpMessageType {
    Version,
    UdpTunnel,
    Authenticate,
    Ping,
    Reject,
    ServerSync,
    ChannelRemove,
    ChannelState,
    UserRemove,
    UserState,
    BanList,
    TextMessage,
    PermissionDenied,
    Acl,
    QueryUsers,
    CryptSetup,
    ContextActionModify,
    ContextAction,
    UserList,
    VoiceTarget,
    PermissionQuery,
    CodecVersion,
    UserStats,
    RequestBlob,
    ServerConfig,
    SuggestConfig,
    PluginDataTransmission,
}

impl TcpMessageType {
    /// The name of the type.
    pub open spec fn named(self) -> Seq<char> {
        match self {
            TcpMessageType::Version => "Version"@,
            TcpMessageType::UdpTunnel => "UdpTunnel"@,
            TcpMessageType::Authenticate => "Authenticate"@,
            TcpMessageType::Ping => "Ping"@,
            TcpMessageType::Reject => "Reject"@,
            TcpMessageType::ServerSync => "ServerSync"@,
            TcpMessageType::ChannelRemove => "ChannelRemove"@,
            TcpMessageType::ChannelState => "ChannelState"@,
            TcpMessageType::UserRemove => "UserRemove"@,
            TcpMessageType::UserState => "UserState"@,
            TcpMessageType::BanList => "BanList"@,
            TcpMessageType::TextMessage => "TextMessage"@,
            TcpMessageType::PermissionDenied => "PermissionDenied"@,
            TcpMessageType::Acl => "Acl"@,
            TcpMessageType::QueryUsers => "QueryUsers"@,
            TcpMessageType::CryptSetup => "CryptSetup"@,
            TcpMessageType::ContextActionModify => "ContextActionModify"@,
            TcpMessageType::ContextAction => "ContextAction"@,
            TcpMessageType::UserList => "UserList"@,
            TcpMessageType::VoiceTarget => "VoiceTarget"@,
            TcpMessageType::PermissionQuery => "PermissionQuery"@,
            TcpMessageType::CodecVersion => "CodecVersion"@,
            TcpMessageType::UserStats => "UserStats"@,
            TcpMessageType::RequestBlob => "RequestBlob"@,
            TcpMessageType::ServerConfig => "ServerConfig"@,
            TcpMessageType::SuggestConfig => "SuggestConfig"@,
            TcpMessageType::PluginDataTransmission => "PluginDataTransmission"@,
        }
    }

    /// The name of the type.
    pub fn name(self) -> (name: &'static str)
        ensures
            name@ == self.named(),
    {
        match self {
            TcpMessageType::Version => "Version",
            TcpMessageType::UdpTunnel => "UdpTunnel",
            TcpMessageType::Authenticate => "Authenticate",
            TcpMessageType::Ping => "Ping",
            TcpMessageType::Reject => "Reject",
            TcpMessageType::ServerSync => "ServerSync",
            TcpMessageType::ChannelRemove => "ChannelRemove",
            TcpMessageType::ChannelState => "ChannelState",
            TcpMessageType::UserRemove => "UserRemove",
            TcpMessageType::UserState => "UserState",
            TcpMessageType::BanList => "BanList",
            TcpMessageType::TextMessage => "TextMessage",
            TcpMessageType::PermissionDenied => "PermissionDenied",
            TcpMessageType::Acl => "Acl",
            TcpMessageType::QueryUsers => "QueryUsers",
            TcpMessageType::CryptSetup => "CryptSetup",
            TcpMessageType::ContextActionModify => "ContextActionModify",
            TcpMessageType::ContextAction => "ContextAction",
            TcpMessageType::UserList => "UserList",
            TcpMessageType::VoiceTarget => "VoiceTarget",
            TcpMessageType::PermissionQuery => "PermissionQuery",
            TcpMessageType::CodecVersion => "CodecVersion",
            TcpMessageType::UserStats => "UserStats",
            TcpMessageType::RequestBlob => "RequestBlob",
            TcpMessageType::ServerConfig => "ServerConfig",
            TcpMessageType::SuggestConfig => "SuggestConfig",
            TcpMessageType::PluginDataTransmission => "PluginDataTransmission",
        }
    }

    pub open spec fn number(self) -> u16 {
        match self {
            TcpMessageType::Version => 0u16,
            TcpMessageType::UdpTunnel => 1u16,
            TcpMessageType::Authenticate => 2u16,
            TcpMessageType::Ping => 3u16,
            TcpMessageType::Reject => 4u16,
            TcpMessageType::ServerSync => 5u16,
            TcpMessageType::ChannelRemove => 6u16,
            TcpMessageType::ChannelState => 7u16,
            TcpMessageType::UserRemove => 8u16,
            TcpMessageType::UserState => 9u16,
            TcpMessageType::BanList => 10u16,
            TcpMessageType::TextMessage => 11u16,
            TcpMessageType::PermissionDenied => 12u16,
            TcpMessageType::Acl => 13u16,
            TcpMessageType::QueryUsers => 14u16,
            TcpMessageType::CryptSetup => 15u16,
            TcpMessageType::ContextActionModify => 16u16,
            TcpMessageType::ContextAction => 17u16,
            TcpMessageType::UserList => 18u16,
            TcpMessageType::VoiceTarget => 19u16,
            TcpMessageType::PermissionQuery => 20u16,
            TcpMessageType::CodecVersion => 21u16,
            TcpMessageType::UserStats => 22u16,
            TcpMessageType::RequestBlob => 23u16,
            TcpMessageType::ServerConfig => 24u16,
            TcpMessageType::SuggestConfig => 25u16,
            TcpMessageType::PluginDataTransmission => 26u16,
        }
    }

    /// The type with the given code.
    pub open spec fn of(code: u16) -> Option<TcpMessageType> {
        if code == 0 {
            Some(TcpMessageType::Version)
        } else if code == 1 {
            Some(TcpMessageType::UdpTunnel)
        } else if code == 2 {
            Some(TcpMessageType::Authenticate)
        } else if code == 3 {
            Some(TcpMessageType::Ping)
        } else if code == 4 {
            Some(TcpMessageType::Reject)
        } else if code == 5 {
            Some(TcpMessageType::ServerSync)
        } else if code == 6 {
            Some(TcpMessageType::ChannelRemove)
        } else if code == 7 {
            Some(TcpMessageType::ChannelState)
        } else if code == 8 {
            Some(TcpMessageType::UserRemove)
        } else if code == 9 {
            Some(TcpMessageType::UserState)
        } else if code == 10 {
            Some(TcpMessageType::BanList)
        } else if code == 11 {
            Some(TcpMessageType::TextMessage)
        } else if code == 12 {
            Some(TcpMessageType::PermissionDenied)
        } else if code == 13 {
            Some(TcpMessageType::Acl)
        } else if code == 14 {
            Some(TcpMessageType::QueryUsers)
        } else if code == 15 {
            Some(TcpMessageType::CryptSetup)
        } else if code == 16 {
            Some(TcpMessageType::ContextActionModify)
        } else if code == 17 {
            Some(TcpMessageType::ContextAction)
        } else if code == 18 {
            Some(TcpMessageType::UserList)
        } else if code == 19 {
            Some(TcpMessageType::VoiceTarget)
        } else if code == 20 {
            Some(TcpMessageType::PermissionQuery)
        } else if code == 21 {
            Some(TcpMessageType::CodecVersion)
        } else if code == 22 {
            Some(TcpMessageType::UserStats)
        } else if code == 23 {
            Some(TcpMessageType::RequestBlob)
        } else if code == 24 {
            Some(TcpMessageType::ServerConfig)
        } else if code == 25 {
            Some(TcpMessageType::SuggestConfig)
        } else if code == 26 {
            Some(TcpMessageType::PluginDataTransmission)
        } else {
            None
        }
    }

    /// The code of a type on the wire.
    pub fn code(self) -> (code: u16)
        ensures
            code == self.number(),
    {
        match self {
            TcpMessageType::Version => 0,
            TcpMessageType::UdpTunnel => 1,
            TcpMessageType::Authenticate => 2,
            TcpMessageType::Ping => 3,
            TcpMessageType::Reject => 4,
            TcpMessageType::ServerSync => 5,
            TcpMessageType::ChannelRemove => 6,
            TcpMessageType::ChannelState => 7,
            TcpMessageType::UserRemove => 8,
            TcpMessageType::UserState => 9,
            TcpMessageType::BanList => 10,
            TcpMessageType::TextMessage => 11,
            TcpMessageType::PermissionDenied => 12,
            TcpMessageType::Acl => 13,
            TcpMessageType::QueryUsers => 14,
            TcpMessageType::CryptSetup => 15,
            TcpMessageType::ContextActionModify => 16,
            TcpMessageType::ContextAction => 17,
            TcpMessageType::UserList => 18,
            TcpMessageType::VoiceTarget => 19,
            TcpMessageType::PermissionQuery => 20,
            TcpMessageType::CodecVersion => 21,
            TcpMessageType::UserStats => 22,
            TcpMessageType::RequestBlob => 23,
            TcpMessageType::ServerConfig => 24,
            TcpMessageType::SuggestConfig => 25,
            TcpMessageType::PluginDataTransmission => 26,
        }
    }

    /// The type with the given code.
    pub fn from_code(code: u16) -> (result: Result<TcpMessageType, FramingError>)
        ensures
            result == match TcpMessageType::of(code) {
                Some(message_type) => Ok::<TcpMessageType, FramingError>(message_type),
                None => Err(FramingError::UnknownMessageType(code)),
            },
    {
        match code {
            0 => Ok(TcpMessageType::Version),
            1 => Ok(TcpMessageType::UdpTunnel),
            2 => Ok(TcpMessageType::Authenticate),
            3 => Ok(TcpMessageType::Ping),
            4 => Ok(TcpMessageType::Reject),
            5 => Ok(TcpMessageType::ServerSync),
            6 => Ok(TcpMessageType::ChannelRemove),
            7 => Ok(TcpMessageType::ChannelState),
            8 => Ok(TcpMessageType::UserRemove),
            9 => Ok(TcpMessageType::UserState),
            10 => Ok(TcpMessageType::BanList),
            11 => Ok(TcpMessageType::TextMessage),
            12 => Ok(TcpMessageType::PermissionDenied),
            13 => Ok(TcpMessageType::Acl),
            14 => Ok(TcpMessageType::QueryUsers),
            15 => Ok(TcpMessageType::CryptSetup),
            16 => Ok(TcpMessageType::ContextActionModify),
            17 => Ok(TcpMessageType::ContextAction),
            18 => Ok(TcpMessageType::UserList),
            19 => Ok(TcpMessageType::VoiceTarget),
            20 => Ok(TcpMessageType::PermissionQuery),
            21 => Ok(TcpMessageType::CodecVersion),
            22 => Ok(TcpMessageType::UserStats),
            23 => Ok(TcpMessageType::RequestBlob),
            24 => Ok(TcpMessageType::ServerConfig),
            25 => Ok(TcpMessageType::SuggestConfig),
            26 => Ok(TcpMessageType::PluginDataTransmission),
            _ => Err(FramingError::UnknownMessageType(code)),
        }
    }
}

/// Every type is known by its code.
pub proof fn a_message_type_is_known_by_its_code(message_type: TcpMessageType)
    ensures
        TcpMessageType::of(message_type.number()) == Some(message_type),
{
}

/// What can be wrong with a frame.
#[derive(Debug, Clone, Copy, PartialEq, Eq, Structural)]
pub enum FramingError {
    UnknownMessageType(u16),
    /// The payload is longer than a frame can say.
    PayloadTooLarge(usize),
}

impl FramingError {
    pub open spec fn text(self) -> Seq<char> {
        match self {
            FramingError::UnknownMessageType(code) => "unknown Mumble message type "@ + decimal(
                code as nat,
            ),
            FramingError::PayloadTooLarge(len) => "a payload of "@ + decimal(len as nat)
                + " bytes does not fit in a frame"@,
        }
    }

    /// The error in words.
    pub fn message(&self) -> (message: String)
        ensures
            message@ == self.text(),
    {
        proof {
            reveal_strlit("");
        }
        let message = match self {
            FramingError::UnknownMessageType(code) => join_text(
                "unknown Mumble message type ",
                decimal_text(*code as u64).as_str(),
                "",
            ),
            FramingError::PayloadTooLarge(len) => join_text(
                "a payload of ",
                decimal_text(*len as u64).as_str(),
                " bytes does not fit in a frame",
            ),
        };
        assert(message@ =~= self.text());
        message
    }
}

/// One frame, as it stands in a buffer.
#[derive(Debug, Clone, Copy, PartialEq, Eq)]
pub struct Frame<'a> {
    pub message_type: u16,
    pub payload: &'a [u8],
}

/// A frame's type and payload.
#[verifier::ext_equal]
pub struct FrameModel {
    pub message_type: u16,
    pub payload: Seq<u8>,
}

impl<'a> View for Frame<'a> {
    type V = FrameModel;

    open spec fn view(&self) -> FrameModel {
        FrameModel { message_type: self.message_type, payload: self.payload@ }
    }
}

/// A frame on the wire: type and length, most significant byte first, then the
/// payload.
pub open spec fn written_frame(frame: FrameModel) -> Seq<u8> {
    let len = frame.payload.len();
    seq![
        (frame.message_type / 256) as u8,
        (frame.message_type % 256) as u8,
        (len / 16_777_216) as u8,
        (len / 65_536 % 256) as u8,
        (len / 256 % 256) as u8,
        (len % 256) as u8,
    ] + frame.payload
}

/// The length that a header announces.
pub open spec fn announced_length(bytes: Seq<u8>) -> nat {
    (bytes[2] * 16_777_216 + bytes[3] * 65_536 + bytes[4] * 256 + bytes[5]) as nat
}

/// The frame at the start of `bytes`, if it is there in full.
pub open spec fn first_frame(bytes: Seq<u8>) -> Option<FrameModel> {
    if bytes.len() < 6 || bytes.len() - 6 < announced_length(bytes) {
        None
    } else {
        Some(
            FrameModel {
                message_type: (bytes[0] * 256 + bytes[1]) as u16,
                payload: bytes.subrange(6, 6int + announced_length(bytes)),
            },
        )
    }
}

/// Appends a frame to `out`.
pub fn write_frame(message_type: u16, payload: &[u8], out: &mut Vec<u8>) -> (result: Result<
    (),
    FramingError,
>)
    ensures
        match result {
            Ok(_) => payload@.len() <= u32::MAX && final(out)@ == old(out)@ + written_frame(
                FrameModel { message_type, payload: payload@ },
            ),
            Err(error) => payload@.len() > u32::MAX && error == FramingError::PayloadTooLarge(
                payload@.len() as usize,
            ) && final(out)@ == old(out)@,
        },
{
    let len: usize = payload.len();
    if len > u32::MAX as usize {
        return Err(FramingError::PayloadTooLarge(len));
    }
    let ghost before = out@;
    out.push((message_type / 256) as u8);
    out.push((message_type % 256) as u8);
    out.push((len / 16_777_216) as u8);
    out.push((len / 65_536 % 256) as u8);
    out.push((len / 256 % 256) as u8);
    out.push((len % 256) as u8);
    let ghost head = out@;
    let mut i: usize = 0;
    while i < len
        invariant
            len == payload@.len(),
            i <= len,
            out@ == head + payload@.take(i as int),
        decreases len - i,
    {
        out.push(payload[i]);
        assert(out@ =~= head + payload@.take(i + 1));
        i = i + 1;
    }
    assert(payload@.take(i as int) =~= payload@);
    assert(out@ =~= before + written_frame(FrameModel { message_type, payload: payload@ }));
    Ok(())
}

/// The frame at the start of `bytes`, or `None` while more bytes are to come.
pub fn parse_frame<'a>(bytes: &'a [u8]) -> (frame: Option<Frame<'a>>)
    ensures
        match frame {
            Some(frame) => first_frame(bytes@) == Some(frame@),
            None => first_frame(bytes@) is None,
        },
{
    if bytes.len() < 6 {
        return None;
    }
    let message_type: u16 = bytes[0] as u16 * 256 + bytes[1] as u16;
    let len: u64 = bytes[2] as u64 * 16_777_216 + bytes[3] as u64 * 65_536 + bytes[4] as u64 * 256
        + bytes[5] as u64;
    if ((bytes.len() - 6) as u64) < len {
        return None;
    }
    let payload = vstd::slice::slice_subrange(bytes, 6, 6 + len as usize);
    Some(Frame { message_type, payload })
}

/// A frame that was written is the first one read, whatever follows it.
pub proof fn a_written_frame_is_parsed(frame: FrameModel, rest: Seq<u8>)
    requires
        frame.payload.len() <= u32::MAX,
    ensures
        first_frame(written_frame(frame) + rest) == Some(frame),
{
    let bytes = written_frame(frame) + rest;
    let len = frame.payload.len();
    assert(announced_length(bytes) == len);
    assert(bytes.subrange(6, 6int + len) =~= frame.payload);
}

/// A frame that is cut short is not read.
pub proof fn a_frame_cut_short_is_not_parsed(frame: FrameModel, cut: int)
    requires
        frame.payload.len() <= u32::MAX,
        0 <= cut < written_frame(frame).len(),
    ensures
        first_frame(written_frame(frame).take(cut)) is None,
{
    let bytes = written_frame(frame).take(cut);
    if cut >= 6 {
        assert(announced_length(bytes) == frame.payload.len());
    }
}

/// A frame says its type in two bytes and its length in four, the most significant first,
/// and then holds the payload, byte for byte.
pub proof fn a_header_counts_from_its_first_byte(frame: FrameModel)
    requires
        frame.payload.len() <= u32::MAX,
    ensures
        ({
            let bytes = written_frame(frame);
            &&& bytes.len() == 6 + frame.payload.len()
            &&& bytes[0] * 0x100 + bytes[1] == frame.message_type
            &&& bytes[2] * 0x100_0000 + bytes[3] * 0x1_0000 + bytes[4] * 0x100 + bytes[5]
                == frame.payload.len()
            &&& bytes.skip(6) == frame.payload
        }),
{
    assert(written_frame(frame).skip(6) =~= frame.payload);
}

/// What is read is what stands there: the type and the length of the header, and as many
/// bytes as that says.
pub proof fn a_parsed_frame_is_what_stands_there(bytes: Seq<u8>)
    ensures
        ({
            let length = bytes[2] * 0x100_0000 + bytes[3] * 0x1_0000 + bytes[4] * 0x100 + bytes[5];
            &&& first_frame(bytes) is Some <==> bytes.len() >= 6 && bytes.len() >= 6 + length
            &&& first_frame(bytes) matches Some(frame) ==> {
                &&& frame.message_type == bytes[0] * 0x100 + bytes[1]
                &&& frame.payload.len() == length
                &&& forall|i: int|
                    0 <= i < length ==> #[trigger] frame.payload[i] == bytes[6 + i]
            }
        }),
{
}

/// The codes of the control channel. Every code up to the last is one of them.
pub proof fn message_types_have_their_codes(code: u16)
    ensures
        TcpMessageType::Version.number() == 0,
        TcpMessageType::UdpTunnel.number() == 1,
        TcpMessageType::Authenticate.number() == 2,
        TcpMessageType::Ping.number() == 3,
        TcpMessageType::Reject.number() == 4,
        TcpMessageType::ServerSync.number() == 5,
        TcpMessageType::ChannelRemove.number() == 6,
        TcpMessageType::ChannelState.number() == 7,
        TcpMessageType::UserRemove.number() == 8,
        TcpMessageType::UserState.number() == 9,
        TcpMessageType::BanList.number() == 10,
        TcpMessageType::TextMessage.number() == 11,
        TcpMessageType::PermissionDenied.number() == 12,
        TcpMessageType::Acl.number() == 13,
        TcpMessageType::QueryUsers.number() == 14,
        TcpMessageType::CryptSetup.number() == 15,
        TcpMessageType::ContextActionModify.number() == 16,
        TcpMessageType::ContextAction.number() == 17,
        TcpMessageType::UserList.number() == 18,
        TcpMessageType::VoiceTarget.number() == 19,
        TcpMessageType::PermissionQuery.number() == 20,
        TcpMessageType::CodecVersion.number() == 21,
        TcpMessageType::UserStats.number() == 22,
        TcpMessageType::RequestBlob.number() == 23,
        TcpMessageType::ServerConfig.number() == 24,
        TcpMessageType::SuggestConfig.number() == 25,
        TcpMessageType::PluginDataTransmission.number() == 26,
        TcpMessageType::of(code) is Some <==> code <= 26,
        TcpMessageType::of(code) matches Some(message_type) ==> message_type.number() == code,
{
}

} // verus!
