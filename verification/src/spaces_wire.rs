//! The payloads of the Spaces profile: what a controller sends and is sent inside
//! the messages of the core protocol.
//!
//! The numbers of the fields are this library's own: those of a message count up in
//! the order in which its fields are declared. As everywhere in protobuf, a field
//! with its default value is not written, an unknown field is skipped, and the last
//! one of several counts.

use vstd::prelude::*;
use vstd::utf8::encode_utf8;

use crate::messages::{
    FetchResult, FetchResultModel, FetchSpaceResult, FetchSpaceResultModel,
    ObservedSpacesAccepted, ObservedSpacesAcceptedModel, ParticipantSpec, ParticipantSpecModel,
    SpaceAbsentModel, SpaceClosed, SpaceClosedModel, SpaceParticipant, SpaceParticipantModel,
    SpaceSnapshot, SpaceSnapshotModel,
};
use crate::protobuf::{
    bool_error, bool_field, bytes_error, bytes_field, decode_bool, decode_bytes, decode_key,
    decode_text, decode_uint64, encode_bool, encode_bytes, encode_text, encode_uint64, key,
    lemma_read_key_len, lemma_read_number, merged, protobuf_error_text, protobuf_error_words,
    read_bool, read_bytes, read_key, read_text, read_uint64, skip_field, skip_nested_field,
    skip_outcome, text_error, text_field, uint64_error, uint64_field, varint, WireKind,
};
use crate::text::{decimal, decimal_text, outcome, views};

verus! {

/// The size that a payload may have.
pub const MAX_PROFILE_PAYLOAD_BYTES: usize = 1_048_576;

/// What a session observes.
#[derive(Debug, PartialEq, Eq)]
pub struct DesiredState {
    pub observed_space_keys: Vec<String>,
}

#[verifier::ext_equal]
pub struct DesiredStateModel {
    pub observed_space_keys: Seq<Seq<char>>,
}

impl View for DesiredState {
    type V = DesiredStateModel;

    open spec fn view(&self) -> DesiredStateModel {
        DesiredStateModel { observed_space_keys: views(self.observed_space_keys@) }
    }
}

/// A request to observe exactly these Spaces.
#[derive(Debug, PartialEq, Eq)]
pub struct ObserveSpaces {
    pub observed_spaces_revision: u64,
    pub space_keys: Vec<String>,
}

#[verifier::ext_equal]
pub struct ObserveSpacesModel {
    pub observed_spaces_revision: u64,
    pub space_keys: Seq<Seq<char>>,
}

impl View for ObserveSpaces {
    type V = ObserveSpacesModel;

    open spec fn view(&self) -> ObserveSpacesModel {
        ObserveSpacesModel {
            observed_spaces_revision: self.observed_spaces_revision,
            space_keys: views(self.space_keys@),
        }
    }
}

/// A request to read one Space.
#[derive(Debug, PartialEq, Eq)]
pub struct ReadSpace {
    pub space_key: String,
}

#[verifier::ext_equal]
pub struct ReadSpaceModel {
    pub space_key: Seq<char>,
}

impl View for ReadSpace {
    type V = ReadSpaceModel;

    open spec fn view(&self) -> ReadSpaceModel {
        ReadSpaceModel { space_key: self.space_key@ }
    }
}

/// A command of the profile.
#[derive(Debug, PartialEq, Eq)]
pub enum Command {
    ReplaceObservedSpaces(ObserveSpaces),
    FetchSpace(ReadSpace),
}

pub enum ProfileCommandModel {
    ReplaceObservedSpaces(ObserveSpacesModel),
    FetchSpace(ReadSpaceModel),
}

impl View for Command {
    type V = ProfileCommandModel;

    open spec fn view(&self) -> ProfileCommandModel {
        match self {
            Command::ReplaceObservedSpaces(command) => ProfileCommandModel::ReplaceObservedSpaces(
                command@,
            ),
            Command::FetchSpace(command) => ProfileCommandModel::FetchSpace(command@),
        }
    }
}

/// The part of a participant's status that belongs to the profile.
#[derive(Debug, PartialEq, Eq)]
pub struct ParticipantStatus {
    pub applied_space_key: String,
    pub self_mute: bool,
    pub self_deaf: bool,
}

pub struct ProfileStatusModel {
    pub applied_space_key: Seq<char>,
    pub self_mute: bool,
    pub self_deaf: bool,
}

impl View for ParticipantStatus {
    type V = ProfileStatusModel;

    open spec fn view(&self) -> ProfileStatusModel {
        ProfileStatusModel {
            applied_space_key: self.applied_space_key@,
            self_mute: self.self_mute,
            self_deaf: self.self_deaf,
        }
    }
}

/// An event of the profile.
#[derive(Debug, PartialEq, Eq)]
pub enum Event {
    ObservedSpacesAccepted(ObservedSpacesAccepted),
    SpaceSnapshot(SpaceSnapshot),
    SpaceClosed(SpaceClosed),
    FetchSpaceResult(FetchSpaceResult),
}

pub enum EventModel {
    ObservedSpacesAccepted(ObservedSpacesAcceptedModel),
    SpaceSnapshot(SpaceSnapshotModel),
    SpaceClosed(SpaceClosedModel),
    FetchSpaceResult(FetchSpaceResultModel),
}

impl View for Event {
    type V = EventModel;

    open spec fn view(&self) -> EventModel {
        match self {
            Event::ObservedSpacesAccepted(event) => EventModel::ObservedSpacesAccepted(event@),
            Event::SpaceSnapshot(event) => EventModel::SpaceSnapshot(event@),
            Event::SpaceClosed(event) => EventModel::SpaceClosed(event@),
            Event::FetchSpaceResult(event) => EventModel::FetchSpaceResult(event@),
        }
    }
}

// Errors.

/// Why a payload could not be read.
#[derive(Debug)]
pub enum PayloadDecodeError {
    Missing { label: &'static str },
    TooLarge { label: &'static str, limit: usize },
    Invalid { label: &'static str, source: prost::DecodeError },
}

/// What can be wrong with a payload.
pub enum PayloadFault {
    Missing,
    TooLarge,
    Invalid { source: prost::DecodeError },
}

impl PayloadDecodeError {
    pub open spec fn fault(self) -> PayloadFault {
        match self {
            PayloadDecodeError::Missing { .. } => PayloadFault::Missing,
            PayloadDecodeError::TooLarge { .. } => PayloadFault::TooLarge,
            PayloadDecodeError::Invalid { source, .. } => PayloadFault::Invalid { source },
        }
    }

    pub open spec fn named(self) -> Seq<char> {
        match self {
            PayloadDecodeError::Missing { label } => label@,
            PayloadDecodeError::TooLarge { label, .. } => label@,
            PayloadDecodeError::Invalid { label, .. } => label@,
        }
    }

    /// The error in words.
    pub open spec fn text(self) -> Seq<char> {
        match self {
            PayloadDecodeError::Missing { label } => label@ + " is missing"@,
            PayloadDecodeError::TooLarge { label, limit } => label@ + (" exceeds "@ + decimal(
                limit as nat,
            ) + " bytes"@),
            PayloadDecodeError::Invalid { label, source } => invalid_text(
                label@,
                protobuf_error_words(source),
            ),
        }
    }

    /// Whether the payload is over the limit.
    pub fn is_too_large(&self) -> (too_large: bool)
        ensures
            too_large == (self.fault() == PayloadFault::TooLarge),
    {
        match self {
            PayloadDecodeError::TooLarge { .. } => true,
            _ => false,
        }
    }

    /// The error in words.
    pub fn message(&self) -> (text: String)
        ensures
            text@ == self.text(),
    {
        proof {
            reveal_strlit("");
        }
        match self {
            PayloadDecodeError::Missing { label } => crate::text::join_text(label, " is missing", ""),
            PayloadDecodeError::TooLarge { label, limit } => {
                let limit = decimal_text(*limit as u64);
                let limit = crate::text::join_text(" exceeds ", limit.as_str(), " bytes");
                crate::text::join_text(label, limit.as_str(), "")
            },
            PayloadDecodeError::Invalid { label, source } => {
                let detail = protobuf_error_text(source);
                let start = crate::text::join_text("invalid ", label, ": ");
                let text = crate::text::join_text(start.as_str(), detail.as_str(), "");
                assert(invalid_text(label@, detail@) =~= text@);
                text
            },
        }
    }
}

pub open spec fn invalid_text(label: Seq<char>, detail: Seq<char>) -> Seq<char> {
    "invalid "@ + label + ": "@ + detail
}

// Reading.

/// A field of a participant's spec.
pub open spec fn participant_spec_field(
    message: ParticipantSpecModel,
    number: u32,
    kind: WireKind,
    bytes: Seq<u8>,
) -> Result<(ParticipantSpecModel, nat), prost::DecodeError> {
    if number == 1 {
        match read_text(kind, bytes) {
            Some((value, len)) => Ok((ParticipantSpecModel { space_key: value, ..message }, len)),
            None => Err(text_error(kind, bytes)),
        }
    } else if number == 2 {
        match read_text(kind, bytes) {
            Some((value, len)) => Ok((ParticipantSpecModel { display_name: value, ..message }, len)),
            None => Err(text_error(kind, bytes)),
        }
    } else if number == 3 {
        match read_bool(kind, bytes) {
            Some((value, len)) => Ok((ParticipantSpecModel { server_mute: value, ..message }, len)),
            None => Err(bool_error(kind, bytes)),
        }
    } else if number == 4 {
        match read_bool(kind, bytes) {
            Some((value, len)) => Ok((ParticipantSpecModel { server_deaf: value, ..message }, len)),
            None => Err(bool_error(kind, bytes)),
        }
    } else {
        match skip_outcome(0, number, kind, bytes) {
            Ok(len) => Ok((message, len)),
            Err(error) => Err(error),
        }
    }
}

pub open spec fn participant_spec_step() -> spec_fn(ParticipantSpecModel, u32, WireKind, Seq<u8>) -> Result<(ParticipantSpecModel, nat), prost::DecodeError> {
    |message: ParticipantSpecModel, number: u32, kind: WireKind, bytes: Seq<u8>|
        participant_spec_field(message, number, kind, bytes)
}

fn merge_participant_spec(start: ParticipantSpec, bytes: &[u8]) -> (result: Result<ParticipantSpec, prost::DecodeError>)
    ensures
        outcome(result) == merged(participant_spec_step(), start@, bytes@),
{
    let ghost before = start@;
    let mut message = start;
    let mut rest = bytes;
    while rest.len() > 0
        invariant
            before == start@,
            merged(participant_spec_step(), before, bytes@) == merged(participant_spec_step(), message@, rest@),
        decreases rest@.len(),
    {
        proof {
            lemma_read_key_len(rest@);
            lemma_read_number(rest@);
        }
        let ghost was = message@;
        let (number, kind, after) = match decode_key(rest) {
            Ok(read) => read,
            Err(error) => {
                return Err(error);
            },
        };
        let ghost step = participant_spec_field(was, number, kind, after@);
        let next = match number {
            1 => match decode_text(kind, after) {
                Ok((value, next)) => {
                    message.space_key = value;
                    next
                },
                Err(error) => {
                    return Err(error);
                },
            },
            2 => match decode_text(kind, after) {
                Ok((value, next)) => {
                    message.display_name = value;
                    next
                },
                Err(error) => {
                    return Err(error);
                },
            },
            3 => match decode_bool(kind, after) {
                Ok((value, next)) => {
                    message.server_mute = value;
                    next
                },
                Err(error) => {
                    return Err(error);
                },
            },
            4 => match decode_bool(kind, after) {
                Ok((value, next)) => {
                    message.server_deaf = value;
                    next
                },
                Err(error) => {
                    return Err(error);
                },
            },
            _ => match skip_field(number, kind, after) {
                Ok(next) => next,
                Err(error) => {
                    return Err(error);
                },
            },
        };
        proof {
            let read = read_key(rest@)->0;
            let taken = (step->Ok_0).1;
            assert(step == Ok::<_, prost::DecodeError>((message@, taken)));
            assert(next@ =~= rest@.skip((read.2 + taken) as int));
        }
        rest = next;
    }
    Ok(message)
}

/// A field of a desired state.
pub open spec fn desired_state_field(
    message: DesiredStateModel,
    number: u32,
    kind: WireKind,
    bytes: Seq<u8>,
) -> Result<(DesiredStateModel, nat), prost::DecodeError> {
    if number == 1 {
        match read_text(kind, bytes) {
            Some((value, len)) => Ok((DesiredStateModel { observed_space_keys: message.observed_space_keys.push(value) }, len)),
            None => Err(text_error(kind, bytes)),
        }
    } else {
        match skip_outcome(0, number, kind, bytes) {
            Ok(len) => Ok((message, len)),
            Err(error) => Err(error),
        }
    }
}

pub open spec fn desired_state_step() -> spec_fn(DesiredStateModel, u32, WireKind, Seq<u8>) -> Result<(DesiredStateModel, nat), prost::DecodeError> {
    |message: DesiredStateModel, number: u32, kind: WireKind, bytes: Seq<u8>|
        desired_state_field(message, number, kind, bytes)
}

fn merge_desired_state(start: DesiredState, bytes: &[u8]) -> (result: Result<DesiredState, prost::DecodeError>)
    ensures
        outcome(result) == merged(desired_state_step(), start@, bytes@),
{
    let ghost before = start@;
    let mut message = start;
    let mut rest = bytes;
    while rest.len() > 0
        invariant
            before == start@,
            merged(desired_state_step(), before, bytes@) == merged(desired_state_step(), message@, rest@),
        decreases rest@.len(),
    {
        proof {
            lemma_read_key_len(rest@);
            lemma_read_number(rest@);
        }
        let ghost was = message@;
        let (number, kind, after) = match decode_key(rest) {
            Ok(read) => read,
            Err(error) => {
                return Err(error);
            },
        };
        let ghost step = desired_state_field(was, number, kind, after@);
        let next = match number {
            1 => match decode_text(kind, after) {
                Ok((value, next)) => {
                    let ghost value_model = value@;
                    message.observed_space_keys.push(value);
                    assert(message@.observed_space_keys =~= was.observed_space_keys.push(value_model));
                    next
                },
                Err(error) => {
                    return Err(error);
                },
            },
            _ => match skip_field(number, kind, after) {
                Ok(next) => next,
                Err(error) => {
                    return Err(error);
                },
            },
        };
        proof {
            let read = read_key(rest@)->0;
            let taken = (step->Ok_0).1;
            assert(step == Ok::<_, prost::DecodeError>((message@, taken)));
            assert(next@ =~= rest@.skip((read.2 + taken) as int));
        }
        rest = next;
    }
    Ok(message)
}

/// A field of a request to observe.
pub open spec fn observe_spaces_field(
    message: ObserveSpacesModel,
    number: u32,
    kind: WireKind,
    bytes: Seq<u8>,
) -> Result<(ObserveSpacesModel, nat), prost::DecodeError> {
    if number == 1 {
        match read_uint64(kind, bytes) {
            Some((value, len)) => Ok((ObserveSpacesModel { observed_spaces_revision: value, ..message }, len)),
            None => Err(uint64_error(kind, bytes)),
        }
    } else if number == 2 {
        match read_text(kind, bytes) {
            Some((value, len)) => Ok((ObserveSpacesModel { space_keys: message.space_keys.push(value), ..message }, len)),
            None => Err(text_error(kind, bytes)),
        }
    } else {
        match skip_outcome(1, number, kind, bytes) {
            Ok(len) => Ok((message, len)),
            Err(error) => Err(error),
        }
    }
}

pub open spec fn observe_spaces_step() -> spec_fn(ObserveSpacesModel, u32, WireKind, Seq<u8>) -> Result<(ObserveSpacesModel, nat), prost::DecodeError> {
    |message: ObserveSpacesModel, number: u32, kind: WireKind, bytes: Seq<u8>|
        observe_spaces_field(message, number, kind, bytes)
}

fn merge_observe_spaces(start: ObserveSpaces, bytes: &[u8]) -> (result: Result<ObserveSpaces, prost::DecodeError>)
    ensures
        outcome(result) == merged(observe_spaces_step(), start@, bytes@),
{
    let ghost before = start@;
    let mut message = start;
    let mut rest = bytes;
    while rest.len() > 0
        invariant
            before == start@,
            merged(observe_spaces_step(), before, bytes@) == merged(observe_spaces_step(), message@, rest@),
        decreases rest@.len(),
    {
        proof {
            lemma_read_key_len(rest@);
            lemma_read_number(rest@);
        }
        let ghost was = message@;
        let (number, kind, after) = match decode_key(rest) {
            Ok(read) => read,
            Err(error) => {
                return Err(error);
            },
        };
        let ghost step = observe_spaces_field(was, number, kind, after@);
        let next = match number {
            1 => match decode_uint64(kind, after) {
                Ok((value, next)) => {
                    message.observed_spaces_revision = value;
                    next
                },
                Err(error) => {
                    return Err(error);
                },
            },
            2 => match decode_text(kind, after) {
                Ok((value, next)) => {
                    let ghost value_model = value@;
                    message.space_keys.push(value);
                    assert(message@.space_keys =~= was.space_keys.push(value_model));
                    next
                },
                Err(error) => {
                    return Err(error);
                },
            },
            _ => match skip_nested_field(number, kind, after) {
                Ok(next) => next,
                Err(error) => {
                    return Err(error);
                },
            },
        };
        proof {
            let read = read_key(rest@)->0;
            let taken = (step->Ok_0).1;
            assert(step == Ok::<_, prost::DecodeError>((message@, taken)));
            assert(next@ =~= rest@.skip((read.2 + taken) as int));
        }
        rest = next;
    }
    Ok(message)
}

/// A field of a request to read.
pub open spec fn read_space_field(
    message: ReadSpaceModel,
    number: u32,
    kind: WireKind,
    bytes: Seq<u8>,
) -> Result<(ReadSpaceModel, nat), prost::DecodeError> {
    if number == 1 {
        match read_text(kind, bytes) {
            Some((value, len)) => Ok((ReadSpaceModel { space_key: value }, len)),
            None => Err(text_error(kind, bytes)),
        }
    } else {
        match skip_outcome(1, number, kind, bytes) {
            Ok(len) => Ok((message, len)),
            Err(error) => Err(error),
        }
    }
}

pub open spec fn read_space_step() -> spec_fn(ReadSpaceModel, u32, WireKind, Seq<u8>) -> Result<(ReadSpaceModel, nat), prost::DecodeError> {
    |message: ReadSpaceModel, number: u32, kind: WireKind, bytes: Seq<u8>|
        read_space_field(message, number, kind, bytes)
}

fn merge_read_space(start: ReadSpace, bytes: &[u8]) -> (result: Result<ReadSpace, prost::DecodeError>)
    ensures
        outcome(result) == merged(read_space_step(), start@, bytes@),
{
    let ghost before = start@;
    let mut message = start;
    let mut rest = bytes;
    while rest.len() > 0
        invariant
            before == start@,
            merged(read_space_step(), before, bytes@) == merged(read_space_step(), message@, rest@),
        decreases rest@.len(),
    {
        proof {
            lemma_read_key_len(rest@);
            lemma_read_number(rest@);
        }
        let ghost was = message@;
        let (number, kind, after) = match decode_key(rest) {
            Ok(read) => read,
            Err(error) => {
                return Err(error);
            },
        };
        let ghost step = read_space_field(was, number, kind, after@);
        let next = match number {
            1 => match decode_text(kind, after) {
                Ok((value, next)) => {
                    message.space_key = value;
                    next
                },
                Err(error) => {
                    return Err(error);
                },
            },
            _ => match skip_nested_field(number, kind, after) {
                Ok(next) => next,
                Err(error) => {
                    return Err(error);
                },
            },
        };
        proof {
            let read = read_key(rest@)->0;
            let taken = (step->Ok_0).1;
            assert(step == Ok::<_, prost::DecodeError>((message@, taken)));
            assert(next@ =~= rest@.skip((read.2 + taken) as int));
        }
        rest = next;
    }
    Ok(message)
}

/// A field of a command: one of its two requests. A request that is there
/// already is continued.
pub open spec fn command_field(
    message: Option<ProfileCommandModel>,
    number: u32,
    kind: WireKind,
    bytes: Seq<u8>,
) -> Result<(Option<ProfileCommandModel>, nat), prost::DecodeError> {
    if number == 1 {
        let start = match message {
            Some(ProfileCommandModel::ReplaceObservedSpaces(command)) => command,
            _ => ObserveSpacesModel { observed_spaces_revision: 0, space_keys: Seq::empty() },
        };
        match read_bytes(kind, bytes) {
            Some((value, len)) => match merged(observe_spaces_step(), start, value) {
                Ok(command) => Ok(
                    (Some(ProfileCommandModel::ReplaceObservedSpaces(command)), len),
                ),
                Err(error) => Err(error),
            },
            None => Err(bytes_error(kind, bytes)),
        }
    } else if number == 2 {
        let start = match message {
            Some(ProfileCommandModel::FetchSpace(command)) => command,
            _ => ReadSpaceModel { space_key: Seq::empty() },
        };
        match read_bytes(kind, bytes) {
            Some((value, len)) => match merged(read_space_step(), start, value) {
                Ok(command) => Ok((Some(ProfileCommandModel::FetchSpace(command)), len)),
                Err(error) => Err(error),
            },
            None => Err(bytes_error(kind, bytes)),
        }
    } else {
        match skip_outcome(0, number, kind, bytes) {
            Ok(len) => Ok((message, len)),
            Err(error) => Err(error),
        }
    }
}

pub open spec fn command_step() -> spec_fn(Option<ProfileCommandModel>, u32, WireKind, Seq<u8>) -> Result<(Option<ProfileCommandModel>, nat), prost::DecodeError> {
    |message: Option<ProfileCommandModel>, number: u32, kind: WireKind, bytes: Seq<u8>|
        command_field(message, number, kind, bytes)
}

pub open spec fn viewed(command: Option<Command>) -> Option<ProfileCommandModel> {
    match command {
        Some(command) => Some(command@),
        None => None,
    }
}

fn merge_command(bytes: &[u8]) -> (result: Result<Option<Command>, prost::DecodeError>)
    ensures
        match result {
            Ok(message) => merged(command_step(), None, bytes@) == Ok::<_, prost::DecodeError>(
                viewed(message),
            ),
            Err(error) => merged(command_step(), None, bytes@) matches Err(found) && found == error,
        },
{
    let mut message: Option<Command> = None;
    let mut rest = bytes;
    while rest.len() > 0
        invariant
            merged(command_step(), None, bytes@) == merged(command_step(), viewed(message), rest@),
        decreases rest@.len(),
    {
        proof {
            lemma_read_key_len(rest@);
            lemma_read_number(rest@);
        }
        let ghost was = viewed(message);
        let (number, kind, after) = match decode_key(rest) {
            Ok(read) => read,
            Err(error) => {
                return Err(error);
            },
        };
        let ghost step = command_field(was, number, kind, after@);
        let next = match number {
            1 => {
                let start = match message.take() {
                    Some(Command::ReplaceObservedSpaces(command)) => command,
                    _ => ObserveSpaces { observed_spaces_revision: 0, space_keys: Vec::new() },
                };
                assert(was matches Some(ProfileCommandModel::ReplaceObservedSpaces(command)) ==> start@
                    == command);
                assert(!(was matches Some(ProfileCommandModel::ReplaceObservedSpaces(_)))
                    ==> start@ =~= ObserveSpacesModel {
                    observed_spaces_revision: 0,
                    space_keys: Seq::empty(),
                });
                match decode_bytes(kind, after) {
                    Ok((value, next)) => match merge_observe_spaces(start, value.as_slice()) {
                        Ok(command) => {
                            message = Some(Command::ReplaceObservedSpaces(command));
                            next
                        },
                        Err(error) => {
                            return Err(error);
                        },
                    },
                    Err(error) => {
                        return Err(error);
                    },
                }
            },
            2 => {
                let start = match message.take() {
                    Some(Command::FetchSpace(command)) => command,
                    _ => ReadSpace { space_key: String::new() },
                };
                assert(was matches Some(ProfileCommandModel::FetchSpace(command)) ==> start@
                    == command);
                assert(!(was matches Some(ProfileCommandModel::FetchSpace(_))) ==> start@
                    =~= ReadSpaceModel { space_key: Seq::empty() });
                match decode_bytes(kind, after) {
                    Ok((value, next)) => match merge_read_space(start, value.as_slice()) {
                        Ok(command) => {
                            message = Some(Command::FetchSpace(command));
                            next
                        },
                        Err(error) => {
                            return Err(error);
                        },
                    },
                    Err(error) => {
                        return Err(error);
                    },
                }
            },
            _ => match skip_field(number, kind, after) {
                Ok(next) => next,
                Err(error) => {
                    return Err(error);
                },
            },
        };
        proof {
            let read = read_key(rest@)->0;
            let taken = (step->Ok_0).1;
            assert(step == Ok::<_, prost::DecodeError>((viewed(message), taken)));
            assert(next@ =~= rest@.skip((read.2 + taken) as int));
        }
        rest = next;
    }
    Ok(message)
}

// Payloads.

/// The bytes of a payload, if there is one.
pub open spec fn payload_bytes(payload: Option<&[u8]>) -> Option<Seq<u8>> {
    match payload {
        Some(payload) => Some(payload@),
        None => None,
    }
}

/// A payload that is there, is not too large and is a message.
pub open spec fn read_payload<M>(
    step: spec_fn(M, u32, WireKind, Seq<u8>) -> Result<(M, nat), prost::DecodeError>,
    start: M,
    payload: Option<Seq<u8>>,
) -> Result<M, PayloadFault> {
    match payload {
        None => Err(PayloadFault::Missing),
        Some(bytes) => if bytes.len() > MAX_PROFILE_PAYLOAD_BYTES {
            Err(PayloadFault::TooLarge)
        } else {
            match merged(step, start, bytes) {
                Ok(message) => Ok(message),
                Err(source) => Err(PayloadFault::Invalid { source }),
            }
        },
    }
}

/// The command in a payload, or none where the payload names none.
pub open spec fn read_command(payload: Option<Seq<u8>>) -> Result<
    Option<ProfileCommandModel>,
    PayloadFault,
> {
    read_payload(command_step(), None, payload)
}

/// The desired state in a payload. One that is absent is the empty state.
pub open spec fn read_desired_state(payload: Option<Seq<u8>>) -> Result<
    DesiredStateModel,
    PayloadFault,
> {
    let empty = DesiredStateModel { observed_space_keys: Seq::empty() };
    match payload {
        None => Ok(empty),
        Some(_) => read_payload(desired_state_step(), empty, payload),
    }
}

/// The spec in a payload.
pub open spec fn read_participant_spec(payload: Option<Seq<u8>>) -> Result<
    ParticipantSpecModel,
    PayloadFault,
> {
    read_payload(
        participant_spec_step(),
        ParticipantSpecModel {
            space_key: Seq::empty(),
            display_name: Seq::empty(),
            server_mute: false,
            server_deaf: false,
        },
        payload,
    )
}

/// The bytes of a payload that is there and not too large.
fn checked_payload<'a>(payload: Option<&'a [u8]>, label: &'static str) -> (result: Result<
    &'a [u8],
    PayloadDecodeError,
>)
    ensures
        match result {
            Ok(bytes) => payload_bytes(payload) == Some(bytes@) && bytes@.len()
                <= MAX_PROFILE_PAYLOAD_BYTES,
            Err(error) => {
                &&& error.named() == label@
                &&& match error {
                    PayloadDecodeError::Missing { .. } => payload is None,
                    PayloadDecodeError::TooLarge { limit, .. } => limit
                        == MAX_PROFILE_PAYLOAD_BYTES && payload is Some && payload->0@.len()
                        > MAX_PROFILE_PAYLOAD_BYTES,
                    PayloadDecodeError::Invalid { .. } => false,
                }
            },
        },
{
    match payload {
        None => Err(PayloadDecodeError::Missing { label }),
        Some(bytes) => {
            if bytes.len() > MAX_PROFILE_PAYLOAD_BYTES {
                Err(PayloadDecodeError::TooLarge { label, limit: MAX_PROFILE_PAYLOAD_BYTES })
            } else {
                Ok(bytes)
            }
        },
    }
}

/// Whether an error is the one that a payload's fault calls for.
pub open spec fn reports(error: PayloadDecodeError, fault: PayloadFault, label: Seq<char>) -> bool {
    &&& error.fault() == fault
    &&& error.named() == label
    &&& error matches PayloadDecodeError::TooLarge { limit, .. } ==> limit
        == MAX_PROFILE_PAYLOAD_BYTES
}

/// Reads a command.
pub fn decode_command(payload: Option<&[u8]>) -> (result: Result<
    Option<Command>,
    PayloadDecodeError,
>)
    ensures
        match read_command(payload_bytes(payload)) {
            Ok(command) => result matches Ok(read) && viewed(read) == command,
            Err(fault) => result matches Err(error) && reports(error, fault, "Spaces command"@),
        },
{
    let label = "Spaces command";
    let bytes = match checked_payload(payload, label) {
        Ok(bytes) => bytes,
        Err(error) => {
            return Err(error);
        },
    };
    match merge_command(bytes) {
        Ok(command) => Ok(command),
        Err(source) => Err(PayloadDecodeError::Invalid { label, source }),
    }
}

/// Reads a desired state. One that is absent is the empty state.
pub fn decode_desired_state(payload: Option<&[u8]>) -> (result: Result<
    DesiredState,
    PayloadDecodeError,
>)
    ensures
        match read_desired_state(payload_bytes(payload)) {
            Ok(state) => result matches Ok(read) && read@ == state,
            Err(fault) => result matches Err(error) && reports(
                error,
                fault,
                "Spaces desired state"@,
            ),
        },
{
    let empty = DesiredState { observed_space_keys: Vec::new() };
    assert(empty@ =~= DesiredStateModel { observed_space_keys: Seq::empty() });
    if payload.is_none() {
        return Ok(empty);
    }
    let label = "Spaces desired state";
    let bytes = match checked_payload(payload, label) {
        Ok(bytes) => bytes,
        Err(error) => {
            return Err(error);
        },
    };
    match merge_desired_state(empty, bytes) {
        Ok(state) => Ok(state),
        Err(source) => Err(PayloadDecodeError::Invalid { label, source }),
    }
}

/// Reads a participant's spec.
pub fn decode_participant_spec(payload: Option<&[u8]>) -> (result: Result<
    ParticipantSpec,
    PayloadDecodeError,
>)
    ensures
        match read_participant_spec(payload_bytes(payload)) {
            Ok(spec) => result matches Ok(read) && read@ == spec,
            Err(fault) => result matches Err(error) && reports(
                error,
                fault,
                "participant profile spec"@,
            ),
        },
{
    let label = "participant profile spec";
    let bytes = match checked_payload(payload, label) {
        Ok(bytes) => bytes,
        Err(error) => {
            return Err(error);
        },
    };
    let empty = ParticipantSpec {
        space_key: String::new(),
        display_name: String::new(),
        server_mute: false,
        server_deaf: false,
    };
    assert(empty@.space_key =~= Seq::empty());
    assert(empty@.display_name =~= Seq::empty());
    match merge_participant_spec(empty, bytes) {
        Ok(spec) => Ok(spec),
        Err(source) => Err(PayloadDecodeError::Invalid { label, source }),
    }
}

// Writing.

pub open spec fn plain_text(number: u32, value: Seq<char>) -> Seq<u8> {
    if value.len() == 0 {
        Seq::empty()
    } else {
        text_field(number, value)
    }
}

pub open spec fn plain_bytes(number: u32, value: Seq<u8>) -> Seq<u8> {
    if value.len() == 0 {
        Seq::empty()
    } else {
        bytes_field(number, value)
    }
}

pub open spec fn plain_uint64(number: u32, value: u64) -> Seq<u8> {
    if value == 0 {
        Seq::empty()
    } else {
        uint64_field(number, value)
    }
}

pub open spec fn plain_bool(number: u32, value: bool) -> Seq<u8> {
    if value {
        bool_field(number, value)
    } else {
        Seq::empty()
    }
}

pub open spec fn written_status(status: ProfileStatusModel) -> Seq<u8> {
    plain_text(1, status.applied_space_key) + plain_bool(2, status.self_mute) + plain_bool(
        3,
        status.self_deaf,
    )
}

pub open spec fn written_participant(participant: SpaceParticipantModel) -> Seq<u8> {
    plain_text(1, participant.participant_id) + plain_text(2, participant.display_name)
        + plain_bool(3, participant.server_mute) + plain_bool(4, participant.server_deaf)
        + plain_bool(5, participant.connected)
}

pub open spec fn written_participants(participants: Seq<SpaceParticipantModel>) -> Seq<u8>
    decreases participants.len(),
{
    if participants.len() == 0 {
        Seq::empty()
    } else {
        written_participants(participants.drop_last()) + bytes_field(
            4,
            written_participant(participants.last()),
        )
    }
}

pub open spec fn written_snapshot(snapshot: SpaceSnapshotModel) -> Seq<u8> {
    plain_text(1, snapshot.space_key) + plain_bytes(2, snapshot.incarnation_id) + plain_uint64(
        3,
        snapshot.space_revision,
    ) + written_participants(snapshot.participants) + plain_uint64(
        5,
        snapshot.published_generation,
    )
}

pub open spec fn written_closed(closed: SpaceClosedModel) -> Seq<u8> {
    plain_text(1, closed.space_key) + plain_bytes(2, closed.incarnation_id) + plain_uint64(
        3,
        closed.final_space_revision,
    )
}

pub open spec fn written_fetch(fetch: FetchSpaceResultModel) -> Seq<u8> {
    match fetch.result {
        Some(FetchResultModel::Snapshot(snapshot)) => bytes_field(1, written_snapshot(snapshot)),
        Some(FetchResultModel::Absent(absent)) => bytes_field(2, plain_text(1, absent.space_key)),
        None => Seq::empty(),
    }
}

/// An event in its envelope.
pub open spec fn written_event(event: EventModel) -> Seq<u8> {
    match event {
        EventModel::ObservedSpacesAccepted(event) => bytes_field(
            1,
            plain_uint64(1, event.observed_spaces_revision),
        ),
        EventModel::SpaceSnapshot(event) => bytes_field(2, written_snapshot(event)),
        EventModel::SpaceClosed(event) => bytes_field(3, written_closed(event)),
        EventModel::FetchSpaceResult(event) => bytes_field(4, written_fetch(event)),
    }
}

fn write_text(number: u32, value: &String, buffer: &mut Vec<u8>)
    requires
        crate::protobuf::field_number(number),
    ensures
        final(buffer)@ == old(buffer)@ + plain_text(number, value@),
{
    let ghost before = buffer@;
    if value.as_str().is_empty() {
        assert(before + plain_text(number, value@) =~= before);
    } else {
        encode_text(number, value, buffer);
    }
}

fn write_bytes(number: u32, value: &Vec<u8>, buffer: &mut Vec<u8>)
    requires
        crate::protobuf::field_number(number),
    ensures
        final(buffer)@ == old(buffer)@ + plain_bytes(number, value@),
{
    let ghost before = buffer@;
    if value.len() == 0 {
        assert(before + plain_bytes(number, value@) =~= before);
    } else {
        encode_bytes(number, value, buffer);
    }
}

fn write_uint64(number: u32, value: u64, buffer: &mut Vec<u8>)
    requires
        crate::protobuf::field_number(number),
    ensures
        final(buffer)@ == old(buffer)@ + plain_uint64(number, value),
{
    let ghost before = buffer@;
    if value == 0 {
        assert(before + plain_uint64(number, value) =~= before);
    } else {
        encode_uint64(number, value, buffer);
    }
}

fn write_bool(number: u32, value: bool, buffer: &mut Vec<u8>)
    requires
        crate::protobuf::field_number(number),
    ensures
        final(buffer)@ == old(buffer)@ + plain_bool(number, value),
{
    let ghost before = buffer@;
    if value {
        encode_bool(number, value, buffer);
    } else {
        assert(before + plain_bool(number, value) =~= before);
    }
}

fn encode_participant(participant: &SpaceParticipant) -> (bytes: Vec<u8>)
    ensures
        bytes@ == written_participant(participant@),
{
    let mut bytes: Vec<u8> = Vec::new();
    write_text(1, &participant.participant_id, &mut bytes);
    write_text(2, &participant.display_name, &mut bytes);
    write_bool(3, participant.server_mute, &mut bytes);
    write_bool(4, participant.server_deaf, &mut bytes);
    write_bool(5, participant.connected, &mut bytes);
    assert(bytes@ =~= written_participant(participant@));
    bytes
}

fn encode_snapshot(snapshot: &SpaceSnapshot) -> (bytes: Vec<u8>)
    ensures
        bytes@ == written_snapshot(snapshot@),
{
    let mut bytes: Vec<u8> = Vec::new();
    write_text(1, &snapshot.space_key, &mut bytes);
    write_bytes(2, &snapshot.incarnation_id, &mut bytes);
    write_uint64(3, snapshot.space_revision, &mut bytes);
    let ghost head = bytes@;
    let ghost all = snapshot@.participants;
    assert(head + written_participants(all.take(0)) =~= head);
    let mut i: usize = 0;
    while i < snapshot.participants.len()
        invariant
            i <= snapshot.participants@.len(),
            all == snapshot@.participants,
            bytes@ == head + written_participants(all.take(i as int)),
        decreases snapshot.participants@.len() - i,
    {
        let inner = encode_participant(&snapshot.participants[i]);
        let ghost before = bytes@;
        encode_bytes(4, &inner, &mut bytes);
        proof {
            let next = all.take(i + 1);
            assert(next.drop_last() =~= all.take(i as int));
            assert(next.last() == snapshot.participants@[i as int]@);
            assert(bytes@ =~= head + written_participants(next));
        }
        i = i + 1;
    }
    assert(all.take(i as int) =~= all);
    write_uint64(5, snapshot.published_generation, &mut bytes);
    assert(bytes@ =~= written_snapshot(snapshot@));
    bytes
}

fn encode_fetch(fetch: &FetchSpaceResult) -> (bytes: Vec<u8>)
    ensures
        bytes@ == written_fetch(fetch@),
{
    let mut bytes: Vec<u8> = Vec::new();
    match &fetch.result {
        Some(FetchResult::Snapshot(snapshot)) => {
            let inner = encode_snapshot(snapshot);
            encode_bytes(1, &inner, &mut bytes);
        },
        Some(FetchResult::Absent(absent)) => {
            let mut inner: Vec<u8> = Vec::new();
            write_text(1, &absent.space_key, &mut inner);
            assert(inner@ =~= plain_text(1, absent.space_key@));
            encode_bytes(2, &inner, &mut bytes);
        },
        None => {},
    }
    assert(bytes@ =~= written_fetch(fetch@));
    bytes
}

/// An event in its envelope.
pub fn encode_event(event: Event) -> (bytes: Vec<u8>)
    ensures
        bytes@ == written_event(event@),
{
    let mut bytes: Vec<u8> = Vec::new();
    match &event {
        Event::ObservedSpacesAccepted(event) => {
            let mut inner: Vec<u8> = Vec::new();
            write_uint64(1, event.observed_spaces_revision, &mut inner);
            assert(inner@ =~= plain_uint64(1, event.observed_spaces_revision));
            encode_bytes(1, &inner, &mut bytes);
        },
        Event::SpaceSnapshot(event) => {
            let inner = encode_snapshot(event);
            encode_bytes(2, &inner, &mut bytes);
        },
        Event::SpaceClosed(event) => {
            let mut inner: Vec<u8> = Vec::new();
            write_text(1, &event.space_key, &mut inner);
            write_bytes(2, &event.incarnation_id, &mut inner);
            write_uint64(3, event.final_space_revision, &mut inner);
            assert(inner@ =~= written_closed(event@));
            encode_bytes(3, &inner, &mut bytes);
        },
        Event::FetchSpaceResult(event) => {
            let inner = encode_fetch(event);
            encode_bytes(4, &inner, &mut bytes);
        },
    }
    assert(bytes@ =~= written_event(event@));
    bytes
}

/// The profile's part of a status.
pub fn encode_participant_status(status: ParticipantStatus) -> (bytes: Vec<u8>)
    ensures
        bytes@ == written_status(status@),
{
    let mut bytes: Vec<u8> = Vec::new();
    write_text(1, &status.applied_space_key, &mut bytes);
    write_bool(2, status.self_mute, &mut bytes);
    write_bool(3, status.self_deaf, &mut bytes);
    assert(bytes@ =~= written_status(status@));
    bytes
}

// How a reader reads what is written here.

/// A field of a status.
pub open spec fn status_field(
    message: ProfileStatusModel,
    number: u32,
    kind: WireKind,
    bytes: Seq<u8>,
) -> Result<(ProfileStatusModel, nat), prost::DecodeError> {
    if number == 1 {
        match read_text(kind, bytes) {
            Some((value, len)) => Ok((ProfileStatusModel { applied_space_key: value, ..message }, len)),
            None => Err(text_error(kind, bytes)),
        }
    } else if number == 2 {
        match read_bool(kind, bytes) {
            Some((value, len)) => Ok((ProfileStatusModel { self_mute: value, ..message }, len)),
            None => Err(bool_error(kind, bytes)),
        }
    } else if number == 3 {
        match read_bool(kind, bytes) {
            Some((value, len)) => Ok((ProfileStatusModel { self_deaf: value, ..message }, len)),
            None => Err(bool_error(kind, bytes)),
        }
    } else {
        match skip_outcome(0, number, kind, bytes) {
            Ok(len) => Ok((message, len)),
            Err(error) => Err(error),
        }
    }
}

pub open spec fn status_step() -> spec_fn(ProfileStatusModel, u32, WireKind, Seq<u8>) -> Result<(ProfileStatusModel, nat), prost::DecodeError> {
    |message: ProfileStatusModel, number: u32, kind: WireKind, bytes: Seq<u8>|
        status_field(message, number, kind, bytes)
}

/// A field of an accepted observation.
pub open spec fn accepted_field(
    message: ObservedSpacesAcceptedModel,
    number: u32,
    kind: WireKind,
    bytes: Seq<u8>,
) -> Result<(ObservedSpacesAcceptedModel, nat), prost::DecodeError> {
    if number == 1 {
        match read_uint64(kind, bytes) {
            Some((value, len)) => Ok((ObservedSpacesAcceptedModel { observed_spaces_revision: value }, len)),
            None => Err(uint64_error(kind, bytes)),
        }
    } else {
        match skip_outcome(1, number, kind, bytes) {
            Ok(len) => Ok((message, len)),
            Err(error) => Err(error),
        }
    }
}

pub open spec fn accepted_step() -> spec_fn(ObservedSpacesAcceptedModel, u32, WireKind, Seq<u8>) -> Result<(ObservedSpacesAcceptedModel, nat), prost::DecodeError> {
    |message: ObservedSpacesAcceptedModel, number: u32, kind: WireKind, bytes: Seq<u8>|
        accepted_field(message, number, kind, bytes)
}

/// A field of a participant in a snapshot.
pub open spec fn participant_field(
    level: nat,
    message: SpaceParticipantModel,
    number: u32,
    kind: WireKind,
    bytes: Seq<u8>,
) -> Result<(SpaceParticipantModel, nat), prost::DecodeError> {
    if number == 1 {
        match read_text(kind, bytes) {
            Some((value, len)) => Ok((SpaceParticipantModel { participant_id: value, ..message }, len)),
            None => Err(text_error(kind, bytes)),
        }
    } else if number == 2 {
        match read_text(kind, bytes) {
            Some((value, len)) => Ok((SpaceParticipantModel { display_name: value, ..message }, len)),
            None => Err(text_error(kind, bytes)),
        }
    } else if number == 3 {
        match read_bool(kind, bytes) {
            Some((value, len)) => Ok((SpaceParticipantModel { server_mute: value, ..message }, len)),
            None => Err(bool_error(kind, bytes)),
        }
    } else if number == 4 {
        match read_bool(kind, bytes) {
            Some((value, len)) => Ok((SpaceParticipantModel { server_deaf: value, ..message }, len)),
            None => Err(bool_error(kind, bytes)),
        }
    } else if number == 5 {
        match read_bool(kind, bytes) {
            Some((value, len)) => Ok((SpaceParticipantModel { connected: value, ..message }, len)),
            None => Err(bool_error(kind, bytes)),
        }
    } else {
        match skip_outcome(level, number, kind, bytes) {
            Ok(len) => Ok((message, len)),
            Err(error) => Err(error),
        }
    }
}

pub open spec fn participant_step(level: nat) -> spec_fn(SpaceParticipantModel, u32, WireKind, Seq<u8>) -> Result<(SpaceParticipantModel, nat), prost::DecodeError> {
    |message: SpaceParticipantModel, number: u32, kind: WireKind, bytes: Seq<u8>|
        participant_field(level, message, number, kind, bytes)
}

/// A field of a closure.
pub open spec fn closed_field(
    message: SpaceClosedModel,
    number: u32,
    kind: WireKind,
    bytes: Seq<u8>,
) -> Result<(SpaceClosedModel, nat), prost::DecodeError> {
    if number == 1 {
        match read_text(kind, bytes) {
            Some((value, len)) => Ok((SpaceClosedModel { space_key: value, ..message }, len)),
            None => Err(text_error(kind, bytes)),
        }
    } else if number == 2 {
        match read_bytes(kind, bytes) {
            Some((value, len)) => Ok((SpaceClosedModel { incarnation_id: value, ..message }, len)),
            None => Err(bytes_error(kind, bytes)),
        }
    } else if number == 3 {
        match read_uint64(kind, bytes) {
            Some((value, len)) => Ok((SpaceClosedModel { final_space_revision: value, ..message }, len)),
            None => Err(uint64_error(kind, bytes)),
        }
    } else {
        match skip_outcome(1, number, kind, bytes) {
            Ok(len) => Ok((message, len)),
            Err(error) => Err(error),
        }
    }
}

pub open spec fn closed_step() -> spec_fn(SpaceClosedModel, u32, WireKind, Seq<u8>) -> Result<(SpaceClosedModel, nat), prost::DecodeError> {
    |message: SpaceClosedModel, number: u32, kind: WireKind, bytes: Seq<u8>|
        closed_field(message, number, kind, bytes)
}

/// A field of an absence.
pub open spec fn absent_field(
    message: SpaceAbsentModel,
    number: u32,
    kind: WireKind,
    bytes: Seq<u8>,
) -> Result<(SpaceAbsentModel, nat), prost::DecodeError> {
    if number == 1 {
        match read_text(kind, bytes) {
            Some((value, len)) => Ok((SpaceAbsentModel { space_key: value }, len)),
            None => Err(text_error(kind, bytes)),
        }
    } else {
        match skip_outcome(2, number, kind, bytes) {
            Ok(len) => Ok((message, len)),
            Err(error) => Err(error),
        }
    }
}

pub open spec fn absent_step() -> spec_fn(SpaceAbsentModel, u32, WireKind, Seq<u8>) -> Result<(SpaceAbsentModel, nat), prost::DecodeError> {
    |message: SpaceAbsentModel, number: u32, kind: WireKind, bytes: Seq<u8>|
        absent_field(message, number, kind, bytes)
}

pub open spec fn no_participant() -> SpaceParticipantModel {
    SpaceParticipantModel {
        participant_id: Seq::empty(),
        display_name: Seq::empty(),
        server_mute: false,
        server_deaf: false,
        connected: false,
    }
}

pub open spec fn no_snapshot() -> SpaceSnapshotModel {
    SpaceSnapshotModel {
        space_key: Seq::empty(),
        incarnation_id: Seq::empty(),
        space_revision: 0,
        participants: Seq::empty(),
        published_generation: 0,
    }
}

/// A field of a snapshot.
pub open spec fn snapshot_field(
    level: nat,
    message: SpaceSnapshotModel,
    number: u32,
    kind: WireKind,
    bytes: Seq<u8>,
) -> Result<(SpaceSnapshotModel, nat), prost::DecodeError> {
    if number == 1 {
        match read_text(kind, bytes) {
            Some((value, len)) => Ok((SpaceSnapshotModel { space_key: value, ..message }, len)),
            None => Err(text_error(kind, bytes)),
        }
    } else if number == 2 {
        match read_bytes(kind, bytes) {
            Some((value, len)) => Ok((SpaceSnapshotModel { incarnation_id: value, ..message }, len)),
            None => Err(bytes_error(kind, bytes)),
        }
    } else if number == 3 {
        match read_uint64(kind, bytes) {
            Some((value, len)) => Ok((SpaceSnapshotModel { space_revision: value, ..message }, len)),
            None => Err(uint64_error(kind, bytes)),
        }
    } else if number == 4 {
        match read_bytes(kind, bytes) {
            Some((value, len)) => match merged(participant_step(level + 1), no_participant(), value) {
                Ok(participant) => Ok(
                    (
                        SpaceSnapshotModel {
                            participants: message.participants.push(participant),
                            ..message
                        },
                        len,
                    ),
                ),
                Err(error) => Err(error),
            },
            None => Err(bytes_error(kind, bytes)),
        }
    } else if number == 5 {
        match read_uint64(kind, bytes) {
            Some((value, len)) => Ok((SpaceSnapshotModel { published_generation: value, ..message }, len)),
            None => Err(uint64_error(kind, bytes)),
        }
    } else {
        match skip_outcome(level, number, kind, bytes) {
            Ok(len) => Ok((message, len)),
            Err(error) => Err(error),
        }
    }
}

pub open spec fn snapshot_step(level: nat) -> spec_fn(SpaceSnapshotModel, u32, WireKind, Seq<u8>) -> Result<(SpaceSnapshotModel, nat), prost::DecodeError> {
    |message: SpaceSnapshotModel, number: u32, kind: WireKind, bytes: Seq<u8>|
        snapshot_field(level, message, number, kind, bytes)
}

/// A field of a fetch result: a snapshot or an absence.
pub open spec fn fetch_field(
    message: Option<FetchResultModel>,
    number: u32,
    kind: WireKind,
    bytes: Seq<u8>,
) -> Result<(Option<FetchResultModel>, nat), prost::DecodeError> {
    if number == 1 {
        let start = match message {
            Some(FetchResultModel::Snapshot(part)) => part,
            _ => no_snapshot(),
        };
        match read_bytes(kind, bytes) {
            Some((value, len)) => match merged(snapshot_step(2), start, value) {
                Ok(part) => Ok((Some(FetchResultModel::Snapshot(part)), len)),
                Err(error) => Err(error),
            },
            None => Err(bytes_error(kind, bytes)),
        }
    } else if number == 2 {
        let start = match message {
            Some(FetchResultModel::Absent(part)) => part,
            _ => SpaceAbsentModel { space_key: Seq::empty() },
        };
        match read_bytes(kind, bytes) {
            Some((value, len)) => match merged(absent_step(), start, value) {
                Ok(part) => Ok((Some(FetchResultModel::Absent(part)), len)),
                Err(error) => Err(error),
            },
            None => Err(bytes_error(kind, bytes)),
        }
    } else {
        match skip_outcome(1, number, kind, bytes) {
            Ok(len) => Ok((message, len)),
            Err(error) => Err(error),
        }
    }
}

pub open spec fn fetch_step() -> spec_fn(Option<FetchResultModel>, u32, WireKind, Seq<u8>) -> Result<(Option<FetchResultModel>, nat), prost::DecodeError> {
    |message: Option<FetchResultModel>, number: u32, kind: WireKind, bytes: Seq<u8>|
        fetch_field(message, number, kind, bytes)
}

/// A field of an event: one of its four kinds.
pub open spec fn event_field(
    message: Option<EventModel>,
    number: u32,
    kind: WireKind,
    bytes: Seq<u8>,
) -> Result<(Option<EventModel>, nat), prost::DecodeError> {
    if number == 1 {
        let start = match message {
            Some(EventModel::ObservedSpacesAccepted(part)) => part,
            _ => ObservedSpacesAcceptedModel { observed_spaces_revision: 0 },
        };
        match read_bytes(kind, bytes) {
            Some((value, len)) => match merged(accepted_step(), start, value) {
                Ok(part) => Ok((Some(EventModel::ObservedSpacesAccepted(part)), len)),
                Err(error) => Err(error),
            },
            None => Err(bytes_error(kind, bytes)),
        }
    } else if number == 2 {
        let start = match message {
            Some(EventModel::SpaceSnapshot(part)) => part,
            _ => no_snapshot(),
        };
        match read_bytes(kind, bytes) {
            Some((value, len)) => match merged(snapshot_step(1), start, value) {
                Ok(part) => Ok((Some(EventModel::SpaceSnapshot(part)), len)),
                Err(error) => Err(error),
            },
            None => Err(bytes_error(kind, bytes)),
        }
    } else if number == 3 {
        let start = match message {
            Some(EventModel::SpaceClosed(part)) => part,
            _ => SpaceClosedModel {
                space_key: Seq::empty(),
                incarnation_id: Seq::empty(),
                final_space_revision: 0,
            },
        };
        match read_bytes(kind, bytes) {
            Some((value, len)) => match merged(closed_step(), start, value) {
                Ok(part) => Ok((Some(EventModel::SpaceClosed(part)), len)),
                Err(error) => Err(error),
            },
            None => Err(bytes_error(kind, bytes)),
        }
    } else if number == 4 {
        let start = match message {
            Some(EventModel::FetchSpaceResult(part)) => part.result,
            _ => None,
        };
        match read_bytes(kind, bytes) {
            Some((value, len)) => match merged(fetch_step(), start, value) {
                Ok(result) => Ok(
                    (Some(EventModel::FetchSpaceResult(FetchSpaceResultModel { result })), len),
                ),
                Err(error) => Err(error),
            },
            None => Err(bytes_error(kind, bytes)),
        }
    } else {
        match skip_outcome(0, number, kind, bytes) {
            Ok(len) => Ok((message, len)),
            Err(error) => Err(error),
        }
    }
}

pub open spec fn event_step() -> spec_fn(Option<EventModel>, u32, WireKind, Seq<u8>) -> Result<(Option<EventModel>, nat), prost::DecodeError> {
    |message: Option<EventModel>, number: u32, kind: WireKind, bytes: Seq<u8>|
        event_field(message, number, kind, bytes)
}

/// One field that was written is one step of the reader.
proof fn lemma_field<M>(
    step: spec_fn(M, u32, WireKind, Seq<u8>) -> Result<(M, nat), prost::DecodeError>,
    message: M,
    number: u32,
    kind: WireKind,
    value: Seq<u8>,
    rest: Seq<u8>,
    next: M,
)
    requires
        crate::protobuf::field_number(number),
        step(message, number, kind, value + rest) == Ok::<(M, nat), prost::DecodeError>((next, value.len())),
    ensures
        merged(step, message, key(number, kind) + value + rest) == merged(step, next, rest),
{
    let head = key(number, kind);
    let bytes = head + value + rest;
    crate::protobuf::a_written_key_is_read_back(number, kind, value + rest);
    assert(bytes =~= head + (value + rest));
    assert(bytes.skip(head.len() as int) =~= value + rest);
    assert(bytes.skip((head.len() + value.len()) as int) =~= rest);
}

/// A text that is written where it is not empty.
proof fn lemma_text<M>(
    step: spec_fn(M, u32, WireKind, Seq<u8>) -> Result<(M, nat), prost::DecodeError>,
    message: M,
    number: u32,
    text: Seq<char>,
    rest: Seq<u8>,
    next: M,
)
    requires
        crate::protobuf::field_number(number),
        encode_utf8(text).len() <= u64::MAX,
        text.len() == 0 ==> next == message,
        forall|bytes: Seq<u8>|
            read_text(WireKind::LengthDelimited, bytes) is Some && (read_text(WireKind::LengthDelimited, bytes)->0).0 == text ==> #[trigger] step(
                message,
                number,
                WireKind::LengthDelimited,
                bytes,
            ) == Ok::<(M, nat), prost::DecodeError>((next, (read_text(WireKind::LengthDelimited, bytes)->0).1)),
    ensures
        merged(step, message, plain_text(number, text) + rest) == merged(step, next, rest),
{
    if text.len() == 0 {
        assert(plain_text(number, text) + rest =~= rest);
    } else {
        let value = varint(encode_utf8(text).len()) + encode_utf8(text);
        crate::protobuf::a_written_field_is_read_back(
            number,
            0,
            false,
            Seq::empty(),
            text,
            rest,
        );
        assert(read_text(WireKind::LengthDelimited, value + rest) == Some((text, value.len())));
        lemma_field(step, message, number, WireKind::LengthDelimited, value, rest, next);
        assert(plain_text(number, text) =~= key(number, WireKind::LengthDelimited) + value);
    }
}

/// A byte string that is written whether it is empty or not.
proof fn lemma_bytes<M>(
    step: spec_fn(M, u32, WireKind, Seq<u8>) -> Result<(M, nat), prost::DecodeError>,
    message: M,
    number: u32,
    content: Seq<u8>,
    rest: Seq<u8>,
    next: M,
)
    requires
        crate::protobuf::field_number(number),
        content.len() <= u64::MAX,
        forall|bytes: Seq<u8>|
            read_bytes(WireKind::LengthDelimited, bytes) is Some && (read_bytes(WireKind::LengthDelimited, bytes)->0).0 == content ==> #[trigger] step(
                message,
                number,
                WireKind::LengthDelimited,
                bytes,
            ) == Ok::<(M, nat), prost::DecodeError>((next, (read_bytes(WireKind::LengthDelimited, bytes)->0).1)),
    ensures
        merged(step, message, bytes_field(number, content) + rest) == merged(step, next, rest),
{
    let value = varint(content.len()) + content;
    assert(encode_utf8(Seq::<char>::empty()).len() == 0);
    crate::protobuf::a_written_field_is_read_back(
        number,
        0,
        false,
        content,
        Seq::empty(),
        rest,
    );
    assert(read_bytes(WireKind::LengthDelimited, value + rest) == Some((content, value.len())));
    lemma_field(step, message, number, WireKind::LengthDelimited, value, rest, next);
    assert(bytes_field(number, content) =~= key(number, WireKind::LengthDelimited) + value);
}

/// A byte string that is written where it is not empty.
proof fn lemma_plain_bytes<M>(
    step: spec_fn(M, u32, WireKind, Seq<u8>) -> Result<(M, nat), prost::DecodeError>,
    message: M,
    number: u32,
    content: Seq<u8>,
    rest: Seq<u8>,
    next: M,
)
    requires
        crate::protobuf::field_number(number),
        content.len() <= u64::MAX,
        content.len() == 0 ==> next == message,
        forall|bytes: Seq<u8>|
            read_bytes(WireKind::LengthDelimited, bytes) is Some && (read_bytes(WireKind::LengthDelimited, bytes)->0).0 == content ==> #[trigger] step(
                message,
                number,
                WireKind::LengthDelimited,
                bytes,
            ) == Ok::<(M, nat), prost::DecodeError>((next, (read_bytes(WireKind::LengthDelimited, bytes)->0).1)),
    ensures
        merged(step, message, plain_bytes(number, content) + rest) == merged(step, next, rest),
{
    if content.len() == 0 {
        assert(plain_bytes(number, content) + rest =~= rest);
    } else {
        lemma_bytes(step, message, number, content, rest, next);
    }
}

/// A number that is written where it is not zero.
proof fn lemma_uint64<M>(
    step: spec_fn(M, u32, WireKind, Seq<u8>) -> Result<(M, nat), prost::DecodeError>,
    message: M,
    number: u32,
    value: u64,
    rest: Seq<u8>,
    next: M,
)
    requires
        crate::protobuf::field_number(number),
        value == 0 ==> next == message,
        forall|bytes: Seq<u8>|
            read_uint64(WireKind::Varint, bytes) is Some && (read_uint64(WireKind::Varint, bytes)->0).0 == value ==> #[trigger] step(
                message,
                number,
                WireKind::Varint,
                bytes,
            ) == Ok::<(M, nat), prost::DecodeError>((next, (read_uint64(WireKind::Varint, bytes)->0).1)),
    ensures
        merged(step, message, plain_uint64(number, value) + rest) == merged(step, next, rest),
{
    if value == 0 {
        assert(plain_uint64(number, value) + rest =~= rest);
    } else {
        let written = varint(value as nat);
        assert(encode_utf8(Seq::<char>::empty()).len() == 0);
        crate::protobuf::a_written_field_is_read_back(
            number,
            value,
            false,
            Seq::empty(),
            Seq::empty(),
            rest,
        );
        assert(read_uint64(WireKind::Varint, written + rest) == Some((value, written.len())));
        lemma_field(step, message, number, WireKind::Varint, written, rest, next);
    }
}

/// A truth value that is written where it is true.
proof fn lemma_bool<M>(
    step: spec_fn(M, u32, WireKind, Seq<u8>) -> Result<(M, nat), prost::DecodeError>,
    message: M,
    number: u32,
    value: bool,
    rest: Seq<u8>,
    next: M,
)
    requires
        crate::protobuf::field_number(number),
        !value ==> next == message,
        forall|bytes: Seq<u8>|
            read_bool(WireKind::Varint, bytes) is Some && (read_bool(WireKind::Varint, bytes)->0).0 == value ==> #[trigger] step(
                message,
                number,
                WireKind::Varint,
                bytes,
            ) == Ok::<(M, nat), prost::DecodeError>((next, (read_bool(WireKind::Varint, bytes)->0).1)),
    ensures
        merged(step, message, plain_bool(number, value) + rest) == merged(step, next, rest),
{
    if !value {
        assert(plain_bool(number, value) + rest =~= rest);
    } else {
        let written = varint(1);
        assert(encode_utf8(Seq::<char>::empty()).len() == 0);
        crate::protobuf::a_written_field_is_read_back(
            number,
            0,
            true,
            Seq::empty(),
            Seq::empty(),
            rest,
        );
        assert(read_bool(WireKind::Varint, written + rest) == Some((true, written.len())));
        lemma_field(step, message, number, WireKind::Varint, written, rest, next);
    }
}

/// A status that was written is read back.
pub proof fn a_written_status_is_read_back(status: ProfileStatusModel)
    requires
        written_status(status).len() <= u64::MAX,
    ensures
        merged(
            status_step(),
            ProfileStatusModel {
                applied_space_key: Seq::empty(),
                self_mute: false,
                self_deaf: false,
            },
            written_status(status),
        ) == Ok::<_, prost::DecodeError>(status),
{
    let step = status_step();
    let none = ProfileStatusModel {
        applied_space_key: Seq::empty(),
        self_mute: false,
        self_deaf: false,
    };
    let one = ProfileStatusModel { applied_space_key: status.applied_space_key, ..none };
    let two = ProfileStatusModel { self_mute: status.self_mute, ..one };
    let third = plain_bool(3, status.self_deaf);
    let second = plain_bool(2, status.self_mute) + third;
    lemma_text_len(1, status.applied_space_key);
    assert(status.applied_space_key.len() == 0 ==> status.applied_space_key =~= Seq::empty());
    lemma_text(step, none, 1, status.applied_space_key, second, one);
    lemma_bool(step, one, 2, status.self_mute, third, two);
    lemma_bool(step, two, 3, status.self_deaf, Seq::empty(), status);
    assert(third + Seq::empty() =~= third);
    assert(written_status(status) =~= plain_text(1, status.applied_space_key) + second);
}

/// A text that is written is no longer than what is written of it.
proof fn lemma_text_len(number: u32, text: Seq<char>)
    ensures
        encode_utf8(text).len() <= plain_text(number, text).len(),
{
    if text.len() == 0 {
        assert(encode_utf8(text).len() == 0);
    }
}

proof fn lemma_flags_read_back(
    level: nat,
    start: SpaceParticipantModel,
    server_mute: bool,
    server_deaf: bool,
    connected: bool,
)
    requires
        !start.server_mute && !start.server_deaf && !start.connected,
    ensures
        merged(
            participant_step(level),
            start,
            plain_bool(3, server_mute) + (plain_bool(4, server_deaf) + plain_bool(5, connected)),
        ) == Ok::<_, prost::DecodeError>(SpaceParticipantModel { server_mute, server_deaf, connected, ..start }),
{
    let step = participant_step(level);
    let three = SpaceParticipantModel { server_mute, ..start };
    let four = SpaceParticipantModel { server_deaf, ..three };
    let five = SpaceParticipantModel { connected, ..four };
    let f5 = plain_bool(5, connected);
    let f4 = plain_bool(4, server_deaf) + f5;
    lemma_bool(step, start, 3, server_mute, f4, three);
    lemma_bool(step, three, 4, server_deaf, f5, four);
    lemma_bool(step, four, 5, connected, Seq::empty(), five);
    assert(f5 + Seq::empty() =~= f5);
}

proof fn lemma_participant_read_back(level: nat, participant: SpaceParticipantModel)
    requires
        written_participant(participant).len() <= u64::MAX,
    ensures
        merged(participant_step(level), no_participant(), written_participant(participant)) == Ok::<
            _,
            prost::DecodeError,
        >(participant),
{
    let step = participant_step(level);
    let none = no_participant();
    let one = SpaceParticipantModel { participant_id: participant.participant_id, ..none };
    let two = SpaceParticipantModel { display_name: participant.display_name, ..one };
    let f3 = plain_bool(3, participant.server_mute) + (plain_bool(4, participant.server_deaf)
        + plain_bool(5, participant.connected));
    let f2 = plain_text(2, participant.display_name) + f3;
    assert(written_participant(participant) =~= plain_text(1, participant.participant_id) + f2);
    lemma_text_len(1, participant.participant_id);
    lemma_text_len(2, participant.display_name);
    assert(merged(step, none, plain_text(1, participant.participant_id) + f2) == merged(
        step,
        one,
        f2,
    )) by {
        assert(participant.participant_id.len() == 0 ==> one == none) by {
            assert(participant.participant_id.len() == 0 ==> participant.participant_id
                =~= Seq::empty());
        }
        lemma_text(step, none, 1, participant.participant_id, f2, one);
    }
    assert(merged(step, one, f2) == merged(step, two, f3)) by {
        assert(participant.display_name.len() == 0 ==> two == one) by {
            assert(participant.display_name.len() == 0 ==> participant.display_name
                =~= Seq::empty());
        }
        lemma_text(step, one, 2, participant.display_name, f3, two);
    }
    lemma_flags_read_back(
        level,
        two,
        participant.server_mute,
        participant.server_deaf,
        participant.connected,
    );
}

proof fn lemma_participants_read_back(
    level: nat,
    start: SpaceSnapshotModel,
    participants: Seq<SpaceParticipantModel>,
    rest: Seq<u8>,
)
    requires
        written_participants(participants).len() <= u64::MAX,
    ensures
        merged(snapshot_step(level), start, written_participants(participants) + rest) == merged(
            snapshot_step(level),
            SpaceSnapshotModel { participants: start.participants + participants, ..start },
            rest,
        ),
    decreases participants.len(),
{
    let step = snapshot_step(level);
    if participants.len() == 0 {
        assert(written_participants(participants) + rest =~= rest);
        assert(start.participants + participants =~= start.participants);
    } else {
        let last = participants.last();
        let inner = written_participant(last);
        let field = bytes_field(4, inner);
        lemma_participants_read_back(level, start, participants.drop_last(), field + rest);
        assert(written_participants(participants) + rest =~= written_participants(
            participants.drop_last(),
        ) + (field + rest));
        let most = SpaceSnapshotModel {
            participants: start.participants + participants.drop_last(),
            ..start
        };
        let all = SpaceSnapshotModel { participants: start.participants + participants, ..start };
        assert(most.participants.push(last) =~= all.participants);
        lemma_participant_read_back(level + 1, last);
        lemma_bytes(step, most, 4, inner, rest, all);
    }
}

proof fn lemma_snapshot_read_back(level: nat, snapshot: SpaceSnapshotModel)
    requires
        written_snapshot(snapshot).len() <= u64::MAX,
    ensures
        merged(snapshot_step(level), no_snapshot(), written_snapshot(snapshot)) == Ok::<
            _,
            prost::DecodeError,
        >(snapshot),
{
    let step = snapshot_step(level);
    let none = no_snapshot();
    let one = SpaceSnapshotModel { space_key: snapshot.space_key, ..none };
    let two = SpaceSnapshotModel { incarnation_id: snapshot.incarnation_id, ..one };
    let three = SpaceSnapshotModel { space_revision: snapshot.space_revision, ..two };
    let four = SpaceSnapshotModel { participants: snapshot.participants, ..three };
    let f5 = plain_uint64(5, snapshot.published_generation);
    let f4 = written_participants(snapshot.participants) + f5;
    let f3 = plain_uint64(3, snapshot.space_revision) + f4;
    let f2 = plain_bytes(2, snapshot.incarnation_id) + f3;
    lemma_text_len(1, snapshot.space_key);
    assert(snapshot.space_key.len() == 0 ==> snapshot.space_key =~= Seq::empty());
    assert(snapshot.incarnation_id.len() == 0 ==> snapshot.incarnation_id =~= Seq::empty());
    lemma_text(step, none, 1, snapshot.space_key, f2, one);
    lemma_plain_bytes(step, one, 2, snapshot.incarnation_id, f3, two);
    lemma_uint64(step, two, 3, snapshot.space_revision, f4, three);
    lemma_participants_read_back(level, three, snapshot.participants, f5);
    assert(three.participants + snapshot.participants =~= snapshot.participants);
    lemma_uint64(step, four, 5, snapshot.published_generation, Seq::empty(), snapshot);
    assert(f5 + Seq::empty() =~= f5);
    assert(written_snapshot(snapshot) =~= plain_text(1, snapshot.space_key) + f2);
}

proof fn lemma_closed_read_back(closed: SpaceClosedModel)
    requires
        written_closed(closed).len() <= u64::MAX,
    ensures
        merged(
            closed_step(),
            SpaceClosedModel {
                space_key: Seq::empty(),
                incarnation_id: Seq::empty(),
                final_space_revision: 0,
            },
            written_closed(closed),
        ) == Ok::<_, prost::DecodeError>(closed),
{
    let step = closed_step();
    let none = SpaceClosedModel {
        space_key: Seq::empty(),
        incarnation_id: Seq::empty(),
        final_space_revision: 0,
    };
    let one = SpaceClosedModel { space_key: closed.space_key, ..none };
    let two = SpaceClosedModel { incarnation_id: closed.incarnation_id, ..one };
    let f3 = plain_uint64(3, closed.final_space_revision);
    let f2 = plain_bytes(2, closed.incarnation_id) + f3;
    lemma_text_len(1, closed.space_key);
    assert(closed.space_key.len() == 0 ==> closed.space_key =~= Seq::empty());
    assert(closed.incarnation_id.len() == 0 ==> closed.incarnation_id =~= Seq::empty());
    lemma_text(step, none, 1, closed.space_key, f2, one);
    lemma_plain_bytes(step, one, 2, closed.incarnation_id, f3, two);
    lemma_uint64(step, two, 3, closed.final_space_revision, Seq::empty(), closed);
    assert(f3 + Seq::empty() =~= f3);
    assert(written_closed(closed) =~= plain_text(1, closed.space_key) + f2);
}

proof fn lemma_fetch_read_back(fetch: FetchSpaceResultModel)
    requires
        written_fetch(fetch).len() <= u64::MAX,
    ensures
        merged(fetch_step(), None, written_fetch(fetch)) == Ok::<_, prost::DecodeError>(fetch.result),
{
    let bytes = written_fetch(fetch);
    assert(bytes + Seq::empty() =~= bytes);
    match fetch.result {
        Some(FetchResultModel::Snapshot(snapshot)) => {
            lemma_snapshot_read_back(2, snapshot);
            lemma_bytes(
                fetch_step(),
                None,
                1,
                written_snapshot(snapshot),
                Seq::empty(),
                fetch.result,
            );
        },
        Some(FetchResultModel::Absent(absent)) => {
            let none = SpaceAbsentModel { space_key: Seq::empty() };
            let inner = plain_text(1, absent.space_key);
            lemma_text_len(1, absent.space_key);
            assert(absent.space_key.len() == 0 ==> absent.space_key =~= Seq::empty());
            lemma_text(absent_step(), none, 1, absent.space_key, Seq::empty(), absent);
            assert(inner + Seq::empty() =~= inner);
            lemma_bytes(fetch_step(), None, 2, inner, Seq::empty(), fetch.result);
        },
        None => {},
    }
}

/// An event that was written is read back, in its envelope.
pub proof fn a_written_event_is_read_back(event: EventModel)
    requires
        written_event(event).len() <= u64::MAX,
    ensures
        merged(event_step(), None, written_event(event)) == Ok::<_, prost::DecodeError>(Some(event)),
{
    let bytes = written_event(event);
    assert(bytes + Seq::empty() =~= bytes);
    match event {
        EventModel::ObservedSpacesAccepted(part) => {
            let none = ObservedSpacesAcceptedModel { observed_spaces_revision: 0 };
            let inner = plain_uint64(1, part.observed_spaces_revision);
            lemma_uint64(
                accepted_step(),
                none,
                1,
                part.observed_spaces_revision,
                Seq::empty(),
                part,
            );
            assert(inner + Seq::empty() =~= inner);
            lemma_bytes(event_step(), None, 1, inner, Seq::empty(), Some(event));
        },
        EventModel::SpaceSnapshot(part) => {
            lemma_snapshot_read_back(1, part);
            lemma_bytes(
                event_step(),
                None,
                2,
                written_snapshot(part),
                Seq::empty(),
                Some(event),
            );
        },
        EventModel::SpaceClosed(part) => {
            lemma_closed_read_back(part);
            lemma_bytes(event_step(), None, 3, written_closed(part), Seq::empty(), Some(event));
        },
        EventModel::FetchSpaceResult(part) => {
            lemma_fetch_read_back(part);
            lemma_bytes(event_step(), None, 4, written_fetch(part), Seq::empty(), Some(event));
        },
    }
}

/// A payload that is missing or too large is never read.
pub proof fn missing_and_oversized_payloads_fail_closed(bytes: Seq<u8>)
    requires
        bytes.len() > MAX_PROFILE_PAYLOAD_BYTES,
    ensures
        read_command(None) == Err::<Option<ProfileCommandModel>, PayloadFault>(
            PayloadFault::Missing,
        ),
        read_command(Some(bytes)) == Err::<Option<ProfileCommandModel>, PayloadFault>(
            PayloadFault::TooLarge,
        ),
        read_participant_spec(None) == Err::<ParticipantSpecModel, PayloadFault>(
            PayloadFault::Missing,
        ),
        read_participant_spec(Some(bytes)) == Err::<ParticipantSpecModel, PayloadFault>(
            PayloadFault::TooLarge,
        ),
        read_desired_state(Some(bytes)) == Err::<DesiredStateModel, PayloadFault>(
            PayloadFault::TooLarge,
        ),
{
}

/// A spec is read as it was written: the key, the name, and each flag as what it is. What
/// is not written is empty or off.
#[verifier::rlimit(50)]
pub proof fn a_written_spec_is_read_back(spec: ParticipantSpecModel, bytes: Seq<u8>)
    requires
        bytes == plain_text(1, spec.space_key) + plain_text(2, spec.display_name) + plain_bool(
            3,
            spec.server_mute,
        ) + plain_bool(4, spec.server_deaf),
        bytes.len() <= MAX_PROFILE_PAYLOAD_BYTES,
    ensures
        read_participant_spec(Some(bytes)) == Ok::<ParticipantSpecModel, PayloadFault>(spec),
{
    let none = ParticipantSpecModel {
        space_key: Seq::empty(),
        display_name: Seq::empty(),
        server_mute: false,
        server_deaf: false,
    };
    let one = ParticipantSpecModel { space_key: spec.space_key, ..none };
    let two = ParticipantSpecModel { display_name: spec.display_name, ..one };
    let f3 = plain_bool(3, spec.server_mute) + plain_bool(4, spec.server_deaf);
    let f2 = plain_text(2, spec.display_name) + f3;
    lemma_text_len(1, spec.space_key);
    lemma_text_len(2, spec.display_name);
    lemma_spec_key_read_back(none, spec.space_key, f2);
    lemma_spec_name_read_back(one, spec.display_name, f3);
    lemma_spec_flags_read_back(two, spec.server_mute, spec.server_deaf);
    assert(bytes =~= plain_text(1, spec.space_key) + f2);
}

#[verifier::rlimit(50)]
proof fn lemma_spec_key_read_back(start: ParticipantSpecModel, key: Seq<char>, rest: Seq<u8>)
    requires
        start.space_key.len() == 0,
        encode_utf8(key).len() <= u64::MAX,
    ensures
        merged(participant_spec_step(), start, plain_text(1, key) + rest) == merged(
            participant_spec_step(),
            ParticipantSpecModel { space_key: key, ..start },
            rest,
        ),
{
    let next = ParticipantSpecModel { space_key: key, ..start };
    assert(key.len() == 0 ==> key =~= start.space_key);
    lemma_text(participant_spec_step(), start, 1, key, rest, next);
}

#[verifier::rlimit(50)]
proof fn lemma_spec_name_read_back(start: ParticipantSpecModel, name: Seq<char>, rest: Seq<u8>)
    requires
        start.display_name.len() == 0,
        encode_utf8(name).len() <= u64::MAX,
    ensures
        merged(participant_spec_step(), start, plain_text(2, name) + rest) == merged(
            participant_spec_step(),
            ParticipantSpecModel { display_name: name, ..start },
            rest,
        ),
{
    let next = ParticipantSpecModel { display_name: name, ..start };
    assert(name.len() == 0 ==> name =~= start.display_name);
    lemma_text(participant_spec_step(), start, 2, name, rest, next);
}

#[verifier::rlimit(50)]
proof fn lemma_spec_flags_read_back(
    start: ParticipantSpecModel,
    server_mute: bool,
    server_deaf: bool,
)
    requires
        !start.server_mute && !start.server_deaf,
    ensures
        merged(
            participant_spec_step(),
            start,
            plain_bool(3, server_mute) + plain_bool(4, server_deaf),
        ) == Ok::<_, prost::DecodeError>(
            ParticipantSpecModel { server_mute, server_deaf, ..start },
        ),
{
    let step = participant_spec_step();
    let three = ParticipantSpecModel { server_mute, ..start };
    let four = ParticipantSpecModel { server_deaf, ..three };
    let f4 = plain_bool(4, server_deaf);
    lemma_bool(step, start, 3, server_mute, f4, three);
    lemma_bool(step, three, 4, server_deaf, Seq::empty(), four);
    assert(f4 + Seq::empty() =~= f4);
}

/// Texts in a row, each as a field of one number.
pub open spec fn listed_texts(number: u32, texts: Seq<Seq<char>>) -> Seq<u8>
    decreases texts.len(),
{
    if texts.len() == 0 {
        Seq::empty()
    } else {
        text_field(number, texts[0]) + listed_texts(number, texts.drop_first())
    }
}

#[verifier::rlimit(50)]
proof fn lemma_listed_text<M>(
    step: spec_fn(M, u32, WireKind, Seq<u8>) -> Result<(M, nat), prost::DecodeError>,
    message: M,
    number: u32,
    text: Seq<char>,
    rest: Seq<u8>,
    next: M,
)
    requires
        crate::protobuf::field_number(number),
        encode_utf8(text).len() <= u64::MAX,
        forall|bytes: Seq<u8>|
            read_text(WireKind::LengthDelimited, bytes) is Some && (read_text(WireKind::LengthDelimited, bytes)->0).0 == text ==> #[trigger] step(
                message,
                number,
                WireKind::LengthDelimited,
                bytes,
            ) == Ok::<(M, nat), prost::DecodeError>((next, (read_text(WireKind::LengthDelimited, bytes)->0).1)),
    ensures
        merged(step, message, text_field(number, text) + rest) == merged(step, next, rest),
{
    let value = varint(encode_utf8(text).len()) + encode_utf8(text);
    crate::protobuf::a_written_field_is_read_back(number, 0, false, Seq::empty(), text, rest);
    assert(read_text(WireKind::LengthDelimited, value + rest) == Some((text, value.len())));
    lemma_field(step, message, number, WireKind::LengthDelimited, value, rest, next);
    assert(text_field(number, text) =~= key(number, WireKind::LengthDelimited) + value);
}

#[verifier::rlimit(50)]
proof fn lemma_desired_keys(start: DesiredStateModel, keys: Seq<Seq<char>>)
    requires
        listed_texts(1, keys).len() <= MAX_PROFILE_PAYLOAD_BYTES,
    ensures
        merged(desired_state_step(), start, listed_texts(1, keys)) == Ok::<
            DesiredStateModel,
            prost::DecodeError,
        >(DesiredStateModel { observed_space_keys: start.observed_space_keys + keys }),
    decreases keys.len(),
{
    if keys.len() > 0 {
        let next = DesiredStateModel {
            observed_space_keys: start.observed_space_keys.push(keys[0]),
        };
        lemma_listed_text(
            desired_state_step(),
            start,
            1,
            keys[0],
            listed_texts(1, keys.drop_first()),
            next,
        );
        lemma_desired_keys(next, keys.drop_first());
        assert(next.observed_space_keys + keys.drop_first() =~= start.observed_space_keys + keys);
    } else {
        assert(start.observed_space_keys + keys =~= start.observed_space_keys);
    }
}

/// A desired state is read as it was written: its Space keys, all of them, in order.
pub proof fn a_written_desired_state_is_read_back(keys: Seq<Seq<char>>)
    requires
        listed_texts(1, keys).len() <= MAX_PROFILE_PAYLOAD_BYTES,
    ensures
        read_desired_state(Some(listed_texts(1, keys))) == Ok::<DesiredStateModel, PayloadFault>(
            DesiredStateModel { observed_space_keys: keys },
        ),
        read_desired_state(None) == Ok::<DesiredStateModel, PayloadFault>(
            DesiredStateModel { observed_space_keys: Seq::empty() },
        ),
{
    let empty = DesiredStateModel { observed_space_keys: Seq::empty() };
    lemma_desired_keys(empty, keys);
    assert(Seq::<Seq<char>>::empty() + keys =~= keys);
}

#[verifier::rlimit(50)]
proof fn lemma_observed_keys(start: ObserveSpacesModel, keys: Seq<Seq<char>>)
    requires
        listed_texts(2, keys).len() <= MAX_PROFILE_PAYLOAD_BYTES,
    ensures
        merged(observe_spaces_step(), start, listed_texts(2, keys)) == Ok::<
            ObserveSpacesModel,
            prost::DecodeError,
        >(ObserveSpacesModel { space_keys: start.space_keys + keys, ..start }),
    decreases keys.len(),
{
    if keys.len() > 0 {
        let next = ObserveSpacesModel { space_keys: start.space_keys.push(keys[0]), ..start };
        lemma_listed_text(
            observe_spaces_step(),
            start,
            2,
            keys[0],
            listed_texts(2, keys.drop_first()),
            next,
        );
        lemma_observed_keys(next, keys.drop_first());
        assert(next.space_keys + keys.drop_first() =~= start.space_keys + keys);
    } else {
        assert(start.space_keys + keys =~= start.space_keys);
    }
}

/// A request to observe is read as it was written: its revision, and its Space keys in
/// order. So is a request to fetch, with its key.
#[verifier::rlimit(50)]
pub proof fn a_written_command_is_read_back(revision: u64, keys: Seq<Seq<char>>, key: Seq<char>)
    requires
        bytes_field(1, plain_uint64(1, revision) + listed_texts(2, keys)).len()
            <= MAX_PROFILE_PAYLOAD_BYTES,
        bytes_field(2, plain_text(1, key)).len() <= MAX_PROFILE_PAYLOAD_BYTES,
    ensures
        read_command(
            Some(bytes_field(1, plain_uint64(1, revision) + listed_texts(2, keys))),
        ) == Ok::<Option<ProfileCommandModel>, PayloadFault>(
            Some(
                ProfileCommandModel::ReplaceObservedSpaces(
                    ObserveSpacesModel { observed_spaces_revision: revision, space_keys: keys },
                ),
            ),
        ),
        read_command(Some(bytes_field(2, plain_text(1, key)))) == Ok::<
            Option<ProfileCommandModel>,
            PayloadFault,
        >(Some(ProfileCommandModel::FetchSpace(ReadSpaceModel { space_key: key }))),
{
    let none = ObserveSpacesModel { observed_spaces_revision: 0, space_keys: Seq::empty() };
    let counted = ObserveSpacesModel { observed_spaces_revision: revision, ..none };
    let list = listed_texts(2, keys);
    let inner = plain_uint64(1, revision) + list;
    lemma_uint64(observe_spaces_step(), none, 1, revision, list, counted);
    lemma_observed_keys(counted, keys);
    assert(Seq::<Seq<char>>::empty() + keys =~= keys);
    let observe = ProfileCommandModel::ReplaceObservedSpaces(
        ObserveSpacesModel { observed_spaces_revision: revision, space_keys: keys },
    );
    lemma_bytes(command_step(), None, 1, inner, Seq::empty(), Some(observe));
    assert(bytes_field(1, inner) + Seq::empty() =~= bytes_field(1, inner));
    let nowhere = ReadSpaceModel { space_key: Seq::empty() };
    let there = ReadSpaceModel { space_key: key };
    let text = plain_text(1, key);
    lemma_text_len(1, key);
    assert(key.len() == 0 ==> key =~= Seq::empty());
    lemma_text(read_space_step(), nowhere, 1, key, Seq::empty(), there);
    assert(text + Seq::empty() =~= text);
    let fetch = ProfileCommandModel::FetchSpace(there);
    lemma_bytes(command_step(), None, 2, text, Seq::empty(), Some(fetch));
    assert(bytes_field(2, text) + Seq::empty() =~= bytes_field(2, text));
}

/// The size that a payload may have is one mebibyte, to the byte.
pub proof fn a_payload_may_have_a_mebibyte(bytes: Seq<u8>)
    ensures
        read_participant_spec(Some(bytes)) == Err::<ParticipantSpecModel, PayloadFault>(
            PayloadFault::TooLarge,
        ) <==> bytes.len() > 1024 * 1024,
        read_command(Some(bytes)) == Err::<Option<ProfileCommandModel>, PayloadFault>(
            PayloadFault::TooLarge,
        ) <==> bytes.len() > 1024 * 1024,
        read_desired_state(Some(bytes)) == Err::<DesiredStateModel, PayloadFault>(
            PayloadFault::TooLarge,
        ) <==> bytes.len() > 1024 * 1024,
{
}

} // verus!
