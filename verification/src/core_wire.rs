//! The core protocol: the messages that a controller and the server exchange, in
//! which what belongs to the profile travels as an encoded payload.

use vstd::prelude::*;

use crate::messages::{
    ClientFrame, ClientFrameModel, ClientPayload, ClientPayloadModel, CloseSession,
    CloseSessionModel, CommandRejected, CommandRejectedModel, DesiredStateReconciled,
    DesiredStateReconciledModel, DesiredStateSnapshot, DesiredStateSnapshotModel, FetchSpace,
    FetchSpaceModel, OpenSession, OpenSessionModel, ParticipantOwnershipGranted,
    ParticipantOwnershipGrantedModel, ParticipantOwnershipRevoked,
    ParticipantOwnershipRevokedModel, ParticipantRegistration, ParticipantRegistrationModel,
    ParticipantSpecAccepted, ParticipantSpecAcceptedModel, ParticipantSpecModel,
    ParticipantStatus, ParticipantStatusChangedModel,
    ParticipantStatusModel, ProfileRef, ProfileRefModel, RegisterParticipant,
    RegisterParticipantModel, ReleaseParticipant, ReleaseParticipantModel, RenewLease,
    RenewLeaseModel, ReplaceObservedSpaces, ReplaceObservedSpacesModel, ResyncRequired,
    ResyncRequiredModel, ServerFrame, ServerPayload, ServerPayloadModel, SessionClosing,
    SessionClosingModel, SessionReady, SessionReadyModel, SetParticipantSpec,
    SetParticipantSpecModel, SyncDesiredState, SyncDesiredStateModel,
};
use crate::protobuf::protobuf_error_words;
use crate::spaces_wire::{
    decode_command, decode_desired_state, decode_participant_spec, encode_event,
    encode_participant_status, invalid_text, payload_bytes, read_command, read_desired_state,
    read_participant_spec, reports, written_event, written_status, Command,
    Event, EventModel, PayloadDecodeError, PayloadFault, ProfileCommandModel, ProfileStatusModel,
    MAX_PROFILE_PAYLOAD_BYTES,
};
use crate::text::{copy_bytes, decimal, optional, views};

verus! {

/// An encoded message of the profile.
#[derive(Debug, PartialEq, Eq)]
pub struct ProfilePayload {
    pub protobuf: Vec<u8>,
}

pub struct ProfilePayloadModel {
    pub protobuf: Seq<u8>,
}

impl View for ProfilePayload {
    type V = ProfilePayloadModel;

    open spec fn view(&self) -> ProfilePayloadModel {
        ProfilePayloadModel {
            protobuf: self.protobuf@,
        }
    }
}

/// A registration, with the spec still encoded.
#[derive(Debug, PartialEq, Eq)]
pub struct CoreRegistration {
    pub participant_id: String,
    pub registration_id: Vec<u8>,
    pub ownership_token: Vec<u8>,
    pub client_spec_revision: u64,
    pub profile_spec: Option<ProfilePayload>,
}

pub struct CoreRegistrationModel {
    pub participant_id: Seq<char>,
    pub registration_id: Seq<u8>,
    pub ownership_token: Seq<u8>,
    pub client_spec_revision: u64,
    pub profile_spec: Option<ProfilePayloadModel>,
}

impl View for CoreRegistration {
    type V = CoreRegistrationModel;

    open spec fn view(&self) -> CoreRegistrationModel {
        CoreRegistrationModel {
            participant_id: self.participant_id@,
            registration_id: self.registration_id@,
            ownership_token: self.ownership_token@,
            client_spec_revision: self.client_spec_revision,
            profile_spec: optional(self.profile_spec),
        }
    }
}

/// A desired state, with the profile's part still encoded.
#[derive(Debug, PartialEq, Eq)]
pub struct CoreSnapshot {
    pub desired_state_revision: u64,
    pub participants: Vec<CoreRegistration>,
    pub profile_state: Option<ProfilePayload>,
}

pub struct CoreSnapshotModel {
    pub desired_state_revision: u64,
    pub participants: Seq<CoreRegistrationModel>,
    pub profile_state: Option<ProfilePayloadModel>,
}

impl View for CoreSnapshot {
    type V = CoreSnapshotModel;

    open spec fn view(&self) -> CoreSnapshotModel {
        CoreSnapshotModel {
            desired_state_revision: self.desired_state_revision,
            participants: views(self.participants@),
            profile_state: optional(self.profile_state),
        }
    }
}

/// The first message of a stream.
#[derive(Debug, PartialEq, Eq)]
pub struct CoreOpenSession {
    pub controller_id: String,
    pub controller_instance_id: Vec<u8>,
    pub resume_token: Vec<u8>,
    pub desired_state: Option<CoreSnapshot>,
    pub profile: Option<ProfileRef>,
}

pub struct CoreOpenSessionModel {
    pub controller_id: Seq<char>,
    pub controller_instance_id: Seq<u8>,
    pub resume_token: Seq<u8>,
    pub desired_state: Option<CoreSnapshotModel>,
    pub profile: Option<ProfileRefModel>,
}

impl View for CoreOpenSession {
    type V = CoreOpenSessionModel;

    open spec fn view(&self) -> CoreOpenSessionModel {
        CoreOpenSessionModel {
            controller_id: self.controller_id@,
            controller_instance_id: self.controller_instance_id@,
            resume_token: self.resume_token@,
            desired_state: optional(self.desired_state),
            profile: optional(self.profile),
        }
    }
}

/// A full desired state.
#[derive(Debug, PartialEq, Eq)]
pub struct CoreSyncDesiredState {
    pub session_token: Vec<u8>,
    pub desired_state: Option<CoreSnapshot>,
}

pub struct CoreSyncDesiredStateModel {
    pub session_token: Seq<u8>,
    pub desired_state: Option<CoreSnapshotModel>,
}

impl View for CoreSyncDesiredState {
    type V = CoreSyncDesiredStateModel;

    open spec fn view(&self) -> CoreSyncDesiredStateModel {
        CoreSyncDesiredStateModel {
            session_token: self.session_token@,
            desired_state: optional(self.desired_state),
        }
    }
}

/// A registration of one participant.
#[derive(Debug, PartialEq, Eq)]
pub struct CoreRegisterParticipant {
    pub session_token: Vec<u8>,
    pub participant: Option<CoreRegistration>,
}

pub struct CoreRegisterParticipantModel {
    pub session_token: Seq<u8>,
    pub participant: Option<CoreRegistrationModel>,
}

impl View for CoreRegisterParticipant {
    type V = CoreRegisterParticipantModel;

    open spec fn view(&self) -> CoreRegisterParticipantModel {
        CoreRegisterParticipantModel {
            session_token: self.session_token@,
            participant: optional(self.participant),
        }
    }
}

/// A new spec, still encoded.
#[derive(Debug, PartialEq, Eq)]
pub struct CoreSetParticipantSpec {
    pub session_token: Vec<u8>,
    pub participant_id: String,
    pub ownership_token: Vec<u8>,
    pub client_spec_revision: u64,
    pub profile_spec: Option<ProfilePayload>,
}

pub struct CoreSetParticipantSpecModel {
    pub session_token: Seq<u8>,
    pub participant_id: Seq<char>,
    pub ownership_token: Seq<u8>,
    pub client_spec_revision: u64,
    pub profile_spec: Option<ProfilePayloadModel>,
}

impl View for CoreSetParticipantSpec {
    type V = CoreSetParticipantSpecModel;

    open spec fn view(&self) -> CoreSetParticipantSpecModel {
        CoreSetParticipantSpecModel {
            session_token: self.session_token@,
            participant_id: self.participant_id@,
            ownership_token: self.ownership_token@,
            client_spec_revision: self.client_spec_revision,
            profile_spec: optional(self.profile_spec),
        }
    }
}

/// A command of the profile, still encoded.
#[derive(Debug, PartialEq, Eq)]
pub struct ProfileCommand {
    pub session_token: Vec<u8>,
    pub payload: Option<ProfilePayload>,
}

pub struct EncodedCommandModel {
    pub session_token: Seq<u8>,
    pub payload: Option<ProfilePayloadModel>,
}

impl View for ProfileCommand {
    type V = EncodedCommandModel;

    open spec fn view(&self) -> EncodedCommandModel {
        EncodedCommandModel {
            session_token: self.session_token@,
            payload: optional(self.payload),
        }
    }
}

/// What a controller sends.
#[derive(Debug, PartialEq, Eq)]
pub enum CoreClientPayload {
    OpenSession(CoreOpenSession),
    RenewLease(RenewLease),
    SyncDesiredState(CoreSyncDesiredState),
    RegisterParticipant(CoreRegisterParticipant),
    SetParticipantSpec(CoreSetParticipantSpec),
    ReleaseParticipant(ReleaseParticipant),
    ProfileCommand(ProfileCommand),
    CloseSession(CloseSession),
}

pub enum CoreClientPayloadModel {
    OpenSession(CoreOpenSessionModel),
    RenewLease(RenewLeaseModel),
    SyncDesiredState(CoreSyncDesiredStateModel),
    RegisterParticipant(CoreRegisterParticipantModel),
    SetParticipantSpec(CoreSetParticipantSpecModel),
    ReleaseParticipant(ReleaseParticipantModel),
    ProfileCommand(EncodedCommandModel),
    CloseSession(CloseSessionModel),
}

impl View for CoreClientPayload {
    type V = CoreClientPayloadModel;

    open spec fn view(&self) -> CoreClientPayloadModel {
        match self {
            CoreClientPayload::OpenSession(message) => CoreClientPayloadModel::OpenSession(message@),
            CoreClientPayload::RenewLease(message) => CoreClientPayloadModel::RenewLease(message@),
            CoreClientPayload::SyncDesiredState(message) => CoreClientPayloadModel::SyncDesiredState(message@),
            CoreClientPayload::RegisterParticipant(message) => CoreClientPayloadModel::RegisterParticipant(message@),
            CoreClientPayload::SetParticipantSpec(message) => CoreClientPayloadModel::SetParticipantSpec(message@),
            CoreClientPayload::ReleaseParticipant(message) => CoreClientPayloadModel::ReleaseParticipant(message@),
            CoreClientPayload::ProfileCommand(message) => CoreClientPayloadModel::ProfileCommand(message@),
            CoreClientPayload::CloseSession(message) => CoreClientPayloadModel::CloseSession(message@),
        }
    }
}

/// A message of a controller.
#[derive(Debug, PartialEq, Eq)]
pub struct CoreClientFrame {
    pub request_id: Vec<u8>,
    pub payload: Option<CoreClientPayload>,
}

pub struct CoreClientFrameModel {
    pub request_id: Seq<u8>,
    pub payload: Option<CoreClientPayloadModel>,
}

impl View for CoreClientFrame {
    type V = CoreClientFrameModel;

    open spec fn view(&self) -> CoreClientFrameModel {
        CoreClientFrameModel {
            request_id: self.request_id@,
            payload: optional(self.payload),
        }
    }
}

/// A participant's status, with the profile's part encoded.
#[derive(Debug, PartialEq, Eq)]
pub struct CoreStatus {
    pub connected: bool,
    pub accepted_spec_revision: u64,
    pub applied_spec_revision: u64,
    pub published_generation: u64,
    pub application_error: String,
    pub profile_status: Option<ProfilePayload>,
}

pub struct CoreStatusModel {
    pub connected: bool,
    pub accepted_spec_revision: u64,
    pub applied_spec_revision: u64,
    pub published_generation: u64,
    pub application_error: Seq<char>,
    pub profile_status: Option<ProfilePayloadModel>,
}

impl View for CoreStatus {
    type V = CoreStatusModel;

    open spec fn view(&self) -> CoreStatusModel {
        CoreStatusModel {
            connected: self.connected,
            accepted_spec_revision: self.accepted_spec_revision,
            applied_spec_revision: self.applied_spec_revision,
            published_generation: self.published_generation,
            application_error: self.application_error@,
            profile_status: optional(self.profile_status),
        }
    }
}

/// A change of a participant's status.
#[derive(Debug, PartialEq, Eq)]
pub struct CoreStatusChanged {
    pub participant_id: String,
    pub status: Option<CoreStatus>,
}

pub struct CoreStatusChangedModel {
    pub participant_id: Seq<char>,
    pub status: Option<CoreStatusModel>,
}

impl View for CoreStatusChanged {
    type V = CoreStatusChangedModel;

    open spec fn view(&self) -> CoreStatusChangedModel {
        CoreStatusChangedModel {
            participant_id: self.participant_id@,
            status: optional(self.status),
        }
    }
}

/// An event of the profile, encoded.
#[derive(Debug, PartialEq, Eq)]
pub struct ProfileEvent {
    pub payload: Option<ProfilePayload>,
}

pub struct ProfileEventModel {
    pub payload: Option<ProfilePayloadModel>,
}

impl View for ProfileEvent {
    type V = ProfileEventModel;

    open spec fn view(&self) -> ProfileEventModel {
        ProfileEventModel {
            payload: optional(self.payload),
        }
    }
}

/// What the server sends.
#[derive(Debug, PartialEq, Eq)]
pub enum CoreServerPayload {
    SessionReady(SessionReady),
    DesiredStateReconciled(DesiredStateReconciled),
    ParticipantOwnershipGranted(ParticipantOwnershipGranted),
    ParticipantOwnershipRevoked(ParticipantOwnershipRevoked),
    ParticipantSpecAccepted(ParticipantSpecAccepted),
    ParticipantStatusChanged(CoreStatusChanged),
    ProfileEvent(ProfileEvent),
    ResyncRequired(ResyncRequired),
    CommandRejected(CommandRejected),
    SessionClosing(SessionClosing),
}

pub enum CoreServerPayloadModel {
    SessionReady(SessionReadyModel),
    DesiredStateReconciled(DesiredStateReconciledModel),
    ParticipantOwnershipGranted(ParticipantOwnershipGrantedModel),
    ParticipantOwnershipRevoked(ParticipantOwnershipRevokedModel),
    ParticipantSpecAccepted(ParticipantSpecAcceptedModel),
    ParticipantStatusChanged(CoreStatusChangedModel),
    ProfileEvent(ProfileEventModel),
    ResyncRequired(ResyncRequiredModel),
    CommandRejected(CommandRejectedModel),
    SessionClosing(SessionClosingModel),
}

impl View for CoreServerPayload {
    type V = CoreServerPayloadModel;

    open spec fn view(&self) -> CoreServerPayloadModel {
        match self {
            CoreServerPayload::SessionReady(message) => CoreServerPayloadModel::SessionReady(message@),
            CoreServerPayload::DesiredStateReconciled(message) => CoreServerPayloadModel::DesiredStateReconciled(message@),
            CoreServerPayload::ParticipantOwnershipGranted(message) => CoreServerPayloadModel::ParticipantOwnershipGranted(message@),
            CoreServerPayload::ParticipantOwnershipRevoked(message) => CoreServerPayloadModel::ParticipantOwnershipRevoked(message@),
            CoreServerPayload::ParticipantSpecAccepted(message) => CoreServerPayloadModel::ParticipantSpecAccepted(message@),
            CoreServerPayload::ParticipantStatusChanged(message) => CoreServerPayloadModel::ParticipantStatusChanged(message@),
            CoreServerPayload::ProfileEvent(message) => CoreServerPayloadModel::ProfileEvent(message@),
            CoreServerPayload::ResyncRequired(message) => CoreServerPayloadModel::ResyncRequired(message@),
            CoreServerPayload::CommandRejected(message) => CoreServerPayloadModel::CommandRejected(message@),
            CoreServerPayload::SessionClosing(message) => CoreServerPayloadModel::SessionClosing(message@),
        }
    }
}

/// A message of the server.
#[derive(Debug, PartialEq, Eq)]
pub struct CoreServerFrame {
    pub request_id: Vec<u8>,
    pub payload: Option<CoreServerPayload>,
}

pub struct CoreServerFrameModel {
    pub request_id: Seq<u8>,
    pub payload: Option<CoreServerPayloadModel>,
}

impl View for CoreServerFrame {
    type V = CoreServerFrameModel;

    open spec fn view(&self) -> CoreServerFrameModel {
        CoreServerFrameModel {
            request_id: self.request_id@,
            payload: optional(self.payload),
        }
    }
}

// What can be wrong with a frame.

/// The status with which a frame is refused.
#[derive(Debug, Clone, Copy, PartialEq, Eq, Structural)]
pub enum StatusCode {
    InvalidArgument,
    ResourceExhausted,
    Unavailable,
    Internal,
}

/// Why a frame is refused.
#[derive(Debug, PartialEq, Eq)]
pub struct WireStatus {
    pub code: StatusCode,
    pub message: String,
}

/// What can be wrong with a frame.
pub enum WireFault {
    NoPayload,
    NoCommand,
    Payload { fault: PayloadFault, label: Seq<char> },
}

impl WireStatus {
    /// Whether this status is the answer to a fault.
    pub open spec fn answers(self, fault: WireFault) -> bool {
        match fault {
            WireFault::NoPayload => self.code == StatusCode::InvalidArgument && self.message@
                == "ClientFrame has no payload"@,
            WireFault::NoCommand => self.code == StatusCode::InvalidArgument && self.message@
                == "Spaces command has no command"@,
            WireFault::Payload { fault, label } => payload_answered(
                self.code,
                self.message@,
                fault,
                label,
            ),
        }
    }
}

/// How a payload that could not be read is answered.
pub open spec fn payload_answered(
    code: StatusCode,
    text: Seq<char>,
    fault: PayloadFault,
    label: Seq<char>,
) -> bool {
    match fault {
        PayloadFault::Missing => code == StatusCode::InvalidArgument && text == label
            + " is missing"@,
        PayloadFault::TooLarge => code == StatusCode::ResourceExhausted && text == label + (
        " exceeds "@ + decimal(MAX_PROFILE_PAYLOAD_BYTES as nat) + " bytes"@),
        PayloadFault::Invalid { source } => code == StatusCode::InvalidArgument && text
            == invalid_text(label, protobuf_error_words(source)),
    }
}

/// The status for a payload that could not be read.
fn payload_status(error: PayloadDecodeError) -> (status: WireStatus)
    ensures
        forall|fault: PayloadFault, label: Seq<char>| #[trigger]
            reports(error, fault, label) ==> status.answers(WireFault::Payload { fault, label }),
{
    let code = if error.is_too_large() {
        StatusCode::ResourceExhausted
    } else {
        StatusCode::InvalidArgument
    };
    let status = WireStatus { code, message: error.message() };
    assert forall|fault: PayloadFault, label: Seq<char>| #[trigger]
        reports(error, fault, label) implies status.answers(WireFault::Payload { fault, label }) by {
        match error {
            PayloadDecodeError::Missing { .. } => {
                assert(payload_answered(status.code, status.message@, fault, label));
            },
            PayloadDecodeError::TooLarge { .. } => {
                assert(payload_answered(status.code, status.message@, fault, label));
            },
            PayloadDecodeError::Invalid { source, .. } => {
                assert(invalid_text(label, protobuf_error_words(source)) == status.message@);
                assert(payload_answered(status.code, status.message@, fault, label));
            },
        }
    }
    status
}

pub open spec fn encoded(payload: Option<ProfilePayloadModel>) -> Option<Seq<u8>> {
    match payload {
        Some(payload) => Some(payload.protobuf),
        None => None,
    }
}

fn as_bytes<'a>(payload: &'a Option<ProfilePayload>) -> (bytes: Option<&'a [u8]>)
    ensures
        payload_bytes(bytes) == encoded(optional(*payload)),
{
    match payload {
        Some(payload) => Some(payload.protobuf.as_slice()),
        None => None,
    }
}

// From the controller.

pub open spec fn read_registration(registration: CoreRegistrationModel) -> Result<
    ParticipantRegistrationModel,
    WireFault,
> {
    match read_participant_spec(encoded(registration.profile_spec)) {
        Ok(spec) => Ok(
            ParticipantRegistrationModel {
                participant_id: registration.participant_id,
                registration_id: registration.registration_id,
                ownership_token: registration.ownership_token,
                client_spec_revision: registration.client_spec_revision,
                spec: Some(spec),
            },
        ),
        Err(fault) => Err(WireFault::Payload { fault, label: "participant profile spec"@ }),
    }
}

/// All registrations, or the first fault among them.
pub open spec fn read_registrations(registrations: Seq<CoreRegistrationModel>) -> Result<
    Seq<ParticipantRegistrationModel>,
    WireFault,
>
    decreases registrations.len(),
{
    if registrations.len() == 0 {
        Ok(Seq::empty())
    } else {
        match read_registration(registrations[0]) {
            Err(fault) => Err(fault),
            Ok(first) => match read_registrations(registrations.drop_first()) {
                Err(fault) => Err(fault),
                Ok(rest) => Ok(seq![first] + rest),
            },
        }
    }
}

pub open spec fn read_snapshot(snapshot: CoreSnapshotModel) -> Result<
    DesiredStateSnapshotModel,
    WireFault,
> {
    match read_desired_state(encoded(snapshot.profile_state)) {
        Err(fault) => Err(WireFault::Payload { fault, label: "Spaces desired state"@ }),
        Ok(state) => match read_registrations(snapshot.participants) {
            Err(fault) => Err(fault),
            Ok(participants) => Ok(
                DesiredStateSnapshotModel {
                    desired_state_revision: snapshot.desired_state_revision,
                    participants,
                    observed_space_keys: state.observed_space_keys,
                },
            ),
        },
    }
}

pub open spec fn read_optional_snapshot(snapshot: Option<CoreSnapshotModel>) -> Result<
    Option<DesiredStateSnapshotModel>,
    WireFault,
> {
    match snapshot {
        None => Ok(None),
        Some(snapshot) => match read_snapshot(snapshot) {
            Ok(snapshot) => Ok(Some(snapshot)),
            Err(fault) => Err(fault),
        },
    }
}

pub open spec fn read_profile_command(message: EncodedCommandModel) -> Result<
    ClientPayloadModel,
    WireFault,
> {
    match read_command(encoded(message.payload)) {
        Err(fault) => Err(WireFault::Payload { fault, label: "Spaces command"@ }),
        Ok(None) => Err(WireFault::NoCommand),
        Ok(Some(ProfileCommandModel::ReplaceObservedSpaces(command))) => Ok(
            ClientPayloadModel::ReplaceObservedSpaces(
                ReplaceObservedSpacesModel {
                    session_token: message.session_token,
                    observed_spaces_revision: command.observed_spaces_revision,
                    space_keys: command.space_keys,
                },
            ),
        ),
        Ok(Some(ProfileCommandModel::FetchSpace(command))) => Ok(
            ClientPayloadModel::FetchSpace(
                FetchSpaceModel {
                    session_token: message.session_token,
                    space_key: command.space_key,
                },
            ),
        ),
    }
}

pub open spec fn read_payload_of(payload: CoreClientPayloadModel) -> Result<
    ClientPayloadModel,
    WireFault,
> {
    match payload {
        CoreClientPayloadModel::OpenSession(message) => match read_optional_snapshot(
            message.desired_state,
        ) {
            Err(fault) => Err(fault),
            Ok(desired_state) => Ok(
                ClientPayloadModel::OpenSession(
                    OpenSessionModel {
                        controller_id: message.controller_id,
                        controller_instance_id: message.controller_instance_id,
                        resume_token: message.resume_token,
                        desired_state,
                        profile: message.profile,
                    },
                ),
            ),
        },
        CoreClientPayloadModel::RenewLease(message) => Ok(ClientPayloadModel::RenewLease(message)),
        CoreClientPayloadModel::SyncDesiredState(message) => match read_optional_snapshot(
            message.desired_state,
        ) {
            Err(fault) => Err(fault),
            Ok(desired_state) => Ok(
                ClientPayloadModel::SyncDesiredState(
                    SyncDesiredStateModel { session_token: message.session_token, desired_state },
                ),
            ),
        },
        CoreClientPayloadModel::RegisterParticipant(message) => match message.participant {
            None => Ok(
                ClientPayloadModel::RegisterParticipant(
                    RegisterParticipantModel {
                        session_token: message.session_token,
                        participant: None,
                    },
                ),
            ),
            Some(participant) => match read_registration(participant) {
                Err(fault) => Err(fault),
                Ok(participant) => Ok(
                    ClientPayloadModel::RegisterParticipant(
                        RegisterParticipantModel {
                            session_token: message.session_token,
                            participant: Some(participant),
                        },
                    ),
                ),
            },
        },
        CoreClientPayloadModel::SetParticipantSpec(message) => match read_participant_spec(
            encoded(message.profile_spec),
        ) {
            Err(fault) => Err(WireFault::Payload { fault, label: "participant profile spec"@ }),
            Ok(spec) => Ok(
                ClientPayloadModel::SetParticipantSpec(
                    SetParticipantSpecModel {
                        session_token: message.session_token,
                        participant_id: message.participant_id,
                        ownership_token: message.ownership_token,
                        client_spec_revision: message.client_spec_revision,
                        spec: Some(spec),
                    },
                ),
            ),
        },
        CoreClientPayloadModel::ReleaseParticipant(message) => Ok(
            ClientPayloadModel::ReleaseParticipant(message),
        ),
        CoreClientPayloadModel::ProfileCommand(message) => read_profile_command(message),
        CoreClientPayloadModel::CloseSession(message) => Ok(
            ClientPayloadModel::CloseSession(message),
        ),
    }
}

/// A frame with all payloads of the profile read.
pub open spec fn read_frame(frame: CoreClientFrameModel) -> Result<ClientFrameModel, WireFault> {
    match frame.payload {
        None => Err(WireFault::NoPayload),
        Some(payload) => match read_payload_of(payload) {
            Err(fault) => Err(fault),
            Ok(payload) => Ok(
                ClientFrameModel { request_id: frame.request_id, payload: Some(payload) },
            ),
        },
    }
}

fn from_core_registration(registration: &CoreRegistration) -> (result: Result<
    ParticipantRegistration,
    WireStatus,
>)
    ensures
        match read_registration(registration@) {
            Ok(expected) => result matches Ok(read) && read@ == expected,
            Err(fault) => result matches Err(status) && status.answers(fault),
        },
{
    match decode_participant_spec(as_bytes(&registration.profile_spec)) {
        Ok(spec) => Ok(
            ParticipantRegistration {
                participant_id: registration.participant_id.clone(),
                registration_id: copy_bytes(registration.registration_id.as_slice()),
                ownership_token: copy_bytes(registration.ownership_token.as_slice()),
                client_spec_revision: registration.client_spec_revision,
                spec: Some(spec),
            },
        ),
        Err(error) => Err(payload_status(error)),
    }
}

fn from_core_snapshot(snapshot: &CoreSnapshot) -> (result: Result<
    DesiredStateSnapshot,
    WireStatus,
>)
    ensures
        match read_snapshot(snapshot@) {
            Ok(expected) => result matches Ok(read) && read@ == expected,
            Err(fault) => result matches Err(status) && status.answers(fault),
        },
{
    let state = match decode_desired_state(as_bytes(&snapshot.profile_state)) {
        Ok(state) => state,
        Err(error) => {
            return Err(payload_status(error));
        },
    };
    let ghost all = snapshot@.participants;
    let mut participants: Vec<ParticipantRegistration> = Vec::new();
    let mut i: usize = 0;
    assert(all.skip(0) =~= all);
    assert(views(participants@) =~= Seq::empty());
    proof {
        if let Ok(rest) = read_registrations(all) {
            assert(views(participants@) + rest =~= rest);
        }
    }
    while i < snapshot.participants.len()
        invariant
            i <= snapshot.participants@.len(),
            all == snapshot@.participants,
            read_desired_state(encoded(snapshot@.profile_state)) matches Ok(expected) && expected
                == state@,
            match read_registrations(all.skip(i as int)) {
                Ok(rest) => read_registrations(all) matches Ok(whole) && whole == views(
                    participants@,
                ) + rest,
                Err(fault) => read_registrations(all) matches Err(first) && first == fault,
            },
        decreases snapshot.participants@.len() - i,
    {
        assert(all.skip(i as int)[0] == snapshot.participants@[i as int]@);
        assert(all.skip(i as int).drop_first() =~= all.skip(i + 1));
        let ghost done = views(participants@);
        match from_core_registration(&snapshot.participants[i]) {
            Ok(registration) => {
                let ghost first = registration@;
                participants.push(registration);
                proof {
                    assert(views(participants@) =~= done.push(first));
                    if let Ok(rest) = read_registrations(all.skip(i + 1)) {
                        assert(done + (seq![first] + rest) =~= done.push(first) + rest);
                    }
                }
            },
            Err(status) => {
                return Err(status);
            },
        }
        i = i + 1;
    }
    assert(all.skip(i as int) =~= Seq::empty());
    assert(views(participants@) + Seq::empty() =~= views(participants@));
    Ok(
        DesiredStateSnapshot {
            desired_state_revision: snapshot.desired_state_revision,
            participants,
            observed_space_keys: state.observed_space_keys,
        },
    )
}

fn from_optional_snapshot(snapshot: &Option<CoreSnapshot>) -> (result: Result<
    Option<DesiredStateSnapshot>,
    WireStatus,
>)
    ensures
        match read_optional_snapshot(optional(*snapshot)) {
            Ok(expected) => result matches Ok(read) && optional(read) == expected,
            Err(fault) => result matches Err(status) && status.answers(fault),
        },
{
    match snapshot {
        None => Ok(None),
        Some(snapshot) => match from_core_snapshot(snapshot) {
            Ok(snapshot) => Ok(Some(snapshot)),
            Err(status) => Err(status),
        },
    }
}

fn from_profile_command(message: ProfileCommand) -> (result: Result<ClientPayload, WireStatus>)
    ensures
        match read_profile_command(message@) {
            Ok(expected) => result matches Ok(read) && read@ == expected,
            Err(fault) => result matches Err(status) && status.answers(fault),
        },
{
    match decode_command(as_bytes(&message.payload)) {
        Err(error) => Err(payload_status(error)),
        Ok(None) => Err(
            WireStatus {
                code: StatusCode::InvalidArgument,
                message: "Spaces command has no command".to_owned(),
            },
        ),
        Ok(Some(Command::ReplaceObservedSpaces(command))) => Ok(
            ClientPayload::ReplaceObservedSpaces(
                ReplaceObservedSpaces {
                    session_token: message.session_token,
                    observed_spaces_revision: command.observed_spaces_revision,
                    space_keys: command.space_keys,
                },
            ),
        ),
        Ok(Some(Command::FetchSpace(command))) => Ok(
            ClientPayload::FetchSpace(
                FetchSpace { session_token: message.session_token, space_key: command.space_key },
            ),
        ),
    }
}

/// Reads a frame of a controller, with all payloads of the profile in it.
pub fn from_core_frame(frame: CoreClientFrame) -> (result: Result<ClientFrame, WireStatus>)
    ensures
        match read_frame(frame@) {
            Ok(expected) => result matches Ok(read) && read@ == expected,
            Err(fault) => result matches Err(status) && status.answers(fault),
        },
{
    let payload = match frame.payload {
        None => {
            return Err(
                WireStatus {
                    code: StatusCode::InvalidArgument,
                    message: "ClientFrame has no payload".to_owned(),
                },
            );
        },
        Some(CoreClientPayload::OpenSession(message)) => {
            let desired_state = match from_optional_snapshot(&message.desired_state) {
                Ok(desired_state) => desired_state,
                Err(status) => {
                    return Err(status);
                },
            };
            ClientPayload::OpenSession(
                OpenSession {
                    controller_id: message.controller_id,
                    controller_instance_id: message.controller_instance_id,
                    resume_token: message.resume_token,
                    desired_state,
                    profile: message.profile,
                },
            )
        },
        Some(CoreClientPayload::RenewLease(message)) => ClientPayload::RenewLease(message),
        Some(CoreClientPayload::SyncDesiredState(message)) => {
            let desired_state = match from_optional_snapshot(&message.desired_state) {
                Ok(desired_state) => desired_state,
                Err(status) => {
                    return Err(status);
                },
            };
            ClientPayload::SyncDesiredState(
                SyncDesiredState { session_token: message.session_token, desired_state },
            )
        },
        Some(CoreClientPayload::RegisterParticipant(message)) => {
            let participant = match &message.participant {
                None => None,
                Some(participant) => match from_core_registration(participant) {
                    Ok(participant) => Some(participant),
                    Err(status) => {
                        return Err(status);
                    },
                },
            };
            ClientPayload::RegisterParticipant(
                RegisterParticipant { session_token: message.session_token, participant },
            )
        },
        Some(CoreClientPayload::SetParticipantSpec(message)) => {
            let spec = match decode_participant_spec(as_bytes(&message.profile_spec)) {
                Ok(spec) => spec,
                Err(error) => {
                    return Err(payload_status(error));
                },
            };
            ClientPayload::SetParticipantSpec(
                SetParticipantSpec {
                    session_token: message.session_token,
                    participant_id: message.participant_id,
                    ownership_token: message.ownership_token,
                    client_spec_revision: message.client_spec_revision,
                    spec: Some(spec),
                },
            )
        },
        Some(CoreClientPayload::ReleaseParticipant(message)) => ClientPayload::ReleaseParticipant(
            message,
        ),
        Some(CoreClientPayload::ProfileCommand(message)) => match from_profile_command(message) {
            Ok(payload) => payload,
            Err(status) => {
                return Err(status);
            },
        },
        Some(CoreClientPayload::CloseSession(message)) => ClientPayload::CloseSession(message),
    };
    Ok(ClientFrame { request_id: frame.request_id, payload: Some(payload) })
}

// To the controller.

pub open spec fn written_core_status(status: ParticipantStatusModel) -> CoreStatusModel {
    CoreStatusModel {
        connected: status.connected,
        accepted_spec_revision: status.accepted_spec_revision,
        applied_spec_revision: status.applied_spec_revision,
        published_generation: status.published_generation,
        application_error: status.application_error,
        profile_status: Some(
            ProfilePayloadModel {
                protobuf: written_status(
                    ProfileStatusModel {
                        applied_space_key: status.applied_space_key,
                        self_mute: status.self_mute,
                        self_deaf: status.self_deaf,
                    },
                ),
            },
        ),
    }
}

pub open spec fn in_envelope(event: EventModel) -> CoreServerPayloadModel {
    CoreServerPayloadModel::ProfileEvent(
        ProfileEventModel {
            payload: Some(ProfilePayloadModel { protobuf: written_event(event) }),
        },
    )
}

/// A payload on the core protocol. What belongs to the profile is encoded.
pub open spec fn written_payload(payload: ServerPayloadModel) -> CoreServerPayloadModel {
    match payload {
        ServerPayloadModel::SessionReady(message) => CoreServerPayloadModel::SessionReady(message),
        ServerPayloadModel::DesiredStateReconciled(message) =>
            CoreServerPayloadModel::DesiredStateReconciled(message),
        ServerPayloadModel::ParticipantOwnershipGranted(message) =>
            CoreServerPayloadModel::ParticipantOwnershipGranted(message),
        ServerPayloadModel::ParticipantOwnershipRevoked(message) =>
            CoreServerPayloadModel::ParticipantOwnershipRevoked(message),
        ServerPayloadModel::ParticipantSpecAccepted(message) =>
            CoreServerPayloadModel::ParticipantSpecAccepted(message),
        ServerPayloadModel::ParticipantStatusChanged(message) =>
            CoreServerPayloadModel::ParticipantStatusChanged(
            CoreStatusChangedModel {
                participant_id: message.participant_id,
                status: match message.status {
                    Some(status) => Some(written_core_status(status)),
                    None => None,
                },
            },
        ),
        ServerPayloadModel::ObservedSpacesAccepted(message) => in_envelope(
            EventModel::ObservedSpacesAccepted(message),
        ),
        ServerPayloadModel::SpaceSnapshot(message) => in_envelope(
            EventModel::SpaceSnapshot(message),
        ),
        ServerPayloadModel::SpaceClosed(message) => in_envelope(EventModel::SpaceClosed(message)),
        ServerPayloadModel::FetchSpaceResult(message) => in_envelope(
            EventModel::FetchSpaceResult(message),
        ),
        ServerPayloadModel::ResyncRequired(message) => CoreServerPayloadModel::ResyncRequired(
            message,
        ),
        ServerPayloadModel::CommandRejected(message) => CoreServerPayloadModel::CommandRejected(
            message,
        ),
        ServerPayloadModel::SessionClosing(message) => CoreServerPayloadModel::SessionClosing(
            message,
        ),
    }
}

fn profile_event(event: Event) -> (payload: CoreServerPayload)
    ensures
        payload@ == in_envelope(event@),
{
    CoreServerPayload::ProfileEvent(
        ProfileEvent { payload: Some(ProfilePayload { protobuf: encode_event(event) }) },
    )
}

fn to_core_status(status: ParticipantStatus) -> (core: CoreStatus)
    ensures
        core@ == written_core_status(status@),
{
    let profile_status = crate::spaces_wire::ParticipantStatus {
        applied_space_key: status.applied_space_key,
        self_mute: status.self_mute,
        self_deaf: status.self_deaf,
    };
    CoreStatus {
        connected: status.connected,
        accepted_spec_revision: status.accepted_spec_revision,
        applied_spec_revision: status.applied_spec_revision,
        published_generation: status.published_generation,
        application_error: status.application_error,
        profile_status: Some(
            ProfilePayload { protobuf: encode_participant_status(profile_status) },
        ),
    }
}

/// Writes a frame for a controller. One without a payload is refused.
pub fn to_core_frame(frame: ServerFrame) -> (result: Result<CoreServerFrame, String>)
    ensures
        match frame@.payload {
            None => result matches Err(message) && message@ == "ServerFrame has no payload"@,
            Some(payload) => result matches Ok(core) && core@ == (CoreServerFrameModel {
                request_id: frame@.request_id,
                payload: Some(written_payload(payload)),
            }),
        },
{
    let payload = match frame.payload {
        None => {
            return Err("ServerFrame has no payload".to_owned());
        },
        Some(ServerPayload::SessionReady(message)) => CoreServerPayload::SessionReady(message),
        Some(ServerPayload::DesiredStateReconciled(message)) =>
            CoreServerPayload::DesiredStateReconciled(message),
        Some(ServerPayload::ParticipantOwnershipGranted(message)) =>
            CoreServerPayload::ParticipantOwnershipGranted(message),
        Some(ServerPayload::ParticipantOwnershipRevoked(message)) =>
            CoreServerPayload::ParticipantOwnershipRevoked(message),
        Some(ServerPayload::ParticipantSpecAccepted(message)) =>
            CoreServerPayload::ParticipantSpecAccepted(message),
        Some(ServerPayload::ParticipantStatusChanged(message)) =>
            CoreServerPayload::ParticipantStatusChanged(
            CoreStatusChanged {
                participant_id: message.participant_id,
                status: match message.status {
                    Some(status) => Some(to_core_status(status)),
                    None => None,
                },
            },
        ),
        Some(ServerPayload::ObservedSpacesAccepted(message)) => profile_event(
            Event::ObservedSpacesAccepted(message),
        ),
        Some(ServerPayload::SpaceSnapshot(message)) => profile_event(
            Event::SpaceSnapshot(message),
        ),
        Some(ServerPayload::SpaceClosed(message)) => profile_event(Event::SpaceClosed(message)),
        Some(ServerPayload::FetchSpaceResult(message)) => profile_event(
            Event::FetchSpaceResult(message),
        ),
        Some(ServerPayload::ResyncRequired(message)) => CoreServerPayload::ResyncRequired(message),
        Some(ServerPayload::CommandRejected(message)) => CoreServerPayload::CommandRejected(
            message,
        ),
        Some(ServerPayload::SessionClosing(message)) => CoreServerPayload::SessionClosing(message),
    };
    Ok(CoreServerFrame { request_id: frame.request_id, payload: Some(payload) })
}

/// A command of the profile reaches the server only where its payload is there,
/// is small enough and names a command.
pub proof fn an_unreadable_command_never_reaches_the_server(frame: CoreClientFrameModel)
    requires
        frame.payload matches Some(CoreClientPayloadModel::ProfileCommand(message)) && !(
        read_command(encoded(message.payload)) matches Ok(Some(_))),
    ensures
        read_frame(frame) is Err,
{
}

/// What a frame says about its request is kept in both directions.
pub proof fn the_request_is_kept(frame: CoreClientFrameModel)
    ensures
        read_frame(frame) matches Ok(read) ==> read.request_id == frame.request_id,
{
}

/// A registration reaches the server as it was sent, with its spec read.
pub proof fn a_registration_is_read_as_it_was_sent(registration: CoreRegistrationModel)
    ensures
        read_registration(registration) matches Ok(read) ==> {
            &&& read.participant_id == registration.participant_id
            &&& read.registration_id == registration.registration_id
            &&& read.ownership_token == registration.ownership_token
            &&& read.client_spec_revision == registration.client_spec_revision
            &&& registration.profile_spec is Some
            &&& read.spec matches Some(spec) && read_participant_spec(
                Some(registration.profile_spec->0.protobuf),
            ) == Ok::<ParticipantSpecModel, PayloadFault>(spec)
        },
        registration.profile_spec is None ==> read_registration(registration) is Err,
{
}

/// Registrations are read one by one, in order, and all of them or none.
pub proof fn registrations_are_read_in_order(registrations: Seq<CoreRegistrationModel>, i: int)
    ensures
        read_registrations(registrations) matches Ok(read) ==> {
            &&& read.len() == registrations.len()
            &&& 0 <= i < read.len() ==> read_registration(registrations[i]) == Ok::<
                ParticipantRegistrationModel,
                WireFault,
            >(read[i])
        },
        read_registrations(registrations) is Ok <==> forall|k: int|
            0 <= k < registrations.len() ==> read_registration(#[trigger] registrations[k]) is Ok,
    decreases registrations.len(),
{
    if registrations.len() > 0 {
        let rest = registrations.drop_first();
        registrations_are_read_in_order(rest, i - 1);
        assert forall|k: int| 0 < k < registrations.len() implies #[trigger] registrations[k]
            == rest[k - 1] by {}
        assert forall|k: int| 0 <= k < rest.len() implies #[trigger] rest[k] == registrations[k
            + 1] by {}
        if read_registrations(registrations) is Ok {
            assert forall|k: int| 0 <= k < registrations.len() implies read_registration(
                #[trigger] registrations[k],
            ) is Ok by {
                if k > 0 {
                    assert(read_registration(rest[k - 1]) is Ok);
                }
            }
        } else if forall|k: int|
            0 <= k < registrations.len() ==> read_registration(#[trigger] registrations[k]) is Ok {
            assert(read_registration(registrations[0]) is Ok);
            assert forall|k: int| 0 <= k < rest.len() implies read_registration(
                #[trigger] rest[k],
            ) is Ok by {
                assert(read_registration(registrations[k + 1]) is Ok);
            }
        }
    }
}

/// A desired state reaches the server with its revision, its registrations and what it
/// observes.
pub proof fn a_snapshot_is_read_as_it_was_sent(snapshot: CoreSnapshotModel)
    ensures
        read_snapshot(snapshot) matches Ok(read) ==> {
            &&& read.desired_state_revision == snapshot.desired_state_revision
            &&& read.participants.len() == snapshot.participants.len()
            &&& read_registrations(snapshot.participants) == Ok::<
                Seq<ParticipantRegistrationModel>,
                WireFault,
            >(read.participants)
            &&& snapshot.profile_state matches Some(state) ==> read_desired_state(
                Some(state.protobuf),
            ) matches Ok(found) && found.observed_space_keys == read.observed_space_keys
            &&& snapshot.profile_state is None ==> read.observed_space_keys.len() == 0
        },
{
    registrations_are_read_in_order(snapshot.participants, 0);
}

/// What a controller asks reaches the server as the same request, under the same token.
pub proof fn a_request_is_read_as_what_it_is(payload: CoreClientPayloadModel)
    ensures
        read_payload_of(payload) matches Ok(read) ==> match payload {
            CoreClientPayloadModel::OpenSession(sent) => read matches ClientPayloadModel::OpenSession(
                got,
            ) && got.controller_id == sent.controller_id && got.controller_instance_id
                == sent.controller_instance_id && got.resume_token == sent.resume_token && got.profile
                == sent.profile && (got.desired_state is Some <==> sent.desired_state is Some),
            CoreClientPayloadModel::RenewLease(sent) => read matches ClientPayloadModel::RenewLease(
                got,
            ) && got == sent,
            CoreClientPayloadModel::SyncDesiredState(sent) =>
                read matches ClientPayloadModel::SyncDesiredState(got) && got.session_token
                == sent.session_token && (got.desired_state is Some <==> sent.desired_state is Some),
            CoreClientPayloadModel::RegisterParticipant(sent) =>
                read matches ClientPayloadModel::RegisterParticipant(got) && got.session_token
                == sent.session_token && (got.participant is Some <==> sent.participant is Some)
                && (sent.participant matches Some(participant) ==> got.participant->0.participant_id
                == participant.participant_id),
            CoreClientPayloadModel::SetParticipantSpec(sent) =>
                read matches ClientPayloadModel::SetParticipantSpec(got) && got.session_token
                == sent.session_token && got.participant_id == sent.participant_id
                && got.ownership_token == sent.ownership_token && got.client_spec_revision
                == sent.client_spec_revision && got.spec is Some,
            CoreClientPayloadModel::ReleaseParticipant(sent) =>
                read matches ClientPayloadModel::ReleaseParticipant(got) && got == sent,
            CoreClientPayloadModel::CloseSession(sent) =>
                read matches ClientPayloadModel::CloseSession(got) && got == sent,
            CoreClientPayloadModel::ProfileCommand(sent) => match read {
                ClientPayloadModel::ReplaceObservedSpaces(got) => got.session_token
                    == sent.session_token,
                ClientPayloadModel::FetchSpace(got) => got.session_token == sent.session_token,
                _ => false,
            },
        },
{
}

/// A command of the profile reaches the server with what it names.
pub proof fn a_profile_command_is_read_as_what_it_is(
    token: Seq<u8>,
    bytes: Seq<u8>,
    command: ProfileCommandModel,
)
    requires
        read_command(Some(bytes)) == Ok::<Option<ProfileCommandModel>, PayloadFault>(
            Some(command),
        ),
    ensures
        ({
            let message = EncodedCommandModel {
                session_token: token,
                payload: Some(ProfilePayloadModel { protobuf: bytes }),
            };
            match command {
                ProfileCommandModel::ReplaceObservedSpaces(asked) => read_profile_command(
                    message,
                ) matches Ok(ClientPayloadModel::ReplaceObservedSpaces(got))
                    && got.observed_spaces_revision == asked.observed_spaces_revision
                    && got.space_keys == asked.space_keys,
                ProfileCommandModel::FetchSpace(asked) => read_profile_command(
                    message,
                ) matches Ok(ClientPayloadModel::FetchSpace(got)) && got.space_key
                    == asked.space_key,
            }
        }),
{
}

/// A status is written with every field as it is; the part of the profile holds where the
/// participant is shown and what it said of itself, and reads back so.
pub proof fn a_status_is_written_as_it_is(status: ParticipantStatusModel)
    requires
        written_status(
            ProfileStatusModel {
                applied_space_key: status.applied_space_key,
                self_mute: status.self_mute,
                self_deaf: status.self_deaf,
            },
        ).len() <= u64::MAX,
    ensures
        ({
            let core = written_core_status(status);
            &&& core.connected == status.connected
            &&& core.accepted_spec_revision == status.accepted_spec_revision
            &&& core.applied_spec_revision == status.applied_spec_revision
            &&& core.published_generation == status.published_generation
            &&& core.application_error == status.application_error
            &&& core.profile_status matches Some(payload) && crate::protobuf::merged(
                crate::spaces_wire::status_step(),
                (ProfileStatusModel {
                    applied_space_key: Seq::empty(),
                    self_mute: false,
                    self_deaf: false,
                }),
                payload.protobuf,
            ) matches Ok(read) && read.applied_space_key == status.applied_space_key
                && read.self_mute == status.self_mute && read.self_deaf == status.self_deaf
        }),
{
    crate::spaces_wire::a_written_status_is_read_back(
        ProfileStatusModel {
            applied_space_key: status.applied_space_key,
            self_mute: status.self_mute,
            self_deaf: status.self_deaf,
        },
    );
}

/// What the server says reaches the controller as the same message; what belongs to the
/// profile reads back from its envelope.
pub proof fn an_answer_is_written_as_what_it_is(payload: ServerPayloadModel, event: EventModel)
    requires
        written_event(event).len() <= u64::MAX,
        match event {
            EventModel::ObservedSpacesAccepted(part) => payload
                == ServerPayloadModel::ObservedSpacesAccepted(part),
            EventModel::SpaceSnapshot(part) => payload == ServerPayloadModel::SpaceSnapshot(part),
            EventModel::SpaceClosed(part) => payload == ServerPayloadModel::SpaceClosed(part),
            EventModel::FetchSpaceResult(part) => payload == ServerPayloadModel::FetchSpaceResult(
                part,
            ),
        },
    ensures
        written_payload(payload) matches CoreServerPayloadModel::ProfileEvent(sent)
            && sent.payload matches Some(envelope) && crate::protobuf::merged(
            crate::spaces_wire::event_step(),
            None,
            envelope.protobuf,
        ) == Ok::<_, prost::DecodeError>(Some(event)),
{
    crate::spaces_wire::a_written_event_is_read_back(event);
}

/// The core's own messages are written unchanged.
pub proof fn the_cores_own_answers_are_written_unchanged(
    ready: SessionReadyModel,
    granted: ParticipantOwnershipGrantedModel,
    revoked: ParticipantOwnershipRevokedModel,
    accepted: ParticipantSpecAcceptedModel,
    rejected: CommandRejectedModel,
    reconciled: DesiredStateReconciledModel,
    resync: ResyncRequiredModel,
    closing: SessionClosingModel,
    status: ParticipantStatusChangedModel,
)
    ensures
        written_payload(ServerPayloadModel::SessionReady(ready))
            == CoreServerPayloadModel::SessionReady(ready),
        written_payload(ServerPayloadModel::ParticipantOwnershipGranted(granted))
            == CoreServerPayloadModel::ParticipantOwnershipGranted(granted),
        written_payload(ServerPayloadModel::ParticipantOwnershipRevoked(revoked))
            == CoreServerPayloadModel::ParticipantOwnershipRevoked(revoked),
        written_payload(ServerPayloadModel::ParticipantSpecAccepted(accepted))
            == CoreServerPayloadModel::ParticipantSpecAccepted(accepted),
        written_payload(ServerPayloadModel::CommandRejected(rejected))
            == CoreServerPayloadModel::CommandRejected(rejected),
        written_payload(ServerPayloadModel::DesiredStateReconciled(reconciled))
            == CoreServerPayloadModel::DesiredStateReconciled(reconciled),
        written_payload(ServerPayloadModel::ResyncRequired(resync))
            == CoreServerPayloadModel::ResyncRequired(resync),
        written_payload(ServerPayloadModel::SessionClosing(closing))
            == CoreServerPayloadModel::SessionClosing(closing),
        written_payload(
            ServerPayloadModel::ParticipantStatusChanged(status),
        ) matches CoreServerPayloadModel::ParticipantStatusChanged(written)
            && written.participant_id == status.participant_id && (written.status is Some
            <==> status.status is Some),
{
}

} // verus!
