//! The messages between a controller and the server, as the server handles them.

use vstd::prelude::*;

use crate::text::{copy_bytes, copy_texts, optional, views};

verus! {

/// Why an ownership ended.
#[derive(Debug, Clone, Copy, PartialEq, Eq, Structural)]
pub enum OwnershipRevocationReason {
    OwnershipReplaced,
    SessionExpired,
    ParticipantReleased,
    RegistrationRejected,
}

impl OwnershipRevocationReason {
    pub open spec fn number(self) -> i32 {
        match self {
            OwnershipRevocationReason::OwnershipReplaced => 1,
            OwnershipRevocationReason::SessionExpired => 2,
            OwnershipRevocationReason::ParticipantReleased => 3,
            OwnershipRevocationReason::RegistrationRejected => 4,
        }
    }

    /// The number of the reason on the wire.
    pub fn code(self) -> (code: i32)
        ensures
            code == self.number(),
    {
        match self {
            OwnershipRevocationReason::OwnershipReplaced => 1,
            OwnershipRevocationReason::SessionExpired => 2,
            OwnershipRevocationReason::ParticipantReleased => 3,
            OwnershipRevocationReason::RegistrationRejected => 4,
        }
    }
}

/// Why a command was rejected.
#[derive(Debug, Clone, Copy, PartialEq, Eq, Structural)]
pub enum CommandErrorCode {
    InvalidArgument,
    NotFound,
    OwnershipLost,
    StaleRevision,
    SessionExpiredError,
    ResourceExhausted,
    InternalError,
}

impl CommandErrorCode {
    pub open spec fn number(self) -> i32 {
        match self {
            CommandErrorCode::InvalidArgument => 1,
            CommandErrorCode::NotFound => 2,
            CommandErrorCode::OwnershipLost => 3,
            CommandErrorCode::StaleRevision => 4,
            CommandErrorCode::SessionExpiredError => 5,
            CommandErrorCode::ResourceExhausted => 6,
            CommandErrorCode::InternalError => 7,
        }
    }

    /// The number of the error on the wire.
    pub fn code(self) -> (code: i32)
        ensures
            code == self.number(),
    {
        match self {
            CommandErrorCode::InvalidArgument => 1,
            CommandErrorCode::NotFound => 2,
            CommandErrorCode::OwnershipLost => 3,
            CommandErrorCode::StaleRevision => 4,
            CommandErrorCode::SessionExpiredError => 5,
            CommandErrorCode::ResourceExhausted => 6,
            CommandErrorCode::InternalError => 7,
        }
    }
}

/// A profile reference as it stands on the wire, complete or not.
#[derive(Debug, PartialEq, Eq)]
pub struct ProfileRef {
    pub profile_id: String,
    pub schema_version: u32,
    pub descriptor_digest: String,
}

pub struct ProfileRefModel {
    pub profile_id: Seq<char>,
    pub schema_version: u32,
    pub descriptor_digest: Seq<char>,
}

impl View for ProfileRef {
    type V = ProfileRefModel;

    open spec fn view(&self) -> ProfileRefModel {
        ProfileRefModel {
            profile_id: self.profile_id@,
            schema_version: self.schema_version,
            descriptor_digest: self.descriptor_digest@,
        }
    }
}

impl Clone for ProfileRef {
    fn clone(&self) -> (copy: Self)
        ensures
            copy@ == self@,
    {
        ProfileRef {
            profile_id: self.profile_id.clone(),
            schema_version: self.schema_version,
            descriptor_digest: self.descriptor_digest.clone(),
        }
    }
}

/// A participant payload as it stands on the wire, valid or not.
#[derive(Debug, PartialEq, Eq)]
pub struct ParticipantSpec {
    pub space_key: String,
    pub display_name: String,
    pub server_mute: bool,
    pub server_deaf: bool,
}

pub struct ParticipantSpecModel {
    pub space_key: Seq<char>,
    pub display_name: Seq<char>,
    pub server_mute: bool,
    pub server_deaf: bool,
}

impl View for ParticipantSpec {
    type V = ParticipantSpecModel;

    open spec fn view(&self) -> ParticipantSpecModel {
        ParticipantSpecModel {
            space_key: self.space_key@,
            display_name: self.display_name@,
            server_mute: self.server_mute,
            server_deaf: self.server_deaf,
        }
    }
}

impl Clone for ParticipantSpec {
    fn clone(&self) -> (copy: Self)
        ensures
            copy@ == self@,
    {
        ParticipantSpec {
            space_key: self.space_key.clone(),
            display_name: self.display_name.clone(),
            server_mute: self.server_mute,
            server_deaf: self.server_deaf,
        }
    }
}

/// A participant that a controller wants to own.
#[derive(Debug, PartialEq, Eq)]
pub struct ParticipantRegistration {
    pub participant_id: String,
    pub registration_id: Vec<u8>,
    pub ownership_token: Vec<u8>,
    pub client_spec_revision: u64,
    pub spec: Option<ParticipantSpec>,
}

pub struct ParticipantRegistrationModel {
    pub participant_id: Seq<char>,
    pub registration_id: Seq<u8>,
    pub ownership_token: Seq<u8>,
    pub client_spec_revision: u64,
    pub spec: Option<ParticipantSpecModel>,
}

impl View for ParticipantRegistration {
    type V = ParticipantRegistrationModel;

    open spec fn view(&self) -> ParticipantRegistrationModel {
        ParticipantRegistrationModel {
            participant_id: self.participant_id@,
            registration_id: self.registration_id@,
            ownership_token: self.ownership_token@,
            client_spec_revision: self.client_spec_revision,
            spec: optional(self.spec),
        }
    }
}

impl Clone for ParticipantRegistration {
    fn clone(&self) -> (copy: Self)
        ensures
            copy@ == self@,
    {
        ParticipantRegistration {
            participant_id: self.participant_id.clone(),
            registration_id: copy_bytes(self.registration_id.as_slice()),
            ownership_token: copy_bytes(self.ownership_token.as_slice()),
            client_spec_revision: self.client_spec_revision,
            spec: match &self.spec {
                Some(inner) => Some(inner.clone()),
                None => None,
            },
        }
    }
}

/// A fresh list with the members of `given`.
pub fn copy_participant_registrations(given: &Vec<ParticipantRegistration>) -> (copy: Vec<ParticipantRegistration>)
    ensures
        views(copy@) == views(given@),
{
    let mut copy: Vec<ParticipantRegistration> = Vec::new();
    let mut i: usize = 0;
    while i < given.len()
        invariant
            i <= given@.len(),
            copy@.len() == i,
            forall|k: int| 0 <= k < i ==> copy@[k]@ == (#[trigger] given@[k])@,
        decreases given@.len() - i,
    {
        copy.push(given[i].clone());
        i = i + 1;
    }
    assert(views(copy@) =~= views(given@));
    copy
}

/// All that a controller wants to hold.
#[derive(Debug, PartialEq, Eq)]
pub struct DesiredStateSnapshot {
    pub desired_state_revision: u64,
    pub participants: Vec<ParticipantRegistration>,
    pub observed_space_keys: Vec<String>,
}

pub struct DesiredStateSnapshotModel {
    pub desired_state_revision: u64,
    pub participants: Seq<ParticipantRegistrationModel>,
    pub observed_space_keys: Seq<Seq<char>>,
}

impl View for DesiredStateSnapshot {
    type V = DesiredStateSnapshotModel;

    open spec fn view(&self) -> DesiredStateSnapshotModel {
        DesiredStateSnapshotModel {
            desired_state_revision: self.desired_state_revision,
            participants: views(self.participants@),
            observed_space_keys: views(self.observed_space_keys@),
        }
    }
}

impl Clone for DesiredStateSnapshot {
    fn clone(&self) -> (copy: Self)
        ensures
            copy@ == self@,
    {
        DesiredStateSnapshot {
            desired_state_revision: self.desired_state_revision,
            participants: copy_participant_registrations(&self.participants),
            observed_space_keys: copy_texts(&self.observed_space_keys),
        }
    }
}

#[derive(Debug, PartialEq, Eq)]
pub struct OpenSession {
    pub controller_id: String,
    pub controller_instance_id: Vec<u8>,
    pub resume_token: Vec<u8>,
    pub desired_state: Option<DesiredStateSnapshot>,
    pub profile: Option<ProfileRef>,
}

pub struct OpenSessionModel {
    pub controller_id: Seq<char>,
    pub controller_instance_id: Seq<u8>,
    pub resume_token: Seq<u8>,
    pub desired_state: Option<DesiredStateSnapshotModel>,
    pub profile: Option<ProfileRefModel>,
}

impl View for OpenSession {
    type V = OpenSessionModel;

    open spec fn view(&self) -> OpenSessionModel {
        OpenSessionModel {
            controller_id: self.controller_id@,
            controller_instance_id: self.controller_instance_id@,
            resume_token: self.resume_token@,
            desired_state: optional(self.desired_state),
            profile: optional(self.profile),
        }
    }
}

impl Clone for OpenSession {
    fn clone(&self) -> (copy: Self)
        ensures
            copy@ == self@,
    {
        OpenSession {
            controller_id: self.controller_id.clone(),
            controller_instance_id: copy_bytes(self.controller_instance_id.as_slice()),
            resume_token: copy_bytes(self.resume_token.as_slice()),
            desired_state: match &self.desired_state {
                Some(inner) => Some(inner.clone()),
                None => None,
            },
            profile: match &self.profile {
                Some(inner) => Some(inner.clone()),
                None => None,
            },
        }
    }
}

#[derive(Debug, PartialEq, Eq)]
pub struct RenewLease {
    pub session_token: Vec<u8>,
    pub desired_state_revision: u64,
}

pub struct RenewLeaseModel {
    pub session_token: Seq<u8>,
    pub desired_state_revision: u64,
}

impl View for RenewLease {
    type V = RenewLeaseModel;

    open spec fn view(&self) -> RenewLeaseModel {
        RenewLeaseModel {
            session_token: self.session_token@,
            desired_state_revision: self.desired_state_revision,
        }
    }
}

impl Clone for RenewLease {
    fn clone(&self) -> (copy: Self)
        ensures
            copy@ == self@,
    {
        RenewLease {
            session_token: copy_bytes(self.session_token.as_slice()),
            desired_state_revision: self.desired_state_revision,
        }
    }
}

#[derive(Debug, PartialEq, Eq)]
pub struct SyncDesiredState {
    pub session_token: Vec<u8>,
    pub desired_state: Option<DesiredStateSnapshot>,
}

pub struct SyncDesiredStateModel {
    pub session_token: Seq<u8>,
    pub desired_state: Option<DesiredStateSnapshotModel>,
}

impl View for SyncDesiredState {
    type V = SyncDesiredStateModel;

    open spec fn view(&self) -> SyncDesiredStateModel {
        SyncDesiredStateModel {
            session_token: self.session_token@,
            desired_state: optional(self.desired_state),
        }
    }
}

impl Clone for SyncDesiredState {
    fn clone(&self) -> (copy: Self)
        ensures
            copy@ == self@,
    {
        SyncDesiredState {
            session_token: copy_bytes(self.session_token.as_slice()),
            desired_state: match &self.desired_state {
                Some(inner) => Some(inner.clone()),
                None => None,
            },
        }
    }
}

#[derive(Debug, PartialEq, Eq)]
pub struct RegisterParticipant {
    pub session_token: Vec<u8>,
    pub participant: Option<ParticipantRegistration>,
}

pub struct RegisterParticipantModel {
    pub session_token: Seq<u8>,
    pub participant: Option<ParticipantRegistrationModel>,
}

impl View for RegisterParticipant {
    type V = RegisterParticipantModel;

    open spec fn view(&self) -> RegisterParticipantModel {
        RegisterParticipantModel {
            session_token: self.session_token@,
            participant: optional(self.participant),
        }
    }
}

impl Clone for RegisterParticipant {
    fn clone(&self) -> (copy: Self)
        ensures
            copy@ == self@,
    {
        RegisterParticipant {
            session_token: copy_bytes(self.session_token.as_slice()),
            participant: match &self.participant {
                Some(inner) => Some(inner.clone()),
                None => None,
            },
        }
    }
}

#[derive(Debug, PartialEq, Eq)]
pub struct SetParticipantSpec {
    pub session_token: Vec<u8>,
    pub participant_id: String,
    pub ownership_token: Vec<u8>,
    pub client_spec_revision: u64,
    pub spec: Option<ParticipantSpec>,
}

pub struct SetParticipantSpecModel {
    pub session_token: Seq<u8>,
    pub participant_id: Seq<char>,
    pub ownership_token: Seq<u8>,
    pub client_spec_revision: u64,
    pub spec: Option<ParticipantSpecModel>,
}

impl View for SetParticipantSpec {
    type V = SetParticipantSpecModel;

    open spec fn view(&self) -> SetParticipantSpecModel {
        SetParticipantSpecModel {
            session_token: self.session_token@,
            participant_id: self.participant_id@,
            ownership_token: self.ownership_token@,
            client_spec_revision: self.client_spec_revision,
            spec: optional(self.spec),
        }
    }
}

impl Clone for SetParticipantSpec {
    fn clone(&self) -> (copy: Self)
        ensures
            copy@ == self@,
    {
        SetParticipantSpec {
            session_token: copy_bytes(self.session_token.as_slice()),
            participant_id: self.participant_id.clone(),
            ownership_token: copy_bytes(self.ownership_token.as_slice()),
            client_spec_revision: self.client_spec_revision,
            spec: match &self.spec {
                Some(inner) => Some(inner.clone()),
                None => None,
            },
        }
    }
}

#[derive(Debug, PartialEq, Eq)]
pub struct ReleaseParticipant {
    pub session_token: Vec<u8>,
    pub participant_id: String,
    pub registration_id: Vec<u8>,
    pub ownership_token: Vec<u8>,
}

pub struct ReleaseParticipantModel {
    pub session_token: Seq<u8>,
    pub participant_id: Seq<char>,
    pub registration_id: Seq<u8>,
    pub ownership_token: Seq<u8>,
}

impl View for ReleaseParticipant {
    type V = ReleaseParticipantModel;

    open spec fn view(&self) -> ReleaseParticipantModel {
        ReleaseParticipantModel {
            session_token: self.session_token@,
            participant_id: self.participant_id@,
            registration_id: self.registration_id@,
            ownership_token: self.ownership_token@,
        }
    }
}

impl Clone for ReleaseParticipant {
    fn clone(&self) -> (copy: Self)
        ensures
            copy@ == self@,
    {
        ReleaseParticipant {
            session_token: copy_bytes(self.session_token.as_slice()),
            participant_id: self.participant_id.clone(),
            registration_id: copy_bytes(self.registration_id.as_slice()),
            ownership_token: copy_bytes(self.ownership_token.as_slice()),
        }
    }
}

#[derive(Debug, PartialEq, Eq)]
pub struct ReplaceObservedSpaces {
    pub session_token: Vec<u8>,
    pub observed_spaces_revision: u64,
    pub space_keys: Vec<String>,
}

pub struct ReplaceObservedSpacesModel {
    pub session_token: Seq<u8>,
    pub observed_spaces_revision: u64,
    pub space_keys: Seq<Seq<char>>,
}

impl View for ReplaceObservedSpaces {
    type V = ReplaceObservedSpacesModel;

    open spec fn view(&self) -> ReplaceObservedSpacesModel {
        ReplaceObservedSpacesModel {
            session_token: self.session_token@,
            observed_spaces_revision: self.observed_spaces_revision,
            space_keys: views(self.space_keys@),
        }
    }
}

impl Clone for ReplaceObservedSpaces {
    fn clone(&self) -> (copy: Self)
        ensures
            copy@ == self@,
    {
        ReplaceObservedSpaces {
            session_token: copy_bytes(self.session_token.as_slice()),
            observed_spaces_revision: self.observed_spaces_revision,
            space_keys: copy_texts(&self.space_keys),
        }
    }
}

#[derive(Debug, PartialEq, Eq)]
pub struct FetchSpace {
    pub session_token: Vec<u8>,
    pub space_key: String,
}

pub struct FetchSpaceModel {
    pub session_token: Seq<u8>,
    pub space_key: Seq<char>,
}

impl View for FetchSpace {
    type V = FetchSpaceModel;

    open spec fn view(&self) -> FetchSpaceModel {
        FetchSpaceModel {
            session_token: self.session_token@,
            space_key: self.space_key@,
        }
    }
}

impl Clone for FetchSpace {
    fn clone(&self) -> (copy: Self)
        ensures
            copy@ == self@,
    {
        FetchSpace {
            session_token: copy_bytes(self.session_token.as_slice()),
            space_key: self.space_key.clone(),
        }
    }
}

#[derive(Debug, PartialEq, Eq)]
pub struct CloseSession {
    pub session_token: Vec<u8>,
}

pub struct CloseSessionModel {
    pub session_token: Seq<u8>,
}

impl View for CloseSession {
    type V = CloseSessionModel;

    open spec fn view(&self) -> CloseSessionModel {
        CloseSessionModel {
            session_token: self.session_token@,
        }
    }
}

impl Clone for CloseSession {
    fn clone(&self) -> (copy: Self)
        ensures
            copy@ == self@,
    {
        CloseSession {
            session_token: copy_bytes(self.session_token.as_slice()),
        }
    }
}

/// The commands of a controller.
#[derive(Debug, PartialEq, Eq)]
pub enum ClientPayload {
    OpenSession(OpenSession),
    RenewLease(RenewLease),
    SyncDesiredState(SyncDesiredState),
    RegisterParticipant(RegisterParticipant),
    SetParticipantSpec(SetParticipantSpec),
    ReleaseParticipant(ReleaseParticipant),
    ReplaceObservedSpaces(ReplaceObservedSpaces),
    FetchSpace(FetchSpace),
    CloseSession(CloseSession),
}

pub enum ClientPayloadModel {
    OpenSession(OpenSessionModel),
    RenewLease(RenewLeaseModel),
    SyncDesiredState(SyncDesiredStateModel),
    RegisterParticipant(RegisterParticipantModel),
    SetParticipantSpec(SetParticipantSpecModel),
    ReleaseParticipant(ReleaseParticipantModel),
    ReplaceObservedSpaces(ReplaceObservedSpacesModel),
    FetchSpace(FetchSpaceModel),
    CloseSession(CloseSessionModel),
}

impl View for ClientPayload {
    type V = ClientPayloadModel;

    open spec fn view(&self) -> ClientPayloadModel {
        match self {
            ClientPayload::OpenSession(message) => ClientPayloadModel::OpenSession(message@),
            ClientPayload::RenewLease(message) => ClientPayloadModel::RenewLease(message@),
            ClientPayload::SyncDesiredState(message) => ClientPayloadModel::SyncDesiredState(message@),
            ClientPayload::RegisterParticipant(message) => ClientPayloadModel::RegisterParticipant(message@),
            ClientPayload::SetParticipantSpec(message) => ClientPayloadModel::SetParticipantSpec(message@),
            ClientPayload::ReleaseParticipant(message) => ClientPayloadModel::ReleaseParticipant(message@),
            ClientPayload::ReplaceObservedSpaces(message) => ClientPayloadModel::ReplaceObservedSpaces(message@),
            ClientPayload::FetchSpace(message) => ClientPayloadModel::FetchSpace(message@),
            ClientPayload::CloseSession(message) => ClientPayloadModel::CloseSession(message@),
        }
    }
}

impl Clone for ClientPayload {
    fn clone(&self) -> (copy: Self)
        ensures
            copy@ == self@,
    {
        match self {
            ClientPayload::OpenSession(message) => ClientPayload::OpenSession(message.clone()),
            ClientPayload::RenewLease(message) => ClientPayload::RenewLease(message.clone()),
            ClientPayload::SyncDesiredState(message) => ClientPayload::SyncDesiredState(message.clone()),
            ClientPayload::RegisterParticipant(message) => ClientPayload::RegisterParticipant(message.clone()),
            ClientPayload::SetParticipantSpec(message) => ClientPayload::SetParticipantSpec(message.clone()),
            ClientPayload::ReleaseParticipant(message) => ClientPayload::ReleaseParticipant(message.clone()),
            ClientPayload::ReplaceObservedSpaces(message) => ClientPayload::ReplaceObservedSpaces(message.clone()),
            ClientPayload::FetchSpace(message) => ClientPayload::FetchSpace(message.clone()),
            ClientPayload::CloseSession(message) => ClientPayload::CloseSession(message.clone()),
        }
    }
}

/// One frame from a controller.
#[derive(Debug, PartialEq, Eq)]
pub struct ClientFrame {
    pub request_id: Vec<u8>,
    pub payload: Option<ClientPayload>,
}

pub struct ClientFrameModel {
    pub request_id: Seq<u8>,
    pub payload: Option<ClientPayloadModel>,
}

impl View for ClientFrame {
    type V = ClientFrameModel;

    open spec fn view(&self) -> ClientFrameModel {
        ClientFrameModel {
            request_id: self.request_id@,
            payload: optional(self.payload),
        }
    }
}

impl Clone for ClientFrame {
    fn clone(&self) -> (copy: Self)
        ensures
            copy@ == self@,
    {
        ClientFrame {
            request_id: copy_bytes(self.request_id.as_slice()),
            payload: match &self.payload {
                Some(inner) => Some(inner.clone()),
                None => None,
            },
        }
    }
}

/// A span of time as it stands on the wire.
#[derive(Debug, PartialEq, Eq)]
pub struct LeaseDuration {
    pub seconds: i64,
    pub nanos: i32,
}

pub struct LeaseDurationModel {
    pub seconds: i64,
    pub nanos: i32,
}

impl View for LeaseDuration {
    type V = LeaseDurationModel;

    open spec fn view(&self) -> LeaseDurationModel {
        LeaseDurationModel {
            seconds: self.seconds,
            nanos: self.nanos,
        }
    }
}

impl Clone for LeaseDuration {
    fn clone(&self) -> (copy: Self)
        ensures
            copy@ == self@,
    {
        LeaseDuration {
            seconds: self.seconds,
            nanos: self.nanos,
        }
    }
}

#[derive(Debug, PartialEq, Eq)]
pub struct SessionReady {
    pub session_token: Vec<u8>,
    pub resume_token: Vec<u8>,
    pub control_epoch: Vec<u8>,
    pub lease_duration: Option<LeaseDuration>,
    pub profile: Option<ProfileRef>,
}

pub struct SessionReadyModel {
    pub session_token: Seq<u8>,
    pub resume_token: Seq<u8>,
    pub control_epoch: Seq<u8>,
    pub lease_duration: Option<LeaseDurationModel>,
    pub profile: Option<ProfileRefModel>,
}

impl View for SessionReady {
    type V = SessionReadyModel;

    open spec fn view(&self) -> SessionReadyModel {
        SessionReadyModel {
            session_token: self.session_token@,
            resume_token: self.resume_token@,
            control_epoch: self.control_epoch@,
            lease_duration: optional(self.lease_duration),
            profile: optional(self.profile),
        }
    }
}

impl Clone for SessionReady {
    fn clone(&self) -> (copy: Self)
        ensures
            copy@ == self@,
    {
        SessionReady {
            session_token: copy_bytes(self.session_token.as_slice()),
            resume_token: copy_bytes(self.resume_token.as_slice()),
            control_epoch: copy_bytes(self.control_epoch.as_slice()),
            lease_duration: match &self.lease_duration {
                Some(inner) => Some(inner.clone()),
                None => None,
            },
            profile: match &self.profile {
                Some(inner) => Some(inner.clone()),
                None => None,
            },
        }
    }
}

#[derive(Debug, PartialEq, Eq)]
pub struct DesiredStateReconciled {
    pub desired_state_revision: u64,
}

pub struct DesiredStateReconciledModel {
    pub desired_state_revision: u64,
}

impl View for DesiredStateReconciled {
    type V = DesiredStateReconciledModel;

    open spec fn view(&self) -> DesiredStateReconciledModel {
        DesiredStateReconciledModel {
            desired_state_revision: self.desired_state_revision,
        }
    }
}

impl Clone for DesiredStateReconciled {
    fn clone(&self) -> (copy: Self)
        ensures
            copy@ == self@,
    {
        DesiredStateReconciled {
            desired_state_revision: self.desired_state_revision,
        }
    }
}

#[derive(Debug, PartialEq, Eq)]
pub struct ParticipantOwnershipGranted {
    pub participant_id: String,
    pub registration_id: Vec<u8>,
    pub ownership_token: Vec<u8>,
    pub client_spec_revision: u64,
    pub accepted_spec_revision: u64,
    pub applied_spec_revision: u64,
    pub published_generation: u64,
    pub connection_credential: String,
}

pub struct ParticipantOwnershipGrantedModel {
    pub participant_id: Seq<char>,
    pub registration_id: Seq<u8>,
    pub ownership_token: Seq<u8>,
    pub client_spec_revision: u64,
    pub accepted_spec_revision: u64,
    pub applied_spec_revision: u64,
    pub published_generation: u64,
    pub connection_credential: Seq<char>,
}

impl View for ParticipantOwnershipGranted {
    type V = ParticipantOwnershipGrantedModel;

    open spec fn view(&self) -> ParticipantOwnershipGrantedModel {
        ParticipantOwnershipGrantedModel {
            participant_id: self.participant_id@,
            registration_id: self.registration_id@,
            ownership_token: self.ownership_token@,
            client_spec_revision: self.client_spec_revision,
            accepted_spec_revision: self.accepted_spec_revision,
            applied_spec_revision: self.applied_spec_revision,
            published_generation: self.published_generation,
            connection_credential: self.connection_credential@,
        }
    }
}

impl Clone for ParticipantOwnershipGranted {
    fn clone(&self) -> (copy: Self)
        ensures
            copy@ == self@,
    {
        ParticipantOwnershipGranted {
            participant_id: self.participant_id.clone(),
            registration_id: copy_bytes(self.registration_id.as_slice()),
            ownership_token: copy_bytes(self.ownership_token.as_slice()),
            client_spec_revision: self.client_spec_revision,
            accepted_spec_revision: self.accepted_spec_revision,
            applied_spec_revision: self.applied_spec_revision,
            published_generation: self.published_generation,
            connection_credential: self.connection_credential.clone(),
        }
    }
}

#[derive(Debug, PartialEq, Eq)]
pub struct ParticipantOwnershipRevoked {
    pub participant_id: String,
    pub registration_id: Vec<u8>,
    pub reason: i32,
}

pub struct ParticipantOwnershipRevokedModel {
    pub participant_id: Seq<char>,
    pub registration_id: Seq<u8>,
    pub reason: i32,
}

impl View for ParticipantOwnershipRevoked {
    type V = ParticipantOwnershipRevokedModel;

    open spec fn view(&self) -> ParticipantOwnershipRevokedModel {
        ParticipantOwnershipRevokedModel {
            participant_id: self.participant_id@,
            registration_id: self.registration_id@,
            reason: self.reason,
        }
    }
}

impl Clone for ParticipantOwnershipRevoked {
    fn clone(&self) -> (copy: Self)
        ensures
            copy@ == self@,
    {
        ParticipantOwnershipRevoked {
            participant_id: self.participant_id.clone(),
            registration_id: copy_bytes(self.registration_id.as_slice()),
            reason: self.reason,
        }
    }
}

#[derive(Debug, PartialEq, Eq)]
pub struct ParticipantSpecAccepted {
    pub participant_id: String,
    pub client_spec_revision: u64,
    pub accepted_spec_revision: u64,
    pub applied_spec_revision: u64,
    pub published_generation: u64,
}

pub struct ParticipantSpecAcceptedModel {
    pub participant_id: Seq<char>,
    pub client_spec_revision: u64,
    pub accepted_spec_revision: u64,
    pub applied_spec_revision: u64,
    pub published_generation: u64,
}

impl View for ParticipantSpecAccepted {
    type V = ParticipantSpecAcceptedModel;

    open spec fn view(&self) -> ParticipantSpecAcceptedModel {
        ParticipantSpecAcceptedModel {
            participant_id: self.participant_id@,
            client_spec_revision: self.client_spec_revision,
            accepted_spec_revision: self.accepted_spec_revision,
            applied_spec_revision: self.applied_spec_revision,
            published_generation: self.published_generation,
        }
    }
}

impl Clone for ParticipantSpecAccepted {
    fn clone(&self) -> (copy: Self)
        ensures
            copy@ == self@,
    {
        ParticipantSpecAccepted {
            participant_id: self.participant_id.clone(),
            client_spec_revision: self.client_spec_revision,
            accepted_spec_revision: self.accepted_spec_revision,
            applied_spec_revision: self.applied_spec_revision,
            published_generation: self.published_generation,
        }
    }
}

#[derive(Debug, PartialEq, Eq)]
pub struct ParticipantStatus {
    pub connected: bool,
    pub applied_space_key: String,
    pub self_mute: bool,
    pub self_deaf: bool,
    pub accepted_spec_revision: u64,
    pub applied_spec_revision: u64,
    pub published_generation: u64,
    pub application_error: String,
}

pub struct ParticipantStatusModel {
    pub connected: bool,
    pub applied_space_key: Seq<char>,
    pub self_mute: bool,
    pub self_deaf: bool,
    pub accepted_spec_revision: u64,
    pub applied_spec_revision: u64,
    pub published_generation: u64,
    pub application_error: Seq<char>,
}

impl View for ParticipantStatus {
    type V = ParticipantStatusModel;

    open spec fn view(&self) -> ParticipantStatusModel {
        ParticipantStatusModel {
            connected: self.connected,
            applied_space_key: self.applied_space_key@,
            self_mute: self.self_mute,
            self_deaf: self.self_deaf,
            accepted_spec_revision: self.accepted_spec_revision,
            applied_spec_revision: self.applied_spec_revision,
            published_generation: self.published_generation,
            application_error: self.application_error@,
        }
    }
}

impl Clone for ParticipantStatus {
    fn clone(&self) -> (copy: Self)
        ensures
            copy@ == self@,
    {
        ParticipantStatus {
            connected: self.connected,
            applied_space_key: self.applied_space_key.clone(),
            self_mute: self.self_mute,
            self_deaf: self.self_deaf,
            accepted_spec_revision: self.accepted_spec_revision,
            applied_spec_revision: self.applied_spec_revision,
            published_generation: self.published_generation,
            application_error: self.application_error.clone(),
        }
    }
}

#[derive(Debug, PartialEq, Eq)]
pub struct ParticipantStatusChanged {
    pub participant_id: String,
    pub status: Option<ParticipantStatus>,
}

pub struct ParticipantStatusChangedModel {
    pub participant_id: Seq<char>,
    pub status: Option<ParticipantStatusModel>,
}

impl View for ParticipantStatusChanged {
    type V = ParticipantStatusChangedModel;

    open spec fn view(&self) -> ParticipantStatusChangedModel {
        ParticipantStatusChangedModel {
            participant_id: self.participant_id@,
            status: optional(self.status),
        }
    }
}

impl Clone for ParticipantStatusChanged {
    fn clone(&self) -> (copy: Self)
        ensures
            copy@ == self@,
    {
        ParticipantStatusChanged {
            participant_id: self.participant_id.clone(),
            status: match &self.status {
                Some(inner) => Some(inner.clone()),
                None => None,
            },
        }
    }
}

#[derive(Debug, PartialEq, Eq)]
pub struct ObservedSpacesAccepted {
    pub observed_spaces_revision: u64,
}

pub struct ObservedSpacesAcceptedModel {
    pub observed_spaces_revision: u64,
}

impl View for ObservedSpacesAccepted {
    type V = ObservedSpacesAcceptedModel;

    open spec fn view(&self) -> ObservedSpacesAcceptedModel {
        ObservedSpacesAcceptedModel {
            observed_spaces_revision: self.observed_spaces_revision,
        }
    }
}

impl Clone for ObservedSpacesAccepted {
    fn clone(&self) -> (copy: Self)
        ensures
            copy@ == self@,
    {
        ObservedSpacesAccepted {
            observed_spaces_revision: self.observed_spaces_revision,
        }
    }
}

#[derive(Debug, PartialEq, Eq)]
pub struct SpaceParticipant {
    pub participant_id: String,
    pub display_name: String,
    pub server_mute: bool,
    pub server_deaf: bool,
    pub connected: bool,
}

pub struct SpaceParticipantModel {
    pub participant_id: Seq<char>,
    pub display_name: Seq<char>,
    pub server_mute: bool,
    pub server_deaf: bool,
    pub connected: bool,
}

impl View for SpaceParticipant {
    type V = SpaceParticipantModel;

    open spec fn view(&self) -> SpaceParticipantModel {
        SpaceParticipantModel {
            participant_id: self.participant_id@,
            display_name: self.display_name@,
            server_mute: self.server_mute,
            server_deaf: self.server_deaf,
            connected: self.connected,
        }
    }
}

impl Clone for SpaceParticipant {
    fn clone(&self) -> (copy: Self)
        ensures
            copy@ == self@,
    {
        SpaceParticipant {
            participant_id: self.participant_id.clone(),
            display_name: self.display_name.clone(),
            server_mute: self.server_mute,
            server_deaf: self.server_deaf,
            connected: self.connected,
        }
    }
}

/// A fresh list with the members of `given`.
pub fn copy_space_participants(given: &Vec<SpaceParticipant>) -> (copy: Vec<SpaceParticipant>)
    ensures
        views(copy@) == views(given@),
{
    let mut copy: Vec<SpaceParticipant> = Vec::new();
    let mut i: usize = 0;
    while i < given.len()
        invariant
            i <= given@.len(),
            copy@.len() == i,
            forall|k: int| 0 <= k < i ==> copy@[k]@ == (#[trigger] given@[k])@,
        decreases given@.len() - i,
    {
        copy.push(given[i].clone());
        i = i + 1;
    }
    assert(views(copy@) =~= views(given@));
    copy
}

#[derive(Debug, PartialEq, Eq)]
pub struct SpaceSnapshot {
    pub space_key: String,
    pub incarnation_id: Vec<u8>,
    pub space_revision: u64,
    pub participants: Vec<SpaceParticipant>,
    pub published_generation: u64,
}

pub struct SpaceSnapshotModel {
    pub space_key: Seq<char>,
    pub incarnation_id: Seq<u8>,
    pub space_revision: u64,
    pub participants: Seq<SpaceParticipantModel>,
    pub published_generation: u64,
}

impl View for SpaceSnapshot {
    type V = SpaceSnapshotModel;

    open spec fn view(&self) -> SpaceSnapshotModel {
        SpaceSnapshotModel {
            space_key: self.space_key@,
            incarnation_id: self.incarnation_id@,
            space_revision: self.space_revision,
            participants: views(self.participants@),
            published_generation: self.published_generation,
        }
    }
}

impl Clone for SpaceSnapshot {
    fn clone(&self) -> (copy: Self)
        ensures
            copy@ == self@,
    {
        SpaceSnapshot {
            space_key: self.space_key.clone(),
            incarnation_id: copy_bytes(self.incarnation_id.as_slice()),
            space_revision: self.space_revision,
            participants: copy_space_participants(&self.participants),
            published_generation: self.published_generation,
        }
    }
}

#[derive(Debug, PartialEq, Eq)]
pub struct SpaceClosed {
    pub space_key: String,
    pub incarnation_id: Vec<u8>,
    pub final_space_revision: u64,
}

pub struct SpaceClosedModel {
    pub space_key: Seq<char>,
    pub incarnation_id: Seq<u8>,
    pub final_space_revision: u64,
}

impl View for SpaceClosed {
    type V = SpaceClosedModel;

    open spec fn view(&self) -> SpaceClosedModel {
        SpaceClosedModel {
            space_key: self.space_key@,
            incarnation_id: self.incarnation_id@,
            final_space_revision: self.final_space_revision,
        }
    }
}

impl Clone for SpaceClosed {
    fn clone(&self) -> (copy: Self)
        ensures
            copy@ == self@,
    {
        SpaceClosed {
            space_key: self.space_key.clone(),
            incarnation_id: copy_bytes(self.incarnation_id.as_slice()),
            final_space_revision: self.final_space_revision,
        }
    }
}

#[derive(Debug, PartialEq, Eq)]
pub struct SpaceAbsent {
    pub space_key: String,
}

pub struct SpaceAbsentModel {
    pub space_key: Seq<char>,
}

impl View for SpaceAbsent {
    type V = SpaceAbsentModel;

    open spec fn view(&self) -> SpaceAbsentModel {
        SpaceAbsentModel {
            space_key: self.space_key@,
        }
    }
}

impl Clone for SpaceAbsent {
    fn clone(&self) -> (copy: Self)
        ensures
            copy@ == self@,
    {
        SpaceAbsent {
            space_key: self.space_key.clone(),
        }
    }
}

#[derive(Debug, PartialEq, Eq)]
pub enum FetchResult {
    Snapshot(SpaceSnapshot),
    Absent(SpaceAbsent),
}

pub enum FetchResultModel {
    Snapshot(SpaceSnapshotModel),
    Absent(SpaceAbsentModel),
}

impl View for FetchResult {
    type V = FetchResultModel;

    open spec fn view(&self) -> FetchResultModel {
        match self {
            FetchResult::Snapshot(message) => FetchResultModel::Snapshot(message@),
            FetchResult::Absent(message) => FetchResultModel::Absent(message@),
        }
    }
}

impl Clone for FetchResult {
    fn clone(&self) -> (copy: Self)
        ensures
            copy@ == self@,
    {
        match self {
            FetchResult::Snapshot(message) => FetchResult::Snapshot(message.clone()),
            FetchResult::Absent(message) => FetchResult::Absent(message.clone()),
        }
    }
}

#[derive(Debug, PartialEq, Eq)]
pub struct FetchSpaceResult {
    pub result: Option<FetchResult>,
}

pub struct FetchSpaceResultModel {
    pub result: Option<FetchResultModel>,
}

impl View for FetchSpaceResult {
    type V = FetchSpaceResultModel;

    open spec fn view(&self) -> FetchSpaceResultModel {
        FetchSpaceResultModel {
            result: optional(self.result),
        }
    }
}

impl Clone for FetchSpaceResult {
    fn clone(&self) -> (copy: Self)
        ensures
            copy@ == self@,
    {
        FetchSpaceResult {
            result: match &self.result {
                Some(inner) => Some(inner.clone()),
                None => None,
            },
        }
    }
}

#[derive(Debug, PartialEq, Eq)]
pub struct ResyncRequired {
    pub reason: String,
}

pub struct ResyncRequiredModel {
    pub reason: Seq<char>,
}

impl View for ResyncRequired {
    type V = ResyncRequiredModel;

    open spec fn view(&self) -> ResyncRequiredModel {
        ResyncRequiredModel {
            reason: self.reason@,
        }
    }
}

impl Clone for ResyncRequired {
    fn clone(&self) -> (copy: Self)
        ensures
            copy@ == self@,
    {
        ResyncRequired {
            reason: self.reason.clone(),
        }
    }
}

#[derive(Debug, PartialEq, Eq)]
pub struct CommandRejected {
    pub code: i32,
    pub message: String,
}

pub struct CommandRejectedModel {
    pub code: i32,
    pub message: Seq<char>,
}

impl View for CommandRejected {
    type V = CommandRejectedModel;

    open spec fn view(&self) -> CommandRejectedModel {
        CommandRejectedModel {
            code: self.code,
            message: self.message@,
        }
    }
}

impl Clone for CommandRejected {
    fn clone(&self) -> (copy: Self)
        ensures
            copy@ == self@,
    {
        CommandRejected {
            code: self.code,
            message: self.message.clone(),
        }
    }
}

#[derive(Debug, PartialEq, Eq)]
pub struct SessionClosing {
    pub reason: String,
}

pub struct SessionClosingModel {
    pub reason: Seq<char>,
}

impl View for SessionClosing {
    type V = SessionClosingModel;

    open spec fn view(&self) -> SessionClosingModel {
        SessionClosingModel {
            reason: self.reason@,
        }
    }
}

impl Clone for SessionClosing {
    fn clone(&self) -> (copy: Self)
        ensures
            copy@ == self@,
    {
        SessionClosing {
            reason: self.reason.clone(),
        }
    }
}

/// The answers and notices of the server.
#[derive(Debug, PartialEq, Eq)]
pub enum ServerPayload {
    SessionReady(SessionReady),
    DesiredStateReconciled(DesiredStateReconciled),
    ParticipantOwnershipGranted(ParticipantOwnershipGranted),
    ParticipantOwnershipRevoked(ParticipantOwnershipRevoked),
    ParticipantSpecAccepted(ParticipantSpecAccepted),
    ParticipantStatusChanged(ParticipantStatusChanged),
    ObservedSpacesAccepted(ObservedSpacesAccepted),
    SpaceSnapshot(SpaceSnapshot),
    SpaceClosed(SpaceClosed),
    FetchSpaceResult(FetchSpaceResult),
    ResyncRequired(ResyncRequired),
    CommandRejected(CommandRejected),
    SessionClosing(SessionClosing),
}

pub enum ServerPayloadModel {
    SessionReady(SessionReadyModel),
    DesiredStateReconciled(DesiredStateReconciledModel),
    ParticipantOwnershipGranted(ParticipantOwnershipGrantedModel),
    ParticipantOwnershipRevoked(ParticipantOwnershipRevokedModel),
    ParticipantSpecAccepted(ParticipantSpecAcceptedModel),
    ParticipantStatusChanged(ParticipantStatusChangedModel),
    ObservedSpacesAccepted(ObservedSpacesAcceptedModel),
    SpaceSnapshot(SpaceSnapshotModel),
    SpaceClosed(SpaceClosedModel),
    FetchSpaceResult(FetchSpaceResultModel),
    ResyncRequired(ResyncRequiredModel),
    CommandRejected(CommandRejectedModel),
    SessionClosing(SessionClosingModel),
}

impl View for ServerPayload {
    type V = ServerPayloadModel;

    open spec fn view(&self) -> ServerPayloadModel {
        match self {
            ServerPayload::SessionReady(message) => ServerPayloadModel::SessionReady(message@),
            ServerPayload::DesiredStateReconciled(message) => ServerPayloadModel::DesiredStateReconciled(message@),
            ServerPayload::ParticipantOwnershipGranted(message) => ServerPayloadModel::ParticipantOwnershipGranted(message@),
            ServerPayload::ParticipantOwnershipRevoked(message) => ServerPayloadModel::ParticipantOwnershipRevoked(message@),
            ServerPayload::ParticipantSpecAccepted(message) => ServerPayloadModel::ParticipantSpecAccepted(message@),
            ServerPayload::ParticipantStatusChanged(message) => ServerPayloadModel::ParticipantStatusChanged(message@),
            ServerPayload::ObservedSpacesAccepted(message) => ServerPayloadModel::ObservedSpacesAccepted(message@),
            ServerPayload::SpaceSnapshot(message) => ServerPayloadModel::SpaceSnapshot(message@),
            ServerPayload::SpaceClosed(message) => ServerPayloadModel::SpaceClosed(message@),
            ServerPayload::FetchSpaceResult(message) => ServerPayloadModel::FetchSpaceResult(message@),
            ServerPayload::ResyncRequired(message) => ServerPayloadModel::ResyncRequired(message@),
            ServerPayload::CommandRejected(message) => ServerPayloadModel::CommandRejected(message@),
            ServerPayload::SessionClosing(message) => ServerPayloadModel::SessionClosing(message@),
        }
    }
}

impl Clone for ServerPayload {
    fn clone(&self) -> (copy: Self)
        ensures
            copy@ == self@,
    {
        match self {
            ServerPayload::SessionReady(message) => ServerPayload::SessionReady(message.clone()),
            ServerPayload::DesiredStateReconciled(message) => ServerPayload::DesiredStateReconciled(message.clone()),
            ServerPayload::ParticipantOwnershipGranted(message) => ServerPayload::ParticipantOwnershipGranted(message.clone()),
            ServerPayload::ParticipantOwnershipRevoked(message) => ServerPayload::ParticipantOwnershipRevoked(message.clone()),
            ServerPayload::ParticipantSpecAccepted(message) => ServerPayload::ParticipantSpecAccepted(message.clone()),
            ServerPayload::ParticipantStatusChanged(message) => ServerPayload::ParticipantStatusChanged(message.clone()),
            ServerPayload::ObservedSpacesAccepted(message) => ServerPayload::ObservedSpacesAccepted(message.clone()),
            ServerPayload::SpaceSnapshot(message) => ServerPayload::SpaceSnapshot(message.clone()),
            ServerPayload::SpaceClosed(message) => ServerPayload::SpaceClosed(message.clone()),
            ServerPayload::FetchSpaceResult(message) => ServerPayload::FetchSpaceResult(message.clone()),
            ServerPayload::ResyncRequired(message) => ServerPayload::ResyncRequired(message.clone()),
            ServerPayload::CommandRejected(message) => ServerPayload::CommandRejected(message.clone()),
            ServerPayload::SessionClosing(message) => ServerPayload::SessionClosing(message.clone()),
        }
    }
}

/// One frame to a controller.
#[derive(Debug, PartialEq, Eq)]
pub struct ServerFrame {
    pub request_id: Vec<u8>,
    pub payload: Option<ServerPayload>,
}

pub struct ServerFrameModel {
    pub request_id: Seq<u8>,
    pub payload: Option<ServerPayloadModel>,
}

impl View for ServerFrame {
    type V = ServerFrameModel;

    open spec fn view(&self) -> ServerFrameModel {
        ServerFrameModel {
            request_id: self.request_id@,
            payload: optional(self.payload),
        }
    }
}

impl Clone for ServerFrame {
    fn clone(&self) -> (copy: Self)
        ensures
            copy@ == self@,
    {
        ServerFrame {
            request_id: copy_bytes(self.request_id.as_slice()),
            payload: match &self.payload {
                Some(inner) => Some(inner.clone()),
                None => None,
            },
        }
    }
}

} // verus!
