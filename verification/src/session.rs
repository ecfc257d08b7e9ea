//! Controller sessions: profile negotiation, credentials, leases.

use vstd::prelude::*;

use crate::clock::{Duration, Instant};
use crate::ordered::SortedMap;
use crate::text::{copy_bytes, decimal_text, join_text, same_bytes, same_text};

verus! {

pub type SessionId = u64;

/// What a profile reference names.
pub struct ProfileModel {
    pub profile_id: Seq<char>,
    pub schema_version: u32,
    pub descriptor_digest: Seq<char>,
}

/// A complete reference to one version of a Controller profile.
#[derive(Debug, PartialEq, Eq)]
pub struct ProfileRef {
    profile_id: String,
    schema_version: u32,
    descriptor_digest: String,
}

impl View for ProfileRef {
    type V = ProfileModel;

    closed spec fn view(&self) -> ProfileModel {
        ProfileModel {
            profile_id: self.profile_id@,
            schema_version: self.schema_version,
            descriptor_digest: self.descriptor_digest@,
        }
    }
}

impl ProfileModel {
    /// All three parts of the reference are present.
    pub open spec fn complete(self) -> bool {
        self.profile_id.len() > 0 && self.schema_version != 0 && self.descriptor_digest.len() > 0
    }
}

impl Clone for ProfileRef {
    fn clone(&self) -> (copy: Self)
        ensures
            copy@ == self@,
    {
        proof {
            use_type_invariant(self);
        }
        ProfileRef {
            profile_id: self.profile_id.clone(),
            schema_version: self.schema_version,
            descriptor_digest: self.descriptor_digest.clone(),
        }
    }
}

impl ProfileRef {
    #[verifier::type_invariant]
    spec fn is_complete(self) -> bool {
        self@.complete()
    }

    pub fn new(
        profile_id: String,
        schema_version: u32,
        descriptor_digest: String,
    ) -> (result: Result<Self, ProfileError>)
        ensures
            crate::text::outcome(result) == ({
                let named = ProfileModel {
                    profile_id: profile_id@,
                    schema_version,
                    descriptor_digest: descriptor_digest@,
                };
                if named.complete() {
                    Ok(named)
                } else {
                    Err(ProfileError::InvalidReference)
                }
            }),
    {
        if profile_id.as_str().is_empty() || schema_version == 0
            || descriptor_digest.as_str().is_empty() {
            return Err(ProfileError::InvalidReference);
        }
        Ok(ProfileRef { profile_id, schema_version, descriptor_digest })
    }

    pub fn profile_id(&self) -> (text: &str)
        ensures
            text@ == self@.profile_id,
    {
        self.profile_id.as_str()
    }

    pub fn schema_version(&self) -> (version: u32)
        ensures
            version == self@.schema_version,
    {
        self.schema_version
    }

    pub fn descriptor_digest(&self) -> (text: &str)
        ensures
            text@ == self@.descriptor_digest,
    {
        self.descriptor_digest.as_str()
    }

    /// Whether two references name the same profile, version and descriptor.
    pub fn same(&self, other: &ProfileRef) -> (same: bool)
        ensures
            same == (self@ == other@),
    {
        same_text(self.profile_id.as_str(), other.profile_id.as_str()) && self.schema_version
            == other.schema_version && same_text(
            self.descriptor_digest.as_str(),
            other.descriptor_digest.as_str(),
        )
    }
}

/// The outcome of negotiating `requested` where `supported` is compiled in.
pub open spec fn negotiated(requested: ProfileModel, supported: ProfileModel) -> Result<
    ProfileModel,
    ProfileError,
> {
    if requested.profile_id != supported.profile_id {
        Err(ProfileError::UnknownProfile)
    } else if requested.schema_version != supported.schema_version {
        Err(ProfileError::UnknownSchemaVersion)
    } else if requested.descriptor_digest != supported.descriptor_digest {
        Err(ProfileError::DescriptorMismatch)
    } else {
        Ok(supported)
    }
}

/// Accepts exactly the supported profile.
pub fn negotiate_profile(requested: &ProfileRef, supported: &ProfileRef) -> (result: Result<
    ProfileRef,
    ProfileError,
>)
    ensures
        crate::text::outcome(result) == negotiated(requested@, supported@),
{
    if !same_text(requested.profile_id.as_str(), supported.profile_id.as_str()) {
        return Err(ProfileError::UnknownProfile);
    }
    if requested.schema_version != supported.schema_version {
        return Err(ProfileError::UnknownSchemaVersion);
    }
    if !same_text(requested.descriptor_digest.as_str(), supported.descriptor_digest.as_str()) {
        return Err(ProfileError::DescriptorMismatch);
    }
    Ok(supported.clone())
}

/// Negotiation succeeds on the supported profile alone, and then yields it.
pub proof fn negotiation_is_exact(requested: ProfileModel, supported: ProfileModel)
    ensures
        negotiated(requested, supported) is Ok <==> requested == supported,
        negotiated(requested, supported) matches Ok(selected) ==> selected == supported,
{
}

#[derive(Debug, Clone, Copy, PartialEq, Eq, Structural)]
pub enum ProfileError {
    InvalidReference,
    UnknownProfile,
    UnknownSchemaVersion,
    DescriptorMismatch,
}

impl ProfileError {
    pub open spec fn text(self) -> Seq<char> {
        match self {
            ProfileError::InvalidReference =>
                "profile_id, schema_version and descriptor_digest must be present"@,
            ProfileError::UnknownProfile =>
                "the requested Controller profile is not compiled into this server"@,
            ProfileError::UnknownSchemaVersion =>
                "the requested Controller profile schema version is not supported"@,
            ProfileError::DescriptorMismatch =>
                "the requested Controller profile descriptor digest does not match"@,
        }
    }

    /// The error in words.
    pub fn message(&self) -> (message: String)
        ensures
            message@ == self.text(),
    {
        match self {
            ProfileError::InvalidReference =>
                "profile_id, schema_version and descriptor_digest must be present".to_owned(),
            ProfileError::UnknownProfile =>
                "the requested Controller profile is not compiled into this server".to_owned(),
            ProfileError::UnknownSchemaVersion =>
                "the requested Controller profile schema version is not supported".to_owned(),
            ProfileError::DescriptorMismatch =>
                "the requested Controller profile descriptor digest does not match".to_owned(),
        }
    }
}

/// The two bearer tokens of a session.
pub struct CredentialsModel {
    pub session_token: Seq<u8>,
    pub resume_token: Seq<u8>,
}

#[derive(Debug, PartialEq, Eq)]
pub struct SessionCredentials {
    session_token: Vec<u8>,
    resume_token: Vec<u8>,
}

impl View for SessionCredentials {
    type V = CredentialsModel;

    closed spec fn view(&self) -> CredentialsModel {
        CredentialsModel { session_token: self.session_token@, resume_token: self.resume_token@ }
    }
}

impl CredentialsModel {
    pub open spec fn present(self) -> bool {
        self.session_token.len() > 0 && self.resume_token.len() > 0
    }
}

impl Clone for SessionCredentials {
    fn clone(&self) -> (copy: Self)
        ensures
            copy@ == self@,
    {
        proof {
            use_type_invariant(self);
        }
        let session_token = copy_bytes(self.session_token.as_slice());
        let resume_token = copy_bytes(self.resume_token.as_slice());
        SessionCredentials { session_token, resume_token }
    }
}

impl SessionCredentials {
    #[verifier::type_invariant]
    spec fn is_present(self) -> bool {
        self@.present()
    }

    pub fn new(session_token: Vec<u8>, resume_token: Vec<u8>) -> (result: Result<
        Self,
        SessionError,
    >)
        ensures
            crate::text::outcome(result) == ({
                let credentials = CredentialsModel {
                    session_token: session_token@,
                    resume_token: resume_token@,
                };
                if credentials.present() {
                    Ok(credentials)
                } else {
                    Err(SessionError::EmptyCredential)
                }
            }),
    {
        if session_token.is_empty() || resume_token.is_empty() {
            return Err(SessionError::EmptyCredential);
        }
        Ok(SessionCredentials { session_token, resume_token })
    }
}

/// A request to open or resume a session.
pub struct OpenSession<'a> {
    pub controller_id: &'a str,
    pub controller_instance_id: &'a [u8],
    pub resume_token: &'a [u8],
    pub profile: ProfileRef,
    pub credentials: SessionCredentials,
    pub now: Instant,
}

pub struct OpenModel {
    pub controller_id: Seq<char>,
    pub controller_instance_id: Seq<u8>,
    pub resume_token: Seq<u8>,
    pub profile: ProfileModel,
    pub credentials: CredentialsModel,
    pub now: nat,
}

impl<'a> View for OpenSession<'a> {
    type V = OpenModel;

    open spec fn view(&self) -> OpenModel {
        OpenModel {
            controller_id: self.controller_id@,
            controller_instance_id: self.controller_instance_id@,
            resume_token: self.resume_token@,
            profile: self.profile@,
            credentials: self.credentials@,
            now: self.now@,
        }
    }
}

/// What an opened or resumed session is told.
#[derive(Debug, PartialEq, Eq)]
pub struct SessionReady {
    pub session_id: SessionId,
    pub session_token: Vec<u8>,
    pub resume_token: Vec<u8>,
    pub profile: ProfileRef,
    pub resumed: bool,
}

pub struct ReadyModel {
    pub session_id: SessionId,
    pub session_token: Seq<u8>,
    pub resume_token: Seq<u8>,
    pub profile: ProfileModel,
    pub resumed: bool,
}

impl View for SessionReady {
    type V = ReadyModel;

    open spec fn view(&self) -> ReadyModel {
        ReadyModel {
            session_id: self.session_id,
            session_token: self.session_token@,
            resume_token: self.resume_token@,
            profile: self.profile@,
            resumed: self.resumed,
        }
    }
}

#[derive(Debug, Clone, Copy, PartialEq, Eq, Structural)]
pub enum RenewOutcome {
    Current,
    ResyncRequired,
}

struct Session {
    controller_id: String,
    controller_instance_id: Vec<u8>,
    session_token: Vec<u8>,
    resume_token: Vec<u8>,
    profile: ProfileRef,
    expires_at: Instant,
    desired_revision: u64,
    needs_resync: bool,
}

pub struct SessionModel {
    pub controller_id: Seq<char>,
    pub controller_instance_id: Seq<u8>,
    pub session_token: Seq<u8>,
    pub resume_token: Seq<u8>,
    pub profile: ProfileModel,
    pub expires_at: nat,
    pub desired_revision: u64,
    pub needs_resync: bool,
}

impl View for Session {
    type V = SessionModel;

    closed spec fn view(&self) -> SessionModel {
        SessionModel {
            controller_id: self.controller_id@,
            controller_instance_id: self.controller_instance_id@,
            session_token: self.session_token@,
            resume_token: self.resume_token@,
            profile: self.profile@,
            expires_at: self.expires_at@,
            desired_revision: self.desired_revision,
            needs_resync: self.needs_resync,
        }
    }
}

/// The live sessions, and the limits under which they were opened.
#[verifier::ext_equal]
pub struct RegistryModel {
    pub maximum_sessions: nat,
    pub lease_duration: nat,
    pub sessions: Map<SessionId, SessionModel>,
    pub next_session_id: SessionId,
}

impl RegistryModel {
    /// Tokens are bearer capabilities: no two live sessions share one. An
    /// identifier that was handed out stays below the next one.
    pub open spec fn valid(self) -> bool {
        &&& self.sessions.dom().finite()
        &&& self.next_session_id >= 1
        &&& forall|id: SessionId| #[trigger]
            self.sessions.dom().contains(id) ==> 1 <= id < self.next_session_id
        &&& forall|a: SessionId, b: SessionId| #[trigger]
            self.sessions.dom().contains(a) && #[trigger] self.sessions.dom().contains(b) && a != b
                ==> self.sessions[a].session_token != self.sessions[b].session_token
                && self.sessions[a].resume_token != self.sessions[b].resume_token
    }

    /// Whether `request` presents the resume capability of session `id`.
    pub open spec fn resumes(self, request: OpenModel, id: SessionId) -> bool {
        &&& self.sessions.dom().contains(id)
        &&& self.sessions[id].resume_token == request.resume_token
        &&& self.sessions[id].controller_id == request.controller_id
        &&& self.sessions[id].controller_instance_id == request.controller_instance_id
        &&& self.sessions[id].profile == request.profile
        &&& self.sessions[id].expires_at > request.now
    }

    pub open spec fn has_session_token(self, token: Seq<u8>) -> bool {
        exists|id: SessionId| #[trigger]
            self.sessions.dom().contains(id) && self.sessions[id].session_token == token
    }

    pub open spec fn has_resume_token(self, token: Seq<u8>) -> bool {
        exists|id: SessionId| #[trigger]
            self.sessions.dom().contains(id) && self.sessions[id].resume_token == token
    }

    /// The registry with another state of session `id`.
    pub open spec fn with(self, id: SessionId, session: SessionModel) -> Self {
        RegistryModel { sessions: self.sessions.insert(id, session), ..self }
    }

    /// The registry and the answer after a request to open a session.
    pub open spec fn opened(self, request: OpenModel) -> (Self, Result<ReadyModel, SessionError>) {
        let fresh = request.credentials;
        if request.controller_id.len() == 0 || request.controller_instance_id.len() == 0 {
            (self, Err(SessionError::InvalidIdentity))
        } else if exists|id: SessionId| self.resumes(request, id) {
            let id = choose|id: SessionId| self.resumes(request, id);
            let session = SessionModel {
                session_token: fresh.session_token,
                expires_at: request.now + self.lease_duration,
                ..self.sessions[id]
            };
            if self.has_session_token(fresh.session_token) {
                (self, Err(SessionError::CredentialCollision))
            } else {
                (
                    self.with(id, session),
                    Ok(
                        ReadyModel {
                            session_id: id,
                            session_token: fresh.session_token,
                            resume_token: session.resume_token,
                            profile: session.profile,
                            resumed: true,
                        },
                    ),
                )
            }
        } else if self.sessions.len() >= self.maximum_sessions {
            (self, Err(SessionError::ResourceExhausted))
        } else if self.has_resume_token(fresh.resume_token) || self.has_session_token(
            fresh.session_token,
        ) {
            (self, Err(SessionError::CredentialCollision))
        } else if self.next_session_id == u64::MAX {
            (self, Err(SessionError::SessionIdExhausted))
        } else {
            let id = self.next_session_id;
            let session = SessionModel {
                controller_id: request.controller_id,
                controller_instance_id: request.controller_instance_id,
                session_token: fresh.session_token,
                resume_token: fresh.resume_token,
                profile: request.profile,
                expires_at: request.now + self.lease_duration,
                desired_revision: 0,
                needs_resync: false,
            };
            (
                RegistryModel {
                    sessions: self.sessions.insert(id, session),
                    next_session_id: (id + 1) as u64,
                    ..self
                },
                Ok(
                    ReadyModel {
                        session_id: id,
                        session_token: fresh.session_token,
                        resume_token: fresh.resume_token,
                        profile: request.profile,
                        resumed: false,
                    },
                ),
            )
        }
    }

    pub open spec fn authorizes(self, id: SessionId, token: Seq<u8>) -> bool {
        self.sessions.dom().contains(id) && self.sessions[id].session_token == token
    }

    /// The registry and the answer after a request to renew a lease.
    pub open spec fn renewed(
        self,
        id: SessionId,
        token: Seq<u8>,
        desired_revision: u64,
        now: nat,
    ) -> (Self, Result<RenewOutcome, SessionError>) {
        if !self.authorizes(id, token) {
            (self, Err(SessionError::InvalidSessionToken))
        } else {
            let session = self.sessions[id];
            (
                self.with(
                    id,
                    SessionModel {
                        expires_at: now + self.lease_duration,
                        needs_resync: false,
                        ..session
                    },
                ),
                if session.needs_resync || session.desired_revision != desired_revision {
                    Ok(RenewOutcome::ResyncRequired)
                } else {
                    Ok(RenewOutcome::Current)
                },
            )
        }
    }

    pub open spec fn with_desired_revision(self, id: SessionId, desired_revision: u64) -> Self {
        if self.sessions.dom().contains(id) {
            self.with(id, SessionModel { desired_revision, ..self.sessions[id] })
        } else {
            self
        }
    }

    /// The desired revision counts accepted changes and stops at its maximum.
    pub open spec fn advanced(self, id: SessionId) -> Self {
        let current = self.sessions[id].desired_revision;
        self.with_desired_revision(
            id,
            if current == u64::MAX {
                u64::MAX
            } else {
                (current + 1) as u64
            },
        )
    }

    pub open spec fn resync_marked(self, id: SessionId) -> Self {
        if self.sessions.dom().contains(id) {
            self.with(id, SessionModel { needs_resync: true, ..self.sessions[id] })
        } else {
            self
        }
    }

    pub open spec fn lease_refreshed(self, id: SessionId, now: nat) -> Self {
        if self.sessions.dom().contains(id) {
            self.with(
                id,
                SessionModel { expires_at: now + self.lease_duration, ..self.sessions[id] },
            )
        } else {
            self
        }
    }

    pub open spec fn removed(self, id: SessionId) -> Self {
        RegistryModel { sessions: self.sessions.remove(id), ..self }
    }

    /// The sessions whose lease has ended, in ascending order.
    pub open spec fn expired(self, now: nat) -> Seq<SessionId> {
        crate::ordered::in_order::<SessionId>(self.sessions.dom()).filter(
            |id: SessionId| self.sessions[id].expires_at <= now,
        )
    }

    /// `deadline` is the first end of a lease, if there is a session at all.
    pub open spec fn first_deadline(self, deadline: Option<nat>) -> bool {
        match deadline {
            None => self.sessions.dom() =~= Set::empty(),
            Some(at) => {
                &&& exists|id: SessionId| #[trigger]
                    self.sessions.dom().contains(id) && self.sessions[id].expires_at == at
                &&& forall|id: SessionId| #[trigger]
                    self.sessions.dom().contains(id) ==> at <= self.sessions[id].expires_at
            },
        }
    }
}

/// The live sessions of a server.
pub struct SessionRegistry {
    maximum_sessions: usize,
    lease_duration: Duration,
    sessions: SortedMap<SessionId, Session>,
    resume_tokens: SortedMap<Vec<u8>, SessionId>,
    next_session_id: SessionId,
}

impl View for SessionRegistry {
    type V = RegistryModel;

    closed spec fn view(&self) -> RegistryModel {
        RegistryModel {
            maximum_sessions: self.maximum_sessions as nat,
            lease_duration: self.lease_duration@,
            sessions: self.sessions@.map_values(|session: Session| session@),
            next_session_id: self.next_session_id,
        }
    }
}

impl SessionRegistry {
    /// The resume tokens index the live sessions.
    pub closed spec fn wf(&self) -> bool {
        &&& self.sessions.wf()
        &&& self.resume_tokens.wf()
        &&& self@.valid()
        &&& forall|token: Seq<u8>| #[trigger]
            self.resume_tokens@.dom().contains(token) ==> {
                let id = self.resume_tokens@[token];
                self.sessions@.dom().contains(id) && self.sessions@[id].resume_token@ == token
            }
        &&& forall|id: SessionId| #[trigger]
            self.sessions@.dom().contains(id) ==> self.resume_tokens@.dom().contains(
                self.sessions@[id].resume_token@,
            )
    }

    pub proof fn lemma_valid(&self)
        requires
            self.wf(),
        ensures
            self@.valid(),
    {
    }

    pub fn new(maximum_sessions: usize, lease_duration: Duration) -> (registry: Self)
        ensures
            registry.wf(),
            registry@ == (RegistryModel {
                maximum_sessions: maximum_sessions as nat,
                lease_duration: lease_duration@,
                sessions: Map::empty(),
                next_session_id: 1,
            }),
    {
        let registry = SessionRegistry {
            maximum_sessions,
            lease_duration,
            sessions: SortedMap::new(),
            resume_tokens: SortedMap::new(),
            next_session_id: 1,
        };
        assert(registry@.sessions =~= Map::empty());
        registry
    }

    /// Replaces one session by a state with the same resume token.
    proof fn lemma_replaced(before: Self, after: Self, id: SessionId, session: Session)
        requires
            before.wf(),
            before.sessions@.dom().contains(id),
            after.sessions.wf(),
            after.sessions@ == before.sessions@.insert(id, session),
            after.resume_tokens == before.resume_tokens,
            after.next_session_id == before.next_session_id,
            after.maximum_sessions == before.maximum_sessions,
            after.lease_duration == before.lease_duration,
            session@.resume_token == before.sessions@[id]@.resume_token,
            session@.session_token == before.sessions@[id]@.session_token
                || !before@.has_session_token(session@.session_token),
        ensures
            after.wf(),
            after@ == before@.with(id, session@),
    {
        crate::ordered::lemma_map_insert(
            before.sessions@,
            id,
            session,
            |session: Session| session@,
        );
        assert(after@.sessions == before@.sessions.insert(id, session@));
        assert(after@.sessions.dom() =~= before@.sessions.dom());
        assert forall|a: SessionId, b: SessionId| #[trigger]
            after@.sessions.dom().contains(a) && #[trigger] after@.sessions.dom().contains(b) && a
                != b implies after@.sessions[a].session_token != after@.sessions[b].session_token
            && after@.sessions[a].resume_token != after@.sessions[b].resume_token by {
            assert(before@.sessions.dom().contains(a));
            assert(before@.sessions.dom().contains(b));
        }
        assert forall|token: Seq<u8>| #[trigger]
            after.resume_tokens@.dom().contains(token) implies ({
            let i = after.resume_tokens@[token];
            after.sessions@.dom().contains(i) && after.sessions@[i].resume_token@ == token
        }) by {
            assert(before.resume_tokens@.dom().contains(token));
        }
        assert forall|i: SessionId| #[trigger]
            after.sessions@.dom().contains(i) implies after.resume_tokens@.dom().contains(
            after.sessions@[i].resume_token@,
        ) by {
            assert(before.sessions@.dom().contains(i));
        }
    }

    /// Opens a session, or resumes the one whose resume token is presented by
    /// the same controller instance under the same profile.
    pub fn open(&mut self, request: OpenSession<'_>) -> (result: Result<SessionReady, SessionError>)
        requires
            old(self).wf(),
            old(self)@.opened(request@).1 is Ok ==> crate::clock::reaches(
                request.now@,
                old(self)@.lease_duration,
            ),
        ensures
            final(self).wf(),
            (final(self)@, crate::text::outcome(result)) == old(self)@.opened(request@),
    {
        let ghost before = *self;
        if request.controller_id.is_empty() || request.controller_instance_id.len() == 0 {
            return Err(SessionError::InvalidIdentity);
        }
        let resumed = self.resumable(&request);
        if let Some(session_id) = resumed {
            proof {
                let chosen = choose|id: SessionId| before@.resumes(request@, id);
                assert(before@.resumes(request@, session_id));
                assert(before@.resumes(request@, chosen));
                assert(chosen == session_id);
            }
            if self.session_token_exists(request.credentials.session_token.as_slice()) {
                return Err(SessionError::CredentialCollision);
            }
            let expires_at = request.now.after(self.lease_duration);
            match self.sessions.get_mut(&session_id) {
                None => {
                    return Err(SessionError::MissingSession(session_id));
                },
                Some(session) => {
                    session.session_token = copy_bytes(
                        request.credentials.session_token.as_slice(),
                    );
                    session.expires_at = expires_at;
                    let ready = SessionReady {
                        session_id,
                        session_token: copy_bytes(session.session_token.as_slice()),
                        resume_token: copy_bytes(session.resume_token.as_slice()),
                        profile: session.profile.clone(),
                        resumed: true,
                    };
                    proof {
                        Self::lemma_replaced(before, *self, session_id, self.sessions@[session_id]);
                    }
                    return Ok(ready);
                },
            }
        }
        proof {
            assert(!exists|id: SessionId| before@.resumes(request@, id));
            assert(before@.sessions.dom() =~= before.sessions@.dom());
        }
        if self.sessions.len() >= self.maximum_sessions {
            return Err(SessionError::ResourceExhausted);
        }
        proof {
            let token = request@.credentials.resume_token;
            if before.resume_tokens@.dom().contains(token) {
                assert(before@.sessions.dom().contains(before.resume_tokens@[token]));
            }
            if before@.has_resume_token(token) {
                let id = choose|id: SessionId| #[trigger]
                    before@.sessions.dom().contains(id) && before@.sessions[id].resume_token
                        == token;
                assert(before.sessions@.dom().contains(id));
            }
        }
        if self.resume_tokens.contains_key(request.credentials.resume_token.as_slice())
            || self.session_token_exists(request.credentials.session_token.as_slice()) {
            return Err(SessionError::CredentialCollision);
        }
        let session_id: SessionId = self.next_session_id;
        match self.next_session_id.checked_add(1) {
            None => {
                return Err(SessionError::SessionIdExhausted);
            },
            Some(next) => {
                self.next_session_id = next;
            },
        }
        let session = Session {
            controller_id: request.controller_id.to_owned(),
            controller_instance_id: copy_bytes(request.controller_instance_id),
            session_token: copy_bytes(request.credentials.session_token.as_slice()),
            resume_token: copy_bytes(request.credentials.resume_token.as_slice()),
            profile: request.profile.clone(),
            expires_at: request.now.after(self.lease_duration),
            desired_revision: 0,
            needs_resync: false,
        };
        let ghost created = session;
        self.resume_tokens.insert(copy_bytes(session.resume_token.as_slice()), session_id);
        self.sessions.insert(session_id, session);
        proof {
            crate::ordered::lemma_map_insert(
                before.sessions@,
                session_id,
                created,
                |session: Session| session@,
            );
            assert(self@.sessions == before@.sessions.insert(session_id, created@));
            assert(!before@.sessions.dom().contains(session_id));
            assert forall|a: SessionId, b: SessionId| #[trigger]
                self@.sessions.dom().contains(a) && #[trigger] self@.sessions.dom().contains(b) && a
                    != b implies self@.sessions[a].session_token != self@.sessions[b].session_token
                && self@.sessions[a].resume_token != self@.sessions[b].resume_token by {
                if a != session_id {
                    assert(before@.sessions.dom().contains(a));
                }
                if b != session_id {
                    assert(before@.sessions.dom().contains(b));
                }
            }
            assert forall|token: Seq<u8>| #[trigger]
                self.resume_tokens@.dom().contains(token) implies ({
                let i = self.resume_tokens@[token];
                self.sessions@.dom().contains(i) && self.sessions@[i].resume_token@ == token
            }) by {
                if token != created.resume_token@ {
                    assert(before.resume_tokens@.dom().contains(token));
                    let i = before.resume_tokens@[token];
                    assert(before@.sessions.dom().contains(i));
                }
            }
            assert forall|i: SessionId| #[trigger]
                self.sessions@.dom().contains(i) implies self.resume_tokens@.dom().contains(
                self.sessions@[i].resume_token@,
            ) by {
                if i != session_id {
                    assert(before.sessions@.dom().contains(i));
                }
            }
        }
        Ok(
            SessionReady {
                session_id,
                session_token: request.credentials.session_token,
                resume_token: request.credentials.resume_token,
                profile: request.profile,
                resumed: false,
            },
        )
    }

    /// The session that `request` resumes.
    fn resumable(&self, request: &OpenSession<'_>) -> (resumed: Option<SessionId>)
        requires
            self.wf(),
        ensures
            match resumed {
                Some(id) => self@.resumes(request@, id) && (forall|other: SessionId|
                    self@.resumes(request@, other) ==> other == id),
                None => forall|id: SessionId| !self@.resumes(request@, id),
            },
    {
        proof {
            assert forall|other: SessionId| self@.resumes(request@, other) implies
                self.resume_tokens@.dom().contains(request@.resume_token)
                && self.resume_tokens@[request@.resume_token] == other by {
                assert(self.sessions@.dom().contains(other));
                let indexed = self.resume_tokens@[request@.resume_token];
                assert(self@.sessions.dom().contains(indexed));
                assert(self@.sessions.dom().contains(other));
            }
        }
        match self.resume_tokens.get(request.resume_token) {
            None => None,
            Some(found) => {
                let session_id: SessionId = *found;
                match self.sessions.get(&session_id) {
                    None => None,
                    Some(session) => {
                        if same_text(session.controller_id.as_str(), request.controller_id)
                            && same_bytes(
                            session.controller_instance_id.as_slice(),
                            request.controller_instance_id,
                        ) && session.profile.same(&request.profile) && session.expires_at.nanos
                            > request.now.nanos {
                            Some(session_id)
                        } else {
                            None
                        }
                    },
                }
            },
        }
    }

    /// Whether `session_token` is the current token of the session.
    pub fn authorize(&self, session_id: SessionId, session_token: &[u8]) -> (authorized: bool)
        requires
            self.wf(),
        ensures
            authorized == self@.authorizes(session_id, session_token@),
    {
        match self.sessions.get(&session_id) {
            None => false,
            Some(session) => same_bytes(session.session_token.as_slice(), session_token),
        }
    }

    /// Extends the lease, and reports whether the peers still agree.
    pub fn renew(
        &mut self,
        session_id: SessionId,
        session_token: &[u8],
        desired_revision: u64,
        now: Instant,
    ) -> (result: Result<RenewOutcome, SessionError>)
        requires
            old(self).wf(),
            old(self)@.authorizes(session_id, session_token@) ==> crate::clock::reaches(
                now@,
                old(self)@.lease_duration,
            ),
        ensures
            final(self).wf(),
            (final(self)@, result) == old(self)@.renewed(
                session_id,
                session_token@,
                desired_revision,
                now@,
            ),
            result is Ok ==> final(self)@.sessions[session_id].expires_at == now@ + old(
                self,
            )@.lease_duration,
    {
        let ghost before = *self;
        if !self.authorize(session_id, session_token) {
            return Err(SessionError::InvalidSessionToken);
        }
        let expires_at = now.after(self.lease_duration);
        match self.sessions.get_mut(&session_id) {
            None => Err(SessionError::MissingSession(session_id)),
            Some(session) => {
                session.expires_at = expires_at;
                let requires_resync = session.needs_resync || session.desired_revision
                    != desired_revision;
                session.needs_resync = false;
                proof {
                    Self::lemma_replaced(before, *self, session_id, self.sessions@[session_id]);
                }
                if requires_resync {
                    Ok(RenewOutcome::ResyncRequired)
                } else {
                    Ok(RenewOutcome::Current)
                }
            },
        }
    }

    pub fn advance_desired_revision(&mut self, session_id: SessionId)
        requires
            old(self).wf(),
        ensures
            final(self).wf(),
            final(self)@ == old(self)@.advanced(session_id),
    {
        let ghost before = *self;
        if let Some(session) = self.sessions.get_mut(&session_id) {
            session.desired_revision = session.desired_revision.saturating_add(1);
            proof {
                Self::lemma_replaced(before, *self, session_id, self.sessions@[session_id]);
            }
        }
    }

    pub fn set_desired_revision(&mut self, session_id: SessionId, desired_revision: u64)
        requires
            old(self).wf(),
        ensures
            final(self).wf(),
            final(self)@ == old(self)@.with_desired_revision(session_id, desired_revision),
    {
        let ghost before = *self;
        if let Some(session) = self.sessions.get_mut(&session_id) {
            session.desired_revision = desired_revision;
            proof {
                Self::lemma_replaced(before, *self, session_id, self.sessions@[session_id]);
            }
        }
    }

    pub fn mark_resync_required(&mut self, session_id: SessionId)
        requires
            old(self).wf(),
        ensures
            final(self).wf(),
            final(self)@ == old(self)@.resync_marked(session_id),
    {
        let ghost before = *self;
        if let Some(session) = self.sessions.get_mut(&session_id) {
            session.needs_resync = true;
            proof {
                Self::lemma_replaced(before, *self, session_id, self.sessions@[session_id]);
            }
        }
    }

    pub fn refresh_lease(&mut self, session_id: SessionId, now: Instant)
        requires
            old(self).wf(),
            old(self)@.sessions.dom().contains(session_id) ==> crate::clock::reaches(
                now@,
                old(self)@.lease_duration,
            ),
        ensures
            final(self).wf(),
            final(self)@ == old(self)@.lease_refreshed(session_id, now@),
    {
        let ghost before = *self;
        let lease: Duration = self.lease_duration;
        if let Some(session) = self.sessions.get_mut(&session_id) {
            session.expires_at = now.after(lease);
            proof {
                Self::lemma_replaced(before, *self, session_id, self.sessions@[session_id]);
            }
        }
    }

    /// The first end of a lease.
    pub fn next_deadline(&self) -> (deadline: Option<Instant>)
        requires
            self.wf(),
        ensures
            self@.first_deadline(crate::text::optional(deadline)),
    {
        proof {
            self.sessions.lemma_in_order();
        }
        let ghost keys = self.sessions.keys();
        let count: usize = self.sessions.len();
        let mut first: Option<Instant> = None;
        let mut i: usize = 0;
        while i < count
            invariant
                self.wf(),
                keys == self.sessions.keys(),
                count == keys.len(),
                i <= count,
                first is None <==> i == 0,
                first matches Some(at) ==> {
                    &&& exists|k: int| 0 <= k < i && self.sessions@[#[trigger] keys[k]]@.expires_at == at@
                    &&& forall|k: int| 0 <= k < i ==> at@ <= self.sessions@[#[trigger] keys[k]]@.expires_at
                },
            decreases count - i,
        {
            let session = self.sessions.value_at(i);
            let at = session.expires_at;
            assert(self.sessions@[keys[i as int]]@.expires_at == at@);
            first = match first {
                None => Some(at),
                Some(earliest) => {
                    if at.nanos < earliest.nanos {
                        Some(at)
                    } else {
                        Some(earliest)
                    }
                },
            };
            i = i + 1;
        }
        proof {
            assert(self@.sessions.dom() =~= self.sessions@.dom());
            assert forall|id: SessionId| #[trigger] self@.sessions.dom().contains(id) implies first
                is Some && first->0@ <= self@.sessions[id].expires_at by {
                assert(keys.to_set().contains(id));
                let k = choose|k: int| 0 <= k < keys.len() && keys[k] == id;
                assert(keys[k] == id);
            }
            if first is Some {
                let k = choose|k: int|
                    0 <= k < i && self.sessions@[#[trigger] keys[k]]@.expires_at == first->0@;
                assert(keys.to_set().contains(keys[k]));
                assert(self@.sessions.dom().contains(keys[k]));
            }
        }
        first
    }

    /// The sessions whose lease has ended.
    pub fn expired_sessions(&self, now: Instant) -> (expired: Vec<SessionId>)
        requires
            self.wf(),
        ensures
            expired@ == self@.expired(now@),
    {
        proof {
            self.sessions.lemma_in_order();
            assert(self@.sessions.dom() =~= self.sessions@.dom());
        }
        let ghost keys = self.sessions.keys();
        let ghost ended = |id: SessionId| self@.sessions[id].expires_at <= now@;
        let count: usize = self.sessions.len();
        let mut expired: Vec<SessionId> = Vec::new();
        let mut i: usize = 0;
        while i < count
            invariant
                self.wf(),
                keys == self.sessions.keys(),
                self@.sessions.dom() == self.sessions@.dom(),
                ended == (|id: SessionId| self@.sessions[id].expires_at <= now@),
                count == keys.len(),
                i <= count,
                expired@ == keys.take(i as int).filter(ended),
            decreases count - i,
        {
            let session_id: SessionId = *self.sessions.key_at(i);
            let session = self.sessions.value_at(i);
            proof {
                assert(keys.take(i + 1) =~= keys.take(i as int).push(keys[i as int]));
                keys.take(i as int).lemma_filter_push(keys[i as int], ended);
            }
            if session.expires_at.nanos <= now.nanos {
                expired.push(session_id);
            }
            i = i + 1;
        }
        assert(keys.take(count as int) =~= keys);
        expired
    }

    /// Forgets a session; whether there was one.
    pub fn remove(&mut self, session_id: SessionId) -> (removed: bool)
        requires
            old(self).wf(),
        ensures
            final(self).wf(),
            final(self)@ == old(self)@.removed(session_id),
            removed == old(self)@.sessions.dom().contains(session_id),
    {
        let ghost before = *self;
        match self.sessions.remove(&session_id) {
            None => {
                assert(self@ =~= before@.removed(session_id));
                false
            },
            Some(session) => {
                self.resume_tokens.remove(session.resume_token.as_slice());
                proof {
                    crate::ordered::lemma_map_remove(
                        before.sessions@,
                        session_id,
                        |session: Session| session@,
                    );
                    assert(self@ =~= before@.removed(session_id));
                    assert forall|a: SessionId, b: SessionId| #[trigger]
                        self@.sessions.dom().contains(a) && #[trigger] self@.sessions.dom().contains(b)
                            && a != b implies self@.sessions[a].session_token
                        != self@.sessions[b].session_token && self@.sessions[a].resume_token
                        != self@.sessions[b].resume_token by {
                        assert(before@.sessions.dom().contains(a));
                        assert(before@.sessions.dom().contains(b));
                    }
                    assert forall|token: Seq<u8>| #[trigger]
                        self.resume_tokens@.dom().contains(token) implies ({
                        let i = self.resume_tokens@[token];
                        self.sessions@.dom().contains(i) && self.sessions@[i].resume_token@ == token
                    }) by {
                        assert(before.resume_tokens@.dom().contains(token));
                    }
                    assert forall|i: SessionId| #[trigger]
                        self.sessions@.dom().contains(i) implies self.resume_tokens@.dom().contains(
                        self.sessions@[i].resume_token@,
                    ) by {
                        assert(before.sessions@.dom().contains(i));
                        assert(before@.sessions.dom().contains(i));
                        assert(before@.sessions.dom().contains(session_id));
                    }
                }
                true
            },
        }
    }

    pub fn contains(&self, session_id: SessionId) -> (found: bool)
        requires
            self.wf(),
        ensures
            found == self@.sessions.dom().contains(session_id),
    {
        self.sessions.contains_key(&session_id)
    }

    pub fn is_empty(&self) -> (empty: bool)
        requires
            self.wf(),
        ensures
            empty == (self@.sessions =~= Map::<SessionId, SessionModel>::empty()),
    {
        proof {
            assert(self@.sessions.dom() =~= self.sessions@.dom());
        }
        self.sessions.is_empty()
    }

    fn session_token_exists(&self, token: &[u8]) -> (found: bool)
        requires
            self.wf(),
        ensures
            found == self@.has_session_token(token@),
    {
        proof {
            self.sessions.lemma_in_order();
            assert(self@.sessions.dom() =~= self.sessions@.dom());
        }
        let ghost keys = self.sessions.keys();
        let count: usize = self.sessions.len();
        let mut i: usize = 0;
        while i < count
            invariant
                self.wf(),
                keys == self.sessions.keys(),
                keys.to_set() == self@.sessions.dom(),
                self@.sessions.dom() == self.sessions@.dom(),
                count == keys.len(),
                i <= count,
                forall|k: int|
                    0 <= k < i ==> self.sessions@[#[trigger] keys[k]]@.session_token != token@,
            decreases count - i,
        {
            let session = self.sessions.value_at(i);
            if same_bytes(session.session_token.as_slice(), token) {
                assert(self@.sessions.dom().contains(keys[i as int]));
                return true;
            }
            i = i + 1;
        }
        proof {
            if self@.has_session_token(token@) {
                let id = choose|id: SessionId| #[trigger]
                    self@.sessions.dom().contains(id) && self@.sessions[id].session_token == token@;
                assert(keys.to_set().contains(id));
                let k = choose|k: int| 0 <= k < keys.len() && keys[k] == id;
                assert(keys[k] == id);
            }
        }
        false
    }
}

/// Resuming keeps the session, its identity, its resume token and its place in
/// the desired state. It rotates the session token and extends the lease, and
/// leaves every other session alone.
pub proof fn resume_rotates_only_the_session_token(registry: RegistryModel, request: OpenModel)
    requires
        registry.valid(),
        registry.opened(request).1 matches Ok(ready) && ready.resumed,
    ensures
        ({
            let ready = registry.opened(request).1->Ok_0;
            let after = registry.opened(request).0;
            let id = ready.session_id;
            &&& registry.resumes(request, id)
            &&& ready.resume_token == registry.sessions[id].resume_token
            &&& ready.session_token != registry.sessions[id].session_token
            &&& after.sessions[id] == (SessionModel {
                session_token: request.credentials.session_token,
                expires_at: request.now + registry.lease_duration,
                ..registry.sessions[id]
            })
            &&& after.sessions.dom() == registry.sessions.dom()
            &&& forall|other: SessionId|
                other != id ==> after.sessions[other] == registry.sessions[other]
            &&& after.next_session_id == registry.next_session_id
        }),
{
    let id = choose|id: SessionId| registry.resumes(request, id);
    assert(registry.sessions.dom().contains(id));
    assert(registry.opened(request).0.sessions.dom() =~= registry.sessions.dom());
}

/// A new session gets an identifier that no session had before, and nothing
/// but an opening moves the next identifier.
pub proof fn session_ids_are_never_reused(
    registry: RegistryModel,
    request: OpenModel,
    id: SessionId,
)
    requires
        registry.valid(),
    ensures
        registry.opened(request).1 matches Ok(ready) ==> ready.resumed || {
            &&& ready.session_id == registry.next_session_id
            &&& !registry.sessions.dom().contains(ready.session_id)
            &&& registry.opened(request).0.next_session_id > ready.session_id
        },
        registry.opened(request).0.next_session_id >= registry.next_session_id,
        registry.removed(id).next_session_id == registry.next_session_id,
{
}

/// A refused request to open a session leaves the registry as it was.
pub proof fn a_refused_open_changes_nothing(registry: RegistryModel, request: OpenModel)
    ensures
        registry.opened(request).1 is Err ==> registry.opened(request).0 == registry,
{
}

/// The number of sessions never grows past the limit.
pub proof fn open_respects_the_session_limit(registry: RegistryModel, request: OpenModel)
    requires
        registry.valid(),
        registry.sessions.len() <= registry.maximum_sessions,
    ensures
        registry.opened(request).0.sessions.len() <= registry.maximum_sessions,
{
    if exists|id: SessionId| registry.resumes(request, id) {
        let id = choose|id: SessionId| registry.resumes(request, id);
        assert(registry.opened(request).0.sessions.dom() =~= registry.sessions.dom());
    }
}

/// A renewal reports a pending resynchronisation once.
pub proof fn a_resync_is_reported_once(
    registry: RegistryModel,
    id: SessionId,
    token: Seq<u8>,
    desired_revision: u64,
    now: nat,
    later: nat,
)
    requires
        registry.authorizes(id, token),
        registry.sessions[id].desired_revision == desired_revision,
    ensures
        registry.resync_marked(id).renewed(id, token, desired_revision, now).1 == Ok::<
            RenewOutcome,
            SessionError,
        >(RenewOutcome::ResyncRequired),
        registry.resync_marked(id).renewed(id, token, desired_revision, now).0.renewed(
            id,
            token,
            desired_revision,
            later,
        ).1 == Ok::<RenewOutcome, SessionError>(RenewOutcome::Current),
{
}

/// A session is over from the very end of its lease on, and not before.
pub proof fn a_lease_ends_on_time(registry: RegistryModel, id: SessionId, at: nat)
    requires
        registry.sessions.dom().finite(),
    ensures
        registry.expired(at).contains(id) <==> registry.sessions.dom().contains(id)
            && registry.sessions[id].expires_at <= at,
{
    let keys = crate::ordered::in_order::<SessionId>(registry.sessions.dom());
    let over = |id: SessionId| registry.sessions[id].expires_at <= at;
    crate::ordered::lemma_in_order_of::<SessionId>(registry.sessions.dom());
    assert(registry.expired(at) == keys.filter(over));
    crate::ordered::lemma_filter_members(keys, over, id);
}

/// A renewal with the session's own token is granted. The session then lives for one
/// whole lease from now on, neither shorter nor longer, and keeps all else that it has;
/// the other sessions are as before.
pub proof fn a_renewal_lasts_one_lease(
    registry: RegistryModel,
    id: SessionId,
    token: Seq<u8>,
    desired_revision: u64,
    now: nat,
    at: nat,
    other: SessionId,
)
    requires
        registry.valid(),
    ensures
        ({
            let renewal = registry.renewed(id, token, desired_revision, now);
            let after = renewal.0;
            let before = registry.sessions[id];
            &&& renewal.1 is Ok <==> registry.sessions.dom().contains(id) && before.session_token
                == token
            &&& renewal.1 is Err ==> after == registry
            &&& renewal.1 is Ok ==> {
                &&& after.sessions[id].expires_at == now + registry.lease_duration
                &&& after.expired(at).contains(id) <==> now + registry.lease_duration <= at
                &&& after.sessions[id].session_token == before.session_token
                &&& after.sessions[id].resume_token == before.resume_token
                &&& after.sessions[id].controller_id == before.controller_id
                &&& after.sessions[id].controller_instance_id == before.controller_instance_id
                &&& after.sessions[id].profile == before.profile
                &&& after.sessions[id].desired_revision == before.desired_revision
                &&& !after.sessions[id].needs_resync
                &&& (renewal.1 == Ok::<RenewOutcome, SessionError>(RenewOutcome::Current) <==> (
                !before.needs_resync && before.desired_revision == desired_revision))
            }
            &&& other != id ==> {
                &&& after.sessions.dom().contains(other) == registry.sessions.dom().contains(other)
                &&& after.sessions[other] == registry.sessions[other]
            }
            &&& after.lease_duration == registry.lease_duration
            &&& after.maximum_sessions == registry.maximum_sessions
            &&& after.next_session_id == registry.next_session_id
        }),
{
    let after = registry.renewed(id, token, desired_revision, now).0;
    a_lease_ends_on_time(after, id, at);
}

/// To attach a stream to a session starts its lease anew, and changes nothing else.
pub proof fn a_refreshed_lease_lasts_one_lease(
    registry: RegistryModel,
    id: SessionId,
    now: nat,
    at: nat,
    other: SessionId,
)
    requires
        registry.valid(),
        registry.sessions.dom().contains(id),
    ensures
        ({
            let after = registry.lease_refreshed(id, now);
            let before = registry.sessions[id];
            &&& after.sessions[id].expires_at == now + registry.lease_duration
            &&& after.expired(at).contains(id) <==> now + registry.lease_duration <= at
            &&& after.sessions[id].session_token == before.session_token
            &&& after.sessions[id].resume_token == before.resume_token
            &&& after.sessions[id].desired_revision == before.desired_revision
            &&& after.sessions[id].needs_resync == before.needs_resync
            &&& other != id ==> after.sessions[other] == registry.sessions[other]
            &&& after.sessions.dom() == registry.sessions.dom()
        }),
{
    let after = registry.lease_refreshed(id, now);
    a_lease_ends_on_time(after, id, at);
    assert(after.sessions.dom() =~= registry.sessions.dom());
}

/// An opening that is granted tells the tokens that were drawn for it, or keeps the
/// resume token of the session that it resumes. The session that it names lives for one
/// whole lease, and answers to its session token and to no other.
pub proof fn an_opened_session_has_the_tokens_it_is_told(
    registry: RegistryModel,
    request: OpenModel,
    token: Seq<u8>,
    at: nat,
    other: SessionId,
)
    requires
        registry.valid(),
        registry.opened(request).1 is Ok,
    ensures
        ({
            let ready = registry.opened(request).1->Ok_0;
            let after = registry.opened(request).0;
            let session = after.sessions[ready.session_id];
            &&& after.sessions.dom().contains(ready.session_id)
            &&& ready.session_token == request.credentials.session_token
            &&& session.session_token == ready.session_token
            &&& session.resume_token == ready.resume_token
            &&& session.profile == ready.profile
            &&& ready.profile == request.profile
            &&& session.controller_id == request.controller_id
            &&& session.controller_instance_id == request.controller_instance_id
            &&& session.expires_at == request.now + registry.lease_duration
            &&& after.expired(at).contains(ready.session_id) <==> request.now
                + registry.lease_duration <= at
            &&& after.authorizes(ready.session_id, token) <==> token
                == request.credentials.session_token
            &&& !ready.resumed ==> {
                &&& ready.resume_token == request.credentials.resume_token
                &&& session.desired_revision == 0
                &&& !session.needs_resync
                &&& !registry.sessions.dom().contains(ready.session_id)
            }
            &&& other != ready.session_id ==> {
                &&& after.sessions.dom().contains(other) == registry.sessions.dom().contains(other)
                &&& after.sessions[other] == registry.sessions[other]
            }
        }),
{
    let ready = registry.opened(request).1->Ok_0;
    let after = registry.opened(request).0;
    if ready.resumed {
        resume_rotates_only_the_session_token(registry, request);
    }
    a_lease_ends_on_time(after, ready.session_id, at);
}

/// A session is resumed by whoever has its resume token, and is the same instance of the
/// same controller under the same profile, while its lease lasts. Anybody else gets a
/// session of their own.
pub proof fn a_session_is_resumed_by_its_controller_alone(
    registry: RegistryModel,
    request: OpenModel,
    id: SessionId,
)
    requires
        registry.valid(),
        registry.opened(request).1 is Ok,
    ensures
        ({
            let ready = registry.opened(request).1->Ok_0;
            let session = registry.sessions[id];
            (ready.resumed && ready.session_id == id) <==> {
                &&& registry.sessions.dom().contains(id)
                &&& session.resume_token == request.resume_token
                &&& session.controller_id == request.controller_id
                &&& session.controller_instance_id == request.controller_instance_id
                &&& session.profile == request.profile
                &&& request.now < session.expires_at
            }
        }),
{
    if exists|i: SessionId| registry.resumes(request, i) {
        let chosen = choose|i: SessionId| registry.resumes(request, i);
        assert(registry.sessions.dom().contains(chosen));
    }
    assert(registry.resumes(request, id) ==> exists|i: SessionId| registry.resumes(request, i));
}

/// Where there is room and the drawn tokens are not in use, a controller that names
/// itself is not turned away. One that does not name itself always is.
pub proof fn a_controller_that_names_itself_gets_a_session(
    registry: RegistryModel,
    request: OpenModel,
)
    requires
        registry.valid(),
    ensures
        request.controller_id.len() == 0 || request.controller_instance_id.len() == 0 ==> registry.opened(
            request,
        ).1 == Err::<ReadyModel, SessionError>(SessionError::InvalidIdentity),
        ({
            &&& request.controller_id.len() > 0
            &&& request.controller_instance_id.len() > 0
            &&& registry.sessions.len() < registry.maximum_sessions
            &&& registry.next_session_id < u64::MAX
            &&& forall|id: SessionId| #[trigger]
                registry.sessions.dom().contains(id) ==> {
                    &&& registry.sessions[id].session_token != request.credentials.session_token
                    &&& registry.sessions[id].resume_token != request.credentials.resume_token
                }
        }) ==> registry.opened(request).1 is Ok,
{
}

/// Every accepted change is counted once, and a count that is told replaces the one that
/// was kept. Neither touches anything else of the session, nor another session.
pub proof fn an_accepted_change_is_counted(
    registry: RegistryModel,
    id: SessionId,
    revision: u64,
    other: SessionId,
)
    requires
        registry.sessions.dom().contains(id),
        other != id,
    ensures
        ({
            let before = registry.sessions[id];
            let counted = registry.advanced(id).sessions[id];
            let told = registry.with_desired_revision(id, revision).sessions[id];
            &&& before.desired_revision < u64::MAX ==> counted.desired_revision
                == before.desired_revision + 1
            &&& before.desired_revision == u64::MAX ==> counted.desired_revision == u64::MAX
            &&& told.desired_revision == revision
            &&& counted.expires_at == before.expires_at && told.expires_at == before.expires_at
            &&& counted.session_token == before.session_token && told.session_token
                == before.session_token
            &&& counted.needs_resync == before.needs_resync && told.needs_resync
                == before.needs_resync
            &&& registry.advanced(id).sessions[other] == registry.sessions[other]
            &&& registry.with_desired_revision(id, revision).sessions[other]
                == registry.sessions[other]
        }),
{
}

/// A session that is removed is gone, and no other one.
pub proof fn only_the_named_session_is_removed(
    registry: RegistryModel,
    id: SessionId,
    other: SessionId,
)
    ensures
        !registry.removed(id).sessions.dom().contains(id),
        other != id ==> {
            &&& registry.removed(id).sessions.dom().contains(other)
                == registry.sessions.dom().contains(other)
            &&& registry.removed(id).sessions[other] == registry.sessions[other]
        },
{
}

/// A session that is to resynchronise is marked so, and keeps all else; no other one is
/// marked.
pub proof fn a_resync_marks_its_session_alone(
    registry: RegistryModel,
    id: SessionId,
    other: SessionId,
)
    requires
        registry.sessions.dom().contains(id),
        other != id,
    ensures
        ({
            let after = registry.resync_marked(id).sessions;
            let was = registry.sessions;
            &&& after[id].needs_resync
            &&& after[id].expires_at == was[id].expires_at
            &&& after[id].session_token == was[id].session_token
            &&& after[id].resume_token == was[id].resume_token
            &&& after[id].desired_revision == was[id].desired_revision
            &&& after[other] == was[other]
            &&& after.dom() == was.dom()
        }),
{
    assert(registry.resync_marked(id).sessions.dom() =~= registry.sessions.dom());
}

/// A session answers to its own token, and to no other.
pub proof fn a_session_answers_to_its_token(
    registry: RegistryModel,
    id: SessionId,
    token: Seq<u8>,
)
    ensures
        registry.authorizes(id, token) <==> registry.sessions.dom().contains(id)
            && registry.sessions[id].session_token == token,
{
}

#[derive(Debug, Clone, Copy, PartialEq, Eq, Structural)]
pub enum SessionError {
    InvalidIdentity,
    EmptyCredential,
    ResourceExhausted,
    CredentialCollision,
    SessionIdExhausted,
    MissingSession(SessionId),
    InvalidSessionToken,
}

impl SessionError {
    pub open spec fn text(self) -> Seq<char> {
        match self {
            SessionError::InvalidIdentity =>
                "controller_id and controller_instance_id must not be empty"@,
            SessionError::EmptyCredential => "session and resume credentials must not be empty"@,
            SessionError::ResourceExhausted => "the Controller session limit is reached"@,
            SessionError::CredentialCollision =>
                "a generated Controller credential collides with live state"@,
            SessionError::SessionIdExhausted =>
                "the Controller session identifier space is exhausted"@,
            SessionError::MissingSession(id) => "Controller session "@ + crate::text::decimal(
                id as nat,
            ) + " is missing"@,
            SessionError::InvalidSessionToken => "session token is not current"@,
        }
    }

    /// The error in words.
    pub fn message(&self) -> (message: String)
        ensures
            message@ == self.text(),
    {
        match self {
            SessionError::InvalidIdentity =>
                "controller_id and controller_instance_id must not be empty".to_owned(),
            SessionError::EmptyCredential =>
                "session and resume credentials must not be empty".to_owned(),
            SessionError::ResourceExhausted => "the Controller session limit is reached".to_owned(),
            SessionError::CredentialCollision =>
                "a generated Controller credential collides with live state".to_owned(),
            SessionError::SessionIdExhausted =>
                "the Controller session identifier space is exhausted".to_owned(),
            SessionError::MissingSession(id) => join_text(
                "Controller session ",
                decimal_text(*id).as_str(),
                " is missing",
            ),
            SessionError::InvalidSessionToken => "session token is not current".to_owned(),
        }
    }
}

} // verus!
