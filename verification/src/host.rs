//! The binding between a participant, its credential and its live connection.

use vstd::prelude::*;

use crate::ordered::SortedMap;
use crate::text::same_text;

verus! {

/// One client connection of the runtime.
#[derive(Debug, Clone, Copy, PartialEq, Eq, Structural)]
pub struct ConnectionId(pub u64);

impl View for ConnectionId {
    type V = u64;

    open spec fn view(&self) -> u64 {
        self.0
    }
}

/// One shard of the runtime.
#[derive(Debug, Clone, Copy, PartialEq, Eq, Structural)]
pub struct ShardId(pub u64);

#[derive(Debug, PartialEq, Eq)]
struct Binding {
    credential: String,
    connection: Option<ConnectionId>,
}

pub struct BindingModel {
    pub credential: Seq<char>,
    pub connection: Option<u64>,
}

impl View for Binding {
    type V = BindingModel;

    closed spec fn view(&self) -> BindingModel {
        BindingModel {
            credential: self.credential@,
            connection: crate::text::optional(self.connection),
        }
    }
}

/// A successful authentication and connection binding.
#[derive(Debug, PartialEq, Eq)]
pub struct Attachment {
    pub participant_id: String,
    pub replaced_connection: Option<ConnectionId>,
}

pub struct AttachmentModel {
    pub participant_id: Seq<char>,
    pub replaced_connection: Option<u64>,
}

impl View for Attachment {
    type V = AttachmentModel;

    open spec fn view(&self) -> AttachmentModel {
        AttachmentModel {
            participant_id: self.participant_id@,
            replaced_connection: crate::text::optional(self.replaced_connection),
        }
    }
}

/// A host-side authentication or binding failure.
#[derive(Debug, Clone, Copy, PartialEq, Eq, Structural)]
pub enum HostError {
    InvalidRegistration,
    CredentialConflict,
    UnknownCredential,
    ConnectionConflict,
    InconsistentBinding,
}

impl HostError {
    pub open spec fn text(self) -> Seq<char> {
        match self {
            HostError::InvalidRegistration =>
                "participant registrations and credentials must not be empty"@,
            HostError::CredentialConflict => "the Mumble credential is already assigned"@,
            HostError::UnknownCredential => "the Mumble credential is unknown or revoked"@,
            HostError::ConnectionConflict => "the Mumble connection is already assigned"@,
            HostError::InconsistentBinding => "the host binding indexes disagree"@,
        }
    }

    /// The error in words.
    pub fn message(&self) -> (message: String)
        ensures
            message@ == self.text(),
    {
        match self {
            HostError::InvalidRegistration =>
                "participant registrations and credentials must not be empty".to_owned(),
            HostError::CredentialConflict => "the Mumble credential is already assigned".to_owned(),
            HostError::UnknownCredential =>
                "the Mumble credential is unknown or revoked".to_owned(),
            HostError::ConnectionConflict => "the Mumble connection is already assigned".to_owned(),
            HostError::InconsistentBinding => "the host binding indexes disagree".to_owned(),
        }
    }
}

/// The registered participants, each with its credential and its connection.
#[verifier::ext_equal]
pub struct BindingsModel {
    pub participants: Map<Seq<char>, BindingModel>,
}

impl BindingsModel {
    /// No two participants share a credential or a connection.
    pub open spec fn valid(self) -> bool {
        &&& forall|p: Seq<char>| #[trigger]
            self.participants.dom().contains(p) ==> p.len() > 0
                && self.participants[p].credential.len() > 0
        &&& forall|p: Seq<char>, q: Seq<char>| #[trigger]
            self.participants.dom().contains(p) && #[trigger] self.participants.dom().contains(q)
                && p != q ==> {
                &&& self.participants[p].credential != self.participants[q].credential
                &&& self.participants[p].connection is Some ==> self.participants[p].connection
                    != self.participants[q].connection
            }
    }

    pub open spec fn holds(self, participant_id: Seq<char>, credential: Seq<char>) -> bool {
        &&& self.participants.dom().contains(participant_id)
        &&& self.participants[participant_id].credential == credential
    }

    pub open spec fn credential_taken(self, credential: Seq<char>) -> bool {
        exists|p: Seq<char>| self.holds(p, credential)
    }

    pub open spec fn connected(self, participant_id: Seq<char>, connection: u64) -> bool {
        &&& self.participants.dom().contains(participant_id)
        &&& self.participants[participant_id].connection == Some(connection)
    }

    /// The participant behind a connection.
    pub open spec fn participant_of(self, connection: u64) -> Option<Seq<char>> {
        if exists|p: Seq<char>| self.connected(p, connection) {
            Some(choose|p: Seq<char>| self.connected(p, connection))
        } else {
            None
        }
    }

    pub open spec fn connection_of(self, participant_id: Seq<char>) -> Option<u64> {
        if self.participants.dom().contains(participant_id) {
            self.participants[participant_id].connection
        } else {
            None
        }
    }

    pub open spec fn with(self, participant_id: Seq<char>, binding: BindingModel) -> Self {
        BindingsModel { participants: self.participants.insert(participant_id, binding) }
    }

    /// The bindings and the answer after a registration: the credential is
    /// installed or rotated, and a live connection stays.
    pub open spec fn registered(self, participant_id: Seq<char>, credential: Seq<char>) -> (
        Self,
        Result<(), HostError>,
    ) {
        if participant_id.len() == 0 || credential.len() == 0 {
            (self, Err(HostError::InvalidRegistration))
        } else if exists|p: Seq<char>| p != participant_id && self.holds(p, credential) {
            (self, Err(HostError::CredentialConflict))
        } else {
            (
                self.with(
                    participant_id,
                    BindingModel { credential, connection: self.connection_of(participant_id) },
                ),
                Ok(()),
            )
        }
    }

    /// The bindings and the answer after an authentication.
    pub open spec fn attached(self, credential: Seq<char>, connection: u64) -> (
        Self,
        Result<AttachmentModel, HostError>,
    ) {
        if !self.credential_taken(credential) {
            (self, Err(HostError::UnknownCredential))
        } else {
            let participant_id = choose|p: Seq<char>| self.holds(p, credential);
            let replaced = self.participants[participant_id].connection;
            if exists|p: Seq<char>| p != participant_id && self.connected(p, connection) {
                (self, Err(HostError::ConnectionConflict))
            } else {
                (
                    self.with(
                        participant_id,
                        BindingModel {
                            connection: Some(connection),
                            ..self.participants[participant_id]
                        },
                    ),
                    Ok(
                        AttachmentModel {
                            participant_id,
                            replaced_connection: if replaced == Some(connection) {
                                None
                            } else {
                                replaced
                            },
                        },
                    ),
                )
            }
        }
    }

    /// The bindings after a connection ended.
    pub open spec fn disconnected(self, connection: u64) -> Self {
        match self.participant_of(connection) {
            Some(participant_id) => self.with(
                participant_id,
                BindingModel { connection: None, ..self.participants[participant_id] },
            ),
            None => self,
        }
    }

    pub open spec fn removed(self, participant_id: Seq<char>) -> Self {
        BindingsModel { participants: self.participants.remove(participant_id) }
    }
}

/// The bindings, indexed by participant, by credential and by connection.
pub struct Bindings {
    participants: SortedMap<String, Binding>,
    credentials: SortedMap<String, String>,
    connections: SortedMap<u64, String>,
}

impl View for Bindings {
    type V = BindingsModel;

    closed spec fn view(&self) -> BindingsModel {
        BindingsModel { participants: self.participants@.map_values(|binding: Binding| binding@) }
    }
}

impl Bindings {
    /// The three indexes agree.
    pub closed spec fn wf(&self) -> bool {
        &&& self.participants.wf()
        &&& self.credentials.wf()
        &&& self.connections.wf()
        &&& self@.valid()
        &&& forall|c: Seq<char>| #[trigger]
            self.credentials@.dom().contains(c) ==> self@.holds(self.credentials@[c]@, c)
        &&& forall|p: Seq<char>| #[trigger]
            self@.participants.dom().contains(p) ==> {
                let credential = self@.participants[p].credential;
                self.credentials@.dom().contains(credential) && self.credentials@[credential]@ == p
            }
        &&& forall|n: u64| #[trigger]
            self.connections@.dom().contains(n) ==> self@.connected(self.connections@[n]@, n)
        &&& forall|p: Seq<char>| #[trigger]
            self@.participants.dom().contains(p) ==> (self@.participants[p].connection matches Some(
                n,
            ) ==> self.connections@.dom().contains(n) && self.connections@[n]@ == p)
    }

    pub proof fn lemma_valid(&self)
        requires
            self.wf(),
        ensures
            self@.valid(),
    {
    }

    proof fn lemma_same_participants(&self)
        ensures
            self@.participants.dom() == self.participants@.dom(),
    {
        assert(self@.participants.dom() =~= self.participants@.dom());
    }

    pub fn new() -> (bindings: Self)
        ensures
            bindings.wf(),
            bindings@.participants == Map::<Seq<char>, BindingModel>::empty(),
    {
        let bindings = Bindings {
            participants: SortedMap::new(),
            credentials: SortedMap::new(),
            connections: SortedMap::new(),
        };
        assert(bindings@.participants =~= Map::empty());
        bindings
    }

    /// Installs or rotates the credential of a participant, which keeps its
    /// connection.
    pub fn register(&mut self, participant_id: &str, credential: String) -> (result: Result<
        (),
        HostError,
    >)
        requires
            old(self).wf(),
        ensures
            final(self).wf(),
            (final(self)@, result) == old(self)@.registered(participant_id@, credential@),
    {
        let ghost before = *self;
        let ghost p0 = participant_id@;
        let ghost c0 = credential@;
        proof {
            before.lemma_same_participants();
        }
        if participant_id.is_empty() || credential.as_str().is_empty() {
            return Err(HostError::InvalidRegistration);
        }
        let taken = match self.credentials.get(credential.as_str()) {
            None => false,
            Some(owner) => !same_text(owner.as_str(), participant_id),
        };
        proof {
            if taken {
                assert(before@.holds(before.credentials@[c0]@, c0));
            }
            assert forall|p: Seq<char>| p != p0 && before@.holds(p, c0) implies taken by {
                assert(before@.participants.dom().contains(p));
            }
        }
        if taken {
            return Err(HostError::CredentialConflict);
        }
        let connection = match self.participants.remove(participant_id) {
            None => None,
            Some(previous) => {
                self.credentials.remove(previous.credential.as_str());
                previous.connection
            },
        };
        let ghost index = self.credentials@;
        self.credentials.insert(credential.clone(), participant_id.to_owned());
        let binding = Binding { credential, connection };
        let ghost installed = binding;
        self.participants.insert(participant_id.to_owned(), binding);
        proof {
            assert(self.participants@ =~= before.participants@.insert(p0, installed));
            crate::ordered::lemma_map_insert(
                before.participants@,
                p0,
                installed,
                |binding: Binding| binding@,
            );
            assert(installed@.connection == before@.connection_of(p0));
            assert(self@ =~= before@.with(p0, installed@));
            let after = self@;
            assert forall|p: Seq<char>, q: Seq<char>| #[trigger]
                after.participants.dom().contains(p) && #[trigger] after.participants.dom().contains(
                    q,
                ) && p != q implies {
                &&& after.participants[p].credential != after.participants[q].credential
                &&& after.participants[p].connection is Some ==> after.participants[p].connection
                    != after.participants[q].connection
            } by {
                if p != p0 {
                    assert(before@.participants.dom().contains(p));
                    assert(!before@.holds(p, c0));
                }
                if q != p0 {
                    assert(before@.participants.dom().contains(q));
                    assert(!before@.holds(q, c0));
                }
                if before@.participants.dom().contains(p0) {
                    assert(before@.participants[p0].connection == installed@.connection);
                }
            }
            assert forall|c: Seq<char>| #[trigger]
                self.credentials@.dom().contains(c) implies after.holds(self.credentials@[c]@, c) by {
                if c != c0 {
                    assert(before.credentials@.dom().contains(c));
                    assert(before@.holds(before.credentials@[c]@, c));
                    let p = before.credentials@[c]@;
                    if p == p0 {
                        assert(before@.participants[p0].credential == c);
                    }
                }
            }
            assert forall|p: Seq<char>| #[trigger] after.participants.dom().contains(p) implies ({
                let credential = after.participants[p].credential;
                self.credentials@.dom().contains(credential) && self.credentials@[credential]@ == p
            }) by {
                if p != p0 {
                    assert(before@.participants.dom().contains(p));
                    assert(!before@.holds(p, c0));
                    if before@.participants.dom().contains(p0) {
                        assert(before@.participants[p0].credential
                            != before@.participants[p].credential);
                    }
                }
            }
            assert forall|n: u64| #[trigger] self.connections@.dom().contains(n) implies after.connected(
                self.connections@[n]@,
                n,
            ) by {
                assert(before@.connected(before.connections@[n]@, n));
            }
            assert forall|p: Seq<char>| #[trigger] after.participants.dom().contains(p) implies (
            after.participants[p].connection matches Some(n) ==> self.connections@.dom().contains(n)
                && self.connections@[n]@ == p) by {
                if before@.participants.dom().contains(p) {
                }
            }
        }
        Ok(())
    }

    /// Binds a connection to the participant whose credential it presents.
    pub fn attach(&mut self, credential: &str, connection: ConnectionId) -> (result: Result<
        Attachment,
        HostError,
    >)
        requires
            old(self).wf(),
        ensures
            final(self).wf(),
            (final(self)@, crate::text::outcome(result)) == old(self)@.attached(
                credential@,
                connection@,
            ),
    {
        let ghost before = *self;
        proof {
            before.lemma_same_participants();
            assert forall|p: Seq<char>| before@.holds(p, credential@) implies
                before.credentials@.dom().contains(credential@)
                && before.credentials@[credential@]@ == p by {
                assert(before@.participants.dom().contains(p));
            }
        }
        let participant_id = match self.credentials.get(credential) {
            None => {
                return Err(HostError::UnknownCredential);
            },
            Some(owner) => owner.clone(),
        };
        let ghost p0 = participant_id@;
        proof {
            assert(before@.holds(p0, credential@));
            assert(before@.holds(choose|p: Seq<char>| before@.holds(p, credential@), credential@));
        }
        let conflict = match self.connections.get(&connection.0) {
            None => false,
            Some(owner) => !same_text(owner.as_str(), participant_id.as_str()),
        };
        proof {
            if conflict {
                assert(before@.connected(before.connections@[connection@]@, connection@));
            }
            assert forall|p: Seq<char>| p != p0 && before@.connected(p, connection@) implies conflict by {
                assert(before@.participants.dom().contains(p));
            }
        }
        if conflict {
            return Err(HostError::ConnectionConflict);
        }
        let replaced = match self.participants.get_mut(participant_id.as_str()) {
            None => {
                return Err(HostError::InconsistentBinding);
            },
            Some(binding) => {
                let replaced = binding.connection;
                binding.connection = Some(connection);
                replaced
            },
        };
        if let Some(previous) = replaced {
            self.connections.remove(&previous.0);
        }
        self.connections.insert(connection.0, participant_id.clone());
        proof {
            let bound = self.participants@[p0];
            crate::ordered::lemma_map_insert(
                before.participants@,
                p0,
                bound,
                |binding: Binding| binding@,
            );
            let after = self@;
            assert(after =~= before@.with(p0, bound@));
            assert forall|p: Seq<char>, q: Seq<char>| #[trigger]
                after.participants.dom().contains(p) && #[trigger] after.participants.dom().contains(
                    q,
                ) && p != q implies {
                &&& after.participants[p].credential != after.participants[q].credential
                &&& after.participants[p].connection is Some ==> after.participants[p].connection
                    != after.participants[q].connection
            } by {
                assert(before@.participants.dom().contains(p));
                assert(before@.participants.dom().contains(q));
                assert(p != p0 ==> !before@.connected(p, connection@));
                assert(q != p0 ==> !before@.connected(q, connection@));
            }
            assert forall|p: Seq<char>| #[trigger] after.participants.dom().contains(p) implies ({
                let credential = after.participants[p].credential;
                self.credentials@.dom().contains(credential) && self.credentials@[credential]@ == p
            }) by {
                assert(before@.participants.dom().contains(p));
            }
            assert forall|c: Seq<char>| #[trigger]
                self.credentials@.dom().contains(c) implies after.holds(self.credentials@[c]@, c) by {
                assert(before@.holds(before.credentials@[c]@, c));
            }
            assert forall|n: u64| #[trigger] self.connections@.dom().contains(n) implies after.connected(
                self.connections@[n]@,
                n,
            ) by {
                if n != connection@ {
                    assert(before.connections@.dom().contains(n));
                    assert(before@.connected(before.connections@[n]@, n));
                    let p = before.connections@[n]@;
                    if p == p0 {
                        assert(before@.participants[p0].connection == Some(n));
                    }
                }
            }
            assert forall|p: Seq<char>| #[trigger] after.participants.dom().contains(p) implies (
            after.participants[p].connection matches Some(n) ==> self.connections@.dom().contains(n)
                && self.connections@[n]@ == p) by {
                assert(before@.participants.dom().contains(p));
                if p != p0 {
                    assert(!before@.connected(p, connection@));
                }
            }
        }
        let replaced_connection = match replaced {
            None => None,
            Some(previous) => {
                if previous.0 == connection.0 {
                    None
                } else {
                    Some(previous)
                }
            },
        };
        Ok(Attachment { participant_id, replaced_connection })
    }

    proof fn lemma_participant_of(&self, connection: u64)
        requires
            self.wf(),
        ensures
            self@.participant_of(connection) == (if self.connections@.dom().contains(connection) {
                Some(self.connections@[connection]@)
            } else {
                None
            }),
    {
        if self.connections@.dom().contains(connection) {
            assert(self@.connected(self.connections@[connection]@, connection));
        }
        assert forall|p: Seq<char>| self@.connected(p, connection) implies
            self.connections@.dom().contains(connection) && self.connections@[connection]@ == p by {
            assert(self@.participants.dom().contains(p));
        }
    }

    /// Forgets a connection; the participant that it belonged to.
    pub fn disconnect(&mut self, connection: ConnectionId) -> (participant_id: Option<String>)
        requires
            old(self).wf(),
        ensures
            final(self).wf(),
            final(self)@ == old(self)@.disconnected(connection@),
            crate::text::optional(participant_id) == old(self)@.participant_of(connection@),
    {
        let ghost before = *self;
        proof {
            before.lemma_same_participants();
            before.lemma_participant_of(connection@);
        }
        let participant_id = match self.connections.remove(&connection.0) {
            None => {
                return None;
            },
            Some(participant_id) => participant_id,
        };
        let ghost p0 = participant_id@;
        assert(before@.connected(p0, connection@));
        if let Some(binding) = self.participants.get_mut(participant_id.as_str()) {
            binding.connection = None;
        }
        proof {
            let bound = self.participants@[p0];
            crate::ordered::lemma_map_insert(
                before.participants@,
                p0,
                bound,
                |binding: Binding| binding@,
            );
            let after = self@;
            assert(after =~= before@.with(p0, bound@));
            assert forall|p: Seq<char>, q: Seq<char>| #[trigger]
                after.participants.dom().contains(p) && #[trigger] after.participants.dom().contains(
                    q,
                ) && p != q implies {
                &&& after.participants[p].credential != after.participants[q].credential
                &&& after.participants[p].connection is Some ==> after.participants[p].connection
                    != after.participants[q].connection
            } by {
                assert(before@.participants.dom().contains(p));
                assert(before@.participants.dom().contains(q));
            }
            assert forall|p: Seq<char>| #[trigger] after.participants.dom().contains(p) implies ({
                let credential = after.participants[p].credential;
                self.credentials@.dom().contains(credential) && self.credentials@[credential]@ == p
            }) by {
                assert(before@.participants.dom().contains(p));
            }
            assert forall|c: Seq<char>| #[trigger]
                self.credentials@.dom().contains(c) implies after.holds(self.credentials@[c]@, c) by {
                assert(before@.holds(before.credentials@[c]@, c));
            }
            assert forall|n: u64| #[trigger] self.connections@.dom().contains(n) implies after.connected(
                self.connections@[n]@,
                n,
            ) by {
                assert(before.connections@.dom().contains(n));
                assert(before@.connected(before.connections@[n]@, n));
            }
            assert forall|p: Seq<char>| #[trigger] after.participants.dom().contains(p) implies (
            after.participants[p].connection matches Some(n) ==> self.connections@.dom().contains(n)
                && self.connections@[n]@ == p) by {
                assert(before@.participants.dom().contains(p));
                if p != p0 && before@.participants[p].connection == Some(connection@) {
                    assert(before@.connected(p, connection@));
                }
            }
        }
        Some(participant_id)
    }

    /// Forgets a participant; the connection that it had.
    pub fn remove(&mut self, participant_id: &str) -> (connection: Option<ConnectionId>)
        requires
            old(self).wf(),
        ensures
            final(self).wf(),
            final(self)@ == old(self)@.removed(participant_id@),
            crate::text::optional(connection) == old(self)@.connection_of(participant_id@),
    {
        let ghost before = *self;
        let ghost p0 = participant_id@;
        proof {
            before.lemma_same_participants();
        }
        let binding = match self.participants.remove(participant_id) {
            None => {
                assert(self@ =~= before@.removed(p0));
                return None;
            },
            Some(binding) => binding,
        };
        self.credentials.remove(binding.credential.as_str());
        if let Some(connection) = binding.connection {
            self.connections.remove(&connection.0);
        }
        proof {
            crate::ordered::lemma_map_remove(
                before.participants@,
                p0,
                |binding: Binding| binding@,
            );
            let after = self@;
            assert(after =~= before@.removed(p0));
            assert(before@.participants[p0] == binding@);
            assert forall|p: Seq<char>, q: Seq<char>| #[trigger]
                after.participants.dom().contains(p) && #[trigger] after.participants.dom().contains(
                    q,
                ) && p != q implies {
                &&& after.participants[p].credential != after.participants[q].credential
                &&& after.participants[p].connection is Some ==> after.participants[p].connection
                    != after.participants[q].connection
            } by {
                assert(before@.participants.dom().contains(p));
                assert(before@.participants.dom().contains(q));
            }
            assert forall|p: Seq<char>| #[trigger]
                after.participants.dom().contains(p) implies p.len() > 0
                && after.participants[p].credential.len() > 0 by {
                assert(before@.participants.dom().contains(p));
            }
            assert forall|p: Seq<char>| #[trigger] after.participants.dom().contains(p) implies ({
                let credential = after.participants[p].credential;
                self.credentials@.dom().contains(credential) && self.credentials@[credential]@ == p
            }) by {
                assert(before@.participants.dom().contains(p));
                assert(before@.participants.dom().contains(p0));
            }
            assert forall|c: Seq<char>| #[trigger]
                self.credentials@.dom().contains(c) implies after.holds(self.credentials@[c]@, c) by {
                assert(before.credentials@.dom().contains(c));
                assert(before@.holds(before.credentials@[c]@, c));
            }
            assert forall|n: u64| #[trigger] self.connections@.dom().contains(n) implies after.connected(
                self.connections@[n]@,
                n,
            ) by {
                assert(before.connections@.dom().contains(n));
                assert(before@.connected(before.connections@[n]@, n));
            }
            assert forall|p: Seq<char>| #[trigger] after.participants.dom().contains(p) implies (
            after.participants[p].connection matches Some(n) ==> self.connections@.dom().contains(n)
                && self.connections@[n]@ == p) by {
                assert(before@.participants.dom().contains(p));
                assert(before@.participants.dom().contains(p0));
            }
        }
        binding.connection
    }

    pub fn credential(&self, participant_id: &str) -> (credential: Option<&str>)
        requires
            self.wf(),
        ensures
            match credential {
                Some(text) => self@.holds(participant_id@, text@),
                None => !self@.participants.dom().contains(participant_id@),
            },
    {
        match self.participants.get(participant_id) {
            None => None,
            Some(binding) => Some(binding.credential.as_str()),
        }
    }

    pub fn connection(&self, participant_id: &str) -> (connection: Option<ConnectionId>)
        requires
            self.wf(),
        ensures
            crate::text::optional(connection) == self@.connection_of(participant_id@),
    {
        match self.participants.get(participant_id) {
            None => None,
            Some(binding) => binding.connection,
        }
    }

    pub fn participant(&self, connection: ConnectionId) -> (participant_id: Option<&str>)
        requires
            self.wf(),
        ensures
            match participant_id {
                Some(text) => self@.participant_of(connection@) == Some(text@),
                None => self@.participant_of(connection@) is None,
            },
    {
        proof {
            self.lemma_participant_of(connection@);
        }
        match self.connections.get(&connection.0) {
            None => None,
            Some(participant_id) => Some(participant_id.as_str()),
        }
    }

    pub fn contains(&self, participant_id: &str) -> (found: bool)
        requires
            self.wf(),
        ensures
            found == self@.participants.dom().contains(participant_id@),
    {
        self.participants.contains_key(participant_id)
    }

    /// Whether a participant holds the credential.
    pub fn has_credential(&self, credential: &str) -> (found: bool)
        requires
            self.wf(),
        ensures
            found == self@.credential_taken(credential@),
    {
        proof {
            if self.credentials@.dom().contains(credential@) {
                assert(self@.holds(self.credentials@[credential@]@, credential@));
            }
            assert forall|p: Seq<char>| self@.holds(p, credential@) implies
                self.credentials@.dom().contains(credential@) by {
                assert(self@.participants.dom().contains(p));
            }
        }
        self.credentials.contains_key(credential)
    }
}

/// What the Controller server keeps of the Mumble side.
pub struct MumbleHost {
    bindings: Bindings,
}

impl View for MumbleHost {
    type V = BindingsModel;

    closed spec fn view(&self) -> BindingsModel {
        self.bindings@
    }
}

impl MumbleHost {
    pub closed spec fn wf(&self) -> bool {
        self.bindings.wf()
    }

    pub proof fn lemma_valid(&self)
        requires
            self.wf(),
        ensures
            self@.valid(),
    {
    }

    pub fn new() -> (host: Self)
        ensures
            host.wf(),
            host@.participants == Map::<Seq<char>, BindingModel>::empty(),
    {
        MumbleHost { bindings: Bindings::new() }
    }

    /// Installs or rotates a participant credential while retaining its connection.
    pub fn register(&mut self, participant_id: &str, credential: String) -> (result: Result<
        (),
        HostError,
    >)
        requires
            old(self).wf(),
        ensures
            final(self).wf(),
            (final(self)@, result) == old(self)@.registered(participant_id@, credential@),
    {
        self.bindings.register(participant_id, credential)
    }

    /// Authenticates a connection. The connection that it replaces is to be closed.
    pub fn attach(&mut self, credential: &str, connection: ConnectionId) -> (result: Result<
        Attachment,
        HostError,
    >)
        requires
            old(self).wf(),
        ensures
            final(self).wf(),
            (final(self)@, crate::text::outcome(result)) == old(self)@.attached(
                credential@,
                connection@,
            ),
    {
        self.bindings.attach(credential, connection)
    }

    /// Forgets a departure that the runtime reported.
    pub fn disconnect(&mut self, connection: ConnectionId) -> (participant_id: Option<String>)
        requires
            old(self).wf(),
        ensures
            final(self).wf(),
            final(self)@ == old(self)@.disconnected(connection@),
            crate::text::optional(participant_id) == old(self)@.participant_of(connection@),
    {
        self.bindings.disconnect(connection)
    }

    /// Revokes authentication. The connection that is returned is to be closed.
    pub fn revoke(&mut self, participant_id: &str) -> (connection: Option<ConnectionId>)
        requires
            old(self).wf(),
        ensures
            final(self).wf(),
            final(self)@ == old(self)@.removed(participant_id@),
            crate::text::optional(connection) == old(self)@.connection_of(participant_id@),
    {
        self.bindings.remove(participant_id)
    }

    pub fn contains(&self, participant_id: &str) -> (found: bool)
        requires
            self.wf(),
        ensures
            found == self@.participants.dom().contains(participant_id@),
    {
        self.bindings.contains(participant_id)
    }

    /// Whether a freshly generated credential can be installed without aliasing.
    pub fn credential_available(&self, credential: &str) -> (available: bool)
        requires
            self.wf(),
        ensures
            available == (credential@.len() > 0 && !self@.credential_taken(credential@)),
    {
        !credential.is_empty() && !self.bindings.has_credential(credential)
    }

    pub fn credential(&self, participant_id: &str) -> (credential: Option<&str>)
        requires
            self.wf(),
        ensures
            match credential {
                Some(text) => self@.holds(participant_id@, text@),
                None => !self@.participants.dom().contains(participant_id@),
            },
    {
        self.bindings.credential(participant_id)
    }

    pub fn connection(&self, participant_id: &str) -> (connection: Option<ConnectionId>)
        requires
            self.wf(),
        ensures
            crate::text::optional(connection) == self@.connection_of(participant_id@),
    {
        self.bindings.connection(participant_id)
    }

    pub fn participant(&self, connection: ConnectionId) -> (participant_id: Option<&str>)
        requires
            self.wf(),
        ensures
            match participant_id {
                Some(text) => self@.participant_of(connection@) == Some(text@),
                None => self@.participant_of(connection@) is None,
            },
    {
        self.bindings.participant(connection)
    }
}

/// Rotating a credential keeps the live connection, installs the new
/// credential and revokes the old one.
pub proof fn rotation_keeps_the_connection(
    bindings: BindingsModel,
    participant_id: Seq<char>,
    credential: Seq<char>,
    connection: u64,
)
    requires
        bindings.valid(),
        bindings.participants.dom().contains(participant_id),
        bindings.registered(participant_id, credential).1 is Ok,
        credential != bindings.participants[participant_id].credential,
    ensures
        ({
            let after = bindings.registered(participant_id, credential).0;
            let revoked = bindings.participants[participant_id].credential;
            &&& after.connection_of(participant_id) == bindings.connection_of(participant_id)
            &&& after.holds(participant_id, credential)
            &&& after.attached(revoked, connection) == (
                after,
                Err::<AttachmentModel, HostError>(HostError::UnknownCredential),
            )
        }),
{
    let after = bindings.registered(participant_id, credential).0;
    let revoked = bindings.participants[participant_id].credential;
    assert forall|p: Seq<char>| !after.holds(p, revoked) by {
        if p != participant_id && after.participants.dom().contains(p) {
            assert(bindings.participants.dom().contains(p));
        }
    }
}

/// A successful authentication makes the connection the participant's only one.
pub proof fn attachment_replaces_the_connection(
    bindings: BindingsModel,
    credential: Seq<char>,
    connection: u64,
)
    requires
        bindings.valid(),
        bindings.attached(credential, connection).1 is Ok,
    ensures
        ({
            let (after, result) = bindings.attached(credential, connection);
            let attachment = result->Ok_0;
            &&& bindings.holds(attachment.participant_id, credential)
            &&& after.participant_of(connection) == Some(attachment.participant_id)
            &&& after.connection_of(attachment.participant_id) == Some(connection)
            &&& attachment.replaced_connection matches Some(previous) ==> {
                &&& bindings.participant_of(previous) == Some(attachment.participant_id)
                &&& after.participant_of(previous) is None
            }
        }),
{
    let (after, result) = bindings.attached(credential, connection);
    let attachment = result->Ok_0;
    let p0 = choose|p: Seq<char>| bindings.holds(p, credential);
    assert(bindings.holds(p0, credential));
    assert(after.connected(p0, connection));
    assert forall|p: Seq<char>| after.connected(p, connection) implies p == p0 by {
        if p != p0 {
            assert(bindings.connected(p, connection));
        }
    }
    if let Some(previous) = attachment.replaced_connection {
        assert(bindings.connected(p0, previous));
        assert forall|p: Seq<char>| bindings.connected(p, previous) implies p == p0 by {
            assert(bindings.participants.dom().contains(p));
            assert(bindings.participants.dom().contains(p0));
        }
        assert forall|p: Seq<char>| !after.connected(p, previous) by {
            if p != p0 && after.connected(p, previous) {
                assert(bindings.connected(p, previous));
            }
        }
    }
}

/// A departure that was reported is forgotten in both directions.
pub proof fn disconnection_is_forgotten(bindings: BindingsModel, connection: u64)
    requires
        bindings.valid(),
    ensures
        bindings.disconnected(connection).participant_of(connection) is None,
        bindings.participant_of(connection) matches Some(p) ==> bindings.disconnected(
            connection,
        ).connection_of(p) is None,
{
    let after = bindings.disconnected(connection);
    if let Some(p0) = bindings.participant_of(connection) {
        assert(bindings.connected(p0, connection));
        assert forall|p: Seq<char>| !after.connected(p, connection) by {
            if p != p0 && after.connected(p, connection) {
                assert(bindings.participants.dom().contains(p));
                assert(bindings.participants.dom().contains(p0));
            }
        }
    }
}

/// A refused registration or authentication changes nothing.
pub proof fn a_refused_binding_changes_nothing(
    bindings: BindingsModel,
    participant_id: Seq<char>,
    credential: Seq<char>,
    connection: u64,
)
    ensures
        bindings.registered(participant_id, credential).1 is Err ==> bindings.registered(
            participant_id,
            credential,
        ).0 == bindings,
        bindings.attached(credential, connection).1 is Err ==> bindings.attached(
            credential,
            connection,
        ).0 == bindings,
{
}

/// A registration leaves the participant with exactly the credential that it was given,
/// and with the connection that it had. No other participant is touched.
pub proof fn a_registration_installs_its_credential(
    bindings: BindingsModel,
    participant_id: Seq<char>,
    credential: Seq<char>,
    other: Seq<char>,
)
    ensures
        ({
            let (after, result) = bindings.registered(participant_id, credential);
            &&& result is Ok <==> participant_id.len() > 0 && credential.len() > 0 && forall|
                p: Seq<char>,
            | #[trigger]
                bindings.participants.dom().contains(p) && p != participant_id
                    ==> bindings.participants[p].credential != credential
            &&& result is Ok ==> {
                &&& after.participants.dom().contains(participant_id)
                &&& after.participants[participant_id].credential == credential
                &&& bindings.participants.dom().contains(participant_id)
                    ==> after.participants[participant_id].connection
                    == bindings.participants[participant_id].connection
                &&& !bindings.participants.dom().contains(participant_id)
                    ==> after.participants[participant_id].connection is None
            }
            &&& other != participant_id ==> {
                &&& after.participants.dom().contains(other)
                    == bindings.participants.dom().contains(other)
                &&& after.participants[other] == bindings.participants[other]
            }
        }),
{
    if exists|p: Seq<char>| p != participant_id && bindings.holds(p, credential) {
        let p = choose|p: Seq<char>| p != participant_id && bindings.holds(p, credential);
        assert(bindings.participants.dom().contains(p));
    }
    assert forall|p: Seq<char>| #[trigger]
        bindings.participants.dom().contains(p) && p != participant_id
            && bindings.participants[p].credential == credential implies exists|p: Seq<char>|
        p != participant_id && bindings.holds(p, credential) by {
        assert(bindings.holds(p, credential));
    }
}

/// A credential lets a connection in as the participant that has it, and as no other. A
/// connection that belongs to somebody else is refused. The connection that was there
/// before is the one that is named as replaced. No other participant is touched.
pub proof fn a_credential_lets_its_participant_in(
    bindings: BindingsModel,
    credential: Seq<char>,
    connection: u64,
    p: Seq<char>,
    other: Seq<char>,
)
    requires
        bindings.valid(),
        bindings.participants.dom().contains(p),
        bindings.participants[p].credential == credential,
        other != p,
    ensures
        ({
            let (after, result) = bindings.attached(credential, connection);
            &&& result is Ok <==> forall|q: Seq<char>| #[trigger]
                bindings.participants.dom().contains(q) && q != p ==> bindings.participants[q].connection
                    != Some(connection)
            &&& result is Err ==> result->Err_0 == HostError::ConnectionConflict
            &&& result is Ok ==> {
                &&& result->Ok_0.participant_id == p
                &&& after.participants[p].connection == Some(connection)
                &&& after.participants[p].credential == credential
                &&& bindings.participants[p].connection == Some(connection)
                    ==> result->Ok_0.replaced_connection is None
                &&& bindings.participants[p].connection != Some(connection)
                    ==> result->Ok_0.replaced_connection == bindings.participants[p].connection
            }
            &&& after.participants.dom() == bindings.participants.dom()
            &&& after.participants[other] == bindings.participants[other]
        }),
{
    assert(bindings.holds(p, credential));
    let chosen = choose|q: Seq<char>| bindings.holds(q, credential);
    assert(bindings.participants.dom().contains(chosen));
    assert(chosen == p);
    if exists|q: Seq<char>| q != p && bindings.connected(q, connection) {
        let q = choose|q: Seq<char>| q != p && bindings.connected(q, connection);
        assert(bindings.participants.dom().contains(q));
    }
    assert forall|q: Seq<char>| #[trigger]
        bindings.participants.dom().contains(q) && q != p && bindings.participants[q].connection
            == Some(connection) implies exists|q: Seq<char>|
        q != p && bindings.connected(q, connection) by {
        assert(bindings.connected(q, connection));
    }
    assert(bindings.attached(credential, connection).0.participants.dom()
        =~= bindings.participants.dom());
}

/// A credential that nobody has lets nobody in.
pub proof fn an_unknown_credential_lets_nobody_in(
    bindings: BindingsModel,
    credential: Seq<char>,
    connection: u64,
)
    requires
        forall|p: Seq<char>| #[trigger]
            bindings.participants.dom().contains(p) ==> bindings.participants[p].credential
                != credential,
    ensures
        bindings.attached(credential, connection).0 == bindings,
        bindings.attached(credential, connection).1 == Err::<AttachmentModel, HostError>(
            HostError::UnknownCredential,
        ),
{
}

/// A connection that ends is taken from its participant, which keeps its credential. A
/// participant that is removed is gone. Neither touches another participant.
pub proof fn an_ending_touches_its_participant_alone(
    bindings: BindingsModel,
    connection: u64,
    removed: Seq<char>,
    p: Seq<char>,
)
    requires
        bindings.valid(),
        bindings.participants.dom().contains(p),
    ensures
        ({
            let after = bindings.disconnected(connection);
            let was = bindings.participants[p];
            &&& after.participants.dom() == bindings.participants.dom()
            &&& after.participants[p].credential == was.credential
            &&& was.connection == Some(connection) ==> after.participants[p].connection is None
            &&& was.connection != Some(connection) ==> after.participants[p].connection
                == was.connection
            &&& bindings.removed(removed).participants.dom().contains(p) <==> p != removed
            &&& p != removed ==> bindings.removed(removed).participants[p] == was
        }),
{
    let after = bindings.disconnected(connection);
    if bindings.participant_of(connection) is Some {
        let chosen = choose|q: Seq<char>| bindings.connected(q, connection);
        assert(bindings.connected(chosen, connection));
        assert(bindings.participants.dom().contains(chosen));
    }
    if bindings.participants[p].connection == Some(connection) {
        assert(bindings.connected(p, connection));
    }
    assert(after.participants.dom() =~= bindings.participants.dom());
}

/// A connection leads to the participant that has it.
pub proof fn a_connection_leads_to_its_participant(
    bindings: BindingsModel,
    connection: u64,
    p: Seq<char>,
)
    requires
        bindings.valid(),
        bindings.participants.dom().contains(p),
    ensures
        bindings.participant_of(connection) == Some(p) <==> bindings.participants[p].connection
            == Some(connection),
        bindings.connection_of(p) == bindings.participants[p].connection,
{
    if bindings.participants[p].connection == Some(connection) {
        assert(bindings.connected(p, connection));
    }
    if bindings.participant_of(connection) is Some {
        let chosen = choose|q: Seq<char>| bindings.connected(q, connection);
        assert(bindings.connected(chosen, connection));
        assert(bindings.participants.dom().contains(chosen));
    }
}

} // verus!
