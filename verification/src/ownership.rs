//! Who owns which entity, and under which fencing token.

use vstd::prelude::*;

use crate::ordered::{in_order, SortedMap};
use crate::session::SessionId;
use crate::text::{copy_bytes, same_bytes};

verus! {

#[derive(Debug, Clone, Copy, PartialEq, Eq, Structural)]
pub enum ClaimMode {
    Snapshot,
    Explicit,
}

/// A request to own an entity.
pub struct ClaimRequest<'a> {
    pub entity_id: &'a str,
    pub owner: SessionId,
    pub registration_id: &'a [u8],
    pub presented_fencing_token: &'a [u8],
    pub client_revision: u64,
    pub new_fencing_token: Vec<u8>,
    pub mode: ClaimMode,
}

pub struct ClaimModel {
    pub entity_id: Seq<char>,
    pub owner: SessionId,
    pub registration_id: Seq<u8>,
    pub presented_fencing_token: Seq<u8>,
    pub client_revision: u64,
    pub new_fencing_token: Seq<u8>,
    pub mode: ClaimMode,
}

impl<'a> View for ClaimRequest<'a> {
    type V = ClaimModel;

    open spec fn view(&self) -> ClaimModel {
        ClaimModel {
            entity_id: self.entity_id@,
            owner: self.owner,
            registration_id: self.registration_id@,
            presented_fencing_token: self.presented_fencing_token@,
            client_revision: self.client_revision,
            new_fencing_token: self.new_fencing_token@,
            mode: self.mode,
        }
    }
}

#[derive(Debug, PartialEq, Eq)]
pub enum ClaimOutcome {
    Resumed { fencing_token: Vec<u8>, revision_advanced: bool },
    Acquired { fencing_token: Vec<u8>, previous: Option<OwnershipState> },
}

pub enum ClaimOutcomeModel {
    Resumed { fencing_token: Seq<u8>, revision_advanced: bool },
    Acquired { fencing_token: Seq<u8>, previous: Option<OwnedModel> },
}

impl View for ClaimOutcome {
    type V = ClaimOutcomeModel;

    open spec fn view(&self) -> ClaimOutcomeModel {
        match self {
            ClaimOutcome::Resumed { fencing_token, revision_advanced } =>
                ClaimOutcomeModel::Resumed {
                    fencing_token: fencing_token@,
                    revision_advanced: *revision_advanced,
                },
            ClaimOutcome::Acquired { fencing_token, previous } => ClaimOutcomeModel::Acquired {
                fencing_token: fencing_token@,
                previous: crate::text::optional(*previous),
            },
        }
    }
}

/// The current ownership of one entity.
#[derive(Debug, PartialEq, Eq)]
pub struct OwnershipState {
    pub entity_id: String,
    pub owner: SessionId,
    pub registration_id: Vec<u8>,
    pub fencing_token: Vec<u8>,
    pub client_revision: u64,
}

pub struct OwnedModel {
    pub entity_id: Seq<char>,
    pub owner: SessionId,
    pub registration_id: Seq<u8>,
    pub fencing_token: Seq<u8>,
    pub client_revision: u64,
}

impl View for OwnershipState {
    type V = OwnedModel;

    open spec fn view(&self) -> OwnedModel {
        OwnedModel {
            entity_id: self.entity_id@,
            owner: self.owner,
            registration_id: self.registration_id@,
            fencing_token: self.fencing_token@,
            client_revision: self.client_revision,
        }
    }
}

impl Clone for OwnershipState {
    fn clone(&self) -> (copy: Self)
        ensures
            copy@ == self@,
    {
        OwnershipState {
            entity_id: self.entity_id.clone(),
            owner: self.owner,
            registration_id: copy_bytes(self.registration_id.as_slice()),
            fencing_token: copy_bytes(self.fencing_token.as_slice()),
            client_revision: self.client_revision,
        }
    }
}

#[derive(Debug, Clone, Copy, PartialEq, Eq, Structural)]
pub enum RevisionOutcome {
    Unchanged,
    Advanced,
}

/// The owned entities, and the limits on them.
#[verifier::ext_equal]
pub struct OwnershipModel {
    pub maximum_entities: nat,
    pub maximum_entities_per_owner: nat,
    pub entries: Map<Seq<char>, OwnedModel>,
}

impl OwnershipModel {
    /// Every entry stands under its own name with a fencing token of its own,
    /// and neither limit is exceeded.
    pub open spec fn valid(self) -> bool {
        &&& self.entries.dom().finite()
        &&& self.entries.len() <= self.maximum_entities
        &&& forall|id: Seq<char>| #[trigger]
            self.entries.dom().contains(id) ==> {
                &&& self.entries[id].entity_id == id
                &&& id.len() > 0
                &&& self.entries[id].registration_id.len() > 0
                &&& self.entries[id].fencing_token.len() > 0
            }
        &&& forall|a: Seq<char>, b: Seq<char>| #[trigger]
            self.entries.dom().contains(a) && #[trigger] self.entries.dom().contains(b) && a != b
                ==> self.entries[a].fencing_token != self.entries[b].fencing_token
        &&& forall|owner: SessionId| #[trigger]
            self.owned_set(owner).len() <= self.maximum_entities_per_owner
    }

    pub open spec fn owned_set(self, owner: SessionId) -> Set<Seq<char>> {
        self.entries.dom().filter(|id: Seq<char>| self.entries[id].owner == owner)
    }

    /// The entities of an owner, in ascending order.
    pub open spec fn owned(self, owner: SessionId) -> Seq<Seq<char>> {
        in_order::<String>(self.entries.dom()).filter(
            |id: Seq<char>| self.entries[id].owner == owner,
        )
    }

    pub open spec fn has_token(self, token: Seq<u8>) -> bool {
        exists|id: Seq<char>| #[trigger]
            self.entries.dom().contains(id) && self.entries[id].fencing_token == token
    }

    /// Whether the claim comes from the current owner under the current
    /// registration, and holds the fencing token where that is asked for.
    pub open spec fn resumable(self, claim: ClaimModel) -> bool {
        &&& self.entries.dom().contains(claim.entity_id)
        &&& self.entries[claim.entity_id].owner == claim.owner
        &&& self.entries[claim.entity_id].registration_id == claim.registration_id
        &&& claim.mode == ClaimMode::Explicit || self.entries[claim.entity_id].fencing_token
            == claim.presented_fencing_token
    }

    pub open spec fn with(self, id: Seq<char>, entry: OwnedModel) -> Self {
        OwnershipModel { entries: self.entries.insert(id, entry), ..self }
    }

    /// The entry with its revision moved forward to `revision`, if it is newer.
    pub open spec fn at_revision(entry: OwnedModel, revision: u64) -> OwnedModel {
        if revision > entry.client_revision {
            OwnedModel { client_revision: revision, ..entry }
        } else {
            entry
        }
    }

    /// The registry and the answer after a claim.
    pub open spec fn claimed(self, claim: ClaimModel) -> (
        Self,
        Result<ClaimOutcomeModel, OwnershipError>,
    ) {
        let id = claim.entity_id;
        let known = self.entries.dom().contains(id);
        let current = self.entries[id];
        if id.len() == 0 || claim.registration_id.len() == 0 {
            (self, Err(OwnershipError::InvalidClaim))
        } else if self.resumable(claim) {
            (
                self.with(id, Self::at_revision(current, claim.client_revision)),
                Ok(
                    ClaimOutcomeModel::Resumed {
                        fencing_token: current.fencing_token,
                        revision_advanced: claim.client_revision > current.client_revision,
                    },
                ),
            )
        } else if known && claim.mode == ClaimMode::Snapshot {
            (self, Err(OwnershipError::SnapshotConflict))
        } else if !known && self.entries.len() >= self.maximum_entities {
            (self, Err(OwnershipError::GlobalLimit))
        } else if !(known && current.owner == claim.owner) && self.owned_set(claim.owner).len()
            >= self.maximum_entities_per_owner {
            (self, Err(OwnershipError::OwnerLimit))
        } else if claim.new_fencing_token.len() == 0 {
            (self, Err(OwnershipError::InvalidClaim))
        } else if self.has_token(claim.new_fencing_token) {
            (self, Err(OwnershipError::FencingTokenCollision))
        } else {
            (
                self.with(
                    id,
                    OwnedModel {
                        entity_id: id,
                        owner: claim.owner,
                        registration_id: claim.registration_id,
                        fencing_token: claim.new_fencing_token,
                        client_revision: claim.client_revision,
                    },
                ),
                Ok(
                    ClaimOutcomeModel::Acquired {
                        fencing_token: claim.new_fencing_token,
                        previous: if known {
                            Some(current)
                        } else {
                            None
                        },
                    },
                ),
            )
        }
    }

    /// The registry and the answer after a change of an entity's revision.
    pub open spec fn revised(
        self,
        id: Seq<char>,
        owner: SessionId,
        token: Seq<u8>,
        revision: u64,
        payload_unchanged: bool,
    ) -> (Self, Result<RevisionOutcome, OwnershipError>) {
        let current = self.entries[id];
        if !self.entries.dom().contains(id) {
            (self, Err(OwnershipError::NotFound))
        } else if current.owner != owner || current.fencing_token != token {
            (self, Err(OwnershipError::OwnershipLost))
        } else if revision < current.client_revision || (revision == current.client_revision
            && !payload_unchanged) {
            (self, Err(OwnershipError::StaleRevision))
        } else if revision == current.client_revision {
            (self, Ok(RevisionOutcome::Unchanged))
        } else {
            (
                self.with(id, Self::at_revision(current, revision)),
                Ok(RevisionOutcome::Advanced),
            )
        }
    }

    /// Whether the three parts of an ownership capability are all current.
    pub open spec fn holds(
        self,
        id: Seq<char>,
        owner: SessionId,
        registration_id: Seq<u8>,
        token: Seq<u8>,
    ) -> bool {
        &&& self.entries.dom().contains(id)
        &&& self.entries[id].owner == owner
        &&& self.entries[id].registration_id == registration_id
        &&& self.entries[id].fencing_token == token
    }

    /// The registry and the answer after a release.
    pub open spec fn released(
        self,
        id: Seq<char>,
        owner: SessionId,
        registration_id: Seq<u8>,
        token: Seq<u8>,
    ) -> (Self, Result<OwnedModel, OwnershipError>) {
        if self.holds(id, owner, registration_id, token) {
            (
                OwnershipModel { entries: self.entries.remove(id), ..self },
                Ok(self.entries[id]),
            )
        } else {
            (self, Err(OwnershipError::OwnershipLost))
        }
    }

    /// Replacing the state of an entry under the same owner and token keeps
    /// the registry valid.
    pub proof fn lemma_revision_valid(self, id: Seq<char>, revision: u64)
        requires
            self.valid(),
            self.entries.dom().contains(id),
        ensures
            self.with(id, Self::at_revision(self.entries[id], revision)).valid(),
    {
        let after = self.with(id, Self::at_revision(self.entries[id], revision));
        assert(after.entries.dom() =~= self.entries.dom());
        assert forall|a: Seq<char>, b: Seq<char>| #[trigger]
            after.entries.dom().contains(a) && #[trigger] after.entries.dom().contains(b) && a
                != b implies after.entries[a].fencing_token != after.entries[b].fencing_token by {
            assert(self.entries.dom().contains(a));
            assert(self.entries.dom().contains(b));
        }
        assert forall|owner: SessionId| #[trigger]
            after.owned_set(owner).len() <= after.maximum_entities_per_owner by {
            assert(after.owned_set(owner) =~= self.owned_set(owner));
            assert(self.owned_set(owner).len() <= self.maximum_entities_per_owner);
        }
    }

    pub proof fn lemma_claim_valid(self, claim: ClaimModel)
        requires
            self.valid(),
        ensures
            self.claimed(claim).0.valid(),
    {
        let id = claim.entity_id;
        let after = self.claimed(claim).0;
        if self.claimed(claim).1 is Err {
        } else if self.resumable(claim) {
            self.lemma_revision_valid(id, claim.client_revision);
        } else {
            assert forall|a: Seq<char>, b: Seq<char>| #[trigger]
                after.entries.dom().contains(a) && #[trigger] after.entries.dom().contains(b) && a
                    != b implies after.entries[a].fencing_token != after.entries[b].fencing_token by {
                if a != id {
                    assert(self.entries.dom().contains(a));
                }
                if b != id {
                    assert(self.entries.dom().contains(b));
                }
            }
            if self.entries.dom().contains(id) {
                assert(after.entries.dom() =~= self.entries.dom());
            }
            assert forall|owner: SessionId| #[trigger]
                after.owned_set(owner).len() <= after.maximum_entities_per_owner by {
                let was = self.owned_set(owner);
                assert(was.len() <= self.maximum_entities_per_owner);
                assert(was.finite());
                if owner == claim.owner {
                    assert(after.owned_set(owner) =~= was.insert(id));
                } else {
                    assert(after.owned_set(owner) =~= was.remove(id));
                }
            }
        }
    }

    pub proof fn lemma_release_valid(self, id: Seq<char>)
        requires
            self.valid(),
        ensures
            (OwnershipModel { entries: self.entries.remove(id), ..self }).valid(),
    {
        let after = OwnershipModel { entries: self.entries.remove(id), ..self };
        assert forall|a: Seq<char>| #[trigger] after.entries.dom().contains(a) implies {
            &&& after.entries[a].entity_id == a
            &&& a.len() > 0
            &&& after.entries[a].registration_id.len() > 0
            &&& after.entries[a].fencing_token.len() > 0
        } by {
            assert(self.entries.dom().contains(a));
        }
        assert forall|a: Seq<char>, b: Seq<char>| #[trigger]
            after.entries.dom().contains(a) && #[trigger] after.entries.dom().contains(b) && a
                != b implies after.entries[a].fencing_token != after.entries[b].fencing_token by {
            assert(self.entries.dom().contains(a));
            assert(self.entries.dom().contains(b));
        }
        assert forall|owner: SessionId| #[trigger]
            after.owned_set(owner).len() <= after.maximum_entities_per_owner by {
            let was = self.owned_set(owner);
            assert(was.len() <= self.maximum_entities_per_owner);
            assert(was.finite());
            assert(after.owned_set(owner) =~= was.remove(id));
        }
    }
}

/// Filtering an ascending walk over a set yields as many keys as filtering the set.
pub proof fn lemma_walk_counts(keys: Seq<Seq<char>>, pred: spec_fn(Seq<char>) -> bool)
    requires
        keys.no_duplicates(),
    ensures
        keys.filter(pred).len() == keys.to_set().filter(pred).len(),
        keys.filter(pred).to_set() == keys.to_set().filter(pred),
        keys.filter(pred).no_duplicates(),
    decreases keys.len(),
{
    reveal(Seq::filter);
    if keys.len() == 0 {
        assert(keys.filter(pred) =~= Seq::empty());
        assert(keys.to_set().filter(pred) =~= Set::empty());
        assert(keys.filter(pred).to_set() =~= Set::empty());
    } else {
        let rest = keys.drop_last();
        let last = keys.last();
        assert(rest.no_duplicates());
        lemma_walk_counts(rest, pred);
        assert(keys =~= rest.push(last));
        rest.lemma_filter_push(last, pred);
        assert(!rest.to_set().contains(last)) by {
            if rest.contains(last) {
                let k = choose|k: int| 0 <= k < rest.len() && rest[k] == last;
                assert(keys[k] == keys[keys.len() - 1]);
            }
        }
        assert(keys.to_set() =~= rest.to_set().insert(last));
        vstd::seq_lib::seq_to_set_is_finite(rest);
        if pred(last) {
            assert(keys.to_set().filter(pred) =~= rest.to_set().filter(pred).insert(last));
            assert(keys.filter(pred) =~= rest.filter(pred).push(last));
            assert(!rest.filter(pred).contains(last)) by {
                assert(rest.filter(pred).to_set().contains(last) == rest.filter(pred).contains(last));
            }
            assert(keys.filter(pred).to_set() =~= rest.filter(pred).to_set().insert(last));
        } else {
            assert(keys.to_set().filter(pred) =~= rest.to_set().filter(pred));
            assert(keys.filter(pred) =~= rest.filter(pred));
        }
    }
}

/// Who owns what.
pub struct OwnershipRegistry {
    maximum_entities: usize,
    maximum_entities_per_owner: usize,
    entries: SortedMap<String, OwnershipState>,
}

impl View for OwnershipRegistry {
    type V = OwnershipModel;

    closed spec fn view(&self) -> OwnershipModel {
        OwnershipModel {
            maximum_entities: self.maximum_entities as nat,
            maximum_entities_per_owner: self.maximum_entities_per_owner as nat,
            entries: self.entries@.map_values(|state: OwnershipState| state@),
        }
    }
}

impl OwnershipRegistry {
    pub closed spec fn wf(&self) -> bool {
        self.entries.wf() && self@.valid()
    }

    pub proof fn lemma_valid(&self)
        requires
            self.wf(),
        ensures
            self@.valid(),
    {
    }

    proof fn lemma_walk(&self)
        requires
            self.wf(),
        ensures
            self@.entries.dom() == self.entries@.dom(),
            self.entries.keys() == in_order::<String>(self@.entries.dom()),
            self.entries.keys().to_set() == self@.entries.dom(),
            self.entries.keys().no_duplicates(),
            self.entries.keys().len() == self@.entries.len(),
    {
        assert(self@.entries.dom() =~= self.entries@.dom());
        self.entries.lemma_in_order();
    }

    pub fn new(maximum_entities: usize, maximum_entities_per_owner: usize) -> (registry: Self)
        ensures
            registry.wf(),
            registry@ == (OwnershipModel {
                maximum_entities: maximum_entities as nat,
                maximum_entities_per_owner: maximum_entities_per_owner as nat,
                entries: Map::empty(),
            }),
    {
        let registry = OwnershipRegistry {
            maximum_entities,
            maximum_entities_per_owner,
            entries: SortedMap::new(),
        };
        proof {
            assert(registry@.entries =~= Map::empty());
            assert forall|owner: SessionId| #[trigger]
                registry@.owned_set(owner).len() <= registry@.maximum_entities_per_owner by {
                assert(registry@.owned_set(owner) =~= Set::empty());
            }
        }
        registry
    }

    /// Claims an entity: its owner resumes, an explicit claim takes over, and
    /// a snapshot claim never replaces another owner.
    pub fn claim(&mut self, request: ClaimRequest<'_>) -> (result: Result<
        ClaimOutcome,
        OwnershipError,
    >)
        requires
            old(self).wf(),
        ensures
            final(self).wf(),
            (final(self)@, crate::text::outcome(result)) == old(self)@.claimed(request@),
    {
        let ghost before = *self;
        proof {
            before.lemma_walk();
            before@.lemma_claim_valid(request@);
        }
        if request.entity_id.is_empty() || request.registration_id.len() == 0 {
            return Err(OwnershipError::InvalidClaim);
        }
        let explicit = match request.mode {
            ClaimMode::Explicit => true,
            ClaimMode::Snapshot => false,
        };
        let previous = match self.entries.get(request.entity_id) {
            None => None,
            Some(current) => Some(current.clone()),
        };
        if let Some(current) = &previous {
            let resumable = current.owner == request.owner && same_bytes(
                current.registration_id.as_slice(),
                request.registration_id,
            ) && (explicit || same_bytes(
                current.fencing_token.as_slice(),
                request.presented_fencing_token,
            ));
            if resumable {
                let revision_advanced = request.client_revision > current.client_revision;
                let fencing_token = copy_bytes(current.fencing_token.as_slice());
                if revision_advanced {
                    if let Some(entry) = self.entries.get_mut(request.entity_id) {
                        entry.client_revision = request.client_revision;
                    }
                }
                proof {
                    let id = request.entity_id@;
                    let view = |state: OwnershipState| state@;
                    if revision_advanced {
                        crate::ordered::lemma_map_insert(
                            before.entries@,
                            id,
                            self.entries@[id],
                            view,
                        );
                    }
                    assert(self@ =~= before@.claimed(request@).0);
                }
                return Ok(ClaimOutcome::Resumed { fencing_token, revision_advanced });
            }
            if !explicit {
                return Err(OwnershipError::SnapshotConflict);
            }
        }
        let known_owner = match &previous {
            None => None,
            Some(state) => Some(state.owner),
        };
        if known_owner.is_none() && self.entries.len() >= self.maximum_entities {
            return Err(OwnershipError::GlobalLimit);
        }
        let already_owned: usize = self.count_owned(request.owner);
        let owned_by_claimant = match known_owner {
            None => false,
            Some(owner) => owner == request.owner,
        };
        if !owned_by_claimant && already_owned >= self.maximum_entities_per_owner {
            return Err(OwnershipError::OwnerLimit);
        }
        if request.new_fencing_token.is_empty() {
            return Err(OwnershipError::InvalidClaim);
        }
        if self.token_exists(request.new_fencing_token.as_slice()) {
            return Err(OwnershipError::FencingTokenCollision);
        }
        let state = OwnershipState {
            entity_id: request.entity_id.to_owned(),
            owner: request.owner,
            registration_id: copy_bytes(request.registration_id),
            fencing_token: copy_bytes(request.new_fencing_token.as_slice()),
            client_revision: request.client_revision,
        };
        let ghost created = state;
        self.entries.insert(request.entity_id.to_owned(), state);
        proof {
            crate::ordered::lemma_map_insert(
                before.entries@,
                request.entity_id@,
                created,
                |state: OwnershipState| state@,
            );
            assert(self@ =~= before@.claimed(request@).0);
        }
        Ok(ClaimOutcome::Acquired { fencing_token: request.new_fencing_token, previous })
    }

    /// How many entities an owner has.
    fn count_owned(&self, owner: SessionId) -> (count: usize)
        requires
            self.wf(),
        ensures
            count == self@.owned_set(owner).len(),
    {
        let owned = self.owned_entities(owner);
        proof {
            self.lemma_walk();
            lemma_walk_counts(
                self.entries.keys(),
                |id: Seq<char>| self@.entries[id].owner == owner,
            );
        }
        owned.len()
    }

    fn token_exists(&self, token: &[u8]) -> (found: bool)
        requires
            self.wf(),
        ensures
            found == self@.has_token(token@),
    {
        proof {
            self.lemma_walk();
        }
        let ghost keys = self.entries.keys();
        let count: usize = self.entries.len();
        let mut i: usize = 0;
        while i < count
            invariant
                self.wf(),
                keys == self.entries.keys(),
                keys.to_set() == self@.entries.dom(),
                count == keys.len(),
                i <= count,
                forall|k: int|
                    0 <= k < i ==> self.entries@[#[trigger] keys[k]]@.fencing_token != token@,
            decreases count - i,
        {
            let state = self.entries.value_at(i);
            if same_bytes(state.fencing_token.as_slice(), token) {
                assert(keys.to_set().contains(keys[i as int]));
                assert(self@.entries.dom().contains(keys[i as int]));
                return true;
            }
            i = i + 1;
        }
        proof {
            if self@.has_token(token@) {
                let id = choose|id: Seq<char>| #[trigger]
                    self@.entries.dom().contains(id) && self@.entries[id].fencing_token == token@;
                assert(keys.to_set().contains(id));
                let k = choose|k: int| 0 <= k < keys.len() && keys[k] == id;
                assert(keys[k] == id);
            }
        }
        false
    }

    /// Moves an entity to a newer revision of its owner's payload.
    pub fn accept_revision(
        &mut self,
        entity_id: &str,
        owner: SessionId,
        fencing_token: &[u8],
        client_revision: u64,
        payload_unchanged: bool,
    ) -> (result: Result<RevisionOutcome, OwnershipError>)
        requires
            old(self).wf(),
        ensures
            final(self).wf(),
            (final(self)@, result) == old(self)@.revised(
                entity_id@,
                owner,
                fencing_token@,
                client_revision,
                payload_unchanged,
            ),
    {
        let ghost before = *self;
        proof {
            before.lemma_walk();
            if before@.entries.dom().contains(entity_id@) {
                before@.lemma_revision_valid(entity_id@, client_revision);
            }
        }
        match self.entries.get(entity_id) {
            None => {
                return Err(OwnershipError::NotFound);
            },
            Some(current) => {
                if current.owner != owner || !same_bytes(
                    current.fencing_token.as_slice(),
                    fencing_token,
                ) {
                    return Err(OwnershipError::OwnershipLost);
                }
                if client_revision < current.client_revision || (client_revision
                    == current.client_revision && !payload_unchanged) {
                    return Err(OwnershipError::StaleRevision);
                }
                if client_revision == current.client_revision {
                    return Ok(RevisionOutcome::Unchanged);
                }
            },
        }
        if let Some(entry) = self.entries.get_mut(entity_id) {
            entry.client_revision = client_revision;
        }
        proof {
            crate::ordered::lemma_map_insert(
                before.entries@,
                entity_id@,
                self.entries@[entity_id@],
                |state: OwnershipState| state@,
            );
            assert(self@ =~= before@.with(
                entity_id@,
                OwnershipModel::at_revision(before@.entries[entity_id@], client_revision),
            ));
        }
        Ok(RevisionOutcome::Advanced)
    }

    /// Gives an entity up, under its current capability.
    pub fn release(
        &mut self,
        entity_id: &str,
        owner: SessionId,
        registration_id: &[u8],
        fencing_token: &[u8],
    ) -> (result: Result<OwnershipState, OwnershipError>)
        requires
            old(self).wf(),
        ensures
            final(self).wf(),
            (final(self)@, crate::text::outcome(result)) == old(self)@.released(
                entity_id@,
                owner,
                registration_id@,
                fencing_token@,
            ),
    {
        let ghost before = *self;
        proof {
            before.lemma_walk();
            before@.lemma_release_valid(entity_id@);
        }
        match self.entries.get(entity_id) {
            None => {
                return Err(OwnershipError::OwnershipLost);
            },
            Some(current) => {
                if current.owner != owner || !same_bytes(
                    current.registration_id.as_slice(),
                    registration_id,
                ) || !same_bytes(current.fencing_token.as_slice(), fencing_token) {
                    return Err(OwnershipError::OwnershipLost);
                }
            },
        }
        match self.entries.remove(entity_id) {
            None => Err(OwnershipError::OwnershipLost),
            Some(state) => {
                proof {
                    crate::ordered::lemma_map_remove(
                        before.entries@,
                        entity_id@,
                        |state: OwnershipState| state@,
                    );
                    assert(self@ =~= (OwnershipModel {
                        entries: before@.entries.remove(entity_id@),
                        ..before@
                    }));
                }
                Ok(state)
            },
        }
    }

    pub fn get(&self, entity_id: &str) -> (state: Option<&OwnershipState>)
        requires
            self.wf(),
        ensures
            match state {
                Some(found) => self@.entries.dom().contains(entity_id@) && found@
                    == self@.entries[entity_id@],
                None => !self@.entries.dom().contains(entity_id@),
            },
    {
        self.entries.get(entity_id)
    }

    /// The entities of an owner, in ascending order.
    pub fn owned_entities(&self, owner: SessionId) -> (owned: Vec<String>)
        requires
            self.wf(),
        ensures
            crate::text::views(owned@) == self@.owned(owner),
    {
        proof {
            self.lemma_walk();
        }
        let ghost keys = self.entries.keys();
        let ghost mine = |id: Seq<char>| self@.entries[id].owner == owner;
        let count: usize = self.entries.len();
        let mut owned: Vec<String> = Vec::new();
        let mut i: usize = 0;
        while i < count
            invariant
                self.wf(),
                keys == self.entries.keys(),
                keys.to_set() == self@.entries.dom(),
                mine == (|id: Seq<char>| self@.entries[id].owner == owner),
                count == keys.len(),
                i <= count,
                crate::text::views(owned@) == keys.take(i as int).filter(mine),
            decreases count - i,
        {
            let state = self.entries.value_at(i);
            proof {
                assert(keys.take(i + 1) =~= keys.take(i as int).push(keys[i as int]));
                keys.take(i as int).lemma_filter_push(keys[i as int], mine);
                assert(keys.to_set().contains(keys[i as int]));
                assert(self@.entries.dom().contains(keys[i as int]));
            }
            if state.owner == owner {
                let ghost so_far = owned@;
                owned.push(state.entity_id.clone());
                assert(crate::text::views(owned@) =~= crate::text::views(so_far).push(
                    keys[i as int],
                ));
            }
            i = i + 1;
        }
        assert(keys.take(count as int) =~= keys);
        owned
    }

    pub fn is_empty(&self) -> (empty: bool)
        requires
            self.wf(),
        ensures
            empty == (self@.entries =~= Map::<Seq<char>, OwnedModel>::empty()),
    {
        proof {
            self.lemma_walk();
        }
        self.entries.is_empty()
    }
}

/// A snapshot claim never changes who owns an entity that has an owner.
pub proof fn a_snapshot_never_transfers_ownership(registry: OwnershipModel, claim: ClaimModel)
    requires
        claim.mode == ClaimMode::Snapshot,
        registry.entries.dom().contains(claim.entity_id),
    ensures
        ({
            let after = registry.claimed(claim).0.entries[claim.entity_id];
            let was = registry.entries[claim.entity_id];
            &&& after.owner == was.owner
            &&& after.registration_id == was.registration_id
            &&& after.fencing_token == was.fencing_token
        }),
{
}

/// An acquisition installs a token that no entity had, so every older
/// capability on the entity is stale: it can neither change nor release it.
pub proof fn acquisition_fences_older_capabilities(
    registry: OwnershipModel,
    claim: ClaimModel,
    owner: SessionId,
    registration_id: Seq<u8>,
    revision: u64,
    payload_unchanged: bool,
)
    requires
        registry.valid(),
        registry.entries.dom().contains(claim.entity_id),
        registry.claimed(claim).1 matches Ok(ClaimOutcomeModel::Acquired { .. }),
    ensures
        ({
            let after = registry.claimed(claim).0;
            let stale = registry.entries[claim.entity_id].fencing_token;
            &&& after.entries[claim.entity_id].fencing_token != stale
            &&& after.revised(claim.entity_id, owner, stale, revision, payload_unchanged) == (
                after,
                Err::<RevisionOutcome, OwnershipError>(OwnershipError::OwnershipLost),
            )
            &&& after.released(claim.entity_id, owner, registration_id, stale) == (
                after,
                Err::<OwnedModel, OwnershipError>(OwnershipError::OwnershipLost),
            )
        }),
{
    assert(registry.entries.dom().contains(claim.entity_id));
}

/// A claim, a revision or a release that is refused changes nothing.
pub proof fn a_refused_ownership_change_changes_nothing(
    registry: OwnershipModel,
    claim: ClaimModel,
    id: Seq<char>,
    owner: SessionId,
    registration_id: Seq<u8>,
    token: Seq<u8>,
    revision: u64,
    payload_unchanged: bool,
)
    ensures
        registry.claimed(claim).1 is Err ==> registry.claimed(claim).0 == registry,
        registry.revised(id, owner, token, revision, payload_unchanged).1 is Err ==> registry.revised(
            id,
            owner,
            token,
            revision,
            payload_unchanged,
        ).0 == registry,
        registry.released(id, owner, registration_id, token).1 is Err ==> registry.released(
            id,
            owner,
            registration_id,
            token,
        ).0 == registry,
{
}

/// While an entity stays under one registration its revision never moves back.
pub proof fn revisions_only_move_forward(
    registry: OwnershipModel,
    claim: ClaimModel,
    owner: SessionId,
    token: Seq<u8>,
    revision: u64,
    payload_unchanged: bool,
    id: Seq<char>,
)
    requires
        registry.entries.dom().contains(id),
    ensures
        registry.revised(id, owner, token, revision, payload_unchanged).0.entries[id].client_revision
            >= registry.entries[id].client_revision,
        registry.resumable(claim) ==> registry.claimed(claim).0.entries[id].client_revision
            >= registry.entries[id].client_revision,
{
}

/// A claim touches the claimed entity alone.
pub proof fn a_claim_leaves_other_entities_alone(
    registry: OwnershipModel,
    claim: ClaimModel,
    other: Seq<char>,
)
    requires
        other != claim.entity_id,
    ensures
        registry.claimed(claim).0.entries.dom().contains(other)
            == registry.entries.dom().contains(other),
        registry.claimed(claim).0.entries[other] == registry.entries[other],
{
}

/// Claims keep the number of entities, in all and of one owner, in its limit.
pub proof fn claims_respect_both_limits(
    registry: OwnershipModel,
    claim: ClaimModel,
    owner: SessionId,
)
    requires
        registry.valid(),
    ensures
        registry.claimed(claim).0.entries.len() <= registry.maximum_entities,
        registry.claimed(claim).0.owned_set(owner).len() <= registry.maximum_entities_per_owner,
{
    registry.lemma_claim_valid(claim);
    assert(registry.claimed(claim).0.owned_set(owner).len()
        <= registry.claimed(claim).0.maximum_entities_per_owner);
}

/// A claim that is granted leaves the entity with the claimant, under its registration.
/// A new owner gets the new token and the revision that it told; an owner that resumes
/// keeps its token, and is taken as far as the revision that it told. The answer gives
/// the token that is now current, and names the owner that was replaced.
pub proof fn a_granted_claim_makes_an_owner(registry: OwnershipModel, claim: ClaimModel)
    requires
        registry.claimed(claim).1 is Ok,
    ensures
        ({
            let known = registry.entries.dom().contains(claim.entity_id);
            let was = registry.entries[claim.entity_id];
            let after = registry.claimed(claim).0.entries[claim.entity_id];
            &&& registry.claimed(claim).0.entries.dom().contains(claim.entity_id)
            &&& after.entity_id == claim.entity_id || (known && after.entity_id == was.entity_id)
            &&& after.owner == claim.owner
            &&& after.registration_id == claim.registration_id
            &&& match registry.claimed(claim).1->Ok_0 {
                ClaimOutcomeModel::Acquired { fencing_token, previous } => {
                    &&& fencing_token == claim.new_fencing_token
                    &&& after.fencing_token == claim.new_fencing_token
                    &&& after.client_revision == claim.client_revision
                    &&& previous == if known {
                        Some(was)
                    } else {
                        None
                    }
                },
                ClaimOutcomeModel::Resumed { fencing_token, revision_advanced } => {
                    &&& known && was.owner == claim.owner && was.registration_id
                        == claim.registration_id
                    &&& claim.mode == ClaimMode::Snapshot ==> claim.presented_fencing_token
                        == was.fencing_token
                    &&& fencing_token == was.fencing_token
                    &&& after.fencing_token == was.fencing_token
                    &&& revision_advanced <==> claim.client_revision > was.client_revision
                    &&& revision_advanced ==> after.client_revision == claim.client_revision
                    &&& !revision_advanced ==> after.client_revision == was.client_revision
                },
            }
        }),
{
}

/// An entity that nobody has goes to whoever claims it, where both limits leave room and
/// the new token is a fresh one. An explicit claim also takes an entity from its owner.
pub proof fn a_free_entity_is_granted(registry: OwnershipModel, claim: ClaimModel)
    requires
        registry.valid(),
        claim.entity_id.len() > 0,
        claim.registration_id.len() > 0,
        claim.new_fencing_token.len() > 0,
        forall|id: Seq<char>| #[trigger]
            registry.entries.dom().contains(id) ==> registry.entries[id].fencing_token
                != claim.new_fencing_token,
        registry.owned_set(claim.owner).len() < registry.maximum_entities_per_owner,
        if registry.entries.dom().contains(claim.entity_id) {
            claim.mode == ClaimMode::Explicit
        } else {
            registry.entries.len() < registry.maximum_entities
        },
    ensures
        registry.claimed(claim).1 is Ok,
{
}

/// A revision is taken from the owner with the current token alone, and only forwards;
/// the same revision again is no change, and says nothing new. The entity then has that
/// revision, and keeps its owner, registration and token.
pub proof fn a_revision_is_taken_from_the_owner(
    registry: OwnershipModel,
    id: Seq<char>,
    owner: SessionId,
    token: Seq<u8>,
    revision: u64,
    payload_unchanged: bool,
    other: Seq<char>,
)
    ensures
        ({
            let was = registry.entries[id];
            let outcome = registry.revised(id, owner, token, revision, payload_unchanged);
            let after = outcome.0.entries[id];
            &&& outcome.1 == Ok::<RevisionOutcome, OwnershipError>(RevisionOutcome::Advanced) <==> {
                &&& registry.entries.dom().contains(id)
                &&& was.owner == owner
                &&& was.fencing_token == token
                &&& revision > was.client_revision
            }
            &&& outcome.1 == Ok::<RevisionOutcome, OwnershipError>(RevisionOutcome::Unchanged) <==> {
                &&& registry.entries.dom().contains(id)
                &&& was.owner == owner
                &&& was.fencing_token == token
                &&& revision == was.client_revision
                &&& payload_unchanged
            }
            &&& outcome.1 is Ok ==> {
                &&& after.client_revision == revision
                &&& after.owner == was.owner
                &&& after.registration_id == was.registration_id
                &&& after.fencing_token == was.fencing_token
                &&& after.entity_id == was.entity_id
            }
            &&& outcome.1 == Err::<RevisionOutcome, OwnershipError>(OwnershipError::NotFound) <==>
                !registry.entries.dom().contains(id)
            &&& outcome.1 == Err::<RevisionOutcome, OwnershipError>(
                OwnershipError::OwnershipLost,
            ) <==> registry.entries.dom().contains(id) && (was.owner != owner || was.fencing_token
                != token)
            &&& other != id ==> outcome.0.entries[other] == registry.entries[other]
        }),
{
    assert(registry.revised(id, owner, token, revision, payload_unchanged).0.entries.dom()
        =~= registry.entries.dom());
}

/// A release takes owner, registration and token, all of them current. The entity is then
/// nobody's, and all other entities stay whose they are.
pub proof fn a_release_takes_the_whole_capability(
    registry: OwnershipModel,
    id: Seq<char>,
    owner: SessionId,
    registration_id: Seq<u8>,
    token: Seq<u8>,
    other: Seq<char>,
)
    ensures
        ({
            let was = registry.entries[id];
            let outcome = registry.released(id, owner, registration_id, token);
            &&& outcome.1 is Ok <==> registry.entries.dom().contains(id) && was.owner == owner
                && was.registration_id == registration_id && was.fencing_token == token
            &&& outcome.1 is Ok ==> !outcome.0.entries.dom().contains(id) && outcome.1->Ok_0 == was
            &&& outcome.1 is Err ==> outcome.1->Err_0 == OwnershipError::OwnershipLost
            &&& other != id ==> {
                &&& outcome.0.entries.dom().contains(other)
                    == registry.entries.dom().contains(other)
                &&& outcome.0.entries[other] == registry.entries[other]
            }
        }),
{
}

/// The entities of an owner are listed, each once, in ascending order, and no others.
pub proof fn an_owners_entities_are_listed(
    registry: OwnershipModel,
    owner: SessionId,
    id: Seq<char>,
)
    requires
        registry.valid(),
    ensures
        registry.owned(owner).contains(id) <==> registry.entries.dom().contains(id)
            && registry.entries[id].owner == owner,
        registry.owned(owner).no_duplicates(),
        crate::ordered::ascending::<String>(registry.owned(owner)),
{
    let all = in_order::<String>(registry.entries.dom());
    let keep = |id: Seq<char>| registry.entries[id].owner == owner;
    crate::ordered::lemma_in_order_of::<String>(registry.entries.dom());
    crate::ordered::lemma_filter_members(all, keep, id);
    crate::ordered::lemma_ascending_filter::<String>(all, keep);
}

#[derive(Debug, Clone, Copy, PartialEq, Eq, Structural)]
pub enum OwnershipError {
    InvalidClaim,
    SnapshotConflict,
    GlobalLimit,
    OwnerLimit,
    FencingTokenCollision,
    NotFound,
    OwnershipLost,
    StaleRevision,
}

impl OwnershipError {
    pub open spec fn text(self) -> Seq<char> {
        match self {
            OwnershipError::InvalidClaim =>
                "entity_id and registration_id must be present, with a fencing token for acquisition"@,
            OwnershipError::SnapshotConflict => "a snapshot cannot replace current ownership"@,
            OwnershipError::GlobalLimit => "the global ownership limit is reached"@,
            OwnershipError::OwnerLimit => "the ownership limit for this session is reached"@,
            OwnershipError::FencingTokenCollision =>
                "a generated fencing token collides with live state"@,
            OwnershipError::NotFound => "the entity is not registered"@,
            OwnershipError::OwnershipLost => "the ownership capability is stale"@,
            OwnershipError::StaleRevision =>
                "the entity revision moved backwards or changed in place"@,
        }
    }

    /// The error in words.
    pub fn message(&self) -> (message: String)
        ensures
            message@ == self.text(),
    {
        match self {
            OwnershipError::InvalidClaim =>
                "entity_id and registration_id must be present, with a fencing token for acquisition".to_owned(),
            OwnershipError::SnapshotConflict =>
                "a snapshot cannot replace current ownership".to_owned(),
            OwnershipError::GlobalLimit => "the global ownership limit is reached".to_owned(),
            OwnershipError::OwnerLimit =>
                "the ownership limit for this session is reached".to_owned(),
            OwnershipError::FencingTokenCollision =>
                "a generated fencing token collides with live state".to_owned(),
            OwnershipError::NotFound => "the entity is not registered".to_owned(),
            OwnershipError::OwnershipLost => "the ownership capability is stale".to_owned(),
            OwnershipError::StaleRevision =>
                "the entity revision moved backwards or changed in place".to_owned(),
        }
    }
}

} // verus!
