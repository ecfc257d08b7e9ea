//! Spaces: named rooms, what a participant looks like in one, and what became
//! of each render.

use vstd::prelude::*;

use crate::clock::{Duration, Instant};
use crate::host::ConnectionId;
use crate::messages::ParticipantSpecModel;
use crate::ordered::SortedMap;
use crate::text::{optional, same_text, views};
use crate::text_set::{text_set, TextSet};

verus! {

#[derive(Debug, Clone, Copy, PartialEq, Eq, Structural)]
pub enum SpacesValidationError {
    InvalidSpaceKey,
    InvalidDisplayName,
}

impl SpacesValidationError {
    pub open spec fn text(self) -> Seq<char> {
        match self {
            SpacesValidationError::InvalidSpaceKey =>
                "space_key must contain between 1 and 128 bytes"@,
            SpacesValidationError::InvalidDisplayName =>
                "display_name must contain between 1 and 64 characters"@,
        }
    }

    /// The error in words.
    pub fn message(&self) -> (message: String)
        ensures
            message@ == self.text(),
    {
        match self {
            SpacesValidationError::InvalidSpaceKey =>
                "space_key must contain between 1 and 128 bytes".to_owned(),
            SpacesValidationError::InvalidDisplayName =>
                "display_name must contain between 1 and 64 characters".to_owned(),
        }
    }
}

/// A Space key takes between 1 and 128 bytes.
pub open spec fn valid_space_key(key: Seq<char>) -> bool {
    key.len() > 0 && vstd::utf8::encode_utf8(key).len() <= 128
}

/// A display name has between 1 and 64 characters.
pub open spec fn valid_display_name(name: Seq<char>) -> bool {
    0 < name.len() <= 64
}

/// The outcome of checking a participant payload.
pub open spec fn checked_spec(spec: ParticipantSpecModel) -> Result<
    ParticipantSpecModel,
    SpacesValidationError,
> {
    if !valid_space_key(spec.space_key) {
        Err(SpacesValidationError::InvalidSpaceKey)
    } else if !valid_display_name(spec.display_name) {
        Err(SpacesValidationError::InvalidDisplayName)
    } else {
        Ok(spec)
    }
}

/// Stable business identity of one named Space.
#[derive(Debug, PartialEq, Eq, PartialOrd, Ord)]
pub struct SpaceKey(String);

impl View for SpaceKey {
    type V = Seq<char>;

    closed spec fn view(&self) -> Seq<char> {
        self.0@
    }
}

impl Clone for SpaceKey {
    fn clone(&self) -> (copy: Self)
        ensures
            copy@ == self@,
    {
        proof {
            use_type_invariant(self);
        }
        SpaceKey(self.0.clone())
    }
}

impl SpaceKey {
    #[verifier::type_invariant]
    spec fn is_valid(self) -> bool {
        valid_space_key(self.0@)
    }

    /// Checks a Space key.
    pub fn new(value: String) -> (result: Result<Self, SpacesValidationError>)
        ensures
            crate::text::outcome(result) == (if valid_space_key(value@) {
                Ok(value@)
            } else {
                Err(SpacesValidationError::InvalidSpaceKey)
            }),
    {
        let text = value.as_str();
        if text.is_empty() || text.as_bytes().len() > 128 {
            return Err(SpacesValidationError::InvalidSpaceKey);
        }
        Ok(SpaceKey(value))
    }

    pub fn as_str(&self) -> (text: &str)
        ensures
            text@ == self@,
            valid_space_key(text@),
    {
        proof {
            use_type_invariant(self);
        }
        self.0.as_str()
    }
}

/// Spaces-owned desired state for one logical participant.
#[derive(Debug, PartialEq, Eq)]
pub struct ParticipantSpec {
    space_key: SpaceKey,
    display_name: String,
    server_mute: bool,
    server_deaf: bool,
}

impl View for ParticipantSpec {
    type V = ParticipantSpecModel;

    closed spec fn view(&self) -> ParticipantSpecModel {
        ParticipantSpecModel {
            space_key: self.space_key@,
            display_name: self.display_name@,
            server_mute: self.server_mute,
            server_deaf: self.server_deaf,
        }
    }
}

impl Clone for ParticipantSpec {
    fn clone(&self) -> (copy: Self)
        ensures
            copy@ == self@,
    {
        proof {
            use_type_invariant(self);
        }
        ParticipantSpec {
            space_key: self.space_key.clone(),
            display_name: self.display_name.clone(),
            server_mute: self.server_mute,
            server_deaf: self.server_deaf,
        }
    }
}

impl ParticipantSpec {
    #[verifier::type_invariant]
    spec fn is_valid(self) -> bool {
        valid_display_name(self.display_name@)
    }

    /// Checks a complete participant payload.
    pub fn new(
        space_key: String,
        display_name: String,
        server_mute: bool,
        server_deaf: bool,
    ) -> (result: Result<Self, SpacesValidationError>)
        ensures
            crate::text::outcome(result) == checked_spec(
                ParticipantSpecModel {
                    space_key: space_key@,
                    display_name: display_name@,
                    server_mute,
                    server_deaf,
                },
            ),
    {
        let space_key = match SpaceKey::new(space_key) {
            Ok(space_key) => space_key,
            Err(error) => {
                return Err(error);
            },
        };
        if display_name.as_str().is_empty() || display_name.as_str().unicode_len() > 64 {
            return Err(SpacesValidationError::InvalidDisplayName);
        }
        Ok(ParticipantSpec { space_key, display_name, server_mute, server_deaf })
    }

    pub fn space_key(&self) -> (key: &SpaceKey)
        ensures
            key@ == self@.space_key,
    {
        &self.space_key
    }

    pub fn display_name(&self) -> (name: &str)
        ensures
            name@ == self@.display_name,
    {
        self.display_name.as_str()
    }

    pub fn server_mute(&self) -> (mute: bool)
        ensures
            mute == self@.server_mute,
    {
        self.server_mute
    }

    pub fn server_deaf(&self) -> (deaf: bool)
        ensures
            deaf == self@.server_deaf,
    {
        self.server_deaf
    }

    /// Whether two payloads say the same.
    pub fn same(&self, other: &ParticipantSpec) -> (same: bool)
        ensures
            same == (self@ == other@),
    {
        same_text(self.space_key.as_str(), other.space_key.as_str()) && same_text(
            self.display_name.as_str(),
            other.display_name.as_str(),
        ) && self.server_mute == other.server_mute && self.server_deaf == other.server_deaf
    }
}

/// What the server keeps of one participant.
#[derive(Debug, PartialEq, Eq)]
pub struct ParticipantState {
    pub participant_id: String,
    pub applied_spec_revision: u64,
    pub applied_space_key: Option<String>,
    pub published_generation: u64,
    pub spec: ParticipantSpec,
    pub self_mute: bool,
    pub self_deaf: bool,
    pub application_error: String,
}

pub struct ParticipantModel {
    pub participant_id: Seq<char>,
    pub applied_spec_revision: u64,
    pub applied_space_key: Option<Seq<char>>,
    pub published_generation: u64,
    pub spec: ParticipantSpecModel,
    pub self_mute: bool,
    pub self_deaf: bool,
    pub application_error: Seq<char>,
}

impl View for ParticipantState {
    type V = ParticipantModel;

    open spec fn view(&self) -> ParticipantModel {
        ParticipantModel {
            participant_id: self.participant_id@,
            applied_spec_revision: self.applied_spec_revision,
            applied_space_key: optional(self.applied_space_key),
            published_generation: self.published_generation,
            spec: self.spec@,
            self_mute: self.self_mute,
            self_deaf: self.self_deaf,
            application_error: self.application_error@,
        }
    }
}

impl Clone for ParticipantState {
    fn clone(&self) -> (copy: Self)
        ensures
            copy@ == self@,
    {
        ParticipantState {
            participant_id: self.participant_id.clone(),
            applied_spec_revision: self.applied_spec_revision,
            applied_space_key: match &self.applied_space_key {
                Some(key) => Some(key.clone()),
                None => None,
            },
            published_generation: self.published_generation,
            spec: self.spec.clone(),
            self_mute: self.self_mute,
            self_deaf: self.self_deaf,
            application_error: self.application_error.clone(),
        }
    }
}

/// An observation set that is older than the current one.
#[derive(Debug, Clone, Copy, PartialEq, Eq, Structural)]
pub struct StaleObservations;

/// The Spaces that a session observes explicitly.
pub struct SessionState {
    observed_revision: u64,
    explicit_observations: TextSet,
}

#[verifier::ext_equal]
pub struct ObservationsModel {
    pub observed_revision: u64,
    pub explicit: Set<Seq<char>>,
}

impl View for SessionState {
    type V = ObservationsModel;

    closed spec fn view(&self) -> ObservationsModel {
        ObservationsModel {
            observed_revision: self.observed_revision,
            explicit: self.explicit_observations@.dom(),
        }
    }
}

impl ObservationsModel {
    pub open spec fn none() -> Self {
        ObservationsModel { observed_revision: 0, explicit: Set::empty() }
    }

    /// The observations and the answer after a replacement at `revision`.
    pub open spec fn replaced(self, revision: u64, keys: Set<Seq<char>>) -> (
        Self,
        Result<(), StaleObservations>,
    ) {
        if revision < self.observed_revision {
            (self, Err(StaleObservations))
        } else {
            (ObservationsModel { observed_revision: revision, explicit: keys }, Ok(()))
        }
    }
}

impl SessionState {
    pub closed spec fn wf(&self) -> bool {
        self.explicit_observations.wf()
    }

    pub fn new() -> (state: Self)
        ensures
            state.wf(),
            state@ == ObservationsModel::none(),
    {
        let state = SessionState { observed_revision: 0, explicit_observations: TextSet::new() };
        assert(state@ =~= ObservationsModel::none());
        state
    }

    /// Installs the observations of a full snapshot, whatever their revision.
    pub fn replace_snapshot_observations(&mut self, keys: &Vec<String>)
        requires
            old(self).wf(),
        ensures
            final(self).wf(),
            final(self)@ == (ObservationsModel {
                explicit: views(keys@).to_set(),
                ..old(self)@
            }),
    {
        self.explicit_observations = text_set(keys);
    }

    /// Installs the observations of `revision`, unless newer ones are known.
    pub fn replace_observations(&mut self, revision: u64, keys: &Vec<String>) -> (result: Result<
        (),
        StaleObservations,
    >)
        requires
            old(self).wf(),
        ensures
            final(self).wf(),
            (final(self)@, result) == old(self)@.replaced(revision, views(keys@).to_set()),
    {
        if revision < self.observed_revision {
            return Err(StaleObservations);
        }
        self.observed_revision = revision;
        self.explicit_observations = text_set(keys);
        Ok(())
    }

    pub fn observes(&self, space_key: &str) -> (observed: bool)
        requires
            self.wf(),
        ensures
            observed == self@.explicit.contains(space_key@),
    {
        self.explicit_observations.contains_key(space_key)
    }
}

/// An observation revision never moves back.
pub proof fn observation_revisions_only_move_forward(
    state: ObservationsModel,
    revision: u64,
    keys: Set<Seq<char>>,
)
    ensures
        state.replaced(revision, keys).0.observed_revision >= state.observed_revision,
        state.replaced(revision, keys).1 is Err ==> state.replaced(revision, keys).0 == state,
{
}

/// A participant as a Space renders it.
#[derive(Debug, PartialEq, Eq)]
pub struct RenderParticipant {
    pub participant_id: String,
    pub connection: Option<ConnectionId>,
    pub display_name: String,
    pub server_mute: bool,
    pub server_deaf: bool,
    pub self_mute: bool,
    pub self_deaf: bool,
    pub accepted_revision: u64,
}

pub struct RenderParticipantModel {
    pub participant_id: Seq<char>,
    pub connection: Option<u64>,
    pub display_name: Seq<char>,
    pub server_mute: bool,
    pub server_deaf: bool,
    pub self_mute: bool,
    pub self_deaf: bool,
    pub accepted_revision: u64,
}

impl View for RenderParticipant {
    type V = RenderParticipantModel;

    open spec fn view(&self) -> RenderParticipantModel {
        RenderParticipantModel {
            participant_id: self.participant_id@,
            connection: optional(self.connection),
            display_name: self.display_name@,
            server_mute: self.server_mute,
            server_deaf: self.server_deaf,
            self_mute: self.self_mute,
            self_deaf: self.self_deaf,
            accepted_revision: self.accepted_revision,
        }
    }
}

impl Clone for RenderParticipant {
    fn clone(&self) -> (copy: Self)
        ensures
            copy@ == self@,
    {
        RenderParticipant {
            participant_id: self.participant_id.clone(),
            connection: self.connection,
            display_name: self.display_name.clone(),
            server_mute: self.server_mute,
            server_deaf: self.server_deaf,
            self_mute: self.self_mute,
            self_deaf: self.self_deaf,
            accepted_revision: self.accepted_revision,
        }
    }
}

/// A fresh list with the members of `given`.
pub fn copy_render_participants(given: &Vec<RenderParticipant>) -> (copy: Vec<RenderParticipant>)
    ensures
        views(copy@) == views(given@),
{
    let mut copy: Vec<RenderParticipant> = Vec::new();
    let mut i: usize = 0;
    while i < given.len()
        invariant
            i <= given@.len(),
            copy@.len() == i,
            forall|k: int| 0 <= k < i ==> copy@[k]@ == (#[trigger] given@[k])@,
        decreases given@.len() - i,
    {
        copy.push(given[i].clone());
        i = i + 1;
    }
    assert(views(copy@) =~= views(given@));
    copy
}

/// All that one render of a Space shows.
#[derive(Debug, PartialEq, Eq)]
pub struct RenderState {
    pub application_revision: u64,
    pub space_key: String,
    pub participants: Vec<RenderParticipant>,
}

pub struct RenderStateModel {
    pub application_revision: u64,
    pub space_key: Seq<char>,
    pub participants: Seq<RenderParticipantModel>,
}

impl View for RenderState {
    type V = RenderStateModel;

    open spec fn view(&self) -> RenderStateModel {
        RenderStateModel {
            application_revision: self.application_revision,
            space_key: self.space_key@,
            participants: views(self.participants@),
        }
    }
}

impl Clone for RenderState {
    fn clone(&self) -> (copy: Self)
        ensures
            copy@ == self@,
    {
        RenderState {
            application_revision: self.application_revision,
            space_key: self.space_key.clone(),
            participants: copy_render_participants(&self.participants),
        }
    }
}

/// What the runtime reports of one reconciliation of a shard.
#[derive(Debug, PartialEq, Eq)]
pub struct ReconcileReport {
    pub version: u64,
    pub refused: Option<String>,
    pub delta_len: usize,
    pub routing_recompiled: bool,
}

pub struct ReportModel {
    pub version: u64,
    pub refused: Option<Seq<char>>,
}

impl View for ReconcileReport {
    type V = ReportModel;

    open spec fn view(&self) -> ReportModel {
        ReportModel { version: self.version, refused: optional(self.refused) }
    }
}

/// The revisions that one render showed, and what became of them.
#[derive(Debug, PartialEq, Eq)]
pub struct SpaceReconciliation {
    pub revisions: SortedMap<String, u64>,
    pub refusal: Option<String>,
    pub published_generation: u64,
}

pub struct ReconciliationModel {
    pub revisions: Map<Seq<char>, u64>,
    pub refusal: Option<Seq<char>>,
    pub published_generation: u64,
}

impl View for SpaceReconciliation {
    type V = ReconciliationModel;

    open spec fn view(&self) -> ReconciliationModel {
        ReconciliationModel {
            revisions: self.revisions@,
            refusal: optional(self.refusal),
            published_generation: self.published_generation,
        }
    }
}

/// The accepted revision of every rendered participant.
pub open spec fn revisions_of(participants: Seq<RenderParticipantModel>) -> Map<Seq<char>, u64>
    decreases participants.len(),
{
    if participants.len() == 0 {
        Map::empty()
    } else {
        revisions_of(participants.drop_last()).insert(
            participants.last().participant_id,
            participants.last().accepted_revision,
        )
    }
}

/// What is kept of one materialized Space.
#[verifier::ext_equal]
pub struct SpaceModel {
    pub incarnation_id: Seq<u8>,
    pub space_revision: u64,
    pub published_generation: u64,
    pub render_history: Map<u64, Map<Seq<char>, u64>>,
    pub close_deadline: Option<nat>,
}

impl SpaceModel {
    pub open spec fn fresh(incarnation_id: Seq<u8>) -> Self {
        SpaceModel {
            incarnation_id,
            space_revision: 0,
            published_generation: 0,
            render_history: Map::empty(),
            close_deadline: None,
        }
    }

    /// The Space after it was asked to render `participants`. An empty Space
    /// gets a deadline and keeps the one it has; any participant lifts it.
    pub open spec fn refreshed(
        self,
        application_revision: u64,
        participants: Seq<RenderParticipantModel>,
        now: nat,
        grace: nat,
    ) -> Self {
        SpaceModel {
            space_revision: if self.space_revision == u64::MAX {
                u64::MAX
            } else {
                (self.space_revision + 1) as u64
            },
            close_deadline: if participants.len() > 0 {
                None
            } else if self.close_deadline is Some {
                self.close_deadline
            } else {
                Some(now + grace)
            },
            render_history: self.render_history.insert(
                application_revision,
                revisions_of(participants),
            ),
            ..self
        }
    }

    /// The Space after a report on the render of `application_revision`. That
    /// render and every older one are settled by it.
    pub open spec fn reconciled(self, application_revision: u64, report: ReportModel) -> (
        Self,
        Option<ReconciliationModel>,
    ) {
        if !self.render_history.dom().contains(application_revision) {
            (self, None)
        } else {
            (
                SpaceModel {
                    published_generation: if report.refused is None {
                        report.version
                    } else {
                        self.published_generation
                    },
                    render_history: newer(self.render_history, application_revision),
                    ..self
                },
                Some(
                    ReconciliationModel {
                        revisions: self.render_history[application_revision],
                        refusal: report.refused,
                        published_generation: report.version,
                    },
                ),
            )
        }
    }
}

/// The entries of a history that are newer than `revision`.
pub open spec fn newer<V>(history: Map<u64, V>, revision: u64) -> Map<u64, V> {
    Map::new(|r: u64| history.dom().contains(r) && r > revision, |r: u64| history[r])
}

/// Profile-owned state for one materialized Space.
pub struct MaterializedSpace {
    incarnation_id: Vec<u8>,
    space_revision: u64,
    published_generation: u64,
    render_history: SortedMap<u64, SortedMap<String, u64>>,
    close_deadline: Option<Instant>,
}

impl View for MaterializedSpace {
    type V = SpaceModel;

    closed spec fn view(&self) -> SpaceModel {
        SpaceModel {
            incarnation_id: self.incarnation_id@,
            space_revision: self.space_revision,
            published_generation: self.published_generation,
            render_history: self.render_history@.map_values(
                |revisions: SortedMap<String, u64>| revisions@,
            ),
            close_deadline: optional(self.close_deadline),
        }
    }
}

impl MaterializedSpace {
    pub closed spec fn wf(&self) -> bool {
        &&& self.render_history.wf()
        &&& forall|r: u64| #[trigger]
            self.render_history@.dom().contains(r) ==> self.render_history@[r].wf()
    }

    pub fn new(incarnation_id: Vec<u8>) -> (space: Self)
        ensures
            space.wf(),
            space@ == SpaceModel::fresh(incarnation_id@),
    {
        let space = MaterializedSpace {
            incarnation_id,
            space_revision: 0,
            published_generation: 0,
            render_history: SortedMap::new(),
            close_deadline: None,
        };
        assert(space@ =~= SpaceModel::fresh(incarnation_id@));
        space
    }

    pub fn incarnation_id(&self) -> (id: &[u8])
        ensures
            id@ == self@.incarnation_id,
    {
        self.incarnation_id.as_slice()
    }

    pub fn revision(&self) -> (revision: u64)
        ensures
            revision == self@.space_revision,
    {
        self.space_revision
    }

    pub fn published_generation(&self) -> (generation: u64)
        ensures
            generation == self@.published_generation,
    {
        self.published_generation
    }

    pub fn close_deadline(&self) -> (deadline: Option<Instant>)
        ensures
            optional(deadline) == self@.close_deadline,
    {
        self.close_deadline
    }

    /// Takes note of a new render; the state that is to be published.
    pub fn refresh(
        &mut self,
        application_revision: u64,
        space_key: &str,
        participants: Vec<RenderParticipant>,
        now: Instant,
        empty_space_grace: Duration,
    ) -> (desired: RenderState)
        requires
            old(self).wf(),
            participants@.len() == 0 && old(self)@.close_deadline is None ==> crate::clock::reaches(
                now@,
                empty_space_grace@,
            ),
        ensures
            final(self).wf(),
            final(self)@ == old(self)@.refreshed(
                application_revision,
                views(participants@),
                now@,
                empty_space_grace@,
            ),
            desired@ == (RenderStateModel {
                application_revision,
                space_key: space_key@,
                participants: views(participants@),
            }),
    {
        let ghost before = *self;
        let ghost shown = views(participants@);
        let mut revisions: SortedMap<String, u64> = SortedMap::new();
        let mut i: usize = 0;
        while i < participants.len()
            invariant
                shown == views(participants@),
                i <= participants@.len(),
                revisions.wf(),
                revisions@ == revisions_of(shown.take(i as int)),
            decreases participants@.len() - i,
        {
            revisions.insert(
                participants[i].participant_id.clone(),
                participants[i].accepted_revision,
            );
            assert(shown.take(i + 1).drop_last() =~= shown.take(i as int));
            i = i + 1;
        }
        assert(shown.take(i as int) =~= shown);
        self.space_revision = self.space_revision.saturating_add(1);
        self.close_deadline = if participants.is_empty() {
            match self.close_deadline {
                Some(deadline) => Some(deadline),
                None => Some(now.after(empty_space_grace)),
            }
        } else {
            None
        };
        let ghost recorded = revisions;
        self.render_history.insert(application_revision, revisions);
        proof {
            crate::ordered::lemma_map_insert(
                before.render_history@,
                application_revision,
                recorded,
                |revisions: SortedMap<String, u64>| revisions@,
            );
            assert forall|r: u64| #[trigger]
                self.render_history@.dom().contains(r) implies self.render_history@[r].wf() by {
                if r != application_revision {
                    assert(before.render_history@.dom().contains(r));
                }
            }
        }
        RenderState { application_revision, space_key: space_key.to_owned(), participants }
    }

    /// Settles the render that a report is about, and every older one.
    pub fn reconcile(&mut self, application_revision: u64, report: &ReconcileReport) -> (result:
        Option<SpaceReconciliation>)
        requires
            old(self).wf(),
        ensures
            final(self).wf(),
            (final(self)@, optional(result)) == old(self)@.reconciled(
                application_revision,
                report@,
            ),
            result matches Some(reconciliation) ==> reconciliation.revisions.wf(),
    {
        let ghost before = *self;
        let revisions = match self.render_history.remove(&application_revision) {
            None => {
                return None;
            },
            Some(revisions) => revisions,
        };
        let refusal = match &report.refused {
            Some(error) => Some(error.clone()),
            None => None,
        };
        if refusal.is_none() {
            self.published_generation = report.version;
        }
        let ghost started = *self;
        let mut settled: bool = false;
        while !settled
            invariant
                self.render_history.wf(),
                started.render_history@ == before.render_history@.remove(application_revision),
                self.incarnation_id == started.incarnation_id,
                self.space_revision == started.space_revision,
                self.published_generation == started.published_generation,
                self.close_deadline == started.close_deadline,
                forall|r: u64| #[trigger]
                    self.render_history@.dom().contains(r)
                        ==> started.render_history@.dom().contains(r)
                        && self.render_history@[r] == started.render_history@[r],
                forall|r: u64|
                    started.render_history@.dom().contains(r) && r > application_revision
                        ==> #[trigger] self.render_history@.dom().contains(r),
                settled ==> forall|r: u64| #[trigger]
                    self.render_history@.dom().contains(r) ==> r > application_revision,
            decreases self.render_history@.len() + (if settled {
                    0nat
                } else {
                    1nat
                }),
        {
            proof {
                self.render_history.lemma_in_order();
            }
            let ghost keys = self.render_history.keys();
            if self.render_history.len() == 0 {
                proof {
                    assert forall|r: u64| #[trigger]
                        self.render_history@.dom().contains(r) implies r > application_revision by {
                        assert(keys.to_set().contains(r));
                    }
                }
                settled = true;
            } else {
                let oldest: u64 = *self.render_history.key_at(0);
                if oldest > application_revision {
                    proof {
                        assert forall|r: u64| #[trigger]
                            self.render_history@.dom().contains(r) implies r > application_revision by {
                            assert(keys.to_set().contains(r));
                            let k = choose|k: int| 0 <= k < keys.len() && keys[k] == r;
                            if k > 0 {
                                assert(<u64 as crate::ordered::OrderedKey>::before(keys[0], keys[k]));
                            }
                        }
                    }
                    settled = true;
                } else {
                    self.render_history.remove(&oldest);
                }
            }
        }
        proof {
            let view = |revisions: SortedMap<String, u64>| revisions@;
            let mapped = before.render_history@.map_values(view);
            assert(self.render_history@.map_values(view) =~= newer(mapped, application_revision));
            assert forall|r: u64| #[trigger]
                self.render_history@.dom().contains(r) implies self.render_history@[r].wf() by {
                assert(before.render_history@.dom().contains(r));
            }
        }
        Some(
            SpaceReconciliation { revisions, refusal, published_generation: report.version },
        )
    }
}

/// A settled render is settled once: a second report on it, or one on an older
/// render, changes nothing.
pub proof fn a_settled_render_is_not_reported_again(
    space: SpaceModel,
    application_revision: u64,
    report: ReportModel,
    older: u64,
    late: ReportModel,
)
    requires
        space.reconciled(application_revision, report).1 is Some,
        older <= application_revision,
    ensures
        ({
            let after = space.reconciled(application_revision, report).0;
            after.reconciled(older, late) == (after, None::<ReconciliationModel>)
        }),
{
}

/// A refused render does not change what is published.
pub proof fn a_refused_render_keeps_the_published_generation(
    space: SpaceModel,
    application_revision: u64,
    report: ReportModel,
)
    requires
        report.refused is Some,
    ensures
        space.reconciled(application_revision, report).0.published_generation
            == space.published_generation,
{
}

/// A Space that stays empty keeps its first deadline, and a participant lifts it.
pub proof fn an_empty_space_keeps_its_deadline(
    space: SpaceModel,
    first: u64,
    second: u64,
    now: nat,
    later: nat,
    grace: nat,
    participants: Seq<RenderParticipantModel>,
)
    requires
        participants.len() > 0,
    ensures
        ({
            let nobody = Seq::<RenderParticipantModel>::empty();
            let emptied = space.refreshed(first, nobody, now, grace);
            &&& emptied.close_deadline is Some
            &&& emptied.refreshed(second, nobody, later, grace).close_deadline
                == emptied.close_deadline
            &&& emptied.refreshed(second, participants, later, grace).close_deadline is None
        }),
{
}

#[derive(Debug, Clone, Copy, PartialEq, Eq, Structural)]
pub struct SpaceEvent {
    pub connection: ConnectionId,
    pub kind: SpaceEventKind,
}

#[derive(Debug, Clone, Copy, PartialEq, Eq, Structural)]
pub enum SpaceEventKind {
    Connected,
    Disconnected,
    SelfState { self_mute: bool, self_deaf: bool },
}

#[derive(Debug, PartialEq, Eq)]
pub struct SpaceReport {
    pub space_key: String,
    pub event: SpaceEvent,
}

pub struct SpaceReportModel {
    pub space_key: Seq<char>,
    pub event: SpaceEvent,
}

impl View for SpaceReport {
    type V = SpaceReportModel;

    open spec fn view(&self) -> SpaceReportModel {
        SpaceReportModel { space_key: self.space_key@, event: self.event }
    }
}

impl Clone for SpaceReport {
    fn clone(&self) -> (copy: Self)
        ensures
            copy@ == self@,
    {
        SpaceReport { space_key: self.space_key.clone(), event: self.event }
    }
}

/// A Space key is 1 to 128 bytes long, and a display name 1 to 64 characters. A payload
/// that keeps to both is taken as it is; the key is complained about first.
pub proof fn a_payload_is_taken_as_it_is(spec: ParticipantSpecModel)
    ensures
        ({
            let bytes = vstd::utf8::encode_utf8(spec.space_key).len();
            let key = spec.space_key.len() > 0 && bytes <= 128;
            let name = 1 <= spec.display_name.len() <= 64;
            &&& checked_spec(spec) is Ok <==> key && name
            &&& checked_spec(spec) is Ok ==> checked_spec(spec)->Ok_0 == spec
            &&& !key ==> checked_spec(spec) == Err::<ParticipantSpecModel, SpacesValidationError>(
                SpacesValidationError::InvalidSpaceKey,
            )
            &&& key && !name ==> checked_spec(spec) == Err::<
                ParticipantSpecModel,
                SpacesValidationError,
            >(SpacesValidationError::InvalidDisplayName)
        }),
{
}

/// Observations that are not older replace those that were there, all of them.
pub proof fn observations_are_replaced_as_a_whole(
    state: ObservationsModel,
    revision: u64,
    keys: Set<Seq<char>>,
)
    ensures
        state.replaced(revision, keys).1 is Ok <==> revision >= state.observed_revision,
        state.replaced(revision, keys).1 is Ok ==> state.replaced(revision, keys).0.explicit == keys
            && state.replaced(revision, keys).0.observed_revision == revision,
{
}

/// What is kept of a render is the accepted revision of each participant that it shows.
pub proof fn a_render_keeps_the_accepted_revisions(
    participants: Seq<RenderParticipantModel>,
    p: Seq<char>,
    i: int,
)
    requires
        forall|a: int, b: int|
            0 <= a < b < participants.len() ==> (#[trigger] participants[a]).participant_id != (
            #[trigger] participants[b]).participant_id,
    ensures
        revisions_of(participants).dom().contains(p) <==> exists|k: int|
            0 <= k < participants.len() && (#[trigger] participants[k]).participant_id == p,
        0 <= i < participants.len() ==> revisions_of(
            participants,
        )[participants[i].participant_id] == participants[i].accepted_revision,
    decreases participants.len(),
{
    if participants.len() > 0 {
        let fewer = participants.drop_last();
        let n = participants.len() - 1;
        assert(participants.last() == participants[n]);
        let j: int = if i < n {
            i
        } else {
            0
        };
        a_render_keeps_the_accepted_revisions(fewer, p, j);
        if exists|k: int|
            0 <= k < participants.len() && (#[trigger] participants[k]).participant_id == p {
            let k = choose|k: int|
                0 <= k < participants.len() && (#[trigger] participants[k]).participant_id == p;
            if k < n {
                assert(fewer[k].participant_id == p);
            }
        }
        if exists|k: int| 0 <= k < fewer.len() && (#[trigger] fewer[k]).participant_id == p {
            let k = choose|k: int|
                0 <= k < fewer.len() && (#[trigger] fewer[k]).participant_id == p;
            assert(participants[k].participant_id == p);
        }
        if 0 <= i < n {
            assert(fewer[i] == participants[i]);
            assert(participants[i].participant_id != participants[n].participant_id);
        }
    }
}

/// A refresh counts the Space's revision, remembers what it shows under the number of the
/// render, and starts the grace of a Space that has just become empty: it then ends one
/// whole grace from now. It forgets no render, and changes neither the incarnation nor
/// what is published.
pub proof fn a_refresh_counts_and_remembers(
    space: SpaceModel,
    application_revision: u64,
    participants: Seq<RenderParticipantModel>,
    now: nat,
    grace: nat,
    other: u64,
)
    ensures
        ({
            let after = space.refreshed(application_revision, participants, now, grace);
            &&& space.space_revision < u64::MAX ==> after.space_revision == space.space_revision + 1
            &&& space.space_revision == u64::MAX ==> after.space_revision == u64::MAX
            &&& after.incarnation_id == space.incarnation_id
            &&& after.published_generation == space.published_generation
            &&& after.render_history.dom().contains(application_revision)
            &&& after.render_history[application_revision] == revisions_of(participants)
            &&& other != application_revision ==> {
                &&& after.render_history.dom().contains(other)
                    == space.render_history.dom().contains(other)
                &&& after.render_history[other] == space.render_history[other]
            }
            &&& participants.len() > 0 ==> after.close_deadline is None
            &&& participants.len() == 0 && space.close_deadline is None ==> after.close_deadline
                == Some(now + grace)
            &&& participants.len() == 0 && space.close_deadline is Some ==> after.close_deadline
                == space.close_deadline
        }),
{
}

/// A report on a render gives back what that render showed, and what became of it. The
/// render and all older ones are settled, and no newer one is. Where it was not refused,
/// its version is what the Space now publishes.
pub proof fn a_report_settles_its_render_and_older_ones(
    space: SpaceModel,
    application_revision: u64,
    report: ReportModel,
    other: u64,
)
    requires
        space.render_history.dom().contains(application_revision),
    ensures
        ({
            let (after, answer) = space.reconciled(application_revision, report);
            &&& answer matches Some(reconciliation) && reconciliation.revisions
                == space.render_history[application_revision] && reconciliation.refusal
                == report.refused && reconciliation.published_generation == report.version
            &&& report.refused is None ==> after.published_generation == report.version
            &&& report.refused is Some ==> after.published_generation == space.published_generation
            &&& after.render_history.dom().contains(other) <==> space.render_history.dom().contains(
                other,
            ) && other > application_revision
            &&& other > application_revision ==> after.render_history.dom().contains(other)
                ==> after.render_history[other] == space.render_history[other]
            &&& after.space_revision == space.space_revision
            &&& after.incarnation_id == space.incarnation_id
            &&& after.close_deadline == space.close_deadline
        }),
{
}

} // verus!
