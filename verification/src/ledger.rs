//! What the drivers of a campaign report, and whether it adds up.

use vstd::prelude::*;

use crate::campaign::{controller_id, ParticipantPlan, PlanModel};
use crate::ordered::{in_order, lemma_map_insert, lemma_map_remove, SortedMap};
use crate::text::{decimal, decimal_text, join_text, same_text, views};
use crate::text_set::{add_text, text_set, TextSet};

verus! {

/// One value of an event.
#[derive(Debug, PartialEq, Eq)]
pub enum FieldValue {
    Text(String),
    Flag(bool),
    /// Anything else, as it was written.
    Other(String),
}

pub enum FieldModel {
    Text(Seq<char>),
    Flag(bool),
    Other(Seq<char>),
}

impl View for FieldValue {
    type V = FieldModel;

    open spec fn view(&self) -> FieldModel {
        match *self {
            FieldValue::Text(text) => FieldModel::Text(text@),
            FieldValue::Flag(flag) => FieldModel::Flag(flag),
            FieldValue::Other(raw) => FieldModel::Other(raw@),
        }
    }
}

/// The fields of an event, by name.
pub type EventModel = Map<Seq<char>, FieldModel>;

/// The text that a field holds.
pub open spec fn text_of(event: EventModel, name: Seq<char>) -> Option<Seq<char>> {
    if event.dom().contains(name) {
        match event[name] {
            FieldModel::Text(text) => Some(text),
            _ => None,
        }
    } else {
        None
    }
}

/// The text that a field holds, or no text at all.
pub open spec fn text_or_empty(event: EventModel, name: Seq<char>) -> Seq<char> {
    match text_of(event, name) {
        Some(text) => text,
        None => Seq::empty(),
    }
}

/// Whether a field holds `true`.
pub open spec fn flag_of(event: EventModel, name: Seq<char>) -> bool {
    event.dom().contains(name) && event[name] == FieldModel::Flag(true)
}

/// An event of a driver.
#[derive(Debug, PartialEq, Eq)]
pub struct DriverEvent {
    fields: SortedMap<String, FieldValue>,
}

impl View for DriverEvent {
    type V = EventModel;

    closed spec fn view(&self) -> EventModel {
        self.fields@.map_values(|value: FieldValue| value@)
    }
}

impl DriverEvent {
    pub closed spec fn wf(&self) -> bool {
        self.fields.wf()
    }

    /// An event without fields.
    pub fn new() -> (event: Self)
        ensures
            event.wf(),
            event@ == EventModel::empty(),
    {
        let event = DriverEvent { fields: SortedMap::new() };
        assert(event@ =~= EventModel::empty());
        event
    }

    /// Sets a field.
    pub fn set(&mut self, name: &str, value: FieldValue)
        requires
            old(self).wf(),
        ensures
            final(self).wf(),
            final(self)@ == old(self)@.insert(name@, value@),
    {
        proof {
            lemma_map_insert(self.fields@, name@, value, |value: FieldValue| value@);
        }
        self.fields.insert(name.to_owned(), value);
    }

    /// Removes a field.
    pub fn unset(&mut self, name: &str)
        requires
            old(self).wf(),
        ensures
            final(self).wf(),
            final(self)@ == old(self)@.remove(name@),
    {
        proof {
            lemma_map_remove(self.fields@, name@, |value: FieldValue| value@);
        }
        self.fields.remove(name);
    }

    /// The value of a field.
    pub fn get(&self, name: &str) -> (value: Option<&FieldValue>)
        requires
            self.wf(),
        ensures
            match value {
                Some(value) => self@.dom().contains(name@) && value@ == self@[name@],
                None => !self@.dom().contains(name@),
            },
    {
        self.fields.get(name)
    }

    /// How many fields there are.
    pub fn len(&self) -> (len: usize)
        requires
            self.wf(),
        ensures
            len == self@.dom().len(),
            len == self.names().len(),
    {
        assert(self@.dom() =~= self.fields@.dom());
        self.fields.len()
    }

    /// The names of the fields, in order.
    pub closed spec fn names(&self) -> Seq<Seq<char>> {
        self.fields.keys()
    }

    /// The names of the fields are in order.
    pub proof fn lemma_names(&self)
        requires
            self.wf(),
        ensures
            self.names() == in_order::<String>(self@.dom()),
    {
        self.fields.lemma_in_order();
        assert(self@.dom() =~= self.fields@.dom());
    }

    /// The field at a position: its name, and its value.
    pub fn field(&self, i: usize) -> (field: (&str, &FieldValue))
        requires
            self.wf(),
            i < self.names().len(),
        ensures
            self@.dom().contains(field.0@),
            field.0@ == self.names()[i as int],
            field.1@ == self@[field.0@],
    {
        (self.fields.key_at(i).as_str(), self.fields.value_at(i))
    }

    /// The text of a field.
    pub fn text(&self, name: &str) -> (text: Option<&str>)
        requires
            self.wf(),
        ensures
            match text {
                Some(text) => text_of(self@, name@) == Some(text@),
                None => text_of(self@, name@) is None,
            },
    {
        match self.get(name) {
            Some(FieldValue::Text(text)) => Some(text.as_str()),
            _ => None,
        }
    }

    /// The text of a field, or no text at all.
    pub fn text_or_empty(&self, name: &str) -> (text: String)
        requires
            self.wf(),
        ensures
            text@ == text_or_empty(self@, name@),
    {
        match self.text(name) {
            Some(text) => text.to_owned(),
            None => {
                let text = String::new();
                assert(text@ =~= Seq::empty());
                text
            },
        }
    }

    /// Whether a field holds `true`.
    pub fn flag(&self, name: &str) -> (flag: bool)
        requires
            self.wf(),
        ensures
            flag == flag_of(self@, name@),
    {
        match self.get(name) {
            Some(FieldValue::Flag(flag)) => *flag,
            _ => false,
        }
    }
}

/// A count with one more, as far as it goes.
pub open spec fn one_more(count: u64) -> u64 {
    if count < u64::MAX {
        (count + 1) as u64
    } else {
        count
    }
}

fn increased(count: u64) -> (more: u64)
    ensures
        more == one_more(count),
{
    if count < u64::MAX {
        count + 1
    } else {
        count
    }
}

/// What is known of one participant.
#[derive(Debug, PartialEq, Eq)]
pub struct LedgerParticipant {
    pub expected_controller: String,
    pub desired_space: String,
    pub owned: bool,
    pub credential_rotations: u64,
    pub connected: bool,
    pub applied_space: String,
    pub accepted_revision: String,
    pub applied_revision: String,
    pub published_generation: String,
}

#[verifier::ext_equal]
pub struct LedgerParticipantModel {
    pub expected_controller: Seq<char>,
    pub desired_space: Seq<char>,
    pub owned: bool,
    pub credential_rotations: u64,
    pub connected: bool,
    pub applied_space: Seq<char>,
    pub accepted_revision: Seq<char>,
    pub applied_revision: Seq<char>,
    pub published_generation: Seq<char>,
}

impl View for LedgerParticipant {
    type V = LedgerParticipantModel;

    open spec fn view(&self) -> LedgerParticipantModel {
        LedgerParticipantModel {
            expected_controller: self.expected_controller@,
            desired_space: self.desired_space@,
            owned: self.owned,
            credential_rotations: self.credential_rotations,
            connected: self.connected,
            applied_space: self.applied_space@,
            accepted_revision: self.accepted_revision@,
            applied_revision: self.applied_revision@,
            published_generation: self.published_generation@,
        }
    }
}

impl LedgerParticipantModel {
    /// A participant of which only its plan is known.
    pub open spec fn planned(plan: PlanModel) -> LedgerParticipantModel {
        LedgerParticipantModel {
            expected_controller: "load-controller-"@ + decimal(plan.controller as nat),
            desired_space: plan.space_key,
            owned: false,
            credential_rotations: 0,
            connected: false,
            applied_space: Seq::empty(),
            accepted_revision: Seq::empty(),
            applied_revision: Seq::empty(),
            published_generation: Seq::empty(),
        }
    }

    /// A participant after an event of it.
    pub open spec fn recorded(self, event: EventModel) -> LedgerParticipantModel {
        let kind = text_or_empty(event, "kind"@);
        if kind == "owned"@ {
            LedgerParticipantModel { owned: true, ..self }
        } else if kind == "credential_rotated"@ {
            LedgerParticipantModel {
                credential_rotations: one_more(self.credential_rotations),
                ..self
            }
        } else if kind == "accepted"@ || kind == "participant_status"@ {
            let revised = LedgerParticipantModel {
                accepted_revision: text_or_empty(event, "accepted_spec_revision"@),
                applied_revision: text_or_empty(event, "applied_spec_revision"@),
                published_generation: text_or_empty(event, "published_generation"@),
                ..self
            };
            if kind == "participant_status"@ {
                LedgerParticipantModel {
                    connected: flag_of(event, "connected"@),
                    applied_space: text_or_empty(event, "space_key"@),
                    ..revised
                }
            } else {
                revised
            }
        } else {
            self
        }
    }
}

#[verifier::ext_equal]
pub struct LedgerModel {
    pub active_sessions: Set<Seq<char>>,
    pub expected_spaces: Set<Seq<char>>,
    pub participants: Map<Seq<char>, LedgerParticipantModel>,
}

impl LedgerModel {
    /// A ledger that knows nobody.
    pub open spec fn blank() -> LedgerModel {
        LedgerModel {
            active_sessions: Set::empty(),
            expected_spaces: Set::empty(),
            participants: Map::empty(),
        }
    }

    /// A ledger of plans, of which nothing was reported yet.
    pub open spec fn planned(plans: Seq<PlanModel>) -> LedgerModel
        decreases plans.len(),
    {
        if plans.len() == 0 {
            LedgerModel::blank()
        } else {
            let earlier = LedgerModel::planned(plans.drop_last());
            let plan = plans.last();
            LedgerModel {
                expected_spaces: earlier.expected_spaces.insert(plan.space_key),
                participants: earlier.participants.insert(
                    plan.participant_id,
                    LedgerParticipantModel::planned(plan),
                ),
                ..earlier
            }
        }
    }

    /// A ledger after an event.
    pub open spec fn recorded(self, event: EventModel) -> LedgerModel {
        LedgerModel {
            active_sessions: if text_or_empty(event, "kind"@) == "session_state"@ && text_of(
                event,
                "current"@,
            ) == Some("ACTIVE"@) {
                self.active_sessions.insert(text_or_empty(event, "controller_id"@))
            } else {
                self.active_sessions
            },
            expected_spaces: self.expected_spaces,
            participants: match text_of(event, "participant_id"@) {
                Some(id) => if self.participants.dom().contains(id) {
                    self.participants.insert(id, self.participants[id].recorded(event))
                } else {
                    self.participants
                },
                None => self.participants,
            },
        }
    }
}

/// What a campaign knows of its participants.
#[derive(Debug, PartialEq, Eq)]
pub struct Ledger {
    active_sessions: TextSet,
    expected_spaces: TextSet,
    participants: SortedMap<String, LedgerParticipant>,
}

impl View for Ledger {
    type V = LedgerModel;

    closed spec fn view(&self) -> LedgerModel {
        LedgerModel {
            active_sessions: self.active_sessions@.dom(),
            expected_spaces: self.expected_spaces@.dom(),
            participants: self.participants@.map_values(
                |participant: LedgerParticipant| participant@,
            ),
        }
    }
}

impl Ledger {
    pub closed spec fn wf(&self) -> bool {
        &&& self.active_sessions.wf()
        &&& self.expected_spaces.wf()
        &&& self.participants.wf()
    }

    /// A ledger that knows nobody.
    pub fn new() -> (ledger: Self)
        ensures
            ledger.wf(),
            ledger@ == LedgerModel::blank(),
    {
        let ledger = Ledger {
            active_sessions: SortedMap::new(),
            expected_spaces: SortedMap::new(),
            participants: SortedMap::new(),
        };
        assert(ledger@ =~= LedgerModel::blank());
        ledger
    }

    /// A ledger of plans, of which nothing was reported yet.
    pub fn from_plans(plans: &[ParticipantPlan]) -> (ledger: Self)
        ensures
            ledger.wf(),
            ledger@ == LedgerModel::planned(views(plans@)),
    {
        let ghost all = views(plans@);
        let mut ledger = Ledger::new();
        let mut i: usize = 0;
        assert(all.take(0) =~= Seq::empty());
        while i < plans.len()
            invariant
                i <= plans@.len(),
                all == views(plans@),
                ledger.wf(),
                ledger@ == LedgerModel::planned(all.take(i as int)),
            decreases plans@.len() - i,
        {
            let plan = &plans[i];
            let ghost before = ledger@;
            proof {
                let next = all.take(i + 1);
                assert(next.drop_last() =~= all.take(i as int));
                assert(next.last() == plan@);
            }
            add_text(&mut ledger.expected_spaces, plan.space_key.as_str());
            let participant = LedgerParticipant {
                expected_controller: controller_id(plan.controller),
                desired_space: plan.space_key.clone(),
                owned: false,
                credential_rotations: 0,
                connected: false,
                applied_space: String::new(),
                accepted_revision: String::new(),
                applied_revision: String::new(),
                published_generation: String::new(),
            };
            proof {
                assert(participant@ =~= LedgerParticipantModel::planned(plan@));
                lemma_map_insert(
                    ledger.participants@,
                    plan.participant_id@,
                    participant,
                    |participant: LedgerParticipant| participant@,
                );
            }
            ledger.participants.insert(plan.participant_id.clone(), participant);
            i = i + 1;
            assert(ledger@ =~= LedgerModel::planned(all.take(i as int)));
        }
        assert(all.take(i as int) =~= all);
        ledger
    }

    /// How many participants are known.
    pub fn participants(&self) -> (count: usize)
        requires
            self.wf(),
        ensures
            count == self@.participants.dom().len(),
    {
        assert(self@.participants.dom() =~= self.participants@.dom());
        self.participants.len()
    }

    /// What is known of a participant.
    pub fn participant(&self, participant_id: &str) -> (participant: Option<&LedgerParticipant>)
        requires
            self.wf(),
        ensures
            match participant {
                Some(participant) => self@.participants.dom().contains(participant_id@)
                    && participant@ == self@.participants[participant_id@],
                None => !self@.participants.dom().contains(participant_id@),
            },
    {
        self.participants.get(participant_id)
    }

    /// Enters an event.
    pub fn record(&mut self, event: &DriverEvent)
        requires
            old(self).wf(),
            event.wf(),
        ensures
            final(self).wf(),
            final(self)@ == old(self)@.recorded(event@),
    {
        let ghost before = self@;
        let kind = event.text_or_empty("kind");
        if same_text(kind.as_str(), "session_state") {
            if let Some(current) = event.text("current") {
                if same_text(current, "ACTIVE") {
                    let controller = event.text_or_empty("controller_id");
                    add_text(&mut self.active_sessions, controller.as_str());
                }
            }
        }
        if let Some(participant_id) = event.text("participant_id") {
            let ghost known = self.participants@;
            if let Some(participant) = self.participants.get_mut(participant_id) {
                let ghost was = *participant;
                if same_text(kind.as_str(), "owned") {
                    participant.owned = true;
                } else if same_text(kind.as_str(), "credential_rotated") {
                    participant.credential_rotations = increased(participant.credential_rotations);
                } else if same_text(kind.as_str(), "accepted") || same_text(
                    kind.as_str(),
                    "participant_status",
                ) {
                    participant.accepted_revision = event.text_or_empty("accepted_spec_revision");
                    participant.applied_revision = event.text_or_empty("applied_spec_revision");
                    participant.published_generation = event.text_or_empty("published_generation");
                    if same_text(kind.as_str(), "participant_status") {
                        participant.connected = event.flag("connected");
                        participant.applied_space = event.text_or_empty("space_key");
                    }
                }
                proof {
                    assert(participant@ =~= was@.recorded(event@));
                    lemma_map_insert(
                        known,
                        participant_id@,
                        *participant,
                        |participant: LedgerParticipant| participant@,
                    );
                }
            }
        }
        assert(self@ =~= before.recorded(event@));
    }
}

/// What is counted of a campaign.
#[derive(Debug, PartialEq, Eq)]
pub struct Summary {
    pub scenario: String,
    pub controllers: u16,
    pub participants_requested: usize,
    pub credentials_received: usize,
    pub workers: usize,
    pub driver_events: u64,
    pub credential_rotations: u64,
    pub errors: u64,
    pub elapsed_millis: u64,
}

pub struct SummaryModel {
    pub scenario: Seq<char>,
    pub controllers: u16,
    pub participants_requested: usize,
    pub credentials_received: usize,
    pub workers: usize,
    pub driver_events: u64,
    pub credential_rotations: u64,
    pub errors: u64,
    pub elapsed_millis: u64,
}

impl View for Summary {
    type V = SummaryModel;

    open spec fn view(&self) -> SummaryModel {
        SummaryModel {
            scenario: self.scenario@,
            controllers: self.controllers,
            participants_requested: self.participants_requested,
            credentials_received: self.credentials_received,
            workers: self.workers,
            driver_events: self.driver_events,
            credential_rotations: self.credential_rotations,
            errors: self.errors,
            elapsed_millis: self.elapsed_millis,
        }
    }
}

impl SummaryModel {
    /// The row of a summary in a table.
    pub open spec fn row(self) -> Seq<char> {
        self.scenario + ","@ + decimal(self.controllers as nat) + ","@ + decimal(
            self.participants_requested as nat,
        ) + ","@ + decimal(self.credentials_received as nat) + ","@ + decimal(self.workers as nat)
            + ","@ + decimal(self.driver_events as nat) + ","@ + decimal(
            self.credential_rotations as nat,
        ) + ","@ + decimal(self.errors as nat) + ","@ + decimal(self.elapsed_millis as nat)
    }
}

/// Writes a number behind a text, after a comma.
fn append_number(text: &mut String, number: u64)
    ensures
        final(text)@ == old(text)@ + ","@ + decimal(number as nat),
{
    let digits = decimal_text(number);
    text.append(",");
    text.append(digits.as_str());
}

impl Summary {
    /// A summary of a campaign that has not begun.
    pub fn new(scenario: &str, controllers: u16, participants_requested: usize) -> (summary: Self)
        ensures
            summary@ == (SummaryModel {
                scenario: scenario@,
                controllers,
                participants_requested,
                credentials_received: 0,
                workers: 0,
                driver_events: 0,
                credential_rotations: 0,
                errors: 0,
                elapsed_millis: 0,
            }),
    {
        Summary {
            scenario: scenario.to_owned(),
            controllers,
            participants_requested,
            credentials_received: 0,
            workers: 0,
            driver_events: 0,
            credential_rotations: 0,
            errors: 0,
            elapsed_millis: 0,
        }
    }

    /// The names of the columns of [`Summary::row`].
    pub fn header() -> (header: &'static str)
        ensures
            header@
                == "scenario,controllers,participants,credentials,workers,driver_events,credential_rotations,errors,elapsed_millis"@,
    {
        "scenario,controllers,participants,credentials,workers,driver_events,credential_rotations,errors,elapsed_millis"
    }

    /// The summary as one row of a table.
    pub fn row(&self) -> (row: String)
        ensures
            row@ == self@.row(),
    {
        let mut row = self.scenario.clone();
        append_number(&mut row, self.controllers as u64);
        append_number(&mut row, self.participants_requested as u64);
        append_number(&mut row, self.credentials_received as u64);
        append_number(&mut row, self.workers as u64);
        append_number(&mut row, self.driver_events);
        append_number(&mut row, self.credential_rotations);
        append_number(&mut row, self.errors);
        append_number(&mut row, self.elapsed_millis);
        row
    }
}

/// What an event of a driver lacks.
#[derive(Debug, Clone, Copy, PartialEq, Eq, Structural)]
pub enum EventError {
    NoParticipant,
    NoCredential,
}

impl EventError {
    pub open spec fn text(self) -> Seq<char> {
        match self {
            EventError::NoParticipant => "credential participant_id"@,
            EventError::NoCredential => "credential value"@,
        }
    }

    pub fn message(&self) -> (message: String)
        ensures
            message@ == self.text(),
    {
        match self {
            EventError::NoParticipant => "credential participant_id".to_owned(),
            EventError::NoCredential => "credential value".to_owned(),
        }
    }
}

/// What an event lacks, if it brings a credential.
pub open spec fn event_fault(event: EventModel) -> Option<EventError> {
    if text_or_empty(event, "kind"@) != "credential"@ {
        None
    } else if text_of(event, "participant_id"@) is None {
        Some(EventError::NoParticipant)
    } else if text_of(event, "credential"@) is None {
        Some(EventError::NoCredential)
    } else {
        None
    }
}

/// An event as it is entered: one that brings a credential no longer holds it.
pub open spec fn redacted(event: EventModel) -> EventModel {
    if text_or_empty(event, "kind"@) == "credential"@ {
        event.insert("kind"@, FieldModel::Text("credential_rotated"@)).remove("credential"@)
    } else {
        event
    }
}

/// An event as it is written down: redacted, and stamped.
pub open spec fn persisted(event: EventModel, stamp: Seq<char>) -> EventModel {
    redacted(event).insert("coordinator_unix_nanos"@, FieldModel::Text(stamp))
}

/// The credentials after an event.
pub open spec fn credentials_after(
    credentials: Map<Seq<char>, Seq<char>>,
    event: EventModel,
) -> Map<Seq<char>, Seq<char>> {
    if text_or_empty(event, "kind"@) == "credential"@ {
        credentials.insert(
            text_or_empty(event, "participant_id"@),
            text_or_empty(event, "credential"@),
        )
    } else {
        credentials
    }
}

impl SummaryModel {
    /// A summary after an event; `credentials` is how many are then known.
    pub open spec fn recorded(self, event: EventModel, credentials: nat) -> SummaryModel {
        let counted = SummaryModel { driver_events: one_more(self.driver_events), ..self };
        let kind = text_or_empty(event, "kind"@);
        if event_fault(event) is Some {
            counted
        } else if kind == "credential"@ {
            SummaryModel {
                credentials_received: credentials as usize,
                credential_rotations: one_more(self.credential_rotations),
                ..counted
            }
        } else if kind == "error"@ {
            SummaryModel { errors: one_more(self.errors), ..counted }
        } else {
            counted
        }
    }
}

/// Credentials by participant.
pub struct Credentials {
    entries: SortedMap<String, String>,
}

impl View for Credentials {
    type V = Map<Seq<char>, Seq<char>>;

    closed spec fn view(&self) -> Map<Seq<char>, Seq<char>> {
        self.entries@.map_values(|credential: String| credential@)
    }
}

impl Credentials {
    pub closed spec fn wf(&self) -> bool {
        self.entries.wf()
    }

    pub fn new() -> (credentials: Self)
        ensures
            credentials.wf(),
            credentials@ == Map::<Seq<char>, Seq<char>>::empty(),
    {
        let credentials = Credentials { entries: SortedMap::new() };
        assert(credentials@ =~= Map::<Seq<char>, Seq<char>>::empty());
        credentials
    }

    pub fn insert(&mut self, participant_id: &str, credential: &str)
        requires
            old(self).wf(),
        ensures
            final(self).wf(),
            final(self)@ == old(self)@.insert(participant_id@, credential@),
    {
        let credential = credential.to_owned();
        proof {
            lemma_map_insert(
                self.entries@,
                participant_id@,
                credential,
                |credential: String| credential@,
            );
        }
        self.entries.insert(participant_id.to_owned(), credential);
    }

    pub fn get(&self, participant_id: &str) -> (credential: Option<&str>)
        requires
            self.wf(),
        ensures
            match credential {
                Some(credential) => self@.dom().contains(participant_id@) && credential@
                    == self@[participant_id@],
                None => !self@.dom().contains(participant_id@),
            },
    {
        match self.entries.get(participant_id) {
            Some(credential) => Some(credential.as_str()),
            None => None,
        }
    }

    /// The participants, in order.
    pub closed spec fn participants(&self) -> Seq<Seq<char>> {
        self.entries.keys()
    }

    pub fn len(&self) -> (len: usize)
        requires
            self.wf(),
        ensures
            len == self@.dom().len(),
            len == self.participants().len(),
    {
        assert(self@.dom() =~= self.entries@.dom());
        self.entries.len()
    }

    /// The entry at a position: a participant, and its credential.
    pub fn entry(&self, i: usize) -> (entry: (&str, &str))
        requires
            self.wf(),
            i < self.participants().len(),
        ensures
            self@.dom().contains(entry.0@),
            entry.0@ == self.participants()[i as int],
            entry.1@ == self@[entry.0@],
    {
        (self.entries.key_at(i).as_str(), self.entries.value_at(i).as_str())
    }
}

/// Enters an event everywhere, and makes it ready to be written down: a
/// credential goes to the credentials, and nowhere else.
pub fn record_driver_event(
    event: &mut DriverEvent,
    credentials: &mut Credentials,
    summary: &mut Summary,
    ledger: &mut Ledger,
    stamp: &str,
) -> (result: Result<(), EventError>)
    requires
        old(event).wf(),
        old(credentials).wf(),
        old(ledger).wf(),
    ensures
        final(event).wf(),
        final(credentials).wf(),
        final(ledger).wf(),
        match event_fault(old(event)@) {
            Some(fault) => {
                &&& result == Err::<(), EventError>(fault)
                &&& final(event)@ == old(event)@
                &&& final(credentials)@ == old(credentials)@
                &&& final(ledger)@ == old(ledger)@
            },
            None => {
                &&& result is Ok
                &&& final(event)@ == persisted(old(event)@, stamp@)
                &&& final(credentials)@ == credentials_after(old(credentials)@, old(event)@)
                &&& final(ledger)@ == old(ledger)@.recorded(redacted(old(event)@))
            },
        },
        final(summary)@ == old(summary)@.recorded(
            old(event)@,
            credentials_after(old(credentials)@, old(event)@).dom().len(),
        ),
{
    summary.driver_events = increased(summary.driver_events);
    let kind = event.text_or_empty("kind");
    if same_text(kind.as_str(), "credential") {
        let participant_id = match event.text("participant_id") {
            Some(participant_id) => participant_id.to_owned(),
            None => {
                return Err(EventError::NoParticipant);
            },
        };
        let credential = match event.text("credential") {
            Some(credential) => credential.to_owned(),
            None => {
                return Err(EventError::NoCredential);
            },
        };
        credentials.insert(participant_id.as_str(), credential.as_str());
        summary.credentials_received = credentials.len();
        summary.credential_rotations = increased(summary.credential_rotations);
        event.set("kind", FieldValue::Text("credential_rotated".to_owned()));
        event.unset("credential");
    } else if same_text(kind.as_str(), "error") {
        summary.errors = increased(summary.errors);
    }
    ledger.record(event);
    event.set("coordinator_unix_nanos", FieldValue::Text(stamp.to_owned()));
    Ok(())
}

/// A credential is never written down.
pub proof fn a_credential_is_never_written_down(event: EventModel, stamp: Seq<char>)
    requires
        text_or_empty(event, "kind"@) == "credential"@,
    ensures
        !persisted(event, stamp).dom().contains("credential"@),
        text_of(persisted(event, stamp), "kind"@) == Some("credential_rotated"@),
{
    reveal_strlit("credential");
    reveal_strlit("kind");
    reveal_strlit("coordinator_unix_nanos");
    assert("kind"@.len() == 4);
    assert("credential"@.len() == 10);
    assert("coordinator_unix_nanos"@.len() == 22);
}

/// Notes the participant of an event that says it is owned.
pub fn note_owned(event: &DriverEvent, owned: &mut TextSet)
    requires
        event.wf(),
        old(owned).wf(),
    ensures
        final(owned).wf(),
        final(owned)@.dom() == if text_of(event@, "kind"@) == Some("owned"@) && text_of(
            event@,
            "participant_id"@,
        ) is Some {
            old(owned)@.dom().insert(text_or_empty(event@, "participant_id"@))
        } else {
            old(owned)@.dom()
        },
{
    if let Some(kind) = event.text("kind") {
        if same_text(kind, "owned") {
            if let Some(participant_id) = event.text("participant_id") {
                add_text(owned, participant_id);
            }
        }
    }
}

/// The participants that plans name.
pub open spec fn named(plans: Seq<PlanModel>) -> Set<Seq<char>> {
    plans.map_values(|plan: PlanModel| plan.participant_id).to_set()
}

/// How many participants plans name.
pub fn expected_participants(plans: &[ParticipantPlan]) -> (expected: usize)
    ensures
        expected == named(views(plans@)).len(),
{
    let ghost models = views(plans@).map_values(|plan: PlanModel| plan.participant_id);
    let mut ids: Vec<String> = Vec::new();
    let mut i: usize = 0;
    while i < plans.len()
        invariant
            i <= plans@.len(),
            ids@.len() == i,
            forall|k: int| 0 <= k < i ==> (#[trigger] ids@[k])@ == plans@[k].participant_id@,
        decreases plans@.len() - i,
    {
        ids.push(plans[i].participant_id.clone());
        i = i + 1;
    }
    assert(views(ids@) =~= models);
    let set = text_set(&ids);
    set.len()
}

/// Why a ledger does not add up.
#[derive(Debug, PartialEq, Eq)]
pub enum AuditError {
    Count,
    Missing,
    Controller(String),
    NeverOwned(String),
    NoCredential(String),
    Space(String),
}

pub enum AuditModel {
    Count,
    Missing,
    Controller(Seq<char>),
    NeverOwned(Seq<char>),
    NoCredential(Seq<char>),
    Space(Seq<char>),
}

impl View for AuditError {
    type V = AuditModel;

    open spec fn view(&self) -> AuditModel {
        match *self {
            AuditError::Count => AuditModel::Count,
            AuditError::Missing => AuditModel::Missing,
            AuditError::Controller(id) => AuditModel::Controller(id@),
            AuditError::NeverOwned(id) => AuditModel::NeverOwned(id@),
            AuditError::NoCredential(id) => AuditModel::NoCredential(id@),
            AuditError::Space(id) => AuditModel::Space(id@),
        }
    }
}

impl AuditError {
    pub open spec fn text(self) -> Seq<char> {
        match self {
            AuditError::Count => "ledger participant count diverged"@,
            AuditError::Missing => "participant missing from ledger"@,
            AuditError::Controller(id) => "ledger controller assignment diverged for "@ + id@,
            AuditError::NeverOwned(id) => id@ + " was never owned"@,
            AuditError::NoCredential(id) => id@ + " never received a credential"@,
            AuditError::Space(id) => "ledger desired Space diverged for "@ + id@,
        }
    }

    pub fn message(&self) -> (message: String)
        ensures
            message@ == self.text(),
    {
        proof {
            reveal_strlit("");
        }
        let message = match self {
            AuditError::Count => "ledger participant count diverged".to_owned(),
            AuditError::Missing => "participant missing from ledger".to_owned(),
            AuditError::Controller(id) => join_text(
                "ledger controller assignment diverged for ",
                id.as_str(),
                "",
            ),
            AuditError::NeverOwned(id) => join_text(id.as_str(), " was never owned", ""),
            AuditError::NoCredential(id) => join_text(
                id.as_str(),
                " never received a credential",
                "",
            ),
            AuditError::Space(id) => join_text("ledger desired Space diverged for ", id.as_str(), ""),
        };
        assert(message@ =~= self.text());
        message
    }
}

impl LedgerModel {
    /// What is wrong with one plan in a ledger.
    pub open spec fn plan_fault(self, plan: PlanModel) -> Option<AuditModel> {
        let id = plan.participant_id;
        if !self.participants.dom().contains(id) {
            Some(AuditModel::Missing)
        } else {
            let known = self.participants[id];
            if known.expected_controller != "load-controller-"@ + decimal(plan.controller as nat) {
                Some(AuditModel::Controller(id))
            } else if !known.owned {
                Some(AuditModel::NeverOwned(id))
            } else if known.credential_rotations == 0 {
                Some(AuditModel::NoCredential(id))
            } else if known.desired_space != plan.space_key {
                Some(AuditModel::Space(id))
            } else {
                None
            }
        }
    }

    /// The first plan that does not add up.
    pub open spec fn first_fault(self, plans: Seq<PlanModel>) -> Option<AuditModel>
        decreases plans.len(),
    {
        if plans.len() == 0 {
            None
        } else {
            match self.plan_fault(plans[0]) {
                Some(fault) => Some(fault),
                None => self.first_fault(plans.drop_first()),
            }
        }
    }

    /// What an audit of a ledger finds.
    pub open spec fn audit(self, plans: Seq<PlanModel>) -> Option<AuditModel> {
        if self.participants.dom().len() != plans.len() {
            Some(AuditModel::Count)
        } else {
            self.first_fault(plans)
        }
    }
}

fn audit_plan(plan: &ParticipantPlan, ledger: &Ledger) -> (result: Result<(), AuditError>)
    requires
        ledger.wf(),
    ensures
        match ledger@.plan_fault(plan@) {
            None => result is Ok,
            Some(fault) => result matches Err(error) && error@ == fault,
        },
{
    let known = match ledger.participant(plan.participant_id.as_str()) {
        Some(known) => known,
        None => {
            return Err(AuditError::Missing);
        },
    };
    let expected = controller_id(plan.controller);
    if !same_text(known.expected_controller.as_str(), expected.as_str()) {
        return Err(AuditError::Controller(plan.participant_id.clone()));
    }
    if !known.owned {
        return Err(AuditError::NeverOwned(plan.participant_id.clone()));
    }
    if known.credential_rotations == 0 {
        return Err(AuditError::NoCredential(plan.participant_id.clone()));
    }
    if !same_text(known.desired_space.as_str(), plan.space_key.as_str()) {
        return Err(AuditError::Space(plan.participant_id.clone()));
    }
    Ok(())
}

/// Checks that the ledger knows every planned participant, and that each was
/// owned and got a credential.
pub fn audit_ledger(plans: &[ParticipantPlan], ledger: &Ledger) -> (result: Result<(), AuditError>)
    requires
        ledger.wf(),
    ensures
        match ledger@.audit(views(plans@)) {
            None => result is Ok,
            Some(fault) => result matches Err(error) && error@ == fault,
        },
{
    let ghost all = views(plans@);
    if ledger.participants() != plans.len() {
        return Err(AuditError::Count);
    }
    let mut i: usize = 0;
    assert(all.skip(0) =~= all);
    while i < plans.len()
        invariant
            ledger.wf(),
            all == views(plans@),
            i <= plans@.len(),
            ledger@.first_fault(all) == ledger@.first_fault(all.skip(i as int)),
            ledger@.participants.dom().len() == plans@.len(),
        decreases plans@.len() - i,
    {
        proof {
            assert(all.skip(i as int)[0] == plans@[i as int]@);
            assert(all.skip(i as int).drop_first() =~= all.skip(i + 1));
        }
        if let Err(error) = audit_plan(&plans[i], ledger) {
            return Err(error);
        }
        i = i + 1;
    }
    Ok(())
}

/// A ledger that passes its audit knows every planned participant as owned, with
/// a credential, and where it was planned.
pub proof fn an_audited_campaign_is_complete(ledger: LedgerModel, plans: Seq<PlanModel>, i: int)
    requires
        ledger.audit(plans) is None,
        0 <= i < plans.len(),
    ensures
        ledger.participants.dom().contains(plans[i].participant_id),
        ledger.participants[plans[i].participant_id].owned,
        ledger.participants[plans[i].participant_id].credential_rotations > 0,
        ledger.participants[plans[i].participant_id].desired_space == plans[i].space_key,
{
    lemma_no_fault(ledger, plans, i);
}

proof fn lemma_no_fault(ledger: LedgerModel, plans: Seq<PlanModel>, i: int)
    requires
        ledger.first_fault(plans) is None,
        0 <= i < plans.len(),
    ensures
        ledger.plan_fault(plans[i]) is None,
    decreases plans.len(),
{
    if i > 0 {
        lemma_no_fault(ledger, plans.drop_first(), i - 1);
        assert(plans.drop_first()[i - 1] == plans[i]);
    }
}

/// No event makes a ledger forget: nobody is lost, who was owned stays so, and
/// credentials are only counted up. Plans stay as they were made.
pub proof fn a_ledger_never_forgets(ledger: LedgerModel, event: EventModel, id: Seq<char>)
    requires
        ledger.participants.dom().contains(id),
    ensures
        ledger.recorded(event).participants.dom() == ledger.participants.dom(),
        ledger.recorded(event).expected_spaces == ledger.expected_spaces,
        ledger.active_sessions.subset_of(ledger.recorded(event).active_sessions),
        ({
            let before = ledger.participants[id];
            let after = ledger.recorded(event).participants[id];
            &&& before.owned ==> after.owned
            &&& before.credential_rotations <= after.credential_rotations
            &&& before.expected_controller == after.expected_controller
            &&& before.desired_space == after.desired_space
        }),
{
    assert(ledger.recorded(event).participants.dom() =~= ledger.participants.dom());
}

/// A planned ledger lacks nothing but what the drivers report: only ownership and
/// credentials are missing from it.
pub proof fn a_planned_ledger_awaits_its_drivers(plans: Seq<PlanModel>, i: int)
    requires
        0 <= i < plans.len(),
        plans.map_values(|plan: PlanModel| plan.participant_id).no_duplicates(),
    ensures
        LedgerModel::planned(plans).participants.dom().len() == plans.len(),
        LedgerModel::planned(plans).plan_fault(plans[i]) == Some(
            AuditModel::NeverOwned(plans[i].participant_id),
        ),
{
    lemma_planned(plans);
    assert(LedgerModel::planned(plans).participants[plans[i].participant_id]
        == LedgerParticipantModel::planned(plans[i]));
}

proof fn lemma_planned(plans: Seq<PlanModel>)
    requires
        plans.map_values(|plan: PlanModel| plan.participant_id).no_duplicates(),
    ensures
        LedgerModel::planned(plans).participants.dom().finite(),
        LedgerModel::planned(plans).participants.dom().len() == plans.len(),
        forall|id: Seq<char>| #[trigger]
            LedgerModel::planned(plans).participants.dom().contains(id) ==> exists|k: int|
                0 <= k < plans.len() && (#[trigger] plans[k]).participant_id == id,
        forall|k: int|
            0 <= k < plans.len() ==> LedgerModel::planned(plans).participants.dom().contains(
                (#[trigger] plans[k]).participant_id,
            ) && LedgerModel::planned(plans).participants[plans[k].participant_id]
                == LedgerParticipantModel::planned(plans[k]),
    decreases plans.len(),
{
    if plans.len() > 0 {
        let earlier = plans.drop_last();
        let n = plans.len() - 1;
        let ids = plans.map_values(|plan: PlanModel| plan.participant_id);
        assert(earlier.map_values(|plan: PlanModel| plan.participant_id) =~= ids.drop_last());
        lemma_planned(earlier);
        let before = LedgerModel::planned(earlier).participants;
        let after = LedgerModel::planned(plans).participants;
        assert forall|k: int| 0 <= k < n implies (#[trigger] plans[k]).participant_id
            != plans[n].participant_id && plans[k] == earlier[k] by {
            assert(ids[k] != ids[n]);
        }
        assert(!before.dom().contains(plans[n].participant_id)) by {
            if before.dom().contains(plans[n].participant_id) {
                let k = choose|k: int|
                    0 <= k < earlier.len() && (#[trigger] earlier[k]).participant_id
                        == plans[n].participant_id;
                assert(plans[k].participant_id != plans[n].participant_id);
            }
        }
        assert(after.dom() =~= before.dom().insert(plans[n].participant_id));
        assert forall|id: Seq<char>| #[trigger] after.dom().contains(id) implies exists|k: int|
            0 <= k < plans.len() && (#[trigger] plans[k]).participant_id == id by {
            if id == plans[n].participant_id {
                assert(plans[n].participant_id == id);
            } else {
                let k = choose|k: int|
                    0 <= k < earlier.len() && (#[trigger] earlier[k]).participant_id == id;
                assert(plans[k].participant_id == id);
            }
        }
    }
}

/// What one event says of its participant is entered, and nothing else: that it is owned,
/// one more credential, or where it stands. Nobody else is touched.
pub proof fn an_event_is_entered_for_its_participant(
    ledger: LedgerModel,
    event: EventModel,
    id: Seq<char>,
    other: Seq<char>,
    kind: Seq<char>,
)
    requires
        ledger.participants.dom().contains(id),
        other != id,
        event.dom().contains("participant_id"@),
        event["participant_id"@] == FieldModel::Text(id),
        event.dom().contains("kind"@),
        event["kind"@] == FieldModel::Text(kind),
    ensures
        ({
            let before = ledger.participants[id];
            let after = ledger.recorded(event).participants[id];
            &&& kind == "owned"@ ==> after == (LedgerParticipantModel { owned: true, ..before })
            &&& kind == "credential_rotated"@ ==> {
                &&& before.credential_rotations < u64::MAX ==> after.credential_rotations
                    == before.credential_rotations + 1
                &&& after.owned == before.owned && after.connected == before.connected
            }
            &&& kind == "participant_status"@ ==> {
                &&& after.connected <==> event.dom().contains("connected"@) && event["connected"@]
                    == FieldModel::Flag(true)
                &&& event.dom().contains("space_key"@) ==> (event["space_key"@] matches FieldModel::Text(
                    key,
                ) ==> after.applied_space == key)
            }
            &&& kind == "participant_status"@ || kind == "accepted"@ ==> {
                &&& event.dom().contains("accepted_spec_revision"@) ==> (
                event["accepted_spec_revision"@] matches FieldModel::Text(revision)
                    ==> after.accepted_revision == revision)
                &&& event.dom().contains("applied_spec_revision"@) ==> (
                event["applied_spec_revision"@] matches FieldModel::Text(revision)
                    ==> after.applied_revision == revision)
                &&& event.dom().contains("published_generation"@) ==> (
                event["published_generation"@] matches FieldModel::Text(generation)
                    ==> after.published_generation == generation)
                &&& after.owned == before.owned
                &&& after.credential_rotations == before.credential_rotations
            }
            &&& kind == "accepted"@ ==> after.connected == before.connected && after.applied_space
                == before.applied_space
            &&& kind != "owned"@ && kind != "credential_rotated"@ && kind != "accepted"@ && kind
                != "participant_status"@ ==> after == before
            &&& ledger.recorded(event).participants[other] == ledger.participants[other]
        }),
{
    reveal_strlit("owned");
    reveal_strlit("credential_rotated");
    reveal_strlit("accepted");
    reveal_strlit("participant_status");
    assert("owned"@.len() == 5);
    assert("credential_rotated"@.len() == 18);
    assert("accepted"@.len() == 8);
    assert("accepted"@[1] == 'c');
    assert("participant_status"@.len() == 18);
    assert("participant_status"@[0] == 'p');
    assert("credential_rotated"@[0] == 'c');
}

/// A session counts as active once it reported itself so, and only then.
pub proof fn a_session_is_active_once_it_says_so(
    ledger: LedgerModel,
    event: EventModel,
    controller: Seq<char>,
)
    requires
        event.dom().contains("controller_id"@),
        event["controller_id"@] == FieldModel::Text(controller),
        !ledger.active_sessions.contains(controller),
    ensures
        ledger.recorded(event).active_sessions.contains(controller) <==> {
            &&& event.dom().contains("kind"@)
            &&& event["kind"@] == FieldModel::Text("session_state"@)
            &&& event.dom().contains("current"@)
            &&& event["current"@] == FieldModel::Text("ACTIVE"@)
        },
{
    reveal_strlit("session_state");
    assert("session_state"@.len() == 13);
}

/// An audit passes a ledger that knows as many participants as were planned, and each of
/// them with its driver, owned, with a credential, and in its Space.
pub proof fn a_complete_campaign_passes_its_audit(ledger: LedgerModel, plans: Seq<PlanModel>)
    requires
        ledger.participants.dom().len() == plans.len(),
        forall|i: int|
            0 <= i < plans.len() ==> {
                let known = ledger.participants[(#[trigger] plans[i]).participant_id];
                &&& ledger.participants.dom().contains(plans[i].participant_id)
                &&& known.expected_controller == "load-controller-"@ + decimal(
                    plans[i].controller as nat,
                )
                &&& known.owned
                &&& known.credential_rotations > 0
                &&& known.desired_space == plans[i].space_key
            },
    ensures
        ledger.audit(plans) is None,
{
    lemma_all_add_up(ledger, plans);
}

proof fn lemma_all_add_up(ledger: LedgerModel, plans: Seq<PlanModel>)
    requires
        forall|i: int| 0 <= i < plans.len() ==> ledger.plan_fault(#[trigger] plans[i]) is None,
    ensures
        ledger.first_fault(plans) is None,
    decreases plans.len(),
{
    if plans.len() > 0 {
        let rest = plans.drop_first();
        assert forall|i: int| 0 <= i < rest.len() implies ledger.plan_fault(
            #[trigger] rest[i],
        ) is None by {
            assert(rest[i] == plans[i + 1]);
        }
        assert(ledger.plan_fault(plans[0]) is None);
        lemma_all_add_up(ledger, rest);
    }
}

/// An audit that passes found each planned participant with the driver that it was
/// planned for.
pub proof fn an_audited_participant_has_its_driver(
    ledger: LedgerModel,
    plans: Seq<PlanModel>,
    i: int,
)
    requires
        ledger.audit(plans) is None,
        0 <= i < plans.len(),
    ensures
        ledger.participants[plans[i].participant_id].expected_controller == "load-controller-"@
            + decimal(plans[i].controller as nat),
        ledger.participants.dom().len() == plans.len(),
{
    lemma_no_fault(ledger, plans, i);
}

/// A planned ledger knows the participants that were planned, each with its driver and its
/// Space, and that nothing of it was reported yet.
pub proof fn a_planned_ledger_knows_its_plans(plans: Seq<PlanModel>, i: int, id: Seq<char>)
    requires
        plans.map_values(|plan: PlanModel| plan.participant_id).no_duplicates(),
    ensures
        ({
            let ledger = LedgerModel::planned(plans);
            &&& ledger.active_sessions == Set::<Seq<char>>::empty()
            &&& ledger.participants.dom().contains(id) ==> exists|k: int|
                0 <= k < plans.len() && (#[trigger] plans[k]).participant_id == id
            &&& 0 <= i < plans.len() ==> {
                let known = ledger.participants[plans[i].participant_id];
                &&& ledger.participants.dom().contains(plans[i].participant_id)
                &&& ledger.expected_spaces.contains(plans[i].space_key)
                &&& known.expected_controller == "load-controller-"@ + decimal(
                    plans[i].controller as nat,
                )
                &&& known.desired_space == plans[i].space_key
                &&& !known.owned
                &&& !known.connected
                &&& known.credential_rotations == 0
                &&& known.applied_space.len() == 0
            }
        }),
    decreases plans.len(),
{
    lemma_planned(plans);
    if plans.len() > 0 {
        let ids = plans.map_values(|plan: PlanModel| plan.participant_id);
        let earlier = plans.drop_last();
        assert(earlier.map_values(|plan: PlanModel| plan.participant_id) =~= ids.drop_last());
        let j: int = if i < earlier.len() {
            i
        } else {
            0
        };
        a_planned_ledger_knows_its_plans(earlier, j, id);
    }
    if 0 <= i < plans.len() {
        assert(LedgerModel::planned(plans).participants[plans[i].participant_id]
            == LedgerParticipantModel::planned(plans[i]));
    }
}

/// What is written down of an event is the event with a stamp: every other field stays,
/// but for a credential, which is left out, and the kind of its event.
pub proof fn an_event_is_written_down_with_a_stamp(
    event: EventModel,
    stamp: Seq<char>,
    name: Seq<char>,
)
    requires
        name != "coordinator_unix_nanos"@,
        name != "kind"@,
        name != "credential"@,
    ensures
        ({
            let written = persisted(event, stamp);
            &&& written.dom().contains("coordinator_unix_nanos"@)
            &&& written["coordinator_unix_nanos"@] == FieldModel::Text(stamp)
            &&& written.dom().contains(name) == event.dom().contains(name)
            &&& event.dom().contains(name) ==> written[name] == event[name]
        }),
{
}

/// Every event is counted once; an error and a credential are counted as what they are,
/// and a credential that is not told in full is not counted as one.
pub proof fn every_event_is_counted_once(
    summary: SummaryModel,
    event: EventModel,
    credentials: nat,
    kind: Seq<char>,
)
    requires
        event.dom().contains("kind"@),
        event["kind"@] == FieldModel::Text(kind),
        summary.driver_events < u64::MAX,
        summary.errors < u64::MAX,
        summary.credential_rotations < u64::MAX,
    ensures
        ({
            let after = summary.recorded(event, credentials);
            let told = event.dom().contains("participant_id"@) && event["participant_id"@] is Text
                && event.dom().contains("credential"@) && event["credential"@] is Text;
            &&& after.driver_events == summary.driver_events + 1
            &&& after.errors == if kind == "error"@ {
                summary.errors + 1
            } else {
                summary.errors as int
            }
            &&& after.credential_rotations == if kind == "credential"@ && told {
                summary.credential_rotations + 1
            } else {
                summary.credential_rotations as int
            }
            &&& kind == "credential"@ && told && credentials <= usize::MAX
                ==> after.credentials_received == credentials
            &&& after.workers == summary.workers && after.participants_requested
                == summary.participants_requested
            &&& event_fault(event) is Some <==> kind == "credential"@ && !told
        }),
{
    reveal_strlit("error");
    reveal_strlit("credential");
    assert("error"@.len() == 5);
    assert("credential"@.len() == 10);
}

/// A credential that is told is kept for its participant, and for no other.
pub proof fn a_credential_is_kept_for_its_participant(
    credentials: Map<Seq<char>, Seq<char>>,
    event: EventModel,
    participant: Seq<char>,
    credential: Seq<char>,
    other: Seq<char>,
)
    requires
        event.dom().contains("kind"@),
        event["kind"@] == FieldModel::Text("credential"@),
        event.dom().contains("participant_id"@),
        event["participant_id"@] == FieldModel::Text(participant),
        event.dom().contains("credential"@),
        event["credential"@] == FieldModel::Text(credential),
        other != participant,
    ensures
        ({
            let after = credentials_after(credentials, event);
            &&& after.dom().contains(participant) && after[participant] == credential
            &&& after.dom().contains(other) == credentials.dom().contains(other)
            &&& after[other] == credentials[other]
        }),
{
}

} // verus!
