//! What one Space shows and reports: the renderer's side of a Space.
//!
//! A report may be refused while the server is busy. An arrival or a self-state
//! that is lost is corrected by the next render. A departure is not, so it is
//! kept and tried again.

use vstd::prelude::*;

use crate::host::ConnectionId;
use crate::ordered::SortedMap;
use crate::snapshot::SnapshotChannel;
use crate::spaces::{
    RenderParticipantModel, RenderState, RenderStateModel, SpaceEvent, SpaceEventKind, SpaceReport,
};
use crate::text::views;

verus! {

/// Where reports go. A report that cannot be taken is handed back.
pub trait SpaceReporter {
    fn try_report(&self, report: SpaceReport) -> Result<(), SpaceReport>;
}

/// Who a text is meant for.
#[derive(Debug, Clone, Copy, PartialEq, Eq, Structural)]
pub enum Audience {
    Channel(u64),
    Tree(u64),
    User(u64),
}

/// What the runtime tells a Space.
#[derive(Debug, PartialEq, Eq)]
pub enum VoiceEvent {
    Connected { connection: ConnectionId },
    Disconnected { connection: ConnectionId, reason: String },
    Migrated { connection: ConnectionId },
    RequestedSelfState {
        connection: ConnectionId,
        self_mute: Option<bool>,
        self_deaf: Option<bool>,
    },
    Said { connection: ConnectionId, to: Audience, text: String },
    /// Anything else, which a Space does not act on.
    Other,
}

/// A text that goes out.
#[derive(Debug, PartialEq, Eq)]
pub struct Spoken {
    pub from: Option<ConnectionId>,
    pub to: Audience,
    pub text: String,
}

pub struct SpokenModel {
    pub from: Option<ConnectionId>,
    pub to: Audience,
    pub text: Seq<char>,
}

impl View for Spoken {
    type V = SpokenModel;

    open spec fn view(&self) -> SpokenModel {
        SpokenModel { from: self.from, to: self.to, text: self.text@ }
    }
}

/// What a Space answers an event with.
#[derive(Debug, PartialEq, Eq)]
pub struct Reply {
    spoken: Vec<Spoken>,
}

impl View for Reply {
    type V = Seq<SpokenModel>;

    closed spec fn view(&self) -> Seq<SpokenModel> {
        views(self.spoken@)
    }
}

impl Reply {
    pub fn new() -> (reply: Self)
        ensures
            reply@ == Seq::<SpokenModel>::empty(),
    {
        let reply = Reply { spoken: Vec::new() };
        assert(reply@ =~= Seq::<SpokenModel>::empty());
        reply
    }

    /// Passes a client's text on.
    pub fn relay(&mut self, from: ConnectionId, to: Audience, text: &str)
        ensures
            final(self)@ == old(self)@.push(SpokenModel { from: Some(from), to, text: text@ }),
    {
        let ghost before = self@;
        self.spoken.push(Spoken { from: Some(from), to, text: text.to_owned() });
        assert(self@ =~= before.push(SpokenModel { from: Some(from), to, text: text@ }));
    }

    /// Hands out what is to be said, and forgets it.
    pub fn drain_spoken(&mut self) -> (spoken: Vec<Spoken>)
        ensures
            views(spoken@) == old(self)@,
            final(self)@ == Seq::<SpokenModel>::empty(),
    {
        let mut spoken: Vec<Spoken> = Vec::new();
        std::mem::swap(&mut spoken, &mut self.spoken);
        assert(self@ =~= Seq::<SpokenModel>::empty());
        spoken
    }
}

/// One user of a render.
#[derive(Debug, PartialEq, Eq)]
pub struct RenderedUser {
    pub connection: ConnectionId,
    pub display_name: String,
    pub mute: bool,
    pub deaf: bool,
    pub self_mute: bool,
    pub self_deaf: bool,
}

pub struct RenderedUserModel {
    pub connection: u64,
    pub display_name: Seq<char>,
    pub mute: bool,
    pub deaf: bool,
    pub self_mute: bool,
    pub self_deaf: bool,
}

impl View for RenderedUser {
    type V = RenderedUserModel;

    open spec fn view(&self) -> RenderedUserModel {
        RenderedUserModel {
            connection: self.connection@,
            display_name: self.display_name@,
            mute: self.mute,
            deaf: self.deaf,
            self_mute: self.self_mute,
            self_deaf: self.self_deaf,
        }
    }
}

/// One render: a root that is named after the Space, its users, and one audio
/// domain in which all of them hear each other.
#[derive(Debug, PartialEq, Eq)]
pub struct Rendering {
    pub root: String,
    pub users: Vec<RenderedUser>,
    pub audible: Vec<ConnectionId>,
}

pub struct RenderingModel {
    pub root: Seq<char>,
    pub users: Seq<RenderedUserModel>,
    pub audible: Seq<u64>,
}

impl View for Rendering {
    type V = RenderingModel;

    open spec fn view(&self) -> RenderingModel {
        RenderingModel {
            root: self.root@,
            users: views(self.users@),
            audible: views(self.audible@),
        }
    }
}

/// The state of a Space's renderer.
#[verifier::ext_equal]
pub struct LogicModel {
    pub space_key: Seq<char>,
    pub self_state: Map<u64, (bool, bool)>,
    pub undelivered: Seq<u64>,
}

/// The self-state that the desired state holds for a connection.
pub open spec fn published(participants: Seq<RenderParticipantModel>, connection: u64) -> (bool, bool)
    decreases participants.len(),
{
    if participants.len() == 0 {
        (false, false)
    } else if participants[0].connection == Some(connection) {
        (participants[0].self_mute, participants[0].self_deaf)
    } else {
        published(participants.drop_first(), connection)
    }
}

/// The users that a list of participants shows: those that are connected.
pub open spec fn shown_users(
    self_state: Map<u64, (bool, bool)>,
    participants: Seq<RenderParticipantModel>,
) -> Seq<RenderedUserModel>
    decreases participants.len(),
{
    if participants.len() == 0 {
        Seq::empty()
    } else {
        let rest = shown_users(self_state, participants.drop_last());
        let participant = participants.last();
        match participant.connection {
            None => rest,
            Some(connection) => {
                let own = if self_state.dom().contains(connection) {
                    self_state[connection]
                } else {
                    (participant.self_mute, participant.self_deaf)
                };
                rest.push(
                    RenderedUserModel {
                        connection,
                        display_name: participant.display_name,
                        mute: participant.server_mute,
                        deaf: participant.server_deaf,
                        self_mute: own.0,
                        self_deaf: own.1,
                    },
                )
            },
        }
    }
}

impl LogicModel {
    /// The self-state of a connection: the one declared here, else the published one.
    pub open spec fn own_state(self, desired: RenderStateModel, connection: u64) -> (bool, bool) {
        if self.self_state.dom().contains(connection) {
            self.self_state[connection]
        } else {
            published(desired.participants, connection)
        }
    }

    /// The self-state after a request, which changes the flags that it carries.
    pub open spec fn requested(
        self,
        desired: RenderStateModel,
        connection: u64,
        self_mute: Option<bool>,
        self_deaf: Option<bool>,
    ) -> (bool, bool) {
        let current = self.own_state(desired, connection);
        (
            match self_mute {
                Some(value) => value,
                None => current.0,
            },
            match self_deaf {
                Some(value) => value,
                None => current.1,
            },
        )
    }

    /// The state after an event, but for its report.
    pub open spec fn responded(self, desired: RenderStateModel, event: VoiceEvent) -> LogicModel {
        match event {
            VoiceEvent::Disconnected { connection, .. } => LogicModel {
                self_state: self.self_state.remove(connection@),
                ..self
            },
            VoiceEvent::Migrated { connection } => LogicModel {
                self_state: self.self_state.remove(connection@),
                ..self
            },
            VoiceEvent::RequestedSelfState { connection, self_mute, self_deaf } => LogicModel {
                self_state: self.self_state.insert(
                    connection@,
                    self.requested(desired, connection@, self_mute, self_deaf),
                ),
                ..self
            },
            _ => self,
        }
    }

    /// What is reported of an event.
    pub open spec fn reported(self, desired: RenderStateModel, event: VoiceEvent) -> Option<SpaceEvent> {
        match event {
            VoiceEvent::Connected { connection } => Some(
                SpaceEvent { connection, kind: SpaceEventKind::Connected },
            ),
            VoiceEvent::Disconnected { connection, .. } => Some(
                SpaceEvent { connection, kind: SpaceEventKind::Disconnected },
            ),
            VoiceEvent::RequestedSelfState { connection, self_mute, self_deaf } => {
                let own = self.requested(desired, connection@, self_mute, self_deaf);
                Some(
                    SpaceEvent {
                        connection,
                        kind: SpaceEventKind::SelfState { self_mute: own.0, self_deaf: own.1 },
                    },
                )
            },
            _ => None,
        }
    }

    /// The state once a report was answered: `refused` is the event that was
    /// handed back, if it was.
    pub open spec fn answered(self, refused: Option<SpaceEvent>) -> LogicModel {
        match refused {
            Some(event) => if event.kind == SpaceEventKind::Disconnected {
                LogicModel { undelivered: self.undelivered.push(event.connection@), ..self }
            } else {
                self
            },
            None => self,
        }
    }

    /// The state once several reports were answered, in turn.
    pub open spec fn all_answered(self, refused: Seq<Option<SpaceEvent>>) -> LogicModel
        decreases refused.len(),
    {
        if refused.len() == 0 {
            self
        } else {
            self.all_answered(refused.drop_last()).answered(refused.last())
        }
    }

    /// The state once every departure that is kept was reported again. `refused`
    /// holds an answer for each.
    pub open spec fn flushed(self, refused: Seq<Option<SpaceEvent>>) -> LogicModel {
        (LogicModel { undelivered: Seq::empty(), ..self }).all_answered(refused)
    }

    /// The texts that an event passes on.
    pub open spec fn relayed(event: VoiceEvent, spoken: Seq<SpokenModel>) -> Seq<SpokenModel> {
        match event {
            VoiceEvent::Said { connection, to, text } => spoken.push(
                SpokenModel { from: Some(connection), to, text: text@ },
            ),
            _ => spoken,
        }
    }

    /// What the Space shows of a desired state.
    pub open spec fn rendering(self, desired: RenderStateModel) -> RenderingModel {
        let users = shown_users(self.self_state, desired.participants);
        RenderingModel {
            root: desired.space_key,
            users,
            audible: users.map_values(|user: RenderedUserModel| user.connection),
        }
    }
}

/// The event that an answer hands back, if it does.
pub open spec fn handed_back(answer: Result<(), SpaceReport>) -> Option<SpaceEvent> {
    match answer {
        Ok(()) => None,
        Err(report) => Some(report.event),
    }
}

/// The events that several answers hand back.
pub open spec fn all_handed_back(answers: Seq<Result<(), SpaceReport>>) -> Seq<Option<SpaceEvent>> {
    answers.map_values(|answer: Result<(), SpaceReport>| handed_back(answer))
}

/// Whether `answer` is what the reporter gave to a report of `event` under
/// `space_key`.
pub open spec fn handed<R: SpaceReporter>(
    reporter: R,
    space_key: Seq<char>,
    event: SpaceEvent,
    answer: Result<(), SpaceReport>,
) -> bool {
    exists|report: SpaceReport|
        report.space_key@ == space_key && report.event == event && #[trigger] call_ensures(
            R::try_report,
            (&reporter, report),
            answer,
        )
}

/// The report of a departure.
pub open spec fn departure(connection: u64) -> SpaceEvent {
    SpaceEvent { connection: ConnectionId(connection), kind: SpaceEventKind::Disconnected }
}

/// Whether `answers` are what the reporter gave when each departure that `before`
/// keeps was reported again, in turn, and `after` is the state that this leaves.
pub open spec fn departures_handed<R: SpaceReporter>(
    reporter: R,
    before: LogicModel,
    answers: Seq<Result<(), SpaceReport>>,
    after: LogicModel,
) -> bool {
    &&& answers.len() == before.undelivered.len()
    &&& forall|i: int|
        0 <= i < answers.len() ==> handed(
            reporter,
            before.space_key,
            departure(before.undelivered[i]),
            #[trigger] answers[i],
        )
    &&& after == before.flushed(all_handed_back(answers))
}

/// Whether `answer` is what the reporter gave to the report of an event, where the
/// event calls for one, and `after` is the state that this leaves.
pub open spec fn event_handed<R: SpaceReporter>(
    reporter: R,
    before: LogicModel,
    desired: RenderStateModel,
    event: VoiceEvent,
    answer: Result<(), SpaceReport>,
    after: LogicModel,
) -> bool {
    let responded = before.responded(desired, event);
    match before.reported(desired, event) {
        Some(report) => {
            &&& handed(reporter, before.space_key, report, answer)
            &&& after == responded.answered(handed_back(answer))
        },
        None => after == responded,
    }
}

/// The renderer of one Space.
pub struct ControllerSpaceLogic<R> {
    space_key: String,
    reporter: R,
    self_state: SortedMap<u64, (bool, bool)>,
    undelivered_departures: Vec<ConnectionId>,
}

impl<R> View for ControllerSpaceLogic<R> {
    type V = LogicModel;

    closed spec fn view(&self) -> LogicModel {
        LogicModel {
            space_key: self.space_key@,
            self_state: self.self_state@,
            undelivered: views(self.undelivered_departures@),
        }
    }
}

impl<R: SpaceReporter> ControllerSpaceLogic<R> {
    pub closed spec fn wf(&self) -> bool {
        self.self_state.wf()
    }

    /// Where the reports go.
    pub closed spec fn reporter(&self) -> R {
        self.reporter
    }

    pub fn new(space_key: String, reporter: R) -> (logic: Self)
        ensures
            logic.wf(),
            logic.reporter() == reporter,
            logic@ == (LogicModel {
                space_key: space_key@,
                self_state: Map::empty(),
                undelivered: Seq::empty(),
            }),
    {
        let logic = ControllerSpaceLogic {
            space_key,
            reporter,
            self_state: SortedMap::new(),
            undelivered_departures: Vec::new(),
        };
        assert(logic@.undelivered =~= Seq::empty());
        assert(logic@.self_state =~= Map::empty());
        logic
    }

    fn own_state(&self, desired: &RenderState, connection: ConnectionId) -> (own: (bool, bool))
        requires
            self.wf(),
        ensures
            own == self@.own_state(desired@, connection@),
    {
        if let Some(own) = self.self_state.get(&connection.0) {
            return *own;
        }
        let ghost all = desired@.participants;
        assert(all.skip(0) =~= all);
        let mut i: usize = 0;
        while i < desired.participants.len()
            invariant
                i <= desired.participants@.len(),
                all == desired@.participants,
                !self@.self_state.dom().contains(connection@),
                published(all, connection@) == published(all.skip(i as int), connection@),
            decreases desired.participants@.len() - i,
        {
            let participant = &desired.participants[i];
            assert(all.skip(i as int)[0] == participant@);
            assert(all.skip(i as int).drop_first() =~= all.skip(i + 1));
            if let Some(other) = participant.connection {
                if other.0 == connection.0 {
                    return (participant.self_mute, participant.self_deaf);
                }
            }
            i = i + 1;
        }
        (false, false)
    }

    /// Takes note of an event, passes a text on, and says what is to be reported.
    pub fn respond(&mut self, desired: &RenderState, event: &VoiceEvent, out: &mut Reply) -> (report:
        Option<SpaceEvent>)
        requires
            old(self).wf(),
        ensures
            final(self).wf(),
            final(self).reporter() == old(self).reporter(),
            final(self)@ == old(self)@.responded(desired@, *event),
            final(out)@ == LogicModel::relayed(*event, old(out)@),
            report == old(self)@.reported(desired@, *event),
    {
        match event {
            VoiceEvent::Connected { connection } => Some(
                SpaceEvent { connection: *connection, kind: SpaceEventKind::Connected },
            ),
            VoiceEvent::Disconnected { connection, .. } => {
                self.self_state.remove(&connection.0);
                Some(SpaceEvent { connection: *connection, kind: SpaceEventKind::Disconnected })
            },
            VoiceEvent::Migrated { connection } => {
                self.self_state.remove(&connection.0);
                None
            },
            VoiceEvent::RequestedSelfState { connection, self_mute, self_deaf } => {
                let current = self.own_state(desired, *connection);
                let self_mute = match self_mute {
                    Some(value) => *value,
                    None => current.0,
                };
                let self_deaf = match self_deaf {
                    Some(value) => *value,
                    None => current.1,
                };
                self.self_state.insert(connection.0, (self_mute, self_deaf));
                Some(
                    SpaceEvent {
                        connection: *connection,
                        kind: SpaceEventKind::SelfState { self_mute, self_deaf },
                    },
                )
            },
            VoiceEvent::Said { connection, to, text } => {
                out.relay(*connection, *to, text.as_str());
                None
            },
            VoiceEvent::Other => None,
        }
    }

    /// Takes note of how a report was answered: `refused` is the event that was
    /// handed back, if it was.
    pub fn settle(&mut self, refused: Option<SpaceEvent>)
        requires
            old(self).wf(),
        ensures
            final(self).wf(),
            final(self).reporter() == old(self).reporter(),
            final(self)@ == old(self)@.answered(refused),
    {
        let ghost before = self@;
        if let Some(event) = refused {
            if event.kind == SpaceEventKind::Disconnected {
                self.undelivered_departures.push(event.connection);
                assert(self@.undelivered =~= before.undelivered.push(event.connection@));
            }
        }
        assert(self@ =~= before.answered(refused));
    }

    /// Reports an event under the Space's key. A departure that is refused is kept.
    fn report(&mut self, event: SpaceEvent) -> (answer: Ghost<Result<(), SpaceReport>>)
        requires
            old(self).wf(),
        ensures
            final(self).wf(),
            final(self).reporter() == old(self).reporter(),
            handed(old(self).reporter(), old(self)@.space_key, event, answer@),
            final(self)@ == old(self)@.answered(handed_back(answer@)),
    {
        let report = SpaceReport { space_key: self.space_key.clone(), event };
        let answer = self.reporter.try_report(report);
        let ghost given = answer;
        assert(handed(self.reporter, self@.space_key, event, given)) by {
            assert(call_ensures(R::try_report, (&self.reporter, report), given));
        }
        let refused = match answer {
            Ok(()) => None,
            Err(report) => Some(report.event),
        };
        self.settle(refused);
        Ghost(given)
    }

    /// Reports every departure that is kept again, in turn.
    fn flush_departures(&mut self) -> (answers: Ghost<Seq<Result<(), SpaceReport>>>)
        requires
            old(self).wf(),
        ensures
            final(self).wf(),
            final(self).reporter() == old(self).reporter(),
            departures_handed(old(self).reporter(), old(self)@, answers@, final(self)@),
    {
        let ghost before = self@;
        let ghost reporter = self.reporter;
        let mut pending: Vec<ConnectionId> = Vec::new();
        std::mem::swap(&mut pending, &mut self.undelivered_departures);
        let ghost mut answers: Seq<Result<(), SpaceReport>> = Seq::empty();
        proof {
            lemma_all_answered(self@, all_handed_back(answers));
            assert(all_handed_back(answers) =~= Seq::empty());
            assert(self@ =~= before.flushed(all_handed_back(answers)));
            assert(before.undelivered == views(pending@));
        }
        let mut i: usize = 0;
        while i < pending.len()
            invariant
                i <= pending@.len(),
                self.wf(),
                self.reporter() == reporter,
                before.undelivered == views(pending@),
                answers.len() == i,
                forall|k: int|
                    0 <= k < i ==> handed(
                        reporter,
                        before.space_key,
                        departure(before.undelivered[k]),
                        #[trigger] answers[k],
                    ),
                self@ == before.flushed(all_handed_back(answers)),
            decreases pending@.len() - i,
        {
            proof {
                lemma_all_answered(
                    LogicModel { undelivered: Seq::empty(), ..before },
                    all_handed_back(answers),
                );
            }
            let answer = self.report(
                SpaceEvent { connection: pending[i], kind: SpaceEventKind::Disconnected },
            );
            proof {
                let next = answers.push(answer@);
                assert(before.undelivered[i as int] == pending@[i as int]@);
                assert(all_handed_back(next).drop_last() =~= all_handed_back(answers));
                answers = next;
            }
            i = i + 1;
        }
        Ghost(answers)
    }

    /// Acts on an event: departures that are kept are reported first, then the event.
    pub fn observe(&mut self, desired: &RenderState, event: &VoiceEvent, out: &mut Reply)
        requires
            old(self).wf(),
        ensures
            final(self).wf(),
            final(self).reporter() == old(self).reporter(),
            final(out)@ == LogicModel::relayed(*event, old(out)@),
            exists|
                answers: Seq<Result<(), SpaceReport>>,
                answer: Result<(), SpaceReport>,
                flushed: LogicModel,
            |
                #[trigger] departures_handed(old(self).reporter(), old(self)@, answers, flushed)
                    && #[trigger] event_handed(
                    old(self).reporter(),
                    flushed,
                    desired@,
                    *event,
                    answer,
                    final(self)@,
                ),
    {
        let ghost before = self@;
        let ghost reporter = self.reporter;
        let answers = self.flush_departures();
        let ghost flushed = self@;
        let ghost mut answer: Result<(), SpaceReport> = Ok(());
        let report = self.respond(desired, event, out);
        if let Some(event) = report {
            let given = self.report(event);
            proof {
                answer = given@;
            }
        }
        assert(departures_handed(reporter, before, answers@, flushed));
        assert(event_handed(reporter, flushed, desired@, *event, answer, self@));
    }

    /// What the Space shows of a desired state.
    pub fn rendering(&self, desired: &RenderState) -> (rendering: Rendering)
        requires
            self.wf(),
        ensures
            rendering@ == self@.rendering(desired@),
            ({
                let connected = desired@.participants.filter(
                    |p: RenderParticipantModel| is_connected(p),
                );
                &&& rendering.users@.len() == connected.len()
                &&& forall|i: int|
                    0 <= i < connected.len() ==> {
                        let user = #[trigger] rendering.users@[i];
                        &&& connected[i].connection == Some(user.connection.0)
                        &&& user.display_name@ == connected[i].display_name
                        &&& user.mute == connected[i].server_mute
                        &&& user.deaf == connected[i].server_deaf
                    }
            }),
    {
        let ghost all = desired@.participants;
        let mut users: Vec<RenderedUser> = Vec::new();
        let mut audible: Vec<ConnectionId> = Vec::new();
        let mut i: usize = 0;
        assert(all.take(0) =~= Seq::empty());
        assert(views(users@) =~= shown_users(self@.self_state, all.take(0)));
        while i < desired.participants.len()
            invariant
                i <= desired.participants@.len(),
                all == desired@.participants,
                self.wf(),
                views(users@) == shown_users(self@.self_state, all.take(i as int)),
                audible@.len() == users@.len(),
                forall|k: int| 0 <= k < users@.len() ==> #[trigger] audible@[k] == users@[k].connection,
            decreases desired.participants@.len() - i,
        {
            let participant = &desired.participants[i];
            let ghost shown = views(users@);
            proof {
                let next = all.take(i + 1);
                assert(next.drop_last() =~= all.take(i as int));
                assert(next.last() == participant@);
            }
            if let Some(connection) = participant.connection {
                let own = match self.self_state.get(&connection.0) {
                    Some(own) => *own,
                    None => (participant.self_mute, participant.self_deaf),
                };
                let user = RenderedUser {
                    connection,
                    display_name: participant.display_name.clone(),
                    mute: participant.server_mute,
                    deaf: participant.server_deaf,
                    self_mute: own.0,
                    self_deaf: own.1,
                };
                let ghost model = user@;
                users.push(user);
                audible.push(connection);
                assert(views(users@) =~= shown.push(model));
            }
            i = i + 1;
        }
        assert(all.take(i as int) =~= all);
        let rendering = Rendering { root: desired.space_key.clone(), users, audible };
        assert(rendering@.audible =~= self@.rendering(desired@).audible);
        proof {
            let connected = desired@.participants.filter(
                |p: RenderParticipantModel| is_connected(p),
            );
            a_user_is_shown_as_its_participant(self@, desired@, 0);
            assert(rendering.users@.len() == rendering@.users.len());
            assert forall|i: int| 0 <= i < connected.len() implies {
                let user = #[trigger] rendering.users@[i];
                &&& connected[i].connection == Some(user.connection.0)
                &&& user.display_name@ == connected[i].display_name
                &&& user.mute == connected[i].server_mute
                &&& user.deaf == connected[i].server_deaf
            } by {
                a_user_is_shown_as_its_participant(self@, desired@, i);
                assert(rendering@.users[i] == rendering.users@[i]@);
            }
        }
        rendering
    }

    /// Renders the newest desired state, and marks its revision as rendered.
    pub fn render(&mut self, channel: &mut SnapshotChannel<RenderState>) -> (rendering: Rendering)
        requires
            old(self).wf(),
        ensures
            final(self).wf(),
            final(self).reporter() == old(self).reporter(),
            exists|answers: Seq<Result<(), SpaceReport>>| #[trigger]
                departures_handed(old(self).reporter(), old(self)@, answers, final(self)@),
            rendering@ == old(self)@.rendering(old(channel).desired()@),
            final(channel).desired() == old(channel).desired(),
            final(channel).place() == old(channel).place(),
            final(channel).rendered() == old(channel).desired().application_revision,
    {
        let ghost before = self@;
        let answers = self.flush_departures();
        proof {
            flushing_keeps_the_self_state(before, all_handed_back(answers@));
        }
        let desired = channel.latest();
        self.rendering(&desired)
    }
}

proof fn lemma_all_answered(state: LogicModel, refused: Seq<Option<SpaceEvent>>)
    ensures
        state.all_answered(refused).self_state == state.self_state,
        state.all_answered(refused).space_key == state.space_key,
        state.all_answered(refused).undelivered.len() <= state.undelivered.len() + refused.len(),
    decreases refused.len(),
{
    if refused.len() > 0 {
        lemma_all_answered(state, refused.drop_last());
    }
}

/// To report departures again changes nothing but which ones are kept, and never
/// makes them more.
pub proof fn flushing_keeps_the_self_state(state: LogicModel, refused: Seq<Option<SpaceEvent>>)
    requires
        refused.len() == state.undelivered.len(),
    ensures
        state.flushed(refused).self_state == state.self_state,
        state.flushed(refused).space_key == state.space_key,
        state.flushed(refused).undelivered.len() <= state.undelivered.len(),
{
    lemma_all_answered(LogicModel { undelivered: Seq::empty(), ..state }, refused);
}

/// A departure that is refused is kept; one that is taken is not.
pub proof fn a_refused_departure_is_kept(state: LogicModel, connection: ConnectionId)
    ensures
        ({
            let event = SpaceEvent { connection, kind: SpaceEventKind::Disconnected };
            &&& state.answered(Some(event)).undelivered == state.undelivered.push(connection@)
            &&& state.answered(None) == state
        }),
{
}

/// A departure whose report is refused is reported again, as a departure and under
/// the Space's key, when the departures that are kept are reported next.
pub proof fn a_refused_departure_is_reported_again<R: SpaceReporter>(
    reporter: R,
    state: LogicModel,
    connection: u64,
    answers: Seq<Result<(), SpaceReport>>,
    after: LogicModel,
)
    requires
        departures_handed(reporter, state.answered(Some(departure(connection))), answers, after),
    ensures
        answers.len() == state.undelivered.len() + 1,
        handed(reporter, state.space_key, departure(connection), answers.last()),
{
    let kept = state.answered(Some(departure(connection)));
    assert(kept.undelivered[state.undelivered.len() as int] == connection);
    assert(answers.last() == answers[state.undelivered.len() as int]);
}

/// Where every departure is refused again, all of them are kept, in order; where
/// every one is taken, none is.
pub proof fn departures_are_retried(state: LogicModel, refuse: bool)
    ensures
        ({
            let answers = Seq::new(
                state.undelivered.len(),
                |i: int|
                    if refuse {
                        Some(
                            SpaceEvent {
                                connection: ConnectionId(state.undelivered[i]),
                                kind: SpaceEventKind::Disconnected,
                            },
                        )
                    } else {
                        None
                    },
            );
            state.flushed(answers).undelivered == if refuse {
                state.undelivered
            } else {
                Seq::empty()
            }
        }),
{
    let all = state.undelivered;
    let start = LogicModel { undelivered: Seq::empty(), ..state };
    let answers = Seq::new(
        all.len(),
        |i: int|
            if refuse {
                Some(
                    SpaceEvent {
                        connection: ConnectionId(all[i]),
                        kind: SpaceEventKind::Disconnected,
                    },
                )
            } else {
                None
            },
    );
    assert(answers.take(all.len() as int) =~= answers);
    lemma_retried(start, all, answers, refuse, all.len());
    assert(all.take(all.len() as int) =~= all);
}

proof fn lemma_retried(
    start: LogicModel,
    all: Seq<u64>,
    answers: Seq<Option<SpaceEvent>>,
    refuse: bool,
    n: nat,
)
    requires
        start.undelivered == Seq::<u64>::empty(),
        answers.len() == all.len(),
        n <= all.len(),
        forall|i: int|
            0 <= i < all.len() ==> #[trigger] answers[i] == if refuse {
                Some(
                    SpaceEvent {
                        connection: ConnectionId(all[i]),
                        kind: SpaceEventKind::Disconnected,
                    },
                )
            } else {
                None
            },
    ensures
        start.all_answered(answers.take(n as int)).undelivered == if refuse {
            all.take(n as int)
        } else {
            Seq::empty()
        },
    decreases n,
{
    if n > 0 {
        lemma_retried(start, all, answers, refuse, (n - 1) as nat);
        let given = answers.take(n as int);
        assert(given.drop_last() =~= answers.take(n - 1));
        assert(given.last() == answers[n - 1]);
        if refuse {
            assert(all.take(n - 1).push(all[n - 1]) =~= all.take(n as int));
        }
    } else {
        assert(all.take(0) =~= Seq::empty());
    }
}

/// A request for one flag keeps the other one as it was declared or published, here
/// and in what the reporter is handed.
pub proof fn a_partial_request_keeps_the_other_flag<R: SpaceReporter>(
    reporter: R,
    state: LogicModel,
    desired: RenderStateModel,
    connection: ConnectionId,
    value: bool,
    answer: Result<(), SpaceReport>,
    after: LogicModel,
)
    ensures
        ({
            let own = state.own_state(desired, connection@);
            let event = VoiceEvent::RequestedSelfState {
                connection,
                self_mute: Some(value),
                self_deaf: None,
            };
            event_handed(reporter, state, desired, event, answer, after) ==> {
                &&& after.own_state(desired, connection@) == (value, own.1)
                &&& handed(
                    reporter,
                    state.space_key,
                    SpaceEvent {
                        connection,
                        kind: SpaceEventKind::SelfState { self_mute: value, self_deaf: own.1 },
                    },
                    answer,
                )
            }
        }),
        ({
            let own = state.own_state(desired, connection@);
            let event = VoiceEvent::RequestedSelfState {
                connection,
                self_mute: None,
                self_deaf: Some(value),
            };
            event_handed(reporter, state, desired, event, answer, after) ==> {
                &&& after.own_state(desired, connection@) == (own.0, value)
                &&& handed(
                    reporter,
                    state.space_key,
                    SpaceEvent {
                        connection,
                        kind: SpaceEventKind::SelfState { self_mute: own.0, self_deaf: value },
                    },
                    answer,
                )
            }
        }),
{
}

/// Only connected participants are shown, and exactly those that are shown hear
/// each other.
pub proof fn those_who_are_shown_hear_each_other(state: LogicModel, desired: RenderStateModel)
    ensures
        state.rendering(desired).audible.len() == state.rendering(desired).users.len(),
        forall|i: int|
            0 <= i < state.rendering(desired).users.len() ==> #[trigger] state.rendering(
                desired,
            ).users[i].connection == state.rendering(desired).audible[i],
{
}

/// Whether a participant is there to be shown.
pub open spec fn is_connected(participant: RenderParticipantModel) -> bool {
    participant.connection is Some
}

/// The users that are shown are the participants that are connected, in their order.
/// Each has the name and the server's flags of its participant, mute for mute and deaf
/// for deaf. Its own flags are the ones that it declared here, else the published ones.
pub proof fn a_user_is_shown_as_its_participant(
    state: LogicModel,
    desired: RenderStateModel,
    i: int,
)
    ensures
        state.rendering(desired).root == desired.space_key,
        state.rendering(desired).users.len() == desired.participants.filter(
            |p: RenderParticipantModel| is_connected(p),
        ).len(),
        0 <= i < state.rendering(desired).users.len() ==> ({
            let user = state.rendering(desired).users[i];
            let participant = desired.participants.filter(
                |p: RenderParticipantModel| is_connected(p),
            )[i];
            &&& participant.connection == Some(user.connection)
            &&& user.display_name == participant.display_name
            &&& user.mute == participant.server_mute
            &&& user.deaf == participant.server_deaf
            &&& !state.self_state.dom().contains(user.connection) ==> user.self_mute
                == participant.self_mute && user.self_deaf == participant.self_deaf
            &&& state.self_state.dom().contains(user.connection) ==> user.self_mute
                == state.self_state[user.connection].0 && user.self_deaf
                == state.self_state[user.connection].1
            &&& state.rendering(desired).audible[i] == user.connection
        }),
{
    lemma_shown_users(state.self_state, desired.participants, i);
}

proof fn lemma_shown_users(
    self_state: Map<u64, (bool, bool)>,
    participants: Seq<RenderParticipantModel>,
    i: int,
)
    ensures
        ({
            let users = shown_users(self_state, participants);
            let connected = participants.filter(|p: RenderParticipantModel| is_connected(p));
            &&& users.len() == connected.len()
            &&& 0 <= i < users.len() ==> {
                let user = users[i];
                let participant = connected[i];
                &&& participant.connection == Some(user.connection)
                &&& user.display_name == participant.display_name
                &&& user.mute == participant.server_mute
                &&& user.deaf == participant.server_deaf
                &&& !self_state.dom().contains(user.connection) ==> user.self_mute
                    == participant.self_mute && user.self_deaf == participant.self_deaf
                &&& self_state.dom().contains(user.connection) ==> user.self_mute
                    == self_state[user.connection].0 && user.self_deaf
                    == self_state[user.connection].1
            }
        }),
    decreases participants.len(),
{
    reveal(Seq::filter);
    if participants.len() > 0 {
        lemma_shown_users(self_state, participants.drop_last(), i);
    }
}

/// Where no connection stands for two participants, the self-state that a Space goes by
/// is the one that is shown: what the connection declared here, else what its
/// participant published; and a connection that nobody has is neither muted nor deaf.
pub proof fn the_own_state_is_the_one_that_is_shown(
    state: LogicModel,
    desired: RenderStateModel,
    connection: u64,
    i: int,
)
    requires
        forall|a: int, b: int|
            0 <= a < b < desired.participants.len() ==> (
            #[trigger] desired.participants[a]).connection is None || desired.participants[a].connection
                != (#[trigger] desired.participants[b]).connection,
    ensures
        state.self_state.dom().contains(connection) ==> state.own_state(desired, connection)
            == state.self_state[connection],
        !state.self_state.dom().contains(connection) && 0 <= i < desired.participants.len()
            && desired.participants[i].connection == Some(connection) ==> state.own_state(
            desired,
            connection,
        ).0 == desired.participants[i].self_mute && state.own_state(desired, connection).1
            == desired.participants[i].self_deaf,
        !state.self_state.dom().contains(connection) && (forall|a: int|
            0 <= a < desired.participants.len() ==> (
            #[trigger] desired.participants[a]).connection != Some(connection)) ==> state.own_state(
            desired,
            connection,
        ) == (false, false),
        0 <= i < state.rendering(desired).users.len() ==> ({
            let user = state.rendering(desired).users[i];
            let own = state.own_state(desired, user.connection);
            user.self_mute == own.0 && user.self_deaf == own.1
        }),
{
    lemma_published(desired.participants, connection, i);
    if 0 <= i < state.rendering(desired).users.len() {
        a_user_is_shown_as_its_participant(state, desired, i);
        let keep = |p: RenderParticipantModel| is_connected(p);
        let connected = desired.participants.filter(keep);
        let user = state.rendering(desired).users[i];
        assert(connected.contains(connected[i]));
        crate::ordered::lemma_filter_members(desired.participants, keep, connected[i]);
        let k = choose|k: int|
            0 <= k < desired.participants.len() && desired.participants[k] == connected[i];
        lemma_published(desired.participants, user.connection, k);
    }
}

proof fn lemma_published(participants: Seq<RenderParticipantModel>, connection: u64, i: int)
    requires
        forall|a: int, b: int|
            0 <= a < b < participants.len() ==> (#[trigger] participants[a]).connection is None
                || participants[a].connection != (#[trigger] participants[b]).connection,
    ensures
        0 <= i < participants.len() && participants[i].connection == Some(connection) ==> published(
            participants,
            connection,
        ) == (participants[i].self_mute, participants[i].self_deaf),
        (forall|a: int|
            0 <= a < participants.len() ==> (#[trigger] participants[a]).connection != Some(
                connection,
            )) ==> published(participants, connection) == (false, false),
    decreases participants.len(),
{
    if participants.len() > 0 {
        let rest = participants.drop_first();
        assert forall|a: int, b: int| 0 <= a < b < rest.len() implies (
        #[trigger] rest[a]).connection is None || rest[a].connection != (
        #[trigger] rest[b]).connection by {
            assert(rest[a] == participants[a + 1]);
            assert(rest[b] == participants[b + 1]);
        }
        lemma_published(rest, connection, i - 1);
        if 0 < i < participants.len() {
            assert(rest[i - 1] == participants[i]);
        }
        assert forall|a: int| 0 <= a < rest.len() implies #[trigger] rest[a] == participants[a
            + 1] by {}
    }
}

/// A self-state that was declared is held until its connection leaves or is moved away,
/// and nobody else's is touched by it.
pub proof fn a_declared_self_state_lasts_until_its_connection_leaves(
    state: LogicModel,
    desired: RenderStateModel,
    event: VoiceEvent,
    other: u64,
)
    ensures
        ({
            let after = state.responded(desired, event);
            &&& after.space_key == state.space_key
            &&& after.undelivered == state.undelivered
            &&& match event {
                VoiceEvent::Disconnected { connection, .. } => {
                    &&& !after.self_state.dom().contains(connection.0)
                    &&& other != connection.0 ==> after.self_state.dom().contains(other)
                        == state.self_state.dom().contains(other) && after.self_state[other]
                        == state.self_state[other]
                },
                VoiceEvent::Migrated { connection } => {
                    &&& !after.self_state.dom().contains(connection.0)
                    &&& other != connection.0 ==> after.self_state.dom().contains(other)
                        == state.self_state.dom().contains(other) && after.self_state[other]
                        == state.self_state[other]
                },
                VoiceEvent::RequestedSelfState { connection, self_mute, self_deaf } => {
                    let own = state.own_state(desired, connection.0);
                    &&& after.self_state.dom().contains(connection.0)
                    &&& (self_mute matches Some(flag) ==> after.self_state[connection.0].0 == flag)
                    &&& (self_mute is None ==> after.self_state[connection.0].0 == own.0)
                    &&& (self_deaf matches Some(flag) ==> after.self_state[connection.0].1 == flag)
                    &&& (self_deaf is None ==> after.self_state[connection.0].1 == own.1)
                    &&& other != connection.0 ==> after.self_state.dom().contains(other)
                        == state.self_state.dom().contains(other) && after.self_state[other]
                        == state.self_state[other]
                },
                _ => after == state,
            }
        }),
{
}

/// What is reported of an event is what happened: an arrival as an arrival, a departure
/// as a departure, and a self-state as the one that is now declared. A text and a
/// migration are not reported, and only a text is passed on.
pub proof fn an_event_is_reported_as_what_it_is(
    state: LogicModel,
    desired: RenderStateModel,
    event: VoiceEvent,
    spoken: Seq<SpokenModel>,
)
    ensures
        match event {
            VoiceEvent::Connected { connection } => state.reported(desired, event) matches Some(report)
                && report.connection == connection && report.kind == SpaceEventKind::Connected,
            VoiceEvent::Disconnected { connection, .. } => state.reported(
                desired,
                event,
            ) matches Some(report) && report.connection == connection && report.kind
                == SpaceEventKind::Disconnected,
            VoiceEvent::RequestedSelfState { connection, .. } => state.reported(
                desired,
                event,
            ) matches Some(report) && report.connection == connection && (
            report.kind matches SpaceEventKind::SelfState { self_mute, self_deaf } && state.responded(
                desired,
                event,
            ).self_state[connection.0] == (self_mute, self_deaf)),
            _ => state.reported(desired, event) is None,
        },
        match event {
            VoiceEvent::Said { connection, to, text } => {
                let out = LogicModel::relayed(event, spoken);
                &&& out.len() == spoken.len() + 1
                &&& out.last().from == Some(connection)
                &&& out.last().to == to
                &&& out.last().text == text@
                &&& out.drop_last() == spoken
            },
            _ => LogicModel::relayed(event, spoken) == spoken,
        },
{
    if let VoiceEvent::Said { connection, to, text } = event {
        let out = LogicModel::relayed(event, spoken);
        assert(out.drop_last() =~= spoken);
    }
}

/// Of what is refused, only a departure is kept: an arrival or a self-state is not
/// reported again.
pub proof fn only_a_refused_departure_is_kept(state: LogicModel, event: SpaceEvent)
    ensures
        ({
            let after = state.answered(Some(event));
            &&& event.kind == SpaceEventKind::Disconnected ==> after.undelivered.len()
                == state.undelivered.len() + 1 && after.undelivered.last() == event.connection.0
            &&& event.kind != SpaceEventKind::Disconnected ==> after.undelivered
                == state.undelivered
            &&& after.self_state == state.self_state
            &&& after.space_key == state.space_key
        }),
{
}

} // verus!
