//! The completed commands of each session, kept so that a repeated request is
//! answered with the result it had.

use vstd::prelude::*;

use std::collections::VecDeque;

use crate::ordered::SortedMap;
use crate::session::SessionId;
use crate::text::{copy_bytes, decimal_text, join_text};

verus! {

/// The completed requests of one session, oldest first, and their results.
#[verifier::ext_equal]
#[verifier::reject_recursive_types(Output)]
pub struct LogModel<Output> {
    pub order: Seq<Seq<u8>>,
    pub results: Map<Seq<u8>, Output>,
}

impl<Output> LogModel<Output> {
    pub open spec fn empty() -> Self {
        LogModel { order: Seq::empty(), results: Map::empty() }
    }

    /// Every completed request is listed once, and at most `maximum` are kept.
    pub open spec fn valid(self, maximum: nat) -> bool {
        &&& self.order.len() <= maximum
        &&& self.order.no_duplicates()
        &&& self.order.to_set() == self.results.dom()
    }

    /// The log after a request was completed: a repeated request keeps its
    /// place, and the oldest request leaves a full log.
    pub open spec fn completed(self, request_id: Seq<u8>, result: Output, maximum: nat) -> Self {
        let order = if self.results.dom().contains(request_id) {
            self.order
        } else {
            self.order.push(request_id)
        };
        let results = self.results.insert(request_id, result);
        if order.len() > maximum {
            LogModel { order: order.drop_first(), results: results.remove(order[0]) }
        } else {
            LogModel { order, results }
        }
    }
}

#[verifier::ext_equal]
#[verifier::reject_recursive_types(Output)]
pub struct ReliableModel<Output> {
    pub maximum_completed_per_session: nat,
    pub sessions: Map<SessionId, LogModel<Output>>,
}

impl<Output> ReliableModel<Output> {
    pub open spec fn valid(self) -> bool {
        forall|id: SessionId| #[trigger]
            self.sessions.dom().contains(id) ==> self.sessions[id].valid(
                self.maximum_completed_per_session,
            )
    }

    pub open spec fn attached(self, id: SessionId) -> Self {
        if self.sessions.dom().contains(id) {
            self
        } else {
            ReliableModel { sessions: self.sessions.insert(id, LogModel::empty()), ..self }
        }
    }

    pub open spec fn replays(self, id: SessionId, request_id: Seq<u8>) -> bool {
        self.sessions.dom().contains(id) && self.sessions[id].results.dom().contains(request_id)
    }

    pub open spec fn completed(self, id: SessionId, request_id: Seq<u8>, result: Output) -> (
        Self,
        Result<(), ReliableError>,
    ) {
        if !self.sessions.dom().contains(id) {
            (self, Err(ReliableError::MissingSession(id)))
        } else if request_id.len() == 0 {
            (self, Err(ReliableError::EmptyRequestId))
        } else {
            (
                ReliableModel {
                    sessions: self.sessions.insert(
                        id,
                        self.sessions[id].completed(
                            request_id,
                            result,
                            self.maximum_completed_per_session,
                        ),
                    ),
                    ..self
                },
                Ok(()),
            )
        }
    }

    pub open spec fn removed(self, id: SessionId) -> Self {
        ReliableModel { sessions: self.sessions.remove(id), ..self }
    }
}

/// Completing a request keeps a log valid.
pub proof fn lemma_completed_valid<Output>(
    log: LogModel<Output>,
    request_id: Seq<u8>,
    result: Output,
    maximum: nat,
)
    requires
        log.valid(maximum),
    ensures
        log.completed(request_id, result, maximum).valid(maximum),
{
    let known = log.results.dom().contains(request_id);
    let order = if known {
        log.order
    } else {
        log.order.push(request_id)
    };
    let results = log.results.insert(request_id, result);
    assert(log.order.contains(request_id) == known) by {
        assert(log.order.to_set().contains(request_id) == log.order.contains(request_id));
    }
    assert(order.no_duplicates()) by {
        assert forall|i: int, j: int| 0 <= i < order.len() && 0 <= j < order.len() && i != j implies order[i]
            != order[j] by {
            if !known {
                if i < log.order.len() {
                    assert(log.order.contains(log.order[i]));
                }
                if j < log.order.len() {
                    assert(log.order.contains(log.order[j]));
                }
            }
        }
    }
    assert(order.to_set() =~= results.dom()) by {
        assert forall|r: Seq<u8>| order.to_set().contains(r) <==> results.dom().contains(r) by {
            assert(log.order.to_set().contains(r) == log.order.contains(r));
            if order.contains(r) {
                let k = choose|k: int| 0 <= k < order.len() && order[k] == r;
                if k < log.order.len() {
                    assert(log.order[k] == r);
                }
            }
            if log.order.contains(r) {
                let k = choose|k: int| 0 <= k < log.order.len() && log.order[k] == r;
                assert(order[k] == r);
            }
            if !known && r == request_id {
                assert(order[order.len() - 1] == r);
            }
        }
    }
    if order.len() > maximum {
        let kept = order.drop_first();
        assert(kept.no_duplicates());
        assert(kept.to_set() =~= results.remove(order[0]).dom()) by {
            assert forall|r: Seq<u8>| kept.to_set().contains(r) <==> results.remove(order[0]).dom().contains(r) by {
                assert(order.to_set().contains(r) == order.contains(r));
                if kept.contains(r) {
                    let k = choose|k: int| 0 <= k < kept.len() && kept[k] == r;
                    assert(order[k + 1] == r);
                }
                if order.contains(r) && r != order[0] {
                    let k = choose|k: int| 0 <= k < order.len() && order[k] == r;
                    assert(kept[k - 1] == r);
                }
            }
        }
    }
}

struct SessionLog<Output> {
    completed: SortedMap<Vec<u8>, Output>,
    order: VecDeque<Vec<u8>>,
}

impl<Output> SessionLog<Output> {
    spec fn model(self) -> LogModel<Output> {
        LogModel { order: crate::text::views(self.order@), results: self.completed@ }
    }

    spec fn wf(self, maximum: nat) -> bool {
        self.completed.wf() && self.model().valid(maximum)
    }
}

/// The completed commands of the live sessions.
pub struct ReliableCommands<Output> {
    maximum_completed_per_session: usize,
    sessions: SortedMap<SessionId, SessionLog<Output>>,
}

impl<Output> View for ReliableCommands<Output> {
    type V = ReliableModel<Output>;

    closed spec fn view(&self) -> ReliableModel<Output> {
        ReliableModel {
            maximum_completed_per_session: self.maximum_completed_per_session as nat,
            sessions: self.sessions@.map_values(|log: SessionLog<Output>| log.model()),
        }
    }
}

impl<Output> ReliableCommands<Output> {
    pub closed spec fn wf(&self) -> bool {
        &&& self.sessions.wf()
        &&& forall|id: SessionId| #[trigger]
            self.sessions@.dom().contains(id) ==> self.sessions@[id].wf(
                self.maximum_completed_per_session as nat,
            )
    }

    /// Every log is bounded and lists what it holds.
    pub proof fn lemma_valid(&self)
        requires
            self.wf(),
        ensures
            self@.valid(),
    {
        assert forall|id: SessionId| #[trigger]
            self@.sessions.dom().contains(id) implies self@.sessions[id].valid(
            self@.maximum_completed_per_session,
        ) by {
            assert(self.sessions@.dom().contains(id));
        }
    }
}

impl<Output: Clone> ReliableCommands<Output> {
    pub fn new(maximum_completed_per_session: usize) -> (commands: Self)
        ensures
            commands.wf(),
            commands@ == (ReliableModel {
                maximum_completed_per_session: maximum_completed_per_session as nat,
                sessions: Map::<SessionId, LogModel<Output>>::empty(),
            }),
    {
        let commands = ReliableCommands {
            maximum_completed_per_session,
            sessions: SortedMap::new(),
        };
        assert(commands@.sessions =~= Map::empty());
        commands
    }

    /// Starts an empty log for a session that has none.
    pub fn attach_session(&mut self, session_id: SessionId)
        requires
            old(self).wf(),
        ensures
            final(self).wf(),
            final(self)@ == old(self)@.attached(session_id),
    {
        let ghost before = *self;
        if !self.sessions.contains_key(&session_id) {
            let log: SessionLog<Output> = SessionLog {
                completed: SortedMap::new(),
                order: VecDeque::new(),
            };
            let ghost started = log;
            self.sessions.insert(session_id, log);
            proof {
                assert(started.model().order =~= Seq::empty());
                assert(started.model() =~= LogModel::empty());
                assert(started.model().order.to_set() =~= Set::empty());
                crate::ordered::lemma_map_insert(
                    before.sessions@,
                    session_id,
                    started,
                    |log: SessionLog<Output>| log.model(),
                );
                assert forall|id: SessionId| #[trigger]
                    self.sessions@.dom().contains(id) implies self.sessions@[id].wf(
                    self.maximum_completed_per_session as nat,
                ) by {
                    if id != session_id {
                        assert(before.sessions@.dom().contains(id));
                    }
                }
            }
        }
        assert(self@ =~= before@.attached(session_id));
    }

    /// The result of a completed request.
    pub fn replay(&self, session_id: SessionId, request_id: &[u8]) -> (result: Option<Output>)
        requires
            self.wf(),
        ensures
            match result {
                Some(found) => self@.replays(session_id, request_id@) && cloned(
                    self@.sessions[session_id].results[request_id@],
                    found,
                ),
                None => !self@.replays(session_id, request_id@),
            },
    {
        match self.sessions.get(&session_id) {
            None => None,
            Some(session) => match session.completed.get(request_id) {
                None => None,
                Some(result) => Some(result.clone()),
            },
        }
    }

    /// Records the result of a request.
    pub fn complete(
        &mut self,
        session_id: SessionId,
        request_id: Vec<u8>,
        result: Output,
    ) -> (outcome: Result<(), ReliableError>)
        requires
            old(self).wf(),
        ensures
            final(self).wf(),
            (final(self)@, outcome) == old(self)@.completed(session_id, request_id@, result),
    {
        let ghost before = *self;
        let ghost given = request_id@;
        let maximum: usize = self.maximum_completed_per_session;
        let session = match self.sessions.get_mut(&session_id) {
            None => {
                return Err(ReliableError::MissingSession(session_id));
            },
            Some(session) => session,
        };
        if request_id.is_empty() {
            proof {
                assert(self.sessions@ =~= before.sessions@);
                assert(self@ =~= before@);
            }
            return Err(ReliableError::EmptyRequestId);
        }
        let ghost log = *session;
        proof {
            lemma_completed_valid(log.model(), given, result, maximum as nat);
        }
        if !session.completed.contains_key(request_id.as_slice()) {
            session.order.push_back(copy_bytes(request_id.as_slice()));
        }
        let ghost extended = crate::text::views(session.order@);
        proof {
            if log.model().results.dom().contains(given) {
                assert(extended =~= log.model().order);
            } else {
                assert(extended =~= log.model().order.push(given));
            }
        }
        session.completed.insert(request_id, result);
        if session.order.len() > maximum {
            let ghost all = session.order@;
            match session.order.pop_front() {
                None => {},
                Some(expired) => {
                    assert(crate::text::views(session.order@) =~= extended.drop_first());
                    assert(expired@ == extended[0]);
                    session.completed.remove(expired.as_slice());
                },
            }
        }
        proof {
            let changed = self.sessions@[session_id];
            assert(changed.model() =~= log.model().completed(given, result, maximum as nat));
            crate::ordered::lemma_map_insert(
                before.sessions@,
                session_id,
                changed,
                |log: SessionLog<Output>| log.model(),
            );
            assert(self@ =~= before@.completed(session_id, given, result).0);
            assert forall|id: SessionId| #[trigger]
                self.sessions@.dom().contains(id) implies self.sessions@[id].wf(
                self.maximum_completed_per_session as nat,
            ) by {
                if id != session_id {
                    assert(before.sessions@.dom().contains(id));
                }
            }
        }
        Ok(())
    }

    pub fn remove_session(&mut self, session_id: SessionId)
        requires
            old(self).wf(),
        ensures
            final(self).wf(),
            final(self)@ == old(self)@.removed(session_id),
    {
        let ghost before = *self;
        self.sessions.remove(&session_id);
        proof {
            crate::ordered::lemma_map_remove(
                before.sessions@,
                session_id,
                |log: SessionLog<Output>| log.model(),
            );
            assert(self@ =~= before@.removed(session_id));
            assert forall|id: SessionId| #[trigger]
                self.sessions@.dom().contains(id) implies self.sessions@[id].wf(
                self.maximum_completed_per_session as nat,
            ) by {
                assert(before.sessions@.dom().contains(id));
            }
        }
    }
}

/// A completed request is replayed with its last result, as long as the log
/// keeps at least one request.
pub proof fn the_last_result_is_replayed<Output>(
    commands: ReliableModel<Output>,
    id: SessionId,
    request_id: Seq<u8>,
    result: Output,
)
    requires
        commands.valid(),
        commands.maximum_completed_per_session >= 1,
        commands.sessions.dom().contains(id),
        request_id.len() > 0,
    ensures
        ({
            let after = commands.completed(id, request_id, result).0;
            after.replays(id, request_id) && after.sessions[id].results[request_id] == result
        }),
{
    let log = commands.sessions[id];
    assert(log.valid(commands.maximum_completed_per_session));
    if !log.results.dom().contains(request_id) && log.order.len()
        == commands.maximum_completed_per_session {
        let order = log.order.push(request_id);
        assert(log.order.contains(order[0]));
        assert(log.order.to_set().contains(order[0]));
        assert(order[0] != request_id);
    }
}

/// A full log forgets its oldest request and keeps all younger ones, in order.
pub proof fn history_is_bounded_in_insertion_order<Output>(
    commands: ReliableModel<Output>,
    id: SessionId,
    request_id: Seq<u8>,
    result: Output,
)
    requires
        commands.valid(),
        commands.sessions.dom().contains(id),
        request_id.len() > 0,
        !commands.replays(id, request_id),
    ensures
        ({
            let before = commands.sessions[id].order;
            let after = commands.completed(id, request_id, result).0.sessions[id].order;
            &&& after.len() <= commands.maximum_completed_per_session
            &&& before.len() < commands.maximum_completed_per_session ==> after == before.push(
                request_id,
            )
            &&& before.len() == commands.maximum_completed_per_session ==> after == before.push(
                request_id,
            ).drop_first()
        }),
{
    assert(commands.sessions[id].valid(commands.maximum_completed_per_session));
}

/// Completing a request of one session leaves the logs of all others alone.
pub proof fn requests_of_different_sessions_do_not_alias<Output>(
    commands: ReliableModel<Output>,
    id: SessionId,
    other: SessionId,
    request_id: Seq<u8>,
    result: Output,
)
    requires
        id != other,
    ensures
        ({
            let after = commands.completed(id, request_id, result).0;
            &&& after.sessions.dom().contains(other) == commands.sessions.dom().contains(other)
            &&& after.sessions[other] == commands.sessions[other]
        }),
{
}

/// A result that is kept is the one that its request had. To complete a request touches
/// the results of no other request, but for the oldest one where the log is full; and a
/// session that is removed leaves nothing behind.
pub proof fn a_result_belongs_to_its_request<Output>(
    commands: ReliableModel<Output>,
    id: SessionId,
    request_id: Seq<u8>,
    result: Output,
    other: Seq<u8>,
)
    requires
        commands.valid(),
        commands.sessions.dom().contains(id),
        request_id.len() > 0,
        other != request_id,
    ensures
        ({
            let before = commands.sessions[id];
            let after = commands.completed(id, request_id, result).0.sessions[id];
            &&& after.results.dom().contains(other) ==> before.results.dom().contains(other)
                && after.results[other] == before.results[other]
            &&& before.results.dom().contains(other) && !after.results.dom().contains(other)
                ==> before.order.len() == commands.maximum_completed_per_session && other
                == before.order[0]
            &&& !commands.removed(id).sessions.dom().contains(id)
        }),
{
    assert(commands.sessions[id].valid(commands.maximum_completed_per_session));
    let log = commands.sessions[id];
    if log.results.dom().contains(request_id) {
        assert(log.order.to_set().contains(request_id));
    }
}

/// A new session starts without results, and one that is there keeps its own.
pub proof fn attaching_forgets_nothing<Output>(
    commands: ReliableModel<Output>,
    id: SessionId,
    request_id: Seq<u8>,
)
    ensures
        commands.attached(id).sessions.dom().contains(id),
        commands.attached(id).replays(id, request_id) == commands.replays(id, request_id),
        commands.sessions.dom().contains(id) ==> commands.attached(id).sessions[id]
            == commands.sessions[id],
{
}

#[derive(Debug, Clone, Copy, PartialEq, Eq, Structural)]
pub enum ReliableError {
    MissingSession(SessionId),
    EmptyRequestId,
}

impl ReliableError {
    pub open spec fn text(self) -> Seq<char> {
        match self {
            ReliableError::MissingSession(id) => "Controller session "@ + crate::text::decimal(
                id as nat,
            ) + " has no reliable-command log"@,
            ReliableError::EmptyRequestId => "reliable command request_id must not be empty"@,
        }
    }

    /// The error in words.
    pub fn message(&self) -> (message: String)
        ensures
            message@ == self.text(),
    {
        match self {
            ReliableError::MissingSession(id) => join_text(
                "Controller session ",
                decimal_text(*id).as_str(),
                " has no reliable-command log",
            ),
            ReliableError::EmptyRequestId =>
                "reliable command request_id must not be empty".to_owned(),
        }
    }
}

} // verus!
