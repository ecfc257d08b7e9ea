//! How the frames of one controller stream reach the server, and how its answers
//! go back.

use vstd::prelude::*;

use crate::actor::ActorCommand;
use crate::actor_model::CommandModel;
use crate::core_wire::{
    from_core_frame, read_frame, to_core_frame, written_payload, CoreClientFrame, CoreServerFrame,
    CoreServerFrameModel, StatusCode, WireStatus,
};
use crate::messages::ServerFrame;
use crate::runtime::drawn;

verus! {

/// What a stream brings next.
#[derive(Debug)]
pub enum Incoming {
    Frame(CoreClientFrame),
    /// The controller ended the stream.
    End,
    /// The transport failed, with a status of its own.
    Failed,
}

/// How far a stream is.
#[derive(Debug, Clone, Copy, PartialEq, Eq, Structural)]
pub enum Phase {
    /// Nothing came yet.
    Fresh,
    /// The server knows the stream.
    Open,
    /// Nothing more is read.
    Over,
}

/// What is done with what came.
#[derive(Debug)]
pub enum StreamStep {
    /// The command goes to the server.
    Forward(ActorCommand),
    /// The status goes to the controller, and the stream is over.
    Refuse(WireStatus),
    /// The status of the transport goes to the controller, and the stream is over.
    PassOn,
    /// The server is told that the stream ended, and the stream is over.
    Close(ActorCommand),
    Nothing,
}

/// What a stream does with what came, given its phase.
pub open spec fn is_step(stream_id: u64, phase: Phase, incoming: Incoming, step: StreamStep) -> bool {
    match (phase, incoming) {
        (Phase::Over, _) => step is Nothing,
        (Phase::Fresh, Incoming::End) => {
            &&& step matches StreamStep::Refuse(status)
            &&& status.code == StatusCode::InvalidArgument
            &&& status.message@ == "Controller stream is empty"@
        },
        (Phase::Fresh, Incoming::Failed) => step is PassOn,
        (Phase::Open, Incoming::End) => {
            &&& step matches StreamStep::Close(command)
            &&& command@ == CommandModel::StreamClosed { stream_id }
        },
        (Phase::Open, Incoming::Failed) => {
            &&& step matches StreamStep::Close(command)
            &&& command@ == CommandModel::StreamClosed { stream_id }
        },
        (_, Incoming::Frame(frame)) => match read_frame(frame@) {
            Err(fault) => step matches StreamStep::Refuse(status) && status.answers(fault),
            Ok(read) => {
                &&& step matches StreamStep::Forward(command)
                &&& command@ == if phase == Phase::Fresh {
                    CommandModel::Open { stream_id, frame: read }
                } else {
                    CommandModel::Frame { stream_id, frame: read }
                }
            },
        },
    }
}

/// The phase that follows a step.
pub open spec fn phase_after(step: StreamStep, phase: Phase) -> Phase {
    match step {
        StreamStep::Forward(_) => Phase::Open,
        StreamStep::Nothing => phase,
        _ => Phase::Over,
    }
}

/// One stream of a controller.
#[derive(Debug)]
pub struct ControllerStream {
    stream_id: u64,
    phase: Phase,
}

impl ControllerStream {
    pub closed spec fn id(&self) -> u64 {
        self.stream_id
    }

    pub closed spec fn phase(&self) -> Phase {
        self.phase
    }

    pub fn stream_id(&self) -> (stream_id: u64)
        ensures
            stream_id == self.id(),
    {
        self.stream_id
    }

    /// Decides what is done with what came. A frame that cannot be read is never
    /// handed to the server.
    pub fn receive(&mut self, incoming: Incoming) -> (step: StreamStep)
        ensures
            is_step(old(self).id(), old(self).phase(), incoming, step),
            final(self).id() == old(self).id(),
            final(self).phase() == phase_after(step, old(self).phase()),
    {
        let stream_id = self.stream_id;
        let step = match (self.phase, incoming) {
            (Phase::Over, _) => StreamStep::Nothing,
            (Phase::Fresh, Incoming::End) => StreamStep::Refuse(
                WireStatus {
                    code: StatusCode::InvalidArgument,
                    message: "Controller stream is empty".to_owned(),
                },
            ),
            (Phase::Fresh, Incoming::Failed) => StreamStep::PassOn,
            (Phase::Open, Incoming::End) => StreamStep::Close(
                ActorCommand::StreamClosed { stream_id },
            ),
            (Phase::Open, Incoming::Failed) => StreamStep::Close(
                ActorCommand::StreamClosed { stream_id },
            ),
            (phase, Incoming::Frame(frame)) => match from_core_frame(frame) {
                Err(status) => StreamStep::Refuse(status),
                Ok(frame) => match phase {
                    Phase::Fresh => StreamStep::Forward(ActorCommand::Open { stream_id, frame }),
                    _ => StreamStep::Forward(ActorCommand::Frame { stream_id, frame }),
                },
            },
        };
        match &step {
            StreamStep::Forward(_) => {
                self.phase = Phase::Open;
            },
            StreamStep::Nothing => {},
            _ => {
                self.phase = Phase::Over;
            },
        }
        step
    }

    /// Ends a stream whose command the server did not take, and says what its
    /// controller is told.
    pub fn server_stopped(&mut self) -> (status: WireStatus)
        ensures
            final(self).id() == old(self).id(),
            final(self).phase() == Phase::Over,
            status.code == StatusCode::Unavailable,
            status.message@ == "Controller actor stopped"@,
    {
        self.phase = Phase::Over;
        WireStatus {
            code: StatusCode::Unavailable,
            message: "Controller actor stopped".to_owned(),
        }
    }
}

/// The service that controllers connect to.
#[derive(Debug)]
pub struct ControllerService {
    next_stream_id: u64,
    queue_capacity: usize,
}

impl ControllerService {
    pub closed spec fn next_id(&self) -> u64 {
        self.next_stream_id
    }

    pub closed spec fn capacity(&self) -> usize {
        self.queue_capacity
    }

    pub fn new(queue_capacity: usize) -> (service: Self)
        ensures
            service.next_id() == 1,
            service.capacity() == queue_capacity,
    {
        ControllerService { next_stream_id: 1, queue_capacity }
    }

    /// How many answers may wait on one stream.
    pub fn queue_capacity(&self) -> (capacity: usize)
        ensures
            capacity == self.capacity(),
    {
        self.queue_capacity
    }

    /// Starts the next stream.
    pub fn connect(&mut self) -> (stream: ControllerStream)
        ensures
            stream.id() == old(self).next_id(),
            stream.phase() == Phase::Fresh,
            final(self).next_id() == drawn(old(self).next_id(), 1),
            final(self).capacity() == old(self).capacity(),
    {
        let stream_id = self.next_stream_id;
        self.next_stream_id = self.next_stream_id.wrapping_add(1);
        ControllerStream { stream_id, phase: Phase::Fresh }
    }
}

/// What goes back on a stream for an answer of the server.
pub fn outgoing_frame(frame: ServerFrame) -> (result: Result<CoreServerFrame, WireStatus>)
    ensures
        match frame@.payload {
            None => {
                &&& result matches Err(status)
                &&& status.code == StatusCode::Internal
                &&& status.message@ == "ServerFrame has no payload"@
            },
            Some(payload) => result matches Ok(core) && core@ == (CoreServerFrameModel {
                request_id: frame@.request_id,
                payload: Some(written_payload(payload)),
            }),
        },
{
    match to_core_frame(frame) {
        Ok(core) => Ok(core),
        Err(message) => Err(WireStatus { code: StatusCode::Internal, message }),
    }
}

/// The server hears of a stream first by its opening frame, and once by it.
pub proof fn a_stream_is_opened_by_its_first_frame(
    stream_id: u64,
    phase: Phase,
    incoming: Incoming,
    step: StreamStep,
)
    requires
        is_step(stream_id, phase, incoming, step),
    ensures
        step matches StreamStep::Forward(command) ==> (command@ is Open <==> phase == Phase::Fresh),
        phase_after(step, phase) != Phase::Fresh || phase == Phase::Fresh,
        step matches StreamStep::Forward(_) ==> phase_after(step, phase) == Phase::Open,
{
}

/// Once a stream is over, the server hears nothing more of it.
pub proof fn a_stream_that_is_over_is_silent(
    stream_id: u64,
    incoming: Incoming,
    step: StreamStep,
)
    requires
        is_step(stream_id, Phase::Over, incoming, step),
    ensures
        step is Nothing,
        phase_after(step, Phase::Over) == Phase::Over,
{
}

/// A stream that the server knows is closed with it, however it ends, and is then over. One
/// that the server does not know is refused or passed on, and the server hears nothing.
pub proof fn a_known_stream_is_closed_with_the_server(
    stream_id: u64,
    incoming: Incoming,
    step: StreamStep,
    unknown: StreamStep,
)
    requires
        !(incoming is Frame),
        is_step(stream_id, Phase::Open, incoming, step),
        is_step(stream_id, Phase::Fresh, incoming, unknown),
    ensures
        step matches StreamStep::Close(command) && command@ == (CommandModel::StreamClosed {
            stream_id,
        }),
        phase_after(step, Phase::Open) == Phase::Over,
        !(unknown is Close) && !(unknown is Forward),
        phase_after(unknown, Phase::Fresh) == Phase::Over,
{
}

/// A frame that can be read goes to the server under its stream; one that cannot ends the
/// stream, and never reaches the server.
pub proof fn a_frame_that_is_read_goes_to_the_server(
    stream_id: u64,
    phase: Phase,
    frame: CoreClientFrame,
    step: StreamStep,
)
    requires
        phase != Phase::Over,
        is_step(stream_id, phase, Incoming::Frame(frame), step),
    ensures
        read_frame(frame@) is Err ==> step is Refuse && phase_after(step, phase) == Phase::Over,
        read_frame(frame@) matches Ok(read) ==> step matches StreamStep::Forward(command) && (
        command@ == (CommandModel::Open { stream_id, frame: read }) || command@ == (
        CommandModel::Frame { stream_id, frame: read })),
{
}

} // verus!
