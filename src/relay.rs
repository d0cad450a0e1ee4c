use vstd::prelude::*;

verus! {

/// A worker together with the context it runs in: what the relay that drives a worker's
/// lifecycle holds.
pub struct WorkerRelay<W, Ctx> {
    worker: W,
    ctx: Ctx,
}

impl<W, Ctx> WorkerRelay<W, Ctx> {
    pub closed spec fn worker_of(&self) -> W {
        self.worker
    }

    pub closed spec fn context_of(&self) -> Ctx {
        self.ctx
    }

    /// A relay for `worker`, running in `ctx`.
    pub fn new(worker: W, ctx: Ctx) -> (r: Self)
        ensures
            r.worker_of() == worker,
            r.context_of() == ctx,
    {
        WorkerRelay { worker, ctx }
    }

    /// The worker and its context, taken apart.
    pub fn into_parts(self) -> (r: (W, Ctx))
        ensures
            r.0 == self.worker_of(),
            r.1 == self.context_of(),
    {
        (self.worker, self.ctx)
    }
}

/// What the driver of a relay must do next.
#[derive(Debug, Clone, Copy, PartialEq, Eq, Structural)]
pub enum RelayAction {
    /// Run the worker's initialisation hook.
    Initialize,
    /// Wait for the next message, or for the stop signal, and hand a message to the worker.
    Receive,
    /// Run the worker's shutdown hook.
    Shutdown,
    /// Look up the router.
    FindRouter,
    /// Ask the router to stop the worker's address.
    StopAddress,
    /// Send the router the stop acknowledgement.
    SendStopAck,
    /// The relay is done.
    Exit,
}

/// What the driver reports back. A failure of a hook or of the router is reported, and
/// logged by the driver, but changes nothing but what the relay does next.
#[derive(Debug, Clone, Copy, PartialEq, Eq, Structural)]
pub enum RelayEvent {
    /// The initialisation hook ran; whether it succeeded.
    Initialized(bool),
    /// A message was handled, successfully or not.
    Handled,
    /// There are no more messages for the worker.
    Exhausted,
    /// The stop signal came.
    StopSignal,
    /// The shutdown hook ran.
    ShutDown,
    /// The router lookup ended; whether the router was found.
    RouterFound(bool),
    /// The request to stop the address was made.
    AddressStopped,
    /// The stop acknowledgement was sent.
    AckSent,
}

/// Stage of a relay's lifecycle.
#[derive(Debug, Clone, Copy, PartialEq, Eq, Structural)]
pub enum RelayStage {
    Initializing,
    Running,
    ShuttingDown,
    FindingRouter,
    StoppingAddress,
    Acknowledging,
    Done,
}

/// The lifecycle of a relay: initialise the worker, pass it messages until they run out
/// or the stop signal comes, then shut it down and acknowledge the stop to the router.
/// A relay whose worker failed to initialise was not stopped by the router, so it also
/// asks the router to stop its address.
#[derive(Debug, Clone, Copy, PartialEq, Eq, Structural)]
pub struct RelayLifecycle {
    pub stage: RelayStage,
    pub stopped_from_router: bool,
}

/// The next lifecycle and action of a relay on event `ev`. An event that does not answer
/// the last action leaves the lifecycle as it is and repeats the action.
pub open spec fn relay_next(l: RelayLifecycle, ev: RelayEvent) -> (RelayLifecycle, RelayAction) {
    match (l.stage, ev) {
        (RelayStage::Initializing, RelayEvent::Initialized(true)) => (
            RelayLifecycle { stage: RelayStage::Running, ..l },
            RelayAction::Receive,
        ),
        (RelayStage::Initializing, RelayEvent::Initialized(false)) => (
            RelayLifecycle { stage: RelayStage::ShuttingDown, stopped_from_router: false },
            RelayAction::Shutdown,
        ),
        (RelayStage::Running, RelayEvent::Handled) => (l, RelayAction::Receive),
        (RelayStage::Running, RelayEvent::Exhausted) => (
            RelayLifecycle { stage: RelayStage::ShuttingDown, stopped_from_router: true },
            RelayAction::Shutdown,
        ),
        (RelayStage::Running, RelayEvent::StopSignal) => (
            RelayLifecycle { stage: RelayStage::ShuttingDown, stopped_from_router: true },
            RelayAction::Shutdown,
        ),
        (RelayStage::ShuttingDown, RelayEvent::ShutDown) => (
            RelayLifecycle { stage: RelayStage::FindingRouter, ..l },
            RelayAction::FindRouter,
        ),
        (RelayStage::FindingRouter, RelayEvent::RouterFound(false)) => (
            RelayLifecycle { stage: RelayStage::Done, ..l },
            RelayAction::Exit,
        ),
        (RelayStage::FindingRouter, RelayEvent::RouterFound(true)) => if l.stopped_from_router {
            (RelayLifecycle { stage: RelayStage::Acknowledging, ..l }, RelayAction::SendStopAck)
        } else {
            (RelayLifecycle { stage: RelayStage::StoppingAddress, ..l }, RelayAction::StopAddress)
        },
        (RelayStage::StoppingAddress, RelayEvent::AddressStopped) => (
            RelayLifecycle { stage: RelayStage::Acknowledging, ..l },
            RelayAction::SendStopAck,
        ),
        (RelayStage::Acknowledging, RelayEvent::AckSent) => (
            RelayLifecycle { stage: RelayStage::Done, ..l },
            RelayAction::Exit,
        ),
        _ => (l, relay_pending_action(l)),
    }
}

/// The action a relay waits on in its current stage.
pub open spec fn relay_pending_action(l: RelayLifecycle) -> RelayAction {
    match l.stage {
        RelayStage::Initializing => RelayAction::Initialize,
        RelayStage::Running => RelayAction::Receive,
        RelayStage::ShuttingDown => RelayAction::Shutdown,
        RelayStage::FindingRouter => RelayAction::FindRouter,
        RelayStage::StoppingAddress => RelayAction::StopAddress,
        RelayStage::Acknowledging => RelayAction::SendStopAck,
        RelayStage::Done => RelayAction::Exit,
    }
}

impl RelayLifecycle {
    /// A relay at its start; the first action is to initialise the worker.
    pub fn start() -> (r: (RelayLifecycle, RelayAction))
        ensures
            r.0.stage == RelayStage::Initializing,
            r.1 == RelayAction::Initialize,
    {
        (RelayLifecycle { stage: RelayStage::Initializing, stopped_from_router: true }, RelayAction::Initialize)
    }

    fn pending_action(&self) -> (r: RelayAction)
        ensures
            r == relay_pending_action(*self),
    {
        match self.stage {
            RelayStage::Initializing => RelayAction::Initialize,
            RelayStage::Running => RelayAction::Receive,
            RelayStage::ShuttingDown => RelayAction::Shutdown,
            RelayStage::FindingRouter => RelayAction::FindRouter,
            RelayStage::StoppingAddress => RelayAction::StopAddress,
            RelayStage::Acknowledging => RelayAction::SendStopAck,
            RelayStage::Done => RelayAction::Exit,
        }
    }

    /// Hands the relay the event that answers its last action, and returns the next action.
    pub fn next(&mut self, ev: RelayEvent) -> (a: RelayAction)
        ensures
            (*final(self), a) == relay_next(*old(self), ev),
    {
        match (self.stage, ev) {
            (RelayStage::Initializing, RelayEvent::Initialized(ok)) => {
                if ok {
                    self.stage = RelayStage::Running;
                    RelayAction::Receive
                } else {
                    self.stage = RelayStage::ShuttingDown;
                    self.stopped_from_router = false;
                    RelayAction::Shutdown
                }
            },
            (RelayStage::Running, RelayEvent::Handled) => RelayAction::Receive,
            (RelayStage::Running, RelayEvent::Exhausted) | (RelayStage::Running, RelayEvent::StopSignal) => {
                self.stage = RelayStage::ShuttingDown;
                self.stopped_from_router = true;
                RelayAction::Shutdown
            },
            (RelayStage::ShuttingDown, RelayEvent::ShutDown) => {
                self.stage = RelayStage::FindingRouter;
                RelayAction::FindRouter
            },
            (RelayStage::FindingRouter, RelayEvent::RouterFound(found)) => {
                if !found {
                    self.stage = RelayStage::Done;
                    RelayAction::Exit
                } else if self.stopped_from_router {
                    self.stage = RelayStage::Acknowledging;
                    RelayAction::SendStopAck
                } else {
                    self.stage = RelayStage::StoppingAddress;
                    RelayAction::StopAddress
                }
            },
            (RelayStage::StoppingAddress, RelayEvent::AddressStopped) => {
                self.stage = RelayStage::Acknowledging;
                RelayAction::SendStopAck
            },
            (RelayStage::Acknowledging, RelayEvent::AckSent) => {
                self.stage = RelayStage::Done;
                RelayAction::Exit
            },
            _ => self.pending_action(),
        }
    }
}

} // verus!
