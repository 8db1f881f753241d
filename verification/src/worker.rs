use vstd::prelude::*;

verus! {

/// A worker that owns its processing state and handles one request
/// at a time.
///
/// The implementation should be free of shared mutable state: the
/// worker runs on its own thread and communicates with the main
/// thread only via request/response values.
pub trait Worker: Send + 'static {
    /// Input type sent from the main thread.
    type Request: Send + 'static;
    /// Output type returned after processing.
    type Response: Send + 'static;
    /// Processes one request. Called on the worker thread.
    fn handle(&mut self, req: Self::Request) -> Self::Response;
}

/// A message from the dispatcher to the worker thread.
pub enum Msg<R> {
    /// Process `request`, which was submitted as `generation`.
    Run { generation: u64, request: R },
    /// Stop the worker.
    Shutdown,
}

/// What the worker has collected from the messages of the current round.
pub struct WorkerState<R> {
    /// The newest request seen so far in this round, with its generation.
    pub latest: Option<(u64, R)>,
    /// Whether a `Shutdown` was seen in this round.
    pub shutdown: bool,
}

/// What the worker thread observed after performing the last action.
pub enum WorkerEvent<R> {
    /// The blocking wait returned this message.
    Received(Msg<R>),
    /// Draining the queue without blocking returned this message.
    Queued(Msg<R>),
    /// Draining found the queue empty.
    Empty,
    /// Every sender of requests is gone (seen while waiting or draining).
    Disconnected,
    /// The response was handed to the dispatcher.
    Delivered,
    /// The response could not be sent: the dispatcher is gone.
    Undeliverable,
}

/// What the worker thread does next.
pub enum WorkerAction<R> {
    /// Block until the next message arrives.
    Wait,
    /// Take the next already-queued message without blocking.
    Drain,
    /// Process `request` and send the response tagged with `generation`.
    Handle { generation: u64, request: R },
    /// Leave the loop: the thread ends.
    Stop,
}

impl<R> WorkerState<R> {
    /// The state at the start of a round: nothing seen yet.
    pub open spec fn idle() -> Self {
        WorkerState { latest: None, shutdown: false }
    }

    /// The state after one more message of the round: a `Run` replaces the
    /// latest request unless that one's generation is at least as high; a
    /// `Shutdown` is remembered.
    pub open spec fn absorbed(self, m: Msg<R>) -> Self {
        match m {
            Msg::Run { generation, request } => {
                match self.latest {
                    Some((g, _)) if g >= generation => self,
                    _ => WorkerState { latest: Some((generation, request)), shutdown: self.shutdown },
                }
            },
            Msg::Shutdown => WorkerState { latest: self.latest, shutdown: true },
        }
    }

    /// One transition of the worker loop: the next state and action after
    /// `e`.
    pub open spec fn step(self, e: WorkerEvent<R>) -> (Self, WorkerAction<R>) {
        match e {
            WorkerEvent::Received(m) => (Self::idle().absorbed(m), WorkerAction::Drain),
            WorkerEvent::Queued(m) => (self.absorbed(m), WorkerAction::Drain),
            WorkerEvent::Empty => {
                if self.shutdown {
                    (Self::idle(), WorkerAction::Stop)
                } else {
                    match self.latest {
                        Some((generation, request)) => (
                            Self::idle(),
                            WorkerAction::Handle { generation, request },
                        ),
                        None => (Self::idle(), WorkerAction::Wait),
                    }
                }
            },
            WorkerEvent::Disconnected => (Self::idle(), WorkerAction::Stop),
            WorkerEvent::Delivered => (Self::idle(), WorkerAction::Wait),
            WorkerEvent::Undeliverable => (Self::idle(), WorkerAction::Stop),
        }
    }

    /// The state at the start of a round.
    pub fn new() -> (s: Self)
        ensures
            s == Self::idle(),
    {
        WorkerState { latest: None, shutdown: false }
    }

    /// Takes one message of the round into account (see `absorbed`).
    pub fn absorb(self, m: Msg<R>) -> (s: Self)
        ensures
            s == self.absorbed(m),
    {
        match m {
            Msg::Run { generation, request } => {
                let keep = match &self.latest {
                    Some((g, _)) => *g >= generation,
                    None => false,
                };
                if keep {
                    self
                } else {
                    WorkerState { latest: Some((generation, request)), shutdown: self.shutdown }
                }
            },
            Msg::Shutdown => WorkerState { latest: self.latest, shutdown: true },
        }
    }
}

/// The decisions of the worker thread, one event at a time.
///
/// The thread starts with `WorkerState::new()` and the action `Wait`;
/// it performs each action and feeds back what it observed. Within a round
/// (one blocking wait, then draining until the queue is empty) only the
/// newest request is kept; older ones are dropped without being processed,
/// and a `Shutdown` anywhere in the round stops the thread.
pub fn worker_loop<R>(state: WorkerState<R>, event: WorkerEvent<R>) -> (next: (
    WorkerState<R>,
    WorkerAction<R>,
))
    ensures
        next == state.step(event),
{
    match event {
        WorkerEvent::Received(m) => (WorkerState::new().absorb(m), WorkerAction::Drain),
        WorkerEvent::Queued(m) => (state.absorb(m), WorkerAction::Drain),
        WorkerEvent::Empty => {
            if state.shutdown {
                (WorkerState::new(), WorkerAction::Stop)
            } else {
                match state.latest {
                    Some((generation, request)) => (
                        WorkerState::new(),
                        WorkerAction::Handle { generation, request },
                    ),
                    None => (WorkerState::new(), WorkerAction::Wait),
                }
            }
        },
        WorkerEvent::Disconnected => (WorkerState::new(), WorkerAction::Stop),
        WorkerEvent::Delivered => (WorkerState::new(), WorkerAction::Wait),
        WorkerEvent::Undeliverable => (WorkerState::new(), WorkerAction::Stop),
    }
}

} // verus!
