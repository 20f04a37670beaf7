//! The life of a connection and of the listener, decision by decision.
use vstd::prelude::*;

use crate::error::Error;
#[allow(unused_imports)]
use crate::response::ResponseModel;
use crate::response::{Response, StatusCode};
use crate::server::RequestFailure;

verus! {

/// What became of a request within its time.
#[derive(Debug)]
pub enum RequestOutcome {
    /// It was answered; this many received bytes were its own.
    Handled { response: Response, consumed: usize, keep_alive: bool },
    Failed(RequestFailure),
    TimedOut,
}

/// What the connection does behind a request.
#[derive(Debug)]
pub enum Conclusion {
    /// It ends without another word.
    End,
    /// It records the response, drops the request's bytes and writes.
    Respond {
        response: Response,
        /// Whether the request is recorded as timed out.
        timed_out: bool,
        /// How many received bytes are dropped; all of them where it is absent.
        consumed: Option<usize>,
        /// Whether the connection ends behind the response.
        close: bool,
    },
}

/// An empty response behind which the connection ends.
pub open spec fn closing(status: u16) -> ResponseModel {
    ResponseModel { close: true, ..ResponseModel::empty(status) }
}

/// Whether `conclusion` is what follows from `outcome`.
pub open spec fn concludes(outcome: RequestOutcome, conclusion: Conclusion) -> bool {
    match outcome {
        RequestOutcome::Failed(RequestFailure::Closed) => conclusion is End,
        RequestOutcome::Failed(failure) => conclusion matches Conclusion::Respond {
            response,
            timed_out,
            consumed,
            close,
        } && response@ == closing(failure.code()) && !timed_out && consumed is None && close,
        RequestOutcome::TimedOut => conclusion matches Conclusion::Respond {
            response,
            timed_out,
            consumed,
            close,
        } && response@ == closing(408) && timed_out && consumed is None && close,
        RequestOutcome::Handled { response: handled, consumed: bytes, keep_alive } => conclusion matches Conclusion::Respond {
            response,
            timed_out,
            consumed,
            close,
        } && response@ == handled@ && !timed_out && consumed == Some(bytes) && close == (!keep_alive
            || handled@.close),
    }
}

/// Decides what the connection does behind a request.
pub fn conclude(outcome: RequestOutcome) -> (conclusion: Conclusion)
    ensures
        concludes(outcome, conclusion),
{
    match outcome {
        RequestOutcome::Failed(RequestFailure::Closed) => Conclusion::End,
        RequestOutcome::Failed(failure) => Conclusion::Respond {
            response: Response::empty(failure.status()).close(),
            timed_out: false,
            consumed: None,
            close: true,
        },
        RequestOutcome::TimedOut => Conclusion::Respond {
            response: Response::empty(StatusCode::new(408)).close(),
            timed_out: true,
            consumed: None,
            close: true,
        },
        RequestOutcome::Handled { response, consumed, keep_alive } => {
            let close = !keep_alive || response.should_close();
            Conclusion::Respond { response, timed_out: false, consumed: Some(consumed), close }
        },
    }
}

/// Whether the receive buffer is released before the response is written: only
/// bytes of a pipelined request survive.
pub fn releases_buffer(close: bool, unread: usize) -> (releases: bool)
    ensures
        releases == (close || unread == 0),
{
    close || unread == 0
}

/// A request that could not be handled is answered once, and the connection
/// ends behind the answer.
pub proof fn law_refused_requests_end_the_connection(
    outcome: RequestOutcome,
    conclusion: Conclusion,
)
    requires
        concludes(outcome, conclusion),
        outcome !is Handled,
    ensures
        match conclusion {
            Conclusion::End => outcome matches RequestOutcome::Failed(failure) && failure is Closed,
            Conclusion::Respond { response, timed_out, consumed, close } => close && response@.close
                && response@.status >= 400 && timed_out == (outcome is TimedOut),
        },
{
}

/// The share of the budget that a body of this many bytes takes; an empty one
/// takes none.
pub fn body_permits(body_len: usize) -> (permits: Option<u32>)
    requires
        body_len <= u32::MAX,
    ensures
        permits == (if body_len == 0 {
            None::<u32>
        } else {
            Some(body_len as u32)
        }),
{
    if body_len == 0 {
        None
    } else {
        Some(body_len as u32)
    }
}

/// What happens to a listener.
#[derive(Debug)]
pub enum ServeEvent {
    /// The application asked it to end.
    Shutdown,
    /// A connection arrived; `permit` says whether there was room for it.
    Accepted { permit: bool },
    /// Accepting failed, with this message.
    AcceptFailed(String),
    /// The socket's options could be set.
    Configured,
    /// The socket's options could not be set.
    ConfigureFailed,
    /// A connection ended.
    Joined,
    /// No connection is open.
    Idle,
    /// A connection's task failed, with this message.
    TaskFailed(String),
    /// The time for connections to end is over.
    GraceElapsed,
}

/// How far a listener is.
#[derive(Clone, Copy, Debug, PartialEq, Eq, Structural)]
pub enum Serving {
    Running,
    /// No more connections are accepted; the open ones may end.
    Draining,
    Ended,
}

/// What a listener does next.
#[derive(Debug)]
pub enum ServeAction {
    /// It waits for the next event.
    Wait,
    /// It closes the new connection without a word.
    Reject,
    /// It sets the options of the new connection's socket.
    Configure,
    /// It gives the new connection a task of its own.
    Spawn,
    /// It stops accepting and lets the open connections end.
    Drain,
    /// It ends the open connections, and itself.
    Abort,
    /// It ends with this result.
    Finish(Result<(), Error>),
}

/// What a listener does on an event.
pub open spec fn serve_step(
    state: Serving,
    event: ServeEvent,
    action: ServeAction,
    after: Serving,
) -> bool {
    match (state, event) {
        (Serving::Running, ServeEvent::Shutdown) => action is Drain && after is Draining,
        (Serving::Running, ServeEvent::Accepted { permit }) => after is Running && if permit {
            action is Configure
        } else {
            action is Reject
        },
        (Serving::Running, ServeEvent::AcceptFailed(message)) => {
            &&& action matches ServeAction::Finish(Err(Error::Io(error))) && error@ == message@
            &&& after is Ended
        },
        (Serving::Running, ServeEvent::Configured) => action is Spawn && after is Running,
        (Serving::Draining, ServeEvent::Idle) => action matches ServeAction::Finish(Ok(()))
            && after is Ended,
        (Serving::Draining, ServeEvent::GraceElapsed) => action is Abort && after is Ended,
        (Serving::Running, ServeEvent::TaskFailed(message)) | (
            Serving::Draining,
            ServeEvent::TaskFailed(message),
        ) => {
            &&& action matches ServeAction::Finish(Err(Error::Task(error))) && error@ == message@
            &&& after is Ended
        },
        _ => action is Wait && after == state,
    }
}

impl Serving {
    /// Decides what a listener does on an event.
    pub fn on(self, event: ServeEvent) -> (step: (ServeAction, Serving))
        ensures
            serve_step(self, event, step.0, step.1),
    {
        match (self, event) {
            (Serving::Running, ServeEvent::Shutdown) => (ServeAction::Drain, Serving::Draining),
            (Serving::Running, ServeEvent::Accepted { permit }) => if permit {
                (ServeAction::Configure, Serving::Running)
            } else {
                (ServeAction::Reject, Serving::Running)
            },
            (Serving::Running, ServeEvent::AcceptFailed(message)) => (
                ServeAction::Finish(Err(Error::Io(message))),
                Serving::Ended,
            ),
            (Serving::Running, ServeEvent::Configured) => (ServeAction::Spawn, Serving::Running),
            (Serving::Draining, ServeEvent::Idle) => (ServeAction::Finish(Ok(())), Serving::Ended),
            (Serving::Draining, ServeEvent::GraceElapsed) => (ServeAction::Abort, Serving::Ended),
            (Serving::Running, ServeEvent::TaskFailed(message)) => (
                ServeAction::Finish(Err(Error::Task(message))),
                Serving::Ended,
            ),
            (Serving::Draining, ServeEvent::TaskFailed(message)) => (
                ServeAction::Finish(Err(Error::Task(message))),
                Serving::Ended,
            ),
            (state, _) => (ServeAction::Wait, state),
        }
    }
}

/// Once it drains, a listener gives no connection a task, and a connection is
/// given one only where there was room for it.
pub proof fn law_connections_are_bounded(
    state: Serving,
    event: ServeEvent,
    action: ServeAction,
    after: Serving,
)
    requires
        serve_step(state, event, action, after),
    ensures
        action is Spawn ==> state is Running && event is Configured,
        action is Configure ==> state is Running && event == (ServeEvent::Accepted { permit: true }),
        state is Draining ==> after !is Running,
        state is Ended ==> after is Ended && action is Wait,
{
}

} // verus!
