//! How a shell gets an answer: from the daemon that runs, or from one that is
//! started for it. A daemon of an earlier version is replaced.
use vstd::prelude::*;
use crate::text;
use crate::protocol::{Response, ResponseView, PROTOCOL_VERSION};
use crate::text::{chars_of, has_text};

verus! {

/// The size of an answer, in bytes.
pub const MAX_RESPONSE_BYTES: u64 = 1_048_576;

/// How often the daemon may be sent a request.
#[derive(Debug, Clone, Copy, PartialEq, Eq, Structural)]
pub enum Delivery {
    /// Once, to a daemon that has answered: the request changes something.
    AtMostOnce,
    /// Again after a failure: the request changes nothing.
    Idempotent,
    /// Once, to whatever is there.
    Once,
}

/// How far a conversation is.
#[derive(Debug, Clone, Copy, PartialEq, Eq, Structural)]
pub enum Phase {
    /// The daemon was greeted.
    Greeting,
    /// The request was sent to whatever is there.
    Trying,
    /// After a failure the daemon was greeted.
    Probing,
    /// A daemon of an earlier version was asked to end.
    Retiring { version: u32 },
    /// The earlier daemon's socket and lock are waited for.
    Releasing,
    /// A daemon was started.
    Starting,
    /// The started daemon is waited for.
    Waiting,
    /// The request was sent for the last time.
    Asking,
    /// The conversation is over.
    Over,
}

/// What is sent.
#[derive(Debug, Clone, Copy, PartialEq, Eq, Structural)]
pub enum Message {
    Ping,
    Shutdown,
    /// What the shell asks.
    Question,
}

/// What is to be done next.
#[derive(Debug, Clone, Copy, PartialEq, Eq, Structural)]
pub enum Action {
    /// Send a message in a version of the protocol and read the answer.
    Send { message: Message, version: u32 },
    /// See whether the earlier daemon's socket and lock are free, after a pause
    /// if this is not the first look.
    AwaitRelease { pause: bool },
    /// Start a daemon.
    StartDaemon,
    /// Greet the started daemon, after a pause if this is not the first time.
    AwaitDaemon { pause: bool },
    /// Give the shell the last answer, or the last failure.
    Return,
    /// Tell the shell that the earlier daemon did not end.
    ReportStuck,
    /// Tell the shell that the started daemon did not answer.
    ReportUnready,
    /// Tell the shell that no daemon could be started.
    ReportUnstarted,
}

/// What has happened.
#[derive(Debug, Clone, Copy, PartialEq, Eq, Structural)]
pub enum Event {
    Pong,
    /// The daemon speaks another version of the protocol.
    Unsupported,
    ShuttingDown,
    /// Any other answer.
    Answered,
    /// Nobody listens, or no answer came.
    Failed,
    /// The earlier daemon's socket and lock are free.
    Released,
    /// They are not.
    Held,
    /// The time for waiting is over.
    Expired,
    Started,
    NotStarted,
}

/// A conversation: how far it is, and what is to be done next.
#[derive(Debug, Clone, Copy, PartialEq, Eq, Structural)]
pub struct Step {
    pub phase: Phase,
    pub action: Action,
}

// ---------------------------------------------------------------------------
// The steps
// ---------------------------------------------------------------------------

/// Sending a message in the current version of the protocol.
pub open spec fn sending(phase: Phase, message: Message) -> Step {
    Step { phase, action: Action::Send { message, version: PROTOCOL_VERSION } }
}

/// How a conversation starts.
pub open spec fn first_step(delivery: Delivery) -> Step {
    match delivery {
        Delivery::AtMostOnce => sending(Phase::Greeting, Message::Ping),
        Delivery::Idempotent => sending(Phase::Trying, Message::Question),
        Delivery::Once => sending(Phase::Asking, Message::Question),
    }
}

/// Asking the daemon of an earlier version to end, the latest version first.
pub open spec fn retiring(version: u32) -> Step {
    Step {
        phase: Phase::Retiring { version },
        action: Action::Send { message: Message::Shutdown, version },
    }
}

pub open spec fn starting() -> Step {
    Step { phase: Phase::Starting, action: Action::StartDaemon }
}

pub open spec fn releasing(pause: bool) -> Step {
    Step { phase: Phase::Releasing, action: Action::AwaitRelease { pause } }
}

pub open spec fn waiting(pause: bool) -> Step {
    Step { phase: Phase::Waiting, action: Action::AwaitDaemon { pause } }
}

pub open spec fn over(action: Action) -> Step {
    Step { phase: Phase::Over, action }
}

/// The step after something has happened.
pub open spec fn step_after(phase: Phase, event: Event) -> Step {
    match phase {
        Phase::Greeting => match event {
            Event::Pong => sending(Phase::Asking, Message::Question),
            Event::Unsupported => retiring((PROTOCOL_VERSION - 1) as u32),
            _ => starting(),
        },
        Phase::Trying => match event {
            Event::Unsupported => retiring((PROTOCOL_VERSION - 1) as u32),
            Event::Failed => sending(Phase::Probing, Message::Ping),
            _ => over(Action::Return),
        },
        Phase::Probing => match event {
            Event::Failed => starting(),
            _ => sending(Phase::Asking, Message::Question),
        },
        Phase::Retiring { version } => if event == Event::ShuttingDown || version == 0 {
            releasing(false)
        } else {
            retiring((version - 1) as u32)
        },
        Phase::Releasing => match event {
            Event::Released => starting(),
            Event::Expired => over(Action::ReportStuck),
            _ => releasing(true),
        },
        Phase::Starting => match event {
            Event::Started => waiting(false),
            _ => over(Action::ReportUnstarted),
        },
        Phase::Waiting => match event {
            Event::Pong => sending(Phase::Asking, Message::Question),
            Event::Expired => over(Action::ReportUnready),
            _ => waiting(true),
        },
        Phase::Asking => over(Action::Return),
        Phase::Over => over(Action::Return),
    }
}

/// Starts a conversation whose request is delivered at most once.
pub fn request() -> (r: Step)
    ensures
        r == first_step(Delivery::AtMostOnce),
{
    send(Phase::Greeting, Message::Ping)
}

/// Starts a conversation whose request may be repeated.
pub fn request_idempotent() -> (r: Step)
    ensures
        r == first_step(Delivery::Idempotent),
{
    send(Phase::Trying, Message::Question)
}

/// Starts a conversation with whatever is there.
pub fn request_once() -> (r: Step)
    ensures
        r == first_step(Delivery::Once),
{
    send(Phase::Asking, Message::Question)
}

fn send(phase: Phase, message: Message) -> (r: Step)
    ensures
        r == sending(phase, message),
{
    Step { phase, action: Action::Send { message, version: PROTOCOL_VERSION } }
}

fn retire(version: u32) -> (r: Step)
    ensures
        r == retiring(version),
{
    Step {
        phase: Phase::Retiring { version },
        action: Action::Send { message: Message::Shutdown, version },
    }
}

fn start_daemon() -> (r: Step)
    ensures
        r == starting(),
{
    Step { phase: Phase::Starting, action: Action::StartDaemon }
}

fn await_release(pause: bool) -> (r: Step)
    ensures
        r == releasing(pause),
{
    Step { phase: Phase::Releasing, action: Action::AwaitRelease { pause } }
}

fn wait_for_daemon(pause: bool) -> (r: Step)
    ensures
        r == waiting(pause),
{
    Step { phase: Phase::Waiting, action: Action::AwaitDaemon { pause } }
}

fn end(action: Action) -> (r: Step)
    ensures
        r == over(action),
{
    Step { phase: Phase::Over, action }
}

/// The step after something has happened.
pub fn next_step(phase: Phase, event: Event) -> (r: Step)
    ensures
        r == step_after(phase, event),
{
    match phase {
        Phase::Greeting => match event {
            Event::Pong => send(Phase::Asking, Message::Question),
            Event::Unsupported => retire(PROTOCOL_VERSION - 1),
            _ => start_daemon(),
        },
        Phase::Trying => match event {
            Event::Unsupported => retire(PROTOCOL_VERSION - 1),
            Event::Failed => send(Phase::Probing, Message::Ping),
            _ => end(Action::Return),
        },
        Phase::Probing => match event {
            Event::Failed => start_daemon(),
            _ => send(Phase::Asking, Message::Question),
        },
        Phase::Retiring { version } => {
            if event == Event::ShuttingDown || version == 0 {
                await_release(false)
            } else {
                retire(version - 1)
            }
        },
        Phase::Releasing => match event {
            Event::Released => start_daemon(),
            Event::Expired => end(Action::ReportStuck),
            _ => await_release(true),
        },
        Phase::Starting => match event {
            Event::Started => wait_for_daemon(false),
            _ => end(Action::ReportUnstarted),
        },
        Phase::Waiting => match event {
            Event::Pong => send(Phase::Asking, Message::Question),
            Event::Expired => end(Action::ReportUnready),
            _ => wait_for_daemon(true),
        },
        Phase::Asking => end(Action::Return),
        Phase::Over => end(Action::Return),
    }
}

// ---------------------------------------------------------------------------
// Answers
// ---------------------------------------------------------------------------

/// What an answer means for the conversation.
pub open spec fn event_of(response: ResponseView) -> Event {
    match response {
        ResponseView::Pong { version } => Event::Pong,
        ResponseView::ShuttingDown => Event::ShuttingDown,
        ResponseView::Error { message } => if text::contains_text(
            message,
            "unsupported protocol version"@,
        ) {
            Event::Unsupported
        } else {
            Event::Answered
        },
        _ => Event::Answered,
    }
}

/// What an answer means for the conversation.
pub fn classify(response: &Response) -> (r: Event)
    ensures
        r == event_of(response@),
{
    match response {
        Response::Pong { .. } => Event::Pong,
        Response::ShuttingDown => Event::ShuttingDown,
        Response::Error { message } => {
            let all = chars_of(message.as_str());
            if has_text(all.as_slice(), "unsupported protocol version") {
                Event::Unsupported
            } else {
                Event::Answered
            }
        },
        _ => Event::Answered,
    }
}

/// What is wrong with the bytes of an answer.
#[derive(Debug, Clone, Copy, PartialEq, Eq, Structural)]
pub enum ClientError {
    ResponseTooLong,
    NoResponse,
}

/// What is wrong with an answer of some length.
pub open spec fn reply_problem(length: nat) -> Option<ClientError> {
    if length > MAX_RESPONSE_BYTES {
        Some(ClientError::ResponseTooLong)
    } else if length == 0 {
        Some(ClientError::NoResponse)
    } else {
        None
    }
}

/// Whether an answer of some length can be read.
pub fn check_reply(length: u64) -> (r: Result<(), ClientError>)
    ensures
        match r {
            Ok(_) => reply_problem(length as nat) is None,
            Err(e) => reply_problem(length as nat) == Some(e),
        },
{
    if length > MAX_RESPONSE_BYTES {
        return Err(ClientError::ResponseTooLong);
    }
    if length == 0 {
        return Err(ClientError::NoResponse);
    }
    Ok(())
}

impl ClientError {
    /// What the user is told.
    pub fn message(&self) -> (r: String)
        ensures
            r@ == match self {
                ClientError::ResponseTooLong => "daemon response exceeds 1 MiB"@,
                ClientError::NoResponse => "daemon closed the connection without a response"@,
            },
    {
        match self {
            ClientError::ResponseTooLong => "daemon response exceeds 1 MiB".to_string(),
            ClientError::NoResponse => {
                "daemon closed the connection without a response".to_string()
            },
        }
    }
}

// ---------------------------------------------------------------------------
// Laws
// ---------------------------------------------------------------------------

/// How often the request can still be sent.
pub open spec fn sends_left(phase: Phase) -> nat {
    match phase {
        Phase::Asking => 0,
        Phase::Over => 0,
        _ => 1,
    }
}

/// A step sends the request.
pub open spec fn asks(step: Step) -> bool {
    step.action matches Action::Send { message, .. } && message == Message::Question
}

pub open spec fn ask_count(step: Step) -> nat {
    if asks(step) {
        1
    } else {
        0
    }
}

/// How often a run of events makes a conversation send its request.
pub open spec fn total_asks(step: Step, events: Seq<Event>) -> nat
    decreases events.len(),
{
    ask_count(step) + if events.len() == 0 {
        0
    } else {
        total_asks(step_after(step.phase, events[0]), events.drop_first())
    }
}

proof fn lemma_asks_bounded(phase: Phase, step: Step, events: Seq<Event>)
    requires
        step.phase == phase,
        asks(step) ==> phase == Phase::Asking || phase == Phase::Trying,
    ensures
        total_asks(step, events) <= ask_count(step) + sends_left(phase),
    decreases events.len(),
{
    if events.len() > 0 {
        let after = step_after(phase, events[0]);
        lemma_asks_bounded(after.phase, after, events.drop_first());
    }
}

/// Whatever happens, a request that changes something is sent at most once, one
/// that may be repeated at most twice, and one to whatever is there once.
pub proof fn law_deliveries(delivery: Delivery, events: Seq<Event>)
    ensures
        delivery == Delivery::AtMostOnce ==> total_asks(first_step(delivery), events) <= 1,
        delivery == Delivery::Idempotent ==> total_asks(first_step(delivery), events) <= 2,
        delivery == Delivery::Once ==> total_asks(first_step(delivery), events) == 1,
{
    let step = first_step(delivery);
    lemma_asks_bounded(step.phase, step, events);
}

/// A phase that a conversation with a request that changes something can be in.
pub open spec fn cautious(phase: Phase) -> bool {
    phase != Phase::Trying && phase != Phase::Probing
}

/// A request that changes something is sent only to a daemon that has just
/// answered a greeting, and its conversation stays one in which that holds.
pub proof fn law_changes_go_to_a_greeted_daemon(phase: Phase, event: Event)
    requires
        cautious(phase),
    ensures
        cautious(first_step(Delivery::AtMostOnce).phase),
        !asks(first_step(Delivery::AtMostOnce)),
        cautious(step_after(phase, event).phase),
        asks(step_after(phase, event)) ==> event == Event::Pong,
{
}

/// Every daemon of an earlier version is asked to end, the latest first, until
/// one does.
pub proof fn law_retiring_counts_down(version: u32, event: Event)
    ensures
        event == Event::ShuttingDown ==> step_after(Phase::Retiring { version }, event)
            == releasing(false),
        event != Event::ShuttingDown && version > 0 ==> step_after(
            Phase::Retiring { version },
            event,
        ) == retiring((version - 1) as u32),
        event != Event::ShuttingDown && version == 0 ==> step_after(
            Phase::Retiring { version },
            event,
        ) == releasing(false),
{
}

/// A daemon is started only where none was reached, or where the earlier one
/// has let go of its socket and its lock.
pub proof fn law_daemon_starts_only_when_free(phase: Phase, event: Event)
    requires
        step_after(phase, event).action == Action::StartDaemon,
    ensures
        phase == Phase::Releasing ==> event == Event::Released,
        phase == Phase::Probing ==> event == Event::Failed,
        phase == Phase::Greeting ==> event != Event::Pong && event != Event::Unsupported,
        phase == Phase::Releasing || phase == Phase::Probing || phase == Phase::Greeting,
{
}

} // verus!
