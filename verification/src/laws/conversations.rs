//! How a shell and the daemon come together.
use vstd::prelude::*;
use crate::client;
use crate::client::{Action, Delivery, Event, Message, Phase, Step};
use crate::text;
use crate::protocol::ResponseView;

verus! {

/// Where a conversation stands after some events.
pub open spec fn after(step: Step, events: Seq<Event>) -> Step
    decreases events.len(),
{
    if events.len() == 0 {
        step
    } else {
        client::step_after(after(step, events.drop_last()).phase, events.last())
    }
}

/// The step is to send a message in the current version of the protocol.
pub open spec fn sends(step: Step, message: Message) -> bool {
    step.action == Action::Send { message, version: 8u32 }
}

/// Events that keep a client waiting for the daemon that it started.
pub open spec fn not_there_yet(events: Seq<Event>) -> bool {
    forall|i: int|
        0 <= i < events.len() ==> #[trigger] events[i] != Event::Pong && events[i]
            != Event::Expired
}

/// Events that keep a client waiting for an earlier daemon to go.
pub open spec fn still_held(events: Seq<Event>) -> bool {
    forall|i: int|
        0 <= i < events.len() ==> #[trigger] events[i] != Event::Released && events[i]
            != Event::Expired
}

proof fn lemma_another(step: Step, events: Seq<Event>, event: Event)
    ensures
        after(step, events.push(event)) == client::step_after(after(step, events).phase, event),
{
    assert(events.push(event).drop_last() =~= events);
}

/// A request that changes something is sent to a daemon that has answered a
/// greeting, and its answer, whatever it is, ends the conversation.
pub proof fn law_change_with_a_daemon(answer: Event)
    ensures
        ({
            let start = client::first_step(Delivery::AtMostOnce);
            &&& sends(start, Message::Ping)
            &&& sends(after(start, seq![Event::Pong]), Message::Question)
            &&& after(start, seq![Event::Pong, answer]).action == Action::Return
        }),
{
    let start = client::first_step(Delivery::AtMostOnce);
    let none = Seq::<Event>::empty();
    lemma_another(start, none, Event::Pong);
    assert(none.push(Event::Pong) =~= seq![Event::Pong]);
    lemma_another(start, seq![Event::Pong], answer);
    assert(seq![Event::Pong].push(answer) =~= seq![Event::Pong, answer]);
}

/// A request that changes nothing is sent at once. An answer ends the
/// conversation; a failure has the daemon greeted, and the request sent again if
/// it is there.
pub proof fn law_question_with_a_daemon(answer: Event, greeting: Event, last: Event)
    requires
        answer != Event::Unsupported,
        answer != Event::Failed,
        greeting != Event::Failed,
    ensures
        ({
            let start = client::first_step(Delivery::Idempotent);
            &&& sends(start, Message::Question)
            &&& after(start, seq![answer]).action == Action::Return
            &&& sends(after(start, seq![Event::Failed]), Message::Ping)
            &&& sends(after(start, seq![Event::Failed, greeting]), Message::Question)
            &&& after(start, seq![Event::Failed, greeting, last]).action == Action::Return
        }),
{
    let start = client::first_step(Delivery::Idempotent);
    let none = Seq::<Event>::empty();
    lemma_another(start, none, answer);
    assert(none.push(answer) =~= seq![answer]);
    lemma_another(start, none, Event::Failed);
    assert(none.push(Event::Failed) =~= seq![Event::Failed]);
    lemma_another(start, seq![Event::Failed], greeting);
    assert(seq![Event::Failed].push(greeting) =~= seq![Event::Failed, greeting]);
    lemma_another(start, seq![Event::Failed, greeting], last);
    assert(seq![Event::Failed, greeting].push(last) =~= seq![Event::Failed, greeting, last]);
}

/// A request that is to be sent once is sent once, and whatever comes of it is
/// returned.
pub proof fn law_once_is_once(answer: Event)
    ensures
        ({
            let start = client::first_step(Delivery::Once);
            &&& sends(start, Message::Question)
            &&& after(start, seq![answer]).action == Action::Return
        }),
{
    let start = client::first_step(Delivery::Once);
    let none = Seq::<Event>::empty();
    lemma_another(start, none, answer);
    assert(none.push(answer) =~= seq![answer]);
}

/// Where no daemon answers, one is started and greeted until it answers; then the
/// request is sent. A daemon that cannot be started, or does not answer in time,
/// is reported.
pub proof fn law_daemon_is_started(pauses: Seq<Event>, answer: Event, quiet: Event)
    requires
        not_there_yet(pauses),
        quiet != Event::Pong && quiet != Event::Unsupported,
    ensures
        ({
            let start = client::first_step(Delivery::AtMostOnce);
            let waiting = seq![quiet, Event::Started] + pauses;
            &&& after(start, seq![quiet]).action == Action::StartDaemon
            &&& after(start, seq![quiet, Event::NotStarted]).action == Action::ReportUnstarted
            &&& after(start, waiting).action == Action::AwaitDaemon { pause: pauses.len() > 0 }
            &&& after(start, waiting.push(Event::Expired)).action == Action::ReportUnready
            &&& sends(after(start, waiting.push(Event::Pong)), Message::Question)
            &&& after(start, waiting.push(Event::Pong).push(answer)).action == Action::Return
            &&& after(
                client::first_step(Delivery::Idempotent),
                seq![Event::Failed, Event::Failed],
            ).action == Action::StartDaemon
        }),
{
    let start = client::first_step(Delivery::AtMostOnce);
    let none = Seq::<Event>::empty();
    lemma_another(start, none, quiet);
    assert(none.push(quiet) =~= seq![quiet]);
    lemma_another(start, seq![quiet], Event::NotStarted);
    assert(seq![quiet].push(Event::NotStarted) =~= seq![quiet, Event::NotStarted]);
    lemma_another(start, seq![quiet], Event::Started);
    assert(seq![quiet].push(Event::Started) =~= seq![quiet, Event::Started]);
    lemma_waits(start, seq![quiet, Event::Started], pauses);
    let waiting = seq![quiet, Event::Started] + pauses;
    lemma_another(start, waiting, Event::Expired);
    lemma_another(start, waiting, Event::Pong);
    lemma_another(start, waiting.push(Event::Pong), answer);
    let other = client::first_step(Delivery::Idempotent);
    lemma_another(other, none, Event::Failed);
    assert(none.push(Event::Failed) =~= seq![Event::Failed]);
    lemma_another(other, seq![Event::Failed], Event::Failed);
    assert(seq![Event::Failed].push(Event::Failed) =~= seq![Event::Failed, Event::Failed]);
}

proof fn lemma_waits(start: Step, before: Seq<Event>, pauses: Seq<Event>)
    requires
        not_there_yet(pauses),
        after(start, before) == (Step {
            phase: Phase::Waiting,
            action: Action::AwaitDaemon { pause: false },
        }),
    ensures
        after(start, before + pauses) == (Step {
            phase: Phase::Waiting,
            action: Action::AwaitDaemon { pause: pauses.len() > 0 },
        }),
    decreases pauses.len(),
{
    if pauses.len() == 0 {
        assert(before + pauses =~= before);
    } else {
        let rest = pauses.drop_last();
        assert forall|i: int| 0 <= i < rest.len() implies #[trigger] rest[i] != Event::Pong
            && rest[i] != Event::Expired by {
            assert(rest[i] == pauses[i]);
        }
        lemma_waits(start, before, rest);
        let last = pauses[pauses.len() - 1];
        lemma_another(start, before + rest, last);
        assert((before + rest).push(last) =~= before + pauses);
    }
}

/// A daemon that speaks another version is asked to end, in the version before the
/// current one and then in each before that, until it agrees; its socket is waited
/// for, and a daemon is started. One that does not go is reported.
pub proof fn law_earlier_daemon_is_retired(
    delivery: Delivery,
    refusals: Seq<Event>,
    pauses: Seq<Event>,
)
    requires
        delivery == Delivery::AtMostOnce || delivery == Delivery::Idempotent,
        refusals.len() <= 7,
        forall|i: int| 0 <= i < refusals.len() ==> #[trigger] refusals[i] != Event::ShuttingDown,
        still_held(pauses),
    ensures
        ({
            let start = client::first_step(delivery);
            let asking = seq![Event::Unsupported] + refusals;
            let holding = asking.push(Event::ShuttingDown) + pauses;
            &&& after(start, asking).action == (Action::Send {
                message: Message::Shutdown,
                version: (7 - refusals.len()) as u32,
            })
            &&& after(start, holding).action == Action::AwaitRelease { pause: pauses.len() > 0 }
            &&& after(start, holding.push(Event::Released)).action == Action::StartDaemon
            &&& after(start, holding.push(Event::Expired)).action == Action::ReportStuck
        }),
{
    let start = client::first_step(delivery);
    let none = Seq::<Event>::empty();
    lemma_another(start, none, Event::Unsupported);
    assert(none.push(Event::Unsupported) =~= seq![Event::Unsupported]);
    lemma_refused(start, refusals);
    let asking = seq![Event::Unsupported] + refusals;
    lemma_another(start, asking, Event::ShuttingDown);
    lemma_holds(start, asking.push(Event::ShuttingDown), pauses);
    let holding = asking.push(Event::ShuttingDown) + pauses;
    lemma_another(start, holding, Event::Released);
    lemma_another(start, holding, Event::Expired);
}

proof fn lemma_refused(start: Step, refusals: Seq<Event>)
    requires
        after(start, seq![Event::Unsupported]) == (Step {
            phase: Phase::Retiring { version: 7 },
            action: Action::Send { message: Message::Shutdown, version: 7 },
        }),
        refusals.len() <= 7,
        forall|i: int| 0 <= i < refusals.len() ==> #[trigger] refusals[i] != Event::ShuttingDown,
    ensures
        ({
            let version = (7 - refusals.len()) as u32;
            after(start, seq![Event::Unsupported] + refusals) == (Step {
                phase: Phase::Retiring { version },
                action: Action::Send { message: Message::Shutdown, version },
            })
        }),
    decreases refusals.len(),
{
    let first = seq![Event::Unsupported];
    if refusals.len() == 0 {
        assert(first + refusals =~= first);
    } else {
        let rest = refusals.drop_last();
        assert forall|i: int| 0 <= i < rest.len() implies #[trigger] rest[i]
            != Event::ShuttingDown by {
            assert(rest[i] == refusals[i]);
        }
        lemma_refused(start, rest);
        let last = refusals[refusals.len() - 1];
        lemma_another(start, first + rest, last);
        assert((first + rest).push(last) =~= first + refusals);
    }
}

proof fn lemma_holds(start: Step, before: Seq<Event>, pauses: Seq<Event>)
    requires
        still_held(pauses),
        after(start, before) == (Step {
            phase: Phase::Releasing,
            action: Action::AwaitRelease { pause: false },
        }),
    ensures
        after(start, before + pauses) == (Step {
            phase: Phase::Releasing,
            action: Action::AwaitRelease { pause: pauses.len() > 0 },
        }),
    decreases pauses.len(),
{
    if pauses.len() == 0 {
        assert(before + pauses =~= before);
    } else {
        let rest = pauses.drop_last();
        assert forall|i: int| 0 <= i < rest.len() implies #[trigger] rest[i] != Event::Released
            && rest[i] != Event::Expired by {
            assert(rest[i] == pauses[i]);
        }
        lemma_holds(start, before, rest);
        let last = pauses[pauses.len() - 1];
        lemma_another(start, before + rest, last);
        assert((before + rest).push(last) =~= before + pauses);
    }
}

/// What a client makes of an answer: a greeting that is returned, a farewell, a
/// version that is not spoken, or anything else.
pub proof fn law_answers(version: Seq<char>, before: Seq<char>, rest: Seq<char>, other: ResponseView)
    ensures
        client::event_of(ResponseView::Pong { version }) == Event::Pong,
        client::event_of(ResponseView::ShuttingDown) == Event::ShuttingDown,
        client::event_of(
            ResponseView::Error { message: before + "unsupported protocol version"@ + rest },
        ) == Event::Unsupported,
        other is Recorded || other is Completion || other is Imported ==> client::event_of(other)
            == Event::Answered,
{
    let words = "unsupported protocol version"@;
    let message = before + words + rest;
    let n = before.len() as int;
    assert(message.subrange(n, n + words.len()) =~= words);
    assert(text::occurs_at(message, words, n));
}

} // verus!
