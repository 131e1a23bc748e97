use aster::client::{
    check_reply, classify, next_step, request, request_idempotent, request_once, Action,
    ClientError, Event, Message, Phase, MAX_RESPONSE_BYTES,
};
use aster::protocol::{Response, PROTOCOL_VERSION};

#[test]
fn a_change_is_sent_only_after_a_greeting() {
    let first = request();
    assert_eq!(first.action, Action::Send { message: Message::Ping, version: PROTOCOL_VERSION });
    let second = next_step(first.phase, Event::Pong);
    assert_eq!(
        second.action,
        Action::Send { message: Message::Question, version: PROTOCOL_VERSION }
    );
    let third = next_step(second.phase, Event::Failed);
    assert_eq!(third.action, Action::Return);
    assert_eq!(third.phase, Phase::Over);
}

#[test]
fn a_question_is_sent_again_after_a_failure() {
    let first = request_idempotent();
    assert_eq!(
        first.action,
        Action::Send { message: Message::Question, version: PROTOCOL_VERSION }
    );
    assert_eq!(next_step(first.phase, Event::Answered).action, Action::Return);
    let probe = next_step(first.phase, Event::Failed);
    assert_eq!(probe.action, Action::Send { message: Message::Ping, version: PROTOCOL_VERSION });
    let start = next_step(probe.phase, Event::Failed);
    assert_eq!(start.action, Action::StartDaemon);
    assert_eq!(next_step(start.phase, Event::NotStarted).action, Action::ReportUnstarted);
    let wait = next_step(start.phase, Event::Started);
    assert_eq!(wait.action, Action::AwaitDaemon { pause: false });
    let longer = next_step(wait.phase, Event::Failed);
    assert_eq!(longer.action, Action::AwaitDaemon { pause: true });
    assert_eq!(next_step(wait.phase, Event::Expired).action, Action::ReportUnready);
    assert_eq!(
        next_step(wait.phase, Event::Pong).action,
        Action::Send { message: Message::Question, version: PROTOCOL_VERSION }
    );
}

#[test]
fn a_stopping_daemon_is_not_started_for_it() {
    let first = request_once();
    assert_eq!(
        first.action,
        Action::Send { message: Message::Question, version: PROTOCOL_VERSION }
    );
    assert_eq!(next_step(first.phase, Event::Failed).action, Action::Return);
    assert_eq!(next_step(first.phase, Event::Unsupported).action, Action::Return);
}

#[test]
fn an_earlier_daemon_is_asked_to_end() {
    let mut step = next_step(request().phase, Event::Unsupported);
    let mut versions = Vec::new();
    while let Action::Send { message: Message::Shutdown, version } = step.action {
        versions.push(version);
        step = next_step(step.phase, Event::Failed);
    }
    let expected: Vec<u32> = (0..PROTOCOL_VERSION).rev().collect();
    assert_eq!(versions, expected);
    assert_eq!(step.action, Action::AwaitRelease { pause: false });

    let retiring = next_step(request().phase, Event::Unsupported);
    let release = next_step(retiring.phase, Event::ShuttingDown);
    assert_eq!(release.action, Action::AwaitRelease { pause: false });
    assert_eq!(
        next_step(release.phase, Event::Held).action,
        Action::AwaitRelease { pause: true }
    );
    assert_eq!(next_step(release.phase, Event::Expired).action, Action::ReportStuck);
    assert_eq!(next_step(release.phase, Event::Released).action, Action::StartDaemon);
}

#[test]
fn answers_are_told_apart() {
    assert_eq!(classify(&Response::Pong { version: "1".to_owned() }), Event::Pong);
    assert_eq!(classify(&Response::ShuttingDown), Event::ShuttingDown);
    assert_eq!(classify(&Response::Recorded), Event::Answered);
    assert_eq!(
        classify(&Response::Error { message: "unsupported protocol version 9".to_owned() }),
        Event::Unsupported
    );
    assert_eq!(classify(&Response::Error { message: "no".to_owned() }), Event::Answered);
}

#[test]
fn replies_are_bounded() {
    assert_eq!(check_reply(1), Ok(()));
    assert_eq!(check_reply(0), Err(ClientError::NoResponse));
    assert_eq!(check_reply(MAX_RESPONSE_BYTES), Ok(()));
    assert_eq!(check_reply(MAX_RESPONSE_BYTES + 1), Err(ClientError::ResponseTooLong));
    assert_eq!(ClientError::ResponseTooLong.message(), "daemon response exceeds 1 MiB");
    assert_eq!(
        ClientError::NoResponse.message(),
        "daemon closed the connection without a response"
    );
}
