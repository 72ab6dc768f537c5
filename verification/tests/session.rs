//! The course of a read.

use overfwd::auth::HostPort;
use overfwd::error::GatewayError;
use overfwd::imap::{ConnectFailure, FailureKind, ImapFailure};
use overfwd::session::{ReadAction, ReadReply, ReadRequest, ReadResult, ReadRun};

fn target() -> HostPort {
    HostPort { host: "imap.test".to_string(), port: 993 }
}

fn search(limit: usize) -> ReadRequest {
    ReadRequest::Search { mailbox: "Box".to_string(), query: "UNSEEN".to_string(), limit }
}

fn get(uid: u32) -> ReadRequest {
    ReadRequest::Get { mailbox: "Box".to_string(), uid }
}

fn message(subject: &str) -> Option<Vec<u8>> {
    Some(format!("Subject: {subject}\r\n\r\nbody\r\n").into_bytes())
}

fn failed(kind: FailureKind) -> ReadReply {
    ReadReply::Failed(ImapFailure { kind, detail: "d".to_string(), shown: "s".to_string() })
}

/// Hands the replies to a read and gives its actions, the last of them `Finished`, and
/// what it came to.
fn run(
    request: ReadRequest,
    replies: Vec<ReadReply>,
) -> (Vec<ReadAction>, Result<ReadResult, GatewayError>) {
    let mut run = ReadRun::new(target(), request);
    let mut actions = vec![run.action()];
    for reply in replies {
        run = run.answer(reply);
        actions.push(run.action());
    }
    (actions, run.finish().expect("the read is over"))
}

fn select() -> ReadAction {
    ReadAction::Select("Box".to_string())
}

#[test]
fn a_search_takes_its_course() {
    let (actions, result) = run(
        search(2),
        vec![
            ReadReply::Warm(false),
            ReadReply::Opened,
            ReadReply::Selected,
            ReadReply::Found(vec![4, 9, 7]),
            ReadReply::Fetched(vec![(Some(7), message("seven")), (Some(9), message("nine"))]),
        ],
    );
    assert_eq!(
        actions,
        vec![
            ReadAction::TakeWarm,
            ReadAction::Open,
            select(),
            ReadAction::Search("UNSEEN".to_string()),
            ReadAction::Fetch("9,7".to_string()),
            ReadAction::Finished { keep: true },
        ]
    );
    match result.unwrap() {
        ReadResult::Found(found) => {
            assert_eq!(found.total, 3);
            let subjects: Vec<_> =
                found.summaries.iter().map(|m| m.subject.as_deref().unwrap()).collect();
            assert_eq!(subjects, vec!["nine", "seven"]);
        }
        other => panic!("a search gives summaries, not {other:?}"),
    }
}

#[test]
fn a_warm_session_is_tried_first() {
    let (actions, _) = run(
        get(5),
        vec![
            ReadReply::Warm(true),
            ReadReply::Alive(true),
            ReadReply::Selected,
            ReadReply::Fetched(vec![(Some(5), message("five"))]),
        ],
    );
    assert_eq!(
        actions,
        vec![
            ReadAction::TakeWarm,
            ReadAction::Probe,
            select(),
            ReadAction::Fetch("5".to_string()),
            ReadAction::Finished { keep: true },
        ]
    );
}

#[test]
fn a_dead_warm_session_is_replaced() {
    let (actions, result) = run(
        get(5),
        vec![
            ReadReply::Warm(true),
            ReadReply::Alive(false),
            ReadReply::Opened,
            ReadReply::Selected,
            ReadReply::Fetched(vec![(Some(5), message("five"))]),
        ],
    );
    assert_eq!(actions[2], ReadAction::Open);
    match result.unwrap() {
        ReadResult::Message(m) => assert_eq!(m.subject.as_deref(), Some("five")),
        other => panic!("a get gives a message, not {other:?}"),
    }
}

#[test]
fn a_search_without_matches_fetches_nothing() {
    for (limit, found) in [(10, vec![]), (0, vec![1, 2, 3])] {
        let total = found.len();
        let (actions, result) = run(
            search(limit),
            vec![
                ReadReply::Warm(false),
                ReadReply::Opened,
                ReadReply::Selected,
                ReadReply::Found(found),
            ],
        );
        assert_eq!(actions.last(), Some(&ReadAction::Finished { keep: true }));
        match result.unwrap() {
            ReadResult::Found(found) => {
                assert!(found.summaries.is_empty());
                assert_eq!(found.total, total);
            }
            other => panic!("a search gives summaries, not {other:?}"),
        }
    }
}

#[test]
fn failures_before_the_session_leave_nothing_to_keep() {
    let (actions, result) = run(
        search(1),
        vec![
            ReadReply::Warm(false),
            ReadReply::NotConnected(ConnectFailure::Tcp("refused".to_string())),
        ],
    );
    assert_eq!(actions.last(), Some(&ReadAction::Finished { keep: false }));
    assert_eq!(
        result.err().unwrap().to_text(),
        "host_unreachable: cannot reach IMAP imap.test:993: refused"
    );
    let (actions, result) = run(
        search(1),
        vec![
            ReadReply::Warm(false),
            ReadReply::NotLoggedIn(ImapFailure {
                kind: FailureKind::No,
                detail: "bad password".to_string(),
                shown: "no".to_string(),
            }),
        ],
    );
    assert_eq!(actions.last(), Some(&ReadAction::Finished { keep: false }));
    assert_eq!(result.err().unwrap().code(), "auth_failure");
}

#[test]
fn rejections_keep_the_session_and_faults_do_not() {
    let open = || vec![ReadReply::Warm(false), ReadReply::Opened];
    let ends = |request: ReadRequest, rest: Vec<ReadReply>| {
        let mut replies = open();
        replies.extend(rest);
        let (actions, result) = run(request, replies);
        let keep = matches!(actions.last(), Some(ReadAction::Finished { keep: true }));
        (result.err().unwrap().code(), keep)
    };
    assert_eq!(ends(search(1), vec![failed(FailureKind::No)]), ("not_found", true));
    assert_eq!(
        ends(search(1), vec![ReadReply::Selected, failed(FailureKind::Bad)]),
        ("bad_request", true)
    );
    assert_eq!(
        ends(search(1), vec![ReadReply::Selected, failed(FailureKind::Io)]),
        ("host_unreachable", false)
    );
    assert_eq!(
        ends(get(5), vec![ReadReply::Selected, ReadReply::Fetched(vec![])]),
        ("not_found", true)
    );
    assert_eq!(
        ends(get(5), vec![ReadReply::Selected, failed(FailureKind::ConnectionLost)]),
        ("host_unreachable", false)
    );
}

#[test]
fn a_reply_that_was_not_asked_for_is_passed_over() {
    let run = ReadRun::new(target(), search(1)).answer(ReadReply::Selected);
    assert_eq!(run.action(), ReadAction::TakeWarm);
    assert!(run.finish().is_none());
}
