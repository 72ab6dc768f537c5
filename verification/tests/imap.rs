//! Reading mail.

use overfwd::auth::HostPort;
use overfwd::error::GatewayError;
use overfwd::imap::{
    connect_error, expand, get_result, is_transport_error, keeps_session, map_command_err,
    map_login_err, map_select_err, parse_full, parse_summary, plan_fetch, raw_messages,
    render_address, search_results, summarize, uid_set, ConnectFailure, FailureKind, ImapFailure,
    ImapSettings, MailPart, ParsedMail, RawMessage, TlsMode,
};

const SAMPLE: &[u8] = b"From: Alice Example <alice@example.com>\r\n\
To: Bob <bob@example.com>\r\n\
Subject: Lunch tomorrow?\r\n\
Date: Tue, 1 Jul 2025 09:30:00 +0000\r\n\
Message-ID: <abc@example.com>\r\n\
Content-Type: text/plain; charset=utf-8\r\n\
\r\n\
Hey Bob, are you free for lunch tomorrow at noon?\r\n";

fn failure(kind: FailureKind, detail: &str, shown: &str) -> ImapFailure {
    ImapFailure { kind, detail: detail.to_string(), shown: shown.to_string() }
}

fn s(text: &str) -> Option<String> {
    Some(text.to_string())
}

#[test]
fn command_rejection_is_bad_request_and_transport_faults_are_not() {
    for err in [
        failure(FailureKind::No, "SEARCH failed", "no response: SEARCH failed"),
        failure(FailureKind::Bad, "Invalid search criteria", "bad response: Invalid search criteria"),
    ] {
        let mapped = map_command_err(err);
        assert_eq!(mapped.code(), "bad_request", "got: {}", mapped.to_text());
    }

    assert_eq!(
        map_command_err(failure(FailureKind::ConnectionLost, "", "connection lost")).code(),
        "host_unreachable"
    );
    assert_eq!(
        map_command_err(failure(FailureKind::Io, "boom", "io: boom")).code(),
        "host_unreachable"
    );
}

#[test]
fn every_failure_has_its_error() {
    use_all(|kind| map_login_err(failure(kind, "d", "s")), [
        "host_unreachable: IMAP connection lost during login: d",
        "host_unreachable: IMAP connection lost during login",
        "auth_failure: IMAP login rejected",
        "auth_failure: IMAP login rejected",
        "auth_failure: IMAP login rejected",
        "auth_failure: IMAP login rejected",
    ]);
    use_all(|kind| map_select_err(failure(kind, "d", "s"), "Box"), [
        "host_unreachable: IMAP error selecting 'Box': d",
        "host_unreachable: IMAP connection lost",
        "not_found: mailbox 'Box' not found",
        "host_unreachable: IMAP error selecting 'Box': s",
        "host_unreachable: IMAP error selecting 'Box': s",
        "host_unreachable: IMAP error selecting 'Box': s",
    ]);
    use_all(|kind| map_command_err(failure(kind, "d", "s")), [
        "host_unreachable: IMAP command failed: d",
        "host_unreachable: IMAP connection lost",
        "bad_request: IMAP rejected the command: d",
        "bad_request: IMAP rejected the command: d",
        "bad_request: invalid character in IMAP command: d",
        "host_unreachable: IMAP command failed: s",
    ]);
}

fn use_all(f: impl Fn(FailureKind) -> GatewayError, expected: [&str; 6]) {
    let kinds = [
        FailureKind::Io,
        FailureKind::ConnectionLost,
        FailureKind::No,
        FailureKind::Bad,
        FailureKind::Validate,
        FailureKind::Other,
    ];
    for (kind, text) in kinds.into_iter().zip(expected) {
        assert_eq!(f(kind).to_text(), text, "{kind:?}");
    }
}

#[test]
fn connect_failures_name_the_target() {
    let target = HostPort { host: "h.test".to_string(), port: 993 };
    let text = |f: ConnectFailure| connect_error(&target, f).to_text();
    let e = || "why".to_string();
    assert_eq!(
        text(ConnectFailure::Tcp(e())),
        "host_unreachable: cannot reach IMAP h.test:993: why"
    );
    assert_eq!(
        text(ConnectFailure::ClosedBeforeGreeting),
        "host_unreachable: IMAP server closed before greeting"
    );
    assert_eq!(
        text(ConnectFailure::Greeting(e())),
        "host_unreachable: IMAP greeting failed: why"
    );
    assert_eq!(
        text(ConnectFailure::TlsConfig(e())),
        "tls_failure: TLS configuration failed: why"
    );
    assert_eq!(
        text(ConnectFailure::ServerName(e())),
        "tls_failure: invalid TLS server name 'h.test': why"
    );
    assert_eq!(
        text(ConnectFailure::Handshake(e())),
        "tls_failure: TLS handshake with h.test failed: why"
    );
}

#[test]
fn transport_errors_cost_the_session() {
    let text = || "m".to_string();
    assert!(is_transport_error(&GatewayError::HostUnreachable(text())));
    assert!(is_transport_error(&GatewayError::TlsFailure(text())));
    assert!(!is_transport_error(&GatewayError::NotFound(text())));
    assert!(keeps_session(&Ok(1)));
    assert!(keeps_session::<u8>(&Err(GatewayError::BadRequest(text()))));
    assert!(!keeps_session::<u8>(&Err(GatewayError::HostUnreachable(text()))));
}

#[test]
fn tls_mode_inferred_from_port() {
    assert_eq!(TlsMode::for_port(993), TlsMode::ImplicitTls);
    assert_eq!(TlsMode::for_port(3993), TlsMode::ImplicitTls);
    assert_eq!(TlsMode::for_port(143), TlsMode::Plain);
    assert_eq!(TlsMode::for_port(3143), TlsMode::Plain);
}

#[test]
fn settings_default_is_secure() {
    assert!(!ImapSettings::from_env(&None).tls_insecure);
    assert!(ImapSettings::from_env(&s("yes")).tls_insecure);
    assert!(!ImapSettings::from_env(&s("no")).tls_insecure);
}

#[test]
fn parse_summary_extracts_headers_and_snippet() {
    let m = parse_summary(42, SAMPLE);
    assert_eq!(m.uid, 42);
    assert_eq!(m.from.as_deref(), Some("Alice Example <alice@example.com>"));
    assert_eq!(m.to.as_deref(), Some("Bob <bob@example.com>"));
    assert_eq!(m.subject.as_deref(), Some("Lunch tomorrow?"));
    assert!(m.date.as_deref().unwrap().starts_with("2025-07-01"));
    assert!(m.snippet.as_deref().unwrap().contains("lunch tomorrow"));
}

#[test]
fn parse_full_extracts_body_and_retains_raw() {
    let m = parse_full(7, SAMPLE);
    assert_eq!(m.uid, 7);
    assert_eq!(m.subject.as_deref(), Some("Lunch tomorrow?"));
    assert!(m.text_body.as_deref().unwrap().contains("free for lunch"));
    assert!(m.html_body.is_none());
    assert_eq!(m.raw, SAMPLE);
}

#[test]
fn parse_summary_is_infallible_on_garbage() {
    let m = parse_summary(1, b"\x00\x01 not a message");
    assert_eq!(m.uid, 1);
    assert!(m.subject.is_none());
}

#[test]
fn an_empty_message_shows_its_uid_alone() {
    let m = parse_summary(9, b"");
    assert_eq!((m.uid, m.from, m.to, m.subject, m.date, m.snippet), (9, None, None, None, None, None));
    let m = parse_full(9, b"");
    assert_eq!((m.uid, m.text_body, m.html_body), (9, None, None));
    assert!(m.raw.is_empty());
}

#[test]
fn text_and_html_are_told_apart() {
    let raw = b"From: a@x.test\r\n\
Subject: Both\r\n\
MIME-Version: 1.0\r\n\
Content-Type: multipart/alternative; boundary=\"b\"\r\n\
\r\n\
--b\r\n\
Content-Type: text/plain; charset=utf-8\r\n\
\r\n\
the text part\r\n\
--b\r\n\
Content-Type: text/html; charset=utf-8\r\n\
\r\n\
<p>the html part</p>\r\n\
--b--\r\n";
    let m = parse_full(1, raw);
    assert!(m.text_body.as_deref().unwrap().contains("the text part"));
    assert!(m.html_body.as_deref().unwrap().contains("<p>the html part</p>"));
    assert_eq!(m.from.as_deref(), Some("a@x.test"));
}

#[test]
fn the_summary_shows_what_was_read() {
    let mail = || ParsedMail {
        from: Some(vec![(s("A"), s("a@x.test"))]),
        to: Some(vec![]),
        subject: s("S"),
        date: s("2025-01-01T00:00:00Z"),
        preview: s(" p\n"),
    };
    let parts = vec![
        MailPart::Other,
        MailPart::Html("<p>h</p>".to_string()),
        MailPart::Text("t".to_string()),
        MailPart::Text("second".to_string()),
    ];
    let m = summarize(5, Some(mail()));
    assert_eq!(m.uid, 5);
    assert_eq!(m.from, s("A <a@x.test>"));
    assert_eq!(m.to, None);
    assert_eq!(m.subject, s("S"));
    assert_eq!(m.date, s("2025-01-01T00:00:00Z"));
    assert_eq!(m.snippet, s("p"));
    let m = expand(5, b"raw".to_vec(), Some((mail(), parts)));
    assert_eq!(m.from, s("A <a@x.test>"));
    assert_eq!(m.text_body, s("t"));
    assert_eq!(m.html_body, s("<p>h</p>"));
    assert_eq!(m.raw, b"raw");
    let m = expand(6, b"raw".to_vec(), None);
    assert_eq!((m.uid, m.raw.as_slice()), (6, b"raw".as_slice()));
    assert_eq!((m.from, m.subject, m.text_body, m.html_body), (None, None, None, None));
}

#[test]
fn bytes_that_are_no_message_give_a_bare_form() {
    let m = parse_full(7, b"");
    assert_eq!((m.uid, m.raw.len()), (7, 0));
    assert_eq!((m.from, m.to, m.subject, m.date), (None, None, None, None));
    assert_eq!((m.text_body, m.html_body), (None, None));
}

#[test]
fn nested_messages_are_read() {
    let mut raw = "Subject: outermost\r\n".to_string();
    for i in 0..100 {
        raw.push_str(&format!("Content-Type: message/rfc822\r\n\r\nSubject: {i}\r\n"));
    }
    raw.push_str("\r\nthe body\r\n");
    assert_eq!(parse_summary(1, raw.as_bytes()).subject, s("outermost"));
    assert_eq!(parse_full(1, raw.as_bytes()).subject, s("outermost"));
}

#[test]
fn addresses_are_rendered() {
    assert_eq!(render_address(&vec![]), None);
    assert_eq!(render_address(&vec![(None, None)]), None);
    assert_eq!(
        render_address(&vec![
            (s("Alice"), s("a@x.test")),
            (None, s("b@x.test")),
            (s(""), s("c@x.test")),
            (s("  "), s("d@x.test")),
            (s(" Eve "), s("e@x.test")),
            (s("Dora"), None),
            (None, None),
        ]),
        s("Alice <a@x.test>, b@x.test, c@x.test, d@x.test, Eve <e@x.test>")
    );
}

// --- Searching and fetching ---------------------------------------------------------

#[test]
fn the_newest_are_fetched() {
    let plan = plan_fetch(&vec![3, 10, 1, 7], 2);
    assert_eq!(plan.total, 4);
    assert_eq!(plan.uids, vec![10, 7]);
    assert_eq!(plan.set().as_deref(), Some("10,7"));
    let plan = plan_fetch(&vec![3, 10], 50);
    assert_eq!((plan.total, plan.uids), (2, vec![10, 3]));
}

#[test]
fn nothing_is_fetched_where_nothing_is_asked_for() {
    assert_eq!(plan_fetch(&vec![3, 10, 1], 0).set(), None);
    assert_eq!(plan_fetch(&vec![3, 10, 1], 0).total, 3);
    assert_eq!(plan_fetch(&vec![], 5).set(), None);
}

#[test]
fn uid_sets_are_written_with_commas() {
    assert_eq!(uid_set(&vec![]), "");
    assert_eq!(uid_set(&vec![4_294_967_295]), "4294967295");
    assert_eq!(uid_set(&vec![3, 2, 1]), "3,2,1");
}

#[test]
fn fetched_items_need_uid_and_body() {
    let items = vec![
        (Some(1), Some(b"a".to_vec())),
        (None, Some(b"b".to_vec())),
        (Some(3), None),
        (Some(4), Some(Vec::new())),
    ];
    assert_eq!(
        raw_messages(items),
        vec![
            RawMessage { uid: 1, raw: b"a".to_vec() },
            RawMessage { uid: 4, raw: Vec::new() },
        ]
    );
}

#[test]
fn results_come_newest_first() {
    let raws: Vec<RawMessage> =
        [2u32, 9, 5].iter().map(|uid| RawMessage { uid: *uid, raw: SAMPLE.to_vec() }).collect();
    let found = search_results(7, &raws);
    assert_eq!(found.total, 7);
    let uids: Vec<u32> = found.summaries.iter().map(|m| m.uid).collect();
    assert_eq!(uids, vec![9, 5, 2]);
    assert_eq!(found.summaries[0].subject, s("Lunch tomorrow?"));
}

#[test]
fn a_message_that_is_not_there_is_not_found() {
    let raws = vec![
        RawMessage { uid: 5, raw: SAMPLE.to_vec() },
        RawMessage { uid: 4, raw: b"x".to_vec() },
    ];
    let m = get_result(5, &raws).unwrap();
    assert_eq!(m.uid, 5);
    assert_eq!(m.subject, s("Lunch tomorrow?"));
    let err = get_result(6, &vec![]).unwrap_err();
    assert_eq!(err.to_text(), "not_found: no message with uid 6");
}
