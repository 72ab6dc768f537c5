//! Requests to send.

use overfwd::error::GatewayError;
use overfwd::send::{
    clamp_preview, de_recipients, Recipients, SendDisclosure, SendRequest, SendResponse,
    BODY_PREVIEW_LIMIT,
};
use overfwd::smtp::OutgoingBody;
use serde_json::Value;

fn request() -> SendRequest {
    SendRequest {
        from: "sender@localhost".to_string(),
        to: vec!["alice@localhost".to_string()],
        cc: vec![],
        bcc: vec![],
        subject: "Hi".to_string(),
        text: Some("plain body".to_string()),
        html: None,
    }
}

fn recipients(value: Option<&Value>) -> Vec<String> {
    match value {
        None => vec![],
        Some(Value::String(line)) => de_recipients(Recipients::One(line.clone())),
        Some(Value::Array(list)) => de_recipients(Recipients::Many(
            list.iter().map(|v| v.as_str().unwrap().to_string()).collect(),
        )),
        Some(other) => panic!("{other} is no list of recipients"),
    }
}

/// The request that a body holds.
fn parse(body: &str) -> SendRequest {
    let v: Value = serde_json::from_str(body).expect("request parses");
    let text = |name: &str| v.get(name).and_then(Value::as_str).map(String::from);
    SendRequest {
        from: text("from").unwrap(),
        to: recipients(v.get("to")),
        cc: recipients(v.get("cc")),
        bcc: recipients(v.get("bcc")),
        subject: text("subject").unwrap(),
        text: text("text"),
        html: text("html"),
    }
}

fn refusal(body: &str) -> GatewayError {
    parse(body).into_message().unwrap_err()
}

#[test]
fn into_message_maps_body_variants() {
    let mut r = request();
    r.text = Some("t".to_string());
    r.html = None;
    assert!(matches!(r.into_message().unwrap().body, OutgoingBody::Text(_)));

    let mut r = request();
    r.text = None;
    r.html = Some("<p>h</p>".to_string());
    assert!(matches!(r.into_message().unwrap().body, OutgoingBody::Html(_)));

    let mut r = request();
    r.text = Some("t".to_string());
    r.html = Some("<p>h</p>".to_string());
    assert!(matches!(r.into_message().unwrap().body, OutgoingBody::Both { .. }));
}

#[test]
fn into_message_requires_a_body() {
    let mut r = request();
    r.text = None;
    r.html = None;
    assert_eq!(r.into_message().unwrap_err().code(), "bad_request");
}

#[test]
fn into_message_requires_a_recipient() {
    let mut r = request();
    r.to = vec![];
    assert_eq!(r.into_message().unwrap_err().code(), "bad_request");
}

#[test]
fn recipients_accept_a_bare_string() {
    let r = parse(r#"{"from":"a@x","to":"b@y","subject":"s","text":"t"}"#);
    assert_eq!(r.to, vec!["b@y"]);
}

#[test]
fn a_recipient_string_splits_on_commas_and_trims() {
    let r = parse(r#"{"from":"a@x","to":"b@y , c@z","subject":"s","text":"t"}"#);
    assert_eq!(r.to, vec!["b@y", "c@z"]);
}

#[test]
fn recipients_still_accept_an_array_verbatim() {
    let r = parse(r#"{"from":"a@x","to":["b@y","c@z"],"subject":"s","text":"t"}"#);
    assert_eq!(r.to, vec!["b@y", "c@z"]);
    assert_eq!(
        de_recipients(Recipients::Many(vec![" b@y, c@z ".to_string(), String::new()])),
        vec![" b@y, c@z ", ""]
    );
}

#[test]
fn an_empty_recipient_string_is_a_bad_request_not_a_parse_error() {
    let r = parse(r#"{"from":"a@x","to":" , ","subject":"s","text":"t"}"#);
    assert!(r.to.is_empty());
    assert_eq!(r.into_message().unwrap_err().code(), "bad_request");
}

#[test]
fn a_line_is_equivalent_to_the_list_of_its_addresses() {
    let line = "dest@example.com, other@example.com".to_string();
    let list = vec!["dest@example.com".to_string(), "other@example.com".to_string()];
    assert_eq!(de_recipients(Recipients::One(line)), de_recipients(Recipients::Many(list)));
}

#[test]
fn cc_and_bcc_take_strings_and_still_default_to_empty() {
    let r = parse(r#"{"from":"a@x","to":"b@y","subject":"s","text":"t"}"#);
    assert!(r.cc.is_empty() && r.bcc.is_empty());

    let r = parse(
        r#"{"from":"a@x","to":"b@y","cc":"c@z, d@z","bcc":"blind@z","subject":"s","text":"t"}"#,
    );
    assert_eq!(r.cc, vec!["c@z", "d@z"]);
    assert_eq!(r.bcc, vec!["blind@z"]);
}

#[test]
fn into_message_carries_bcc_through() {
    let mut r = request();
    r.bcc = vec!["blind@localhost".to_string()];
    assert_eq!(r.into_message().unwrap().bcc, vec!["blind@localhost"]);
}

#[test]
fn into_message_carries_everything_through() {
    let mut r = request();
    r.cc = vec!["carol@localhost".to_string()];
    let m = r.into_message().unwrap();
    assert_eq!(m.from, "sender@localhost");
    assert_eq!(m.to, vec!["alice@localhost"]);
    assert_eq!(m.cc, vec!["carol@localhost"]);
    assert_eq!(m.subject, "Hi");
    assert_eq!(m.body, OutgoingBody::Text("plain body".to_string()));
}

#[test]
fn send_without_a_body_field_is_bad_request() {
    let err = refusal(r#"{"from":"a@x","to":["b@y"],"subject":"s"}"#);
    assert_eq!(err.status(), 400);
    assert_eq!(err.code(), "bad_request");
    assert_eq!(err.message(), "a message body is required: provide `text`, `html`, or both");
}

#[test]
fn send_with_no_recipients_is_bad_request() {
    let err = refusal(r#"{"from":"a@x","to":[],"subject":"s","text":"t"}"#);
    assert_eq!(err.status(), 400);
    assert_eq!(err.code(), "bad_request");
    assert_eq!(err.message(), "`to` must contain at least one recipient");
}

#[test]
fn send_accepts_a_comma_separated_recipient_string() {
    let err = refusal(r#"{"from":"a@x","to":"b@y, c@z","subject":"s"}"#);
    assert_eq!(err.status(), 400);
    assert_eq!(err.code(), "bad_request");
    assert!(
        err.message().contains("body"),
        "expected the body-required error, got: {}",
        err.message()
    );
}

#[test]
fn send_with_an_empty_recipient_string_is_bad_request() {
    let err = refusal(r#"{"from":"a@x","to":"  ","subject":"s","text":"t"}"#);
    assert_eq!(err.status(), 400);
    assert_eq!(err.code(), "bad_request");
}

#[test]
fn disclosure_prefers_text_and_exposes_only_to_from_subject() {
    let message = SendRequest {
        from: "sender@localhost".to_string(),
        to: vec!["alice@localhost".to_string()],
        cc: vec!["carol@localhost".to_string()],
        bcc: vec!["blind@localhost".to_string()],
        subject: "Subject line".to_string(),
        text: Some("the text part".to_string()),
        html: Some("the html part".to_string()),
    }
    .into_message()
    .unwrap();

    let disclosure = SendDisclosure::for_message(&message);
    assert_eq!(disclosure.from, "sender@localhost");
    assert_eq!(disclosure.to, vec!["alice@localhost"]);
    assert_eq!(disclosure.subject, "Subject line");
    assert_eq!(disclosure.body_preview, "the text part");

    // Copies must not show in it.
    let shown = format!("{disclosure:?}");
    assert!(!shown.contains("carol@localhost"), "cc leaked: {shown}");
    assert!(!shown.contains("blind@localhost"), "bcc leaked: {shown}");
    assert!(SendResponse::accepted(disclosure).sent);
}

#[test]
fn disclosure_falls_back_to_html_when_no_text() {
    let message = SendRequest {
        html: Some("<p>only html</p>".to_string()),
        text: None,
        ..request()
    }
    .into_message()
    .unwrap();
    assert_eq!(SendDisclosure::for_message(&message).body_preview, "<p>only html</p>");
}

#[test]
fn preview_is_clamped_with_ellipsis_when_over_limit() {
    let long = "a".repeat(BODY_PREVIEW_LIMIT + 50);
    let preview = clamp_preview(&long);
    assert_eq!(preview.chars().count(), BODY_PREVIEW_LIMIT + 1, "clamp + …");
    assert!(preview.ends_with('…'));
}

#[test]
fn preview_at_limit_is_not_marked_truncated() {
    let exact = "b".repeat(BODY_PREVIEW_LIMIT);
    let preview = clamp_preview(&exact);
    assert_eq!(preview, exact);
    assert!(!preview.ends_with('…'));
}

#[test]
fn preview_clamp_respects_char_boundaries() {
    let body = "é".repeat(BODY_PREVIEW_LIMIT + 10);
    let preview = clamp_preview(&body);
    assert_eq!(preview.chars().count(), BODY_PREVIEW_LIMIT + 1);
    assert!(preview.starts_with('é'));
}
