//! Writing and submitting mail.

use overfwd::auth::HostPort;
use overfwd::smtp::{
    build_envelope, build_mime, envelope_with, is_auth_code, map_smtp_error, mime_fields, prepare,
    tls_setup_error, written, OutgoingBody, OutgoingMessage, SmtpFailure, SmtpSecurity, SmtpSettings,
};

fn msg(body: OutgoingBody) -> OutgoingMessage {
    OutgoingMessage {
        from: "test@localhost".to_string(),
        to: vec!["alice@localhost".to_string()],
        cc: vec![],
        bcc: vec![],
        subject: "Hello".to_string(),
        body,
    }
}

fn text(body: &str) -> OutgoingMessage {
    msg(OutgoingBody::Text(body.to_string()))
}

fn rendered(m: &OutgoingMessage) -> String {
    String::from_utf8(build_mime(m).unwrap()).unwrap()
}

#[test]
fn text_message_has_expected_headers_and_body() {
    let rendered = rendered(&text("plain body"));
    assert!(rendered.contains("From: <test@localhost>"), "{rendered}");
    assert!(rendered.contains("To: <alice@localhost>"), "{rendered}");
    assert!(rendered.contains("Subject: Hello"), "{rendered}");
    assert!(rendered.contains("plain body"), "{rendered}");
    assert!(rendered.contains("Date: "), "{rendered}");
    assert!(rendered.contains("Message-ID: "), "{rendered}");
}

#[test]
fn cc_is_emitted_as_a_header() {
    let mut m = text("body");
    m.cc = vec!["carol@localhost".to_string()];
    let rendered = rendered(&m);
    assert!(rendered.contains("Cc: <carol@localhost>"), "{rendered}");
}

#[test]
fn both_bodies_produce_multipart_alternative() {
    let rendered = rendered(&msg(OutgoingBody::Both {
        text: "the text part".to_string(),
        html: "<p>the html part</p>".to_string(),
    }));
    assert!(rendered.contains("multipart/alternative"), "{rendered}");
    assert!(rendered.contains("the text part"), "{rendered}");
    assert!(rendered.contains("the html part"), "{rendered}");
}

#[test]
fn html_alone_is_html() {
    let rendered = rendered(&msg(OutgoingBody::Html("<p>only html</p>".to_string())));
    assert!(rendered.contains("text/html"), "{rendered}");
    assert!(rendered.contains("<p>only html</p>"), "{rendered}");
    assert!(!rendered.contains("multipart"), "{rendered}");
    assert!(!rendered.contains("Cc:"), "{rendered}");
}

#[test]
fn envelope_includes_cc_recipients() {
    let mut m = text("body");
    m.to = vec!["a@localhost".to_string(), "b@localhost".to_string()];
    m.cc = vec!["c@localhost".to_string()];

    let recipients = build_envelope(&m).unwrap().to;
    assert_eq!(recipients.len(), 3, "to + cc must all be RCPT TO'd");
    assert!(recipients.contains(&"c@localhost".to_string()), "{recipients:?}");
}

#[test]
fn envelope_includes_bcc_recipients() {
    let mut m = text("body");
    m.cc = vec!["c@localhost".to_string()];
    m.bcc = vec!["d@localhost".to_string()];

    let recipients = build_envelope(&m).unwrap().to;
    assert_eq!(recipients.len(), 3, "to + cc + bcc must all be RCPT TO'd");
    assert!(
        recipients.contains(&"d@localhost".to_string()),
        "bcc must be RCPT TO'd: {recipients:?}"
    );
    assert_eq!(recipients, vec!["alice@localhost", "c@localhost", "d@localhost"]);
}

#[test]
fn bcc_is_never_written_as_a_header() {
    let mut m = text("body");
    m.bcc = vec!["secret-bcc@localhost".to_string()];
    let rendered = rendered(&m);
    assert!(
        !rendered.contains("secret-bcc@localhost"),
        "the Bcc recipient must not leak into any header: {rendered}"
    );
    assert!(
        !rendered.to_ascii_lowercase().contains("bcc:"),
        "no Bcc header may be emitted: {rendered}"
    );
}

#[test]
fn blind_copies_change_the_envelope_alone() {
    let open = text("body");
    let mut blind = open.clone();
    blind.bcc = vec!["d@localhost".to_string()];
    assert_eq!(mime_fields(&open), mime_fields(&blind));
    assert_ne!(build_envelope(&open).unwrap(), build_envelope(&blind).unwrap());
}

#[test]
fn a_submission_has_envelope_and_message() {
    let m = text("plain body");
    let submission = prepare(&m).unwrap();
    assert_eq!(submission.envelope, build_envelope(&m).unwrap());
    assert!(String::from_utf8(submission.raw).unwrap().contains("plain body"));
}

#[test]
fn security_for_infers_from_smtp_port() {
    let insecure = SmtpSettings { tls_insecure: true };
    let secure = SmtpSettings { tls_insecure: false };
    let hp = |port| HostPort { host: "localhost".to_string(), port };
    assert_eq!(secure.security_for(&hp(3025)), SmtpSecurity::Plaintext);
    assert_eq!(insecure.security_for(&hp(3465)), SmtpSecurity::ImplicitTls { insecure: true });
    assert_eq!(secure.security_for(&hp(465)), SmtpSecurity::ImplicitTls { insecure: false });
    assert!(!SmtpSettings::from_env(&None).tls_insecure);
    assert!(SmtpSettings::from_env(&Some("on".to_string())).tls_insecure);
}

#[test]
fn malformed_address_is_bad_request() {
    let mut m = text("body");
    m.to = vec!["not-an-email".to_string()];
    assert_eq!(build_envelope(&m).unwrap_err().code(), "bad_request");
}

#[test]
fn the_first_bad_address_is_named() {
    let bad = |m: &OutgoingMessage| {
        assert_eq!(prepare(m).unwrap_err().code(), "bad_request");
        build_envelope(m).unwrap_err().message().to_string()
    };
    let mut m = text("body");
    m.bcc = vec!["b d@localhost".to_string()];
    assert_eq!(bad(&m), "invalid recipient address: b d@localhost");
    m.cc = vec!["@localhost".to_string()];
    assert_eq!(bad(&m), "invalid recipient address: @localhost");
    m.from = "nobody".to_string();
    assert_eq!(bad(&m), "invalid from address: nobody");
    let mut m = text("body");
    m.to = vec![];
    assert_eq!(bad(&m), "invalid SMTP envelope: missing destination address, invalid envelope");
}

#[test]
fn for_submission_port_maps_tls_ports() {
    assert_eq!(
        SmtpSecurity::for_submission_port(465, false),
        SmtpSecurity::ImplicitTls { insecure: false }
    );
    assert_eq!(
        SmtpSecurity::for_submission_port(3465, true),
        SmtpSecurity::ImplicitTls { insecure: true }
    );
    assert_eq!(SmtpSecurity::for_submission_port(3025, true), SmtpSecurity::Plaintext);
}

#[test]
fn auth_codes_are_recognised() {
    // 535: credentials invalid; 530: authentication required.
    assert!(is_auth_code(535));
    assert!(is_auth_code(530));
}

#[test]
fn non_auth_codes_are_not_auth() {
    // 550: mailbox unavailable, a rejection but no failed login; 250: fine.
    assert!(!is_auth_code(550));
    assert!(!is_auth_code(250));
}

#[test]
fn auth_codes_by_list_and_by_digit() {
    for code in [432, 454, 534, 538, 334, 235, 539] {
        assert!(is_auth_code(code), "{code}");
    }
    for code in [354, 421, 450, 452, 503, 554] {
        assert!(!is_auth_code(code), "{code}");
    }
}

#[test]
fn failed_submissions_have_their_error() {
    let smtp = HostPort { host: "smtp.test".to_string(), port: 465 };
    let shown = |is_tls: bool, status: Option<u16>| {
        map_smtp_error(&smtp, SmtpFailure { is_tls, status, shown: "why".to_string() }).to_text()
    };
    assert_eq!(
        shown(true, Some(535)),
        "tls_failure: TLS negotiation with the SMTP provider smtp.test:465 failed: why"
    );
    assert_eq!(
        shown(false, Some(535)),
        "auth_failure: the SMTP provider rejected the mailbox credential: why"
    );
    assert_eq!(
        shown(false, Some(550)),
        "host_unreachable: the SMTP provider smtp.test:465 rejected the submission: why"
    );
    assert_eq!(
        shown(false, None),
        "host_unreachable: could not reach the SMTP provider smtp.test:465: why"
    );
    assert_eq!(
        tls_setup_error(&smtp, "why").to_text(),
        "tls_failure: could not configure TLS for the SMTP provider smtp.test:465: why"
    );
}

#[test]
fn the_envelope_by_its_checks() {
    let mut m = text("body");
    m.cc = vec!["x".to_string()];
    let err = |from_ok: bool, checks: Vec<bool>| {
        envelope_with(&m, from_ok, &checks).unwrap_err().message().to_string()
    };
    assert_eq!(err(false, vec![false, false]), "invalid from address: test@localhost");
    assert_eq!(err(true, vec![true, false]), "invalid recipient address: x");
    assert_eq!(envelope_with(&m, true, &vec![true, true]).unwrap().to, vec!["alice@localhost", "x"]);
}

#[test]
fn what_cannot_be_written_is_a_bad_request() {
    assert_eq!(written(Ok(vec![1, 2])).unwrap(), vec![1, 2]);
    assert_eq!(
        written(Err("full".to_string())).unwrap_err().to_text(),
        "bad_request: could not build the MIME message: full"
    );
}

#[test]
fn every_message_has_a_form() {
    let mut odd = msg(OutgoingBody::Both {
        text: "\u{0} caf\u{e9} = \r\n \n".repeat(40),
        html: String::new(),
    });
    odd.from = "not an address\r\n".to_string();
    odd.to = vec![];
    odd.cc = vec!["\u{1f600}".repeat(100), String::new()];
    odd.subject = "\u{1f600} ?=\t\n".repeat(60);
    assert!(build_mime(&odd).unwrap().starts_with(b"From: <not an address\r\n>\r\nTo: \r\n"));
    odd.to = vec!["alice@localhost".to_string()];
    assert!(prepare(&odd).is_err());
    odd.from = "test@localhost".to_string();
    odd.cc = vec![];
    assert_eq!(prepare(&odd).unwrap().envelope.to, vec!["alice@localhost"]);
    assert!(build_mime(&text("")).is_ok());
}

/// What stands in `text` behind `from` and before `to`, and what follows it.
fn between<'a>(text: &'a str, from: &str, to: &str) -> (&'a str, &'a str) {
    let rest = text.strip_prefix(from).unwrap_or_else(|| panic!("{text:?} opens without {from:?}"));
    let at = rest.find(to).unwrap_or_else(|| panic!("{rest:?} has no {to:?}"));
    (&rest[..at], &rest[at..])
}

#[test]
fn a_form_holds_nothing_but_headers_and_body() {
    let mut m = text("plain body");
    m.cc = vec!["carol@localhost".to_string()];
    m.bcc = vec!["secret-bcc@localhost".to_string()];
    let form = rendered(&m);
    let head = "From: <test@localhost>\r\nTo: <alice@localhost>\r\nSubject: Hello\r\n\
                Cc: <carol@localhost>\r\n";
    let (_, rest) = between(&form, &format!("{head}Message-ID: <"), ">");
    let (_, rest) = between(rest, ">\r\nDate: ", "\r\n");
    assert_eq!(
        rest,
        "\r\nMIME-Version: 1.0\r\nContent-Type: text/plain; charset=\"utf-8\"\r\n\
         Content-Transfer-Encoding: 7bit\r\n\r\nplain body"
    );
}

#[test]
fn two_bodies_stand_between_boundaries() {
    let form = rendered(&msg(OutgoingBody::Both { text: "t".to_string(), html: "h".to_string() }));
    let head = "From: <test@localhost>\r\nTo: <alice@localhost>\r\nSubject: Hello\r\nMessage-ID: <";
    let (_, rest) = between(&form, head, ">");
    let (_, rest) = between(rest, ">\r\nDate: ", "\r\n");
    let opening = "\r\nMIME-Version: 1.0\r\nContent-Type: multipart/alternative; ";
    let (fold, rest) = between(rest, opening, "boundary=");
    let (boundary, rest) = between(rest, "boundary=\"", "\"");
    assert_eq!(fold, if boundary.len() >= 28 { "\r\n\t" } else { "" });
    let part = |kind: &str, body: &str| {
        format!(
            "\r\n--{boundary}\r\nContent-Type: text/{kind}; charset=\"utf-8\"\r\n\
             Content-Transfer-Encoding: 7bit\r\n\r\n{body}"
        )
    };
    let parts = part("plain", "t") + &part("html", "h");
    assert_eq!(rest, format!("\"\r\n\r\n{parts}\r\n--{boundary}--\r\n"));
}
