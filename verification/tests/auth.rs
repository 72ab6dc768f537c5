//! Access: gateway key, mailbox headers, credentials.

use axum::http::header::AUTHORIZATION;
use axum::http::{HeaderMap, HeaderName, HeaderValue};
use base64::Engine;
use overfwd::auth::{
    bearer_token, check_token, parse_basic, require_gateway_access, split_basic, token_in,
    CredentialStep, HostPort, InlineHeaders, MailboxCredential, Secret, TargetAnswers, H_MAILBOX_AUTH, H_MAILBOX_DOMAIN,
    H_MAILBOX_IMAP, H_MAILBOX_SMTP,
};
use overfwd::autoconfig::{
    Autoconfig, AutoconfigSettings, ClientConfig, MailServers, Resolution, XmlServer,
};
use overfwd::endpoint::{EndpointGuard, Lookup};
use overfwd::error::GatewayError;
use overfwd::headers::HeaderText;
use overfwd::ladder::{LadderAction, LadderAnswer};
use overfwd::net::{parse_ip, IpAddr};

fn encode(raw: &str) -> String {
    base64::engine::general_purpose::STANDARD.encode(raw)
}

fn basic(user: &str, pass: &str) -> String {
    format!("Basic {}", encode(&format!("{user}:{pass}")))
}

fn err_of<T>(r: Result<T, GatewayError>) -> GatewayError {
    match r {
        Ok(_) => panic!("expected an error"),
        Err(e) => e,
    }
}

fn ip(s: &str) -> IpAddr {
    let chars: Vec<char> = s.chars().collect();
    parse_ip(&chars).unwrap()
}

#[test]
fn parse_basic_roundtrips_user_and_pass() {
    let (user, pass) = parse_basic(&basic("test", "s3cr3t")).unwrap();
    assert_eq!(user, "test");
    assert_eq!(pass.expose(), "s3cr3t");
}

#[test]
fn parse_basic_allows_colon_in_password() {
    let (user, pass) = parse_basic(&basic("test", "a:b:c")).unwrap();
    assert_eq!(user, "test");
    assert_eq!(pass.expose(), "a:b:c");
}

#[test]
fn parse_basic_strips_trailing_newline_from_credential() {
    for (raw, why) in [("test:s3cr3t\n", "LF"), ("test:s3cr3t\r\n", "CRLF")] {
        let header = format!("Basic {}", encode(raw));
        let (user, pass) = parse_basic(&header).unwrap();
        assert_eq!(user, "test", "{why}");
        assert_eq!(pass.expose(), "s3cr3t", "{why}: trailing newline not stripped");
    }
}

#[test]
fn parse_basic_keeps_trailing_space_and_interior_newline() {
    let (_, pass) = parse_basic(&basic("test", "s3cr3t ")).unwrap();
    assert_eq!(pass.expose(), "s3cr3t ");
    let (_, pass) = parse_basic(&basic("test", "a\nb")).unwrap();
    assert_eq!(pass.expose(), "a\nb");
}

#[test]
fn parse_basic_rejects_garbage_without_echoing_it() {
    let err = err_of(parse_basic("Basic !!!not-base64!!!"));
    assert_eq!(err.code(), "bad_request");
    assert!(
        !err.message().contains("not-base64"),
        "error leaked the header value: {}",
        err.message()
    );
}

#[test]
fn parse_basic_requires_scheme() {
    assert_eq!(err_of(parse_basic("dGVzdDp0ZXN0")).code(), "bad_request");
}

#[test]
fn parse_basic_says_the_same_of_every_fault() {
    let bad_utf8 = format!(
        "Basic {}",
        base64::engine::general_purpose::STANDARD.encode([0xffu8, 0xfe, b':'])
    );
    for value in [
        "".to_string(),
        "Basic".to_string(),
        "Bearer dGVzdDp0ZXN0".to_string(),
        "Basic dGVzdDp0ZXN".to_string(),
        format!("Basic {}", encode("no colon")),
        format!("Basic {}", encode(":empty user")),
        bad_utf8,
    ] {
        let err = err_of(parse_basic(&value));
        assert_eq!(err.code(), "bad_request", "{value}");
        assert_eq!(err.message(), "X-Mailbox-Auth is malformed", "{value}");
    }
}

#[test]
fn parse_basic_accepts_the_small_scheme_and_space_around_the_payload() {
    let (user, pass) = parse_basic(&format!("basic   {}  ", encode("u:p"))).unwrap();
    assert_eq!(user, "u");
    assert_eq!(pass.expose(), "p");
}

#[test]
fn split_basic_cuts_at_the_first_colon() {
    let (user, pass) = split_basic(b"u:p:q\r\n".to_vec()).unwrap();
    assert_eq!(user, "u");
    assert_eq!(pass.expose(), "p:q");
    assert!(split_basic(b"u".to_vec()).is_none());
    assert!(split_basic(b":p".to_vec()).is_none());
    assert!(split_basic(vec![0xc3, 0x28, b':']).is_none());
    let (user, pass) = split_basic("jürgen:pässwort".as_bytes().to_vec()).unwrap();
    assert_eq!(user, "jürgen");
    assert_eq!(pass.expose(), "pässwort");
}

#[test]
fn secret_debug_and_display_redact() {
    let s = Secret::new("hunter2".to_string());
    assert!(!s.debug_text().contains("hunter2"));
    assert!(!s.to_text().contains("hunter2"));
    assert_eq!(s.debug_text(), "Secret(***redacted***)");
    assert_eq!(s.to_text(), "***redacted***");
    assert_eq!(s.expose(), "hunter2");
}

#[test]
fn credential_debug_redacts_password() {
    let cred = MailboxCredential {
        username: "test".to_string(),
        password: Secret::new("hunter2".to_string()),
        imap: HostPort { host: "localhost".to_string(), port: 3143 },
        smtp: HostPort { host: "localhost".to_string(), port: 3025 },
    };
    let rendered = cred.debug_text();
    assert!(rendered.contains("test"), "username should be visible");
    assert!(!rendered.contains("hunter2"), "debug text leaked the password: {rendered}");
    assert_eq!(
        rendered,
        "MailboxCredential { username: \"test\", password: Secret(***redacted***), \
         imap: HostPort { host: \"localhost\", port: 3143 }, \
         smtp: HostPort { host: \"localhost\", port: 3025 } }"
    );
}

#[test]
fn inline_headers_debug_redacts_password_and_escapes() {
    let headers = InlineHeaders {
        username: "te\"st".to_string(),
        password: Secret::new("hunter2".to_string()),
        imap: Some(HostPort { host: "h".to_string(), port: 1 }),
        smtp: None,
        domain: Some("d.test".to_string()),
    };
    assert_eq!(
        headers.debug_text(),
        "InlineHeaders { username: \"te\\\"st\", password: Secret(***redacted***), \
         imap: Some(HostPort { host: \"h\", port: 1 }), smtp: None, domain: Some(\"d.test\") }"
    );
}

#[test]
fn host_port_parses() {
    let hp = HostPort::parse(H_MAILBOX_IMAP, "localhost:3143").unwrap();
    assert_eq!(hp.host, "localhost");
    assert_eq!(hp.port, 3143);
}

#[test]
fn host_port_rejects_missing_port() {
    assert_eq!(
        HostPort::parse(H_MAILBOX_IMAP, "localhost").unwrap_err().code(),
        "bad_request"
    );
}

#[test]
fn host_port_rejects_bad_port() {
    assert_eq!(
        HostPort::parse(H_MAILBOX_IMAP, "localhost:notaport").unwrap_err().code(),
        "bad_request"
    );
}

#[test]
fn host_port_edges() {
    let hp = HostPort::parse("H", "  [::1]:993 ").unwrap();
    assert_eq!(hp, HostPort { host: "[::1]".to_string(), port: 993 });
    assert_eq!(HostPort::parse("H", "h:+25").unwrap().port, 25);
    assert_eq!(HostPort::parse("H", "h:00025").unwrap().port, 25);
    assert_eq!(HostPort::parse("H", "h:65535").unwrap().port, 65535);
    let message = |raw: &str| HostPort::parse("H", raw).unwrap_err().message().to_string();
    assert_eq!(message("h:65536"), "H has an invalid port");
    assert_eq!(message("h:"), "H has an invalid port");
    assert_eq!(message("h:-1"), "H has an invalid port");
    assert_eq!(message(":25"), "H is missing a host");
    assert_eq!(message("25"), "H must be in host:port form");
    assert_eq!(message("   "), "H must be in host:port form");
}

/// Headers with the auth header plus any extra (name, value) pairs.
fn headers_with(pairs: &[(&str, &str)]) -> HeaderMap {
    let mut headers = HeaderMap::new();
    headers.insert(H_MAILBOX_AUTH, basic("test", "test").parse().unwrap());
    for (name, value) in pairs {
        let name: HeaderName = name.parse().unwrap();
        headers.insert(name, value.parse().unwrap());
    }
    headers
}

#[test]
fn parse_makes_host_headers_optional() {
    let headers = headers_with(&[]);
    let parsed = InlineHeaders::parse(&headers).ok().unwrap();
    assert_eq!(parsed.username, "test");
    assert!(parsed.imap.is_none());
    assert!(parsed.smtp.is_none());
    assert!(parsed.domain.is_none());
}

#[test]
fn parse_still_rejects_a_malformed_host_header() {
    let headers = headers_with(&[(H_MAILBOX_IMAP, "localhost")]);
    assert_eq!(err_of(InlineHeaders::parse(&headers)).code(), "bad_request");
}

#[test]
fn parse_reads_every_header() {
    let headers = headers_with(&[
        ("x-mailbox-imap", "imap.test:993"),
        ("X-MAILBOX-SMTP", "smtp.test:465"),
        (H_MAILBOX_DOMAIN, "  Example.COM "),
    ]);
    let parsed = InlineHeaders::parse(&headers).ok().unwrap();
    assert_eq!(parsed.password.expose(), "test");
    assert_eq!(parsed.imap, Some(HostPort { host: "imap.test".to_string(), port: 993 }));
    assert_eq!(parsed.smtp, Some(HostPort { host: "smtp.test".to_string(), port: 465 }));
    assert_eq!(parsed.domain.as_deref(), Some("example.com"));
    let blank = headers_with(&[(H_MAILBOX_DOMAIN, "   ")]);
    assert!(InlineHeaders::parse(&blank).ok().unwrap().domain.is_none());
}

#[test]
fn parse_names_the_header_that_is_wrong() {
    let message = |h: &HeaderMap| err_of(InlineHeaders::parse(h)).message().to_string();
    assert_eq!(message(&HeaderMap::new()), "missing X-Mailbox-Auth header");

    let mut headers = headers_with(&[]);
    headers.insert(H_MAILBOX_AUTH, HeaderValue::from_bytes(&[0xe4, 0xf6]).unwrap());
    assert_eq!(message(&headers), "X-Mailbox-Auth is not valid ASCII");

    let mut headers = headers_with(&[]);
    headers.insert(H_MAILBOX_SMTP, HeaderValue::from_bytes(b"h\xe4:1").unwrap());
    assert_eq!(message(&headers), "X-Mailbox-Smtp is not valid ASCII");

    let mut headers = headers_with(&[]);
    headers.insert(H_MAILBOX_DOMAIN, HeaderValue::from_bytes(&[0xff]).unwrap());
    assert_eq!(message(&headers), "X-Mailbox-Domain is not valid ASCII");
}

#[test]
fn the_first_of_several_values_counts() {
    let mut headers = headers_with(&[]);
    headers.append(H_MAILBOX_IMAP, "first.test:993".parse().unwrap());
    headers.append(H_MAILBOX_IMAP, "second.test:993".parse().unwrap());
    let parsed = InlineHeaders::parse(&headers).ok().unwrap();
    assert_eq!(parsed.imap.unwrap().host, "first.test");
}

// --- From headers to credential -----------------------------------------------------

fn ssl(kind: &str, host: &str, port: u16) -> XmlServer {
    XmlServer {
        kind: kind.to_string(),
        hostname: Some(host.to_string()),
        port: Some(port),
        socket_type: Some("SSL".to_string()),
    }
}

fn fastmail() -> ClientConfig {
    ClientConfig {
        incoming: vec![ssl("imap", "imap.fastmail.com", 993)],
        outgoing: vec![ssl("smtp", "smtp.fastmail.com", 465)],
    }
}

/// A resolver's reply from a network in which only the ISPDB knows `known`.
fn resolve(domain: &str, email: Option<String>, known: &str) -> Result<MailServers, GatewayError> {
    let mut autoconfig = Autoconfig::new(AutoconfigSettings::default());
    match autoconfig.resolve(domain, email, 0) {
        Resolution::Settled(r) => r,
        Resolution::Climb(mut ladder) => {
            loop {
                match ladder.action() {
                    LadderAction::Fetch(url) => {
                        let hit = url == format!("https://autoconfig.thunderbird.net/v1.1/{known}");
                        let config = if hit { Some(fastmail()) } else { None };
                        ladder.answer(LadderAnswer::Config(config));
                    }
                    LadderAction::Srv(_) => ladder.answer(LadderAnswer::Srv(vec![])),
                    LadderAction::Mx(_) => ladder.answer(LadderAnswer::Mx(vec![])),
                    LadderAction::Finished => break,
                }
            }
            autoconfig.settle(ladder, 0)
        }
    }
}

/// Drives the steps to their end. `known` is the one domain that can be derived from.
fn credential(
    headers: &HeaderMap,
    derive: bool,
    known: &str,
    guard: &EndpointGuard,
    table: &[(&str, &[&str])],
) -> Result<MailboxCredential, GatewayError> {
    let parsed = InlineHeaders::parse(headers)?;
    let look_up = |host: &str| match table.iter().find(|(name, _)| *name == host) {
        Some((_, ips)) => Lookup::Addresses(ips.iter().map(|s| ip(s)).collect()),
        None => Lookup::Failed("no such host".to_string()),
    };
    let mut answers = TargetAnswers::new();
    loop {
        match parsed.into_credential(derive, guard, &answers) {
            CredentialStep::Resolve { domain, email } => {
                answers.servers = Some(resolve(&domain, email, known));
            }
            CredentialStep::LookupImap(host) => answers.imap = Some(look_up(&host)),
            CredentialStep::LookupSmtp(host) => answers.smtp = Some(look_up(&host)),
            CredentialStep::Ready(c) => return Ok(c),
            CredentialStep::Refused(e) => return Err(e),
        }
    }
}

fn off() -> EndpointGuard {
    EndpointGuard::disabled()
}

#[test]
fn both_headers_present_resolves_without_lookup() {
    let headers = headers_with(&[
        (H_MAILBOX_IMAP, "localhost:3143"),
        (H_MAILBOX_SMTP, "localhost:3025"),
    ]);
    let parsed = InlineHeaders::parse(&headers).ok().unwrap();
    match parsed.into_credential(false, &off(), &TargetAnswers::new()) {
        CredentialStep::Ready(cred) => {
            assert_eq!(cred.imap.port, 3143);
            assert_eq!(cred.smtp.port, 3025);
            assert_eq!(cred.username, "test");
            assert_eq!(cred.password.expose(), "test");
        }
        _ => panic!("nothing is to be asked"),
    }
}

#[test]
fn missing_target_without_a_domain_is_bad_request() {
    let err = err_of(credential(&headers_with(&[]), true, "", &off(), &[]));
    assert_eq!(err.code(), "bad_request");
    assert_eq!(
        err.message(),
        "missing X-Mailbox-Imap and/or X-Mailbox-Smtp header; cannot autoconfigure without a \
         domain — supply the host header(s) or X-Mailbox-Domain"
    );
}

#[test]
fn autoconfig_fills_both_targets_from_username_domain() {
    let mut headers = HeaderMap::new();
    headers.insert(H_MAILBOX_AUTH, basic("jane@fastmail.com", "pw").parse().unwrap());
    let cred = credential(&headers, true, "fastmail.com", &off(), &[]).ok().unwrap();
    assert_eq!(cred.imap.host, "imap.fastmail.com");
    assert_eq!(cred.imap.port, 993);
    assert_eq!(cred.smtp.port, 465);
}

#[test]
fn domain_header_enables_a_short_login_id() {
    let headers = headers_with(&[(H_MAILBOX_DOMAIN, "fastmail.com")]);
    let cred = credential(&headers, true, "fastmail.com", &off(), &[]).ok().unwrap();
    assert_eq!(cred.imap.host, "imap.fastmail.com");
}

#[test]
fn an_explicit_host_header_overrides_autoconfig() {
    let mut headers = HeaderMap::new();
    headers.insert(H_MAILBOX_AUTH, basic("jane@fastmail.com", "pw").parse().unwrap());
    headers.insert(H_MAILBOX_IMAP, "imap.override.test:1993".parse().unwrap());
    let cred = credential(&headers, true, "fastmail.com", &off(), &[]).ok().unwrap();
    assert_eq!(cred.imap.host, "imap.override.test");
    assert_eq!(cred.imap.port, 1993);
    assert_eq!(cred.smtp.host, "smtp.fastmail.com");
}

#[test]
fn disabled_autoconfig_keeps_missing_target_a_bad_request() {
    let mut headers = HeaderMap::new();
    headers.insert(H_MAILBOX_AUTH, basic("jane@fastmail.com", "pw").parse().unwrap());
    let err = err_of(credential(&headers, false, "fastmail.com", &off(), &[]));
    assert_eq!(err.code(), "bad_request");
    assert_eq!(err.message(), "missing X-Mailbox-Imap and/or X-Mailbox-Smtp header");
}

#[test]
fn absent_imap_header_is_resolved_from_the_domain_header() {
    let headers = headers_with(&[
        (H_MAILBOX_SMTP, "localhost:3025"),
        (H_MAILBOX_DOMAIN, "FastMail.com"),
    ]);
    let cred = credential(&headers, true, "fastmail.com", &off(), &[]).ok().unwrap();
    assert_eq!(cred.imap.host, "imap.fastmail.com");
    assert_eq!(cred.smtp.host, "localhost");
}

#[test]
fn absent_imap_header_is_resolved_from_the_username_domain() {
    let mut headers = HeaderMap::new();
    headers.insert(H_MAILBOX_AUTH, basic("a@b@FASTMAIL.com", "pw").parse().unwrap());
    headers.insert(H_MAILBOX_SMTP, "localhost:3025".parse().unwrap());
    let parsed = InlineHeaders::parse(&headers).ok().unwrap();
    assert_eq!(parsed.autoconfig_domain().as_deref(), Some("fastmail.com"));
    let cred = credential(&headers, true, "fastmail.com", &off(), &[]).ok().unwrap();
    assert_eq!(cred.imap.host, "imap.fastmail.com");
}

#[test]
fn absent_host_headers_without_a_domain_is_bad_request() {
    let headers = headers_with(&[(H_MAILBOX_IMAP, "localhost:3143")]);
    let err = err_of(credential(&headers, true, "fastmail.com", &off(), &[]));
    assert_eq!(err.code(), "bad_request");
}

#[test]
fn a_domain_that_cannot_be_resolved_is_autoconfig_failed() {
    let headers = headers_with(&[(H_MAILBOX_DOMAIN, "nowhere.test")]);
    let err = err_of(credential(&headers, true, "fastmail.com", &off(), &[]));
    assert_eq!(err.code(), "autoconfig_failed");
}

#[test]
fn a_side_that_was_not_found_is_named() {
    let parsed = InlineHeaders::parse(&headers_with(&[(H_MAILBOX_DOMAIN, "d.test")])).ok().unwrap();
    let mut answers = TargetAnswers::new();
    answers.servers = Some(Ok(MailServers {
        imap: None,
        smtp: Some(HostPort { host: "s.test".to_string(), port: 465 }),
    }));
    match parsed.into_credential(true, &off(), &answers) {
        CredentialStep::Refused(e) => {
            assert_eq!(e.code(), "autoconfig_failed");
            assert_eq!(e.message(), "no IMAP endpoint resolved for 'd.test'");
        }
        _ => panic!("IMAP is missing"),
    }
    answers.servers = Some(Ok(MailServers {
        imap: Some(HostPort { host: "i.test".to_string(), port: 993 }),
        smtp: None,
    }));
    match parsed.into_credential(true, &off(), &answers) {
        CredentialStep::Refused(e) => {
            assert_eq!(e.message(), "no SMTP endpoint resolved for 'd.test'");
        }
        _ => panic!("SMTP is missing"),
    }
}

#[test]
fn the_resolver_is_asked_for_the_address_too() {
    let step = |headers: &HeaderMap| {
        InlineHeaders::parse(headers).ok().unwrap().into_credential(true, &off(), &TargetAnswers::new())
    };
    match step(&headers_with(&[(H_MAILBOX_DOMAIN, "d.test")])) {
        CredentialStep::Resolve { domain, email } => {
            assert_eq!(domain, "d.test");
            assert_eq!(email.as_deref(), Some("test@d.test"));
        }
        _ => panic!("targets are to be derived"),
    }
    let mut headers = HeaderMap::new();
    headers.insert(H_MAILBOX_AUTH, basic("Jane@D.test", "pw").parse().unwrap());
    match step(&headers) {
        CredentialStep::Resolve { domain, email } => {
            assert_eq!(domain, "d.test");
            assert_eq!(email.as_deref(), Some("Jane@D.test"));
        }
        _ => panic!("targets are to be derived"),
    }
}

#[test]
fn the_guard_sees_given_and_derived_targets() {
    let on = EndpointGuard::from_config(true);
    let headers = headers_with(&[
        (H_MAILBOX_IMAP, "imap.example.com:993"),
        (H_MAILBOX_SMTP, "10.0.0.5:465"),
    ]);
    let table: &[(&str, &[&str])] = &[("imap.example.com", &["93.184.216.34"])];
    let err = err_of(credential(&headers, true, "", &on, table));
    assert_eq!(err.code(), "bad_request");
    assert!(err.message().starts_with("X-Mailbox-Smtp host '10.0.0.5'"), "{}", err.message());

    // A derived target that resolves to a private address is refused as well.
    let headers = headers_with(&[(H_MAILBOX_DOMAIN, "fastmail.com")]);
    let table: &[(&str, &[&str])] = &[
        ("imap.fastmail.com", &["10.1.2.3"]),
        ("smtp.fastmail.com", &["103.168.172.45"]),
    ];
    let err = err_of(credential(&headers, true, "fastmail.com", &on, table));
    assert_eq!(err.code(), "bad_request");
    assert!(
        err.message().starts_with("autoconfigured IMAP host 'imap.fastmail.com'"),
        "{}",
        err.message()
    );

    let table: &[(&str, &[&str])] = &[
        ("imap.fastmail.com", &["103.168.172.44"]),
        ("smtp.fastmail.com", &["103.168.172.45"]),
    ];
    let cred = credential(&headers, true, "fastmail.com", &on, table).ok().unwrap();
    assert_eq!(cred.smtp.host, "smtp.fastmail.com");
}

// --- Gateway access -----------------------------------------------------------------

#[test]
fn bearer_token_extraction() {
    let mut headers = HeaderMap::new();
    headers.insert(AUTHORIZATION, "Bearer abc123".parse().unwrap());
    assert_eq!(bearer_token(&headers).as_deref(), Some("abc123"));

    headers.insert(AUTHORIZATION, "Basic abc123".parse().unwrap());
    assert_eq!(bearer_token(&headers), None);
}

#[test]
fn bearer_token_edges() {
    let mut headers = HeaderMap::new();
    assert_eq!(bearer_token(&headers), None);
    headers.insert(AUTHORIZATION, "bearer   k ".parse().unwrap());
    assert_eq!(bearer_token(&headers).as_deref(), Some("k"));
    headers.insert(AUTHORIZATION, "Bearer    ".parse().unwrap());
    assert_eq!(bearer_token(&headers), None);
    headers.insert(AUTHORIZATION, "BEARER k".parse().unwrap());
    assert_eq!(bearer_token(&headers), None);
    headers.insert(AUTHORIZATION, HeaderValue::from_bytes(b"Bearer \xe4").unwrap());
    assert_eq!(bearer_token(&headers), None);
}

fn bearing(value: &str) -> HeaderMap {
    let mut headers = HeaderMap::new();
    headers.insert(AUTHORIZATION, value.parse().unwrap());
    headers
}

fn key(k: &str) -> Option<Secret> {
    Some(Secret::new(k.to_string()))
}

#[test]
fn api_key_not_enforced_when_toggle_off() {
    assert!(require_gateway_access(false, &None, &HeaderMap::new()).is_ok());
    assert!(require_gateway_access(false, &key("the-key"), &bearing("Bearer wrong")).is_ok());
}

#[test]
fn api_key_enforced_rejects_missing_bearer() {
    let err = require_gateway_access(true, &key("the-key"), &HeaderMap::new()).unwrap_err();
    assert_eq!(err.status(), 401);
    assert_eq!(err.code(), "unauthorized");
    assert_eq!(err.message(), "missing or malformed bearer token");
}

#[test]
fn api_key_enforced_rejects_wrong_bearer() {
    let err = require_gateway_access(true, &key("the-key"), &bearing("Bearer wrong")).unwrap_err();
    assert_eq!(err.code(), "unauthorized");
    assert_eq!(err.message(), "invalid api_key");
}

#[test]
fn api_key_enforced_accepts_correct_bearer() {
    assert!(require_gateway_access(true, &key("the-key"), &bearing("Bearer the-key")).is_ok());
}

#[test]
fn api_key_enforced_without_a_key_rejects_everyone() {
    let err = require_gateway_access(true, &None, &bearing("Bearer the-key")).unwrap_err();
    assert_eq!(err.message(), "gateway api_key required");
}

#[test]
fn access_by_token_alone() {
    let open = |k: Option<&str>, token: Option<&str>| {
        check_token(true, &k.and_then(key), token.map(String::from)).map_err(|e| e.to_text())
    };
    assert_eq!(open(Some("k"), Some("k")), Ok(()));
    assert_eq!(open(Some("k"), Some("K")), Err("unauthorized: invalid api_key".to_string()));
    assert_eq!(open(Some("k"), Some("")), Err("unauthorized: invalid api_key".to_string()));
    assert_eq!(
        open(Some("k"), None),
        Err("unauthorized: missing or malformed bearer token".to_string())
    );
    assert_eq!(open(None, Some("k")), Err("unauthorized: gateway api_key required".to_string()));
    assert!(check_token(false, &None, None).is_ok());
}

#[test]
fn headers_as_they_were_read() {
    let text = |s: &str| HeaderText::Text(s.to_string());
    let absent = || HeaderText::Absent;
    let auth = || text(&basic("jane", "pw"));
    let parsed =
        InlineHeaders::from_texts(auth(), text("h:1"), absent(), text(" D.Test ")).ok().unwrap();
    assert_eq!(parsed.username, "jane");
    assert_eq!(parsed.imap, Some(HostPort { host: "h".to_string(), port: 1 }));
    assert_eq!(parsed.smtp, None);
    assert_eq!(parsed.domain.as_deref(), Some("d.test"));
    let err = err_of(InlineHeaders::from_texts(
        auth(),
        absent(),
        HeaderText::NotAscii,
        HeaderText::NotAscii,
    ));
    assert_eq!(err.message(), "X-Mailbox-Smtp is not valid ASCII");
    assert_eq!(token_in(text("Bearer  t ")).as_deref(), Some("t"));
    assert_eq!(token_in(absent()), None);
}

#[test]
fn the_way_to_a_credential_hides_the_password() {
    let on = EndpointGuard::from_config(true);
    let refusal = |pass: &str| {
        let mut headers = HeaderMap::new();
        headers.insert(H_MAILBOX_AUTH, basic("jane@fastmail.com", pass).parse().unwrap());
        headers.insert(H_MAILBOX_IMAP, "127.0.0.1:993".parse().unwrap());
        headers.insert(H_MAILBOX_SMTP, "127.0.0.1:465".parse().unwrap());
        err_of(credential(&headers, true, "", &on, &[])).to_text()
    };
    assert!(!refusal("hunter2").contains("hunter2"));
    assert_eq!(refusal("hunter2"), refusal("other"));
}

#[test]
fn line_ends_at_the_end_of_a_password_are_dropped() {
    for (pass, read) in [("p\n", "p"), ("p\r\n\n", "p"), ("\n", ""), ("a\nb", "a\nb"), (" ", " ")] {
        let (user, secret) = split_basic(format!("u:{pass}").into_bytes()).unwrap();
        assert_eq!((user.as_str(), secret.expose()), ("u", read));
    }
}
