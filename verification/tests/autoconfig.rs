//! Finding a domain's mail servers.

use overfwd::answers::{mx_hosts, srv_records, Download, MAX_BODY};
use overfwd::auth::HostPort;
use overfwd::autoconfig::{
    is_public_domain, parse_autoconfig, pick_server, registrable_domain, Autoconfig,
    AutoconfigSettings, ClientConfig, MailServers, Resolution, SrvRecord, XmlServer, ISPDB_BASE,
    NANOS,
};
use overfwd::error::GatewayError;
use overfwd::ladder::{http_config_urls, Ladder, LadderAction, LadderAnswer};

fn server(kind: &str, host: &str, port: u16, socket: &str) -> XmlServer {
    XmlServer {
        kind: kind.to_string(),
        hostname: Some(host.to_string()),
        port: Some(port),
        socket_type: Some(socket.to_string()),
    }
}

fn target(host: &str, port: u16) -> HostPort {
    HostPort { host: host.to_string(), port }
}

fn fastmail() -> ClientConfig {
    ClientConfig {
        incoming: vec![server("imap", "imap.fastmail.com", 993, "SSL")],
        outgoing: vec![server("smtp", "smtp.fastmail.com", 465, "SSL")],
    }
}

/// A network of exact URLs and names; every other lookup comes to nothing.
#[derive(Default)]
struct Network {
    configs: Vec<(String, ClientConfig)>,
    srv: Vec<(String, Vec<SrvRecord>)>,
    mx: Vec<(String, Vec<String>)>,
}

fn with(url: &str, config: ClientConfig) -> Network {
    Network { configs: vec![(url.to_string(), config)], ..Network::default() }
}

fn found<T: Clone>(table: &[(String, T)], name: &str) -> Option<T> {
    table.iter().find(|(n, _)| n == name).map(|(_, v)| v.clone())
}

/// Climbs to the end and gives the actions that it took.
fn climb(ladder: &mut Ladder, net: &Network) -> Vec<String> {
    let mut taken = Vec::new();
    loop {
        match ladder.action() {
            LadderAction::Fetch(url) => {
                ladder.answer(LadderAnswer::Config(found(&net.configs, &url)));
                taken.push(url);
            }
            LadderAction::Srv(name) => {
                ladder.answer(LadderAnswer::Srv(found(&net.srv, &name).unwrap_or_default()));
                taken.push(name);
            }
            LadderAction::Mx(domain) => {
                ladder.answer(LadderAnswer::Mx(found(&net.mx, &domain).unwrap_or_default()));
                taken.push(format!("MX {domain}"));
            }
            LadderAction::Finished => return taken,
        }
    }
}

/// Resolves `domain` at `now`, and says how many lookups that took.
fn resolve_at(
    ac: &mut Autoconfig,
    net: &Network,
    domain: &str,
    email: Option<&str>,
    now: u128,
) -> (Result<MailServers, GatewayError>, usize) {
    match ac.resolve(domain, email.map(String::from), now) {
        Resolution::Settled(r) => (r, 0),
        Resolution::Climb(mut ladder) => {
            let taken = climb(&mut ladder, net);
            (ac.settle(ladder, now), taken.len())
        }
    }
}

fn resolve(net: &Network, domain: &str, email: Option<&str>) -> Result<MailServers, GatewayError> {
    resolve_at(&mut Autoconfig::new(AutoconfigSettings::default()), net, domain, email, 0).0
}

#[test]
fn parse_prefers_ssl_endpoint() {
    let config = ClientConfig {
        incoming: vec![
            server("imap", "imap.x.test", 143, "STARTTLS"),
            server("imap", "imap.x.test", 993, "SSL"),
        ],
        outgoing: vec![server("smtp", "smtp.x.test", 465, "SSL")],
    };
    let servers = parse_autoconfig(&config).unwrap();
    assert_eq!(servers.imap.unwrap().port, 993, "must pick the SSL entry, not STARTTLS");
    assert_eq!(servers.smtp.unwrap().port, 465);
}

#[test]
fn parse_falls_back_to_starttls_when_no_ssl() {
    let config = ClientConfig {
        incoming: vec![server("imap", "imap.x.test", 143, "STARTTLS")],
        outgoing: vec![],
    };
    let servers = parse_autoconfig(&config).unwrap();
    assert_eq!(servers.imap.unwrap().port, 143);
    assert!(servers.smtp.is_none());
}

#[test]
fn parse_rejects_garbage() {
    assert!(parse_autoconfig(&ClientConfig { incoming: vec![], outgoing: vec![] }).is_none());
}

#[test]
fn entries_that_name_no_target_are_passed_over() {
    let named = |hostname: Option<&str>, port: Option<u16>| XmlServer {
        kind: "imap".to_string(),
        hostname: hostname.map(String::from),
        port,
        socket_type: Some("ssl".to_string()),
    };
    // Another kind, no host, an empty host, no port: none of them is a target.
    let servers = vec![
        server("pop3", "pop.x.test", 995, "SSL"),
        named(None, Some(993)),
        named(Some(""), Some(993)),
        named(Some("imap.x.test"), None),
    ];
    assert!(pick_server(&servers, "imap").is_none());
    // The kind and the word SSL count in any case, and the host is taken as it is.
    let servers = vec![
        server("imap", "plain.x.test", 143, "plain"),
        XmlServer { kind: "IMAP".to_string(), ..named(Some("imap.x.test "), Some(993)) },
    ];
    assert_eq!(pick_server(&servers, "imap"), Some(target("imap.x.test ", 993)));
}

#[test]
fn resolves_from_provider_hosted_xml() {
    let url = "https://autoconfig.fastmail.com/mail/config-v1.1.xml?emailaddress=jane@fastmail.com";
    let servers =
        resolve(&with(url, fastmail()), "fastmail.com", Some("jane@fastmail.com")).unwrap();
    assert_eq!(servers.imap.unwrap().host, "imap.fastmail.com");
    assert_eq!(servers.smtp.unwrap().port, 465);
}

#[test]
fn falls_back_to_ispdb_when_provider_silent() {
    let url = format!("{ISPDB_BASE}/fastmail.com");
    let servers = resolve(&with(&url, fastmail()), "fastmail.com", None).unwrap();
    assert_eq!(servers.imap.unwrap().host, "imap.fastmail.com");
}

#[test]
fn falls_back_to_srv() {
    let record = |host: &str, port: u16| SrvRecord { host: host.to_string(), port };
    let net = Network {
        srv: vec![
            ("_imaps._tcp.example.com".to_string(), vec![record("imap.example.com", 993)]),
            ("_submissions._tcp.example.com".to_string(), vec![record("smtp.example.com", 465)]),
        ],
        ..Network::default()
    };
    let servers = resolve(&net, "example.com", None).unwrap();
    assert_eq!(servers.imap.unwrap().host, "imap.example.com");
    assert_eq!(servers.smtp.unwrap().port, 465);
}

#[test]
fn falls_back_to_mx_then_ispdb() {
    let ispdb = format!("{ISPDB_BASE}/messagingengine.com");
    let net = Network {
        mx: vec![("customdomain.test".to_string(), vec!["mx1.messagingengine.com".to_string()])],
        ..with(&ispdb, fastmail())
    };
    let servers = resolve(&net, "customdomain.test", None).unwrap();
    assert_eq!(servers.imap.unwrap().host, "imap.fastmail.com");
}

#[test]
fn exhausted_ladder_is_autoconfig_failed() {
    let err = resolve(&Network::default(), "nowhere.test", None).unwrap_err();
    assert_eq!(err.code(), "autoconfig_failed");
    assert_eq!(
        err.message(),
        "no mail autoconfiguration found for domain 'nowhere.test'; supply X-Mailbox-Imap/-Smtp \
         explicitly"
    );
}

#[test]
fn positive_result_is_cached() {
    let net = with(&format!("{ISPDB_BASE}/fastmail.com"), fastmail());
    let mut ac = Autoconfig::new(AutoconfigSettings::default());
    let (first, lookups) = resolve_at(&mut ac, &net, "fastmail.com", None, 0);
    first.unwrap();
    assert!(lookups > 0);
    let (second, lookups) = resolve_at(&mut ac, &net, "fastmail.com", None, 0);
    assert_eq!(second.unwrap().smtp.unwrap().host, "smtp.fastmail.com");
    assert_eq!(lookups, 0, "second resolve must be served from cache — no new fetches");
}

#[test]
fn negative_result_is_cached() {
    let net = Network::default();
    let mut ac = Autoconfig::new(AutoconfigSettings::default());
    let (first, lookups) = resolve_at(&mut ac, &net, "nowhere.test", None, 0);
    assert!(first.is_err());
    assert!(lookups > 0);
    let (second, lookups) = resolve_at(&mut ac, &net, "nowhere.test", None, 0);
    assert!(second.is_err());
    assert_eq!(lookups, 0, "miss must be cached too");
}

#[test]
fn a_kept_result_lasts_for_its_time() {
    let net = with(&format!("{ISPDB_BASE}/fastmail.com"), fastmail());
    let mut ac = Autoconfig::new(AutoconfigSettings::default());
    let hour = 3_600 * NANOS;
    assert!(resolve_at(&mut ac, &net, "fastmail.com", None, 5).1 > 0);
    // The name in other letters and with space around it is the same name.
    assert_eq!(resolve_at(&mut ac, &net, "  FastMail.COM ", None, 4 + hour).1, 0);
    assert!(resolve_at(&mut ac, &net, "fastmail.com", None, 5 + hour).1 > 0);
    // A miss lasts for five minutes.
    assert!(resolve_at(&mut ac, &net, "nowhere.test", None, 0).1 > 0);
    assert_eq!(resolve_at(&mut ac, &net, "nowhere.test", None, 300 * NANOS - 1).1, 0);
    assert!(resolve_at(&mut ac, &net, "nowhere.test", None, 300 * NANOS).1 > 0);
}

#[test]
fn rejects_ssrf_domains_before_any_fetch() {
    let net = Network::default();
    let mut ac = Autoconfig::new(AutoconfigSettings::default());
    for bad in ["localhost", "127.0.0.1", "10.0.0.5", "foo.internal", "[::1]"] {
        let (r, lookups) = resolve_at(&mut ac, &net, bad, None, 0);
        assert_eq!(r.unwrap_err().code(), "autoconfig_failed", "{bad} must be rejected");
        assert_eq!(lookups, 0, "no network for rejected domains");
    }
}

#[test]
fn public_domain_validation() {
    assert!(is_public_domain("fastmail.com"));
    assert!(is_public_domain("mail.example.co.uk"));
    assert!(!is_public_domain("localhost"));
    assert!(!is_public_domain("nodot"));
    assert!(!is_public_domain("127.0.0.1"));
    assert!(!is_public_domain("::1"));
    assert!(!is_public_domain("host.internal"));
    assert!(!is_public_domain("-bad.example.com"));
    assert!(!is_public_domain(""));
}

#[test]
fn public_domain_edges() {
    let label = "a".repeat(63);
    assert!(is_public_domain(&format!("{label}.test")));
    assert!(!is_public_domain(&format!("{label}a.test")));
    // Four labels of 62 and one of one letter: 253 characters in all.
    let longest = format!("{0}.{0}.{0}.{0}.a", "b".repeat(62));
    assert_eq!(longest.len(), 254 - 1);
    assert!(is_public_domain(&longest));
    assert!(!is_public_domain(&format!("{longest}a")));
    assert!(is_public_domain("x1.y-2.z"));
    assert!(is_public_domain("a.b.."));
    for bad in ["a..b", ".a.b", "...", "a.b-", "a_b.c", "ä.de", "a b.c", "x.local", "A.LOCAL"] {
        assert!(!is_public_domain(bad), "{bad}");
    }
}

#[test]
fn registrable_domain_takes_last_two_labels() {
    assert_eq!(registrable_domain("mx1.messagingengine.com"), "messagingengine.com");
    assert_eq!(registrable_domain("example.com"), "example.com");
    assert_eq!(registrable_domain("a.b.c.d.test."), "d.test");
}

#[test]
fn config_urls_include_email_only_when_present() {
    let urls = http_config_urls("d.test", &Some("u@d.test".to_string()));
    assert!(urls[0].ends_with("?emailaddress=u@d.test"));
    let without = http_config_urls("d.test", &None);
    assert!(without[0].ends_with("config-v1.1.xml"));
    // The ISPDB never gets the address.
    assert_eq!(without[2], format!("{ISPDB_BASE}/d.test"));
    assert_eq!(
        urls,
        vec![
            "https://autoconfig.d.test/mail/config-v1.1.xml?emailaddress=u@d.test",
            "https://d.test/.well-known/autoconfig/mail/config-v1.1.xml?emailaddress=u@d.test",
            "https://autoconfig.thunderbird.net/v1.1/d.test",
        ]
    );
}

#[test]
fn the_ladder_has_its_order() {
    let mut ladder = Ladder::new("d.test".to_string(), None);
    let net = Network {
        mx: vec![("d.test".to_string(), vec!["mx.a.host.test".to_string()])],
        ..Network::default()
    };
    assert_eq!(
        climb(&mut ladder, &net),
        vec![
            "https://autoconfig.d.test/mail/config-v1.1.xml",
            "https://d.test/.well-known/autoconfig/mail/config-v1.1.xml",
            "https://autoconfig.thunderbird.net/v1.1/d.test",
            "_imaps._tcp.d.test",
            "_imap._tcp.d.test",
            "_submissions._tcp.d.test",
            "_submission._tcp.d.test",
            "MX d.test",
            "https://autoconfig.thunderbird.net/v1.1/host.test",
        ]
    );
}

#[test]
fn what_is_found_first_stays() {
    let record = |host: &str, port: u16| SrvRecord { host: host.to_string(), port };
    let half = ClientConfig {
        incoming: vec![server("imap", "imap.first.test", 993, "SSL")],
        outgoing: vec![],
    };
    let net = Network {
        srv: vec![
            ("_imaps._tcp.d.test".to_string(), vec![record("imap.second.test", 993)]),
            ("_submissions._tcp.d.test".to_string(), vec![record("smtp.second.test", 465)]),
        ],
        ..with("https://d.test/.well-known/autoconfig/mail/config-v1.1.xml", half)
    };
    let servers = resolve(&net, "d.test", None).unwrap();
    assert_eq!(servers.imap, Some(target("imap.first.test", 993)));
    assert_eq!(servers.smtp, Some(target("smtp.second.test", 465)));
}

#[test]
fn a_complete_answer_ends_the_climb() {
    let url = "https://autoconfig.fastmail.com/mail/config-v1.1.xml";
    let mut ladder = Ladder::new("fastmail.com".to_string(), None);
    assert_eq!(climb(&mut ladder, &with(url, fastmail())), vec![url]);
}

#[test]
fn merging_fills_only_what_is_missing() {
    let mut a = MailServers { imap: Some(target("a", 1)), smtp: None };
    assert!(!a.is_complete() && !a.is_empty());
    a.merge_from(MailServers { imap: Some(target("b", 2)), smtp: Some(target("b", 3)) });
    assert_eq!(a, MailServers { imap: Some(target("a", 1)), smtp: Some(target("b", 3)) });
    assert!(a.is_complete());
    assert!(MailServers::default().is_empty());
}

#[test]
fn autoconfig_settings_from_the_environment() {
    let some = |s: &str| Some(s.to_string());
    let default = AutoconfigSettings::default();
    assert!(default.enabled);
    assert_eq!((default.timeout, default.pos_ttl, default.neg_ttl), (5, 3_600, 300));
    let set = AutoconfigSettings::from_env(&some(" TRUE "), &some("7"), &some("60"));
    assert!(set.enabled);
    assert_eq!((set.timeout, set.pos_ttl, set.neg_ttl), (7, 60, 300));
    let set = AutoconfigSettings::from_env(&some("maybe"), &some("x"), &some("-1"));
    assert!(set.enabled);
    assert_eq!((set.timeout, set.pos_ttl), (5, 3_600));
    let set = AutoconfigSettings::from_env(&some("Off"), &some("0"), &None);
    assert!(!set.enabled);
    assert!(!Autoconfig::from_env(&some("Off"), &None, &None).enabled());
    assert!(Autoconfig::from_env(&None, &None, &None).enabled());
    assert_eq!((set.timeout, set.pos_ttl), (5, 3_600));
}

// --- What the network answers -------------------------------------------------------

#[test]
fn a_small_text_is_downloaded() {
    let mut d = Download::new(200, Some(4));
    assert!(d.wants_more());
    d.chunk(b"<a");
    d.chunk("ä>".as_bytes());
    assert_eq!(d.finish().as_deref(), Some("<aä>"));
    assert_eq!(Download::new(299, None).finish().as_deref(), Some(""));
}

#[test]
fn what_is_no_small_text_is_no_answer() {
    for status in [199, 300, 404, 500] {
        let d = Download::new(status, None);
        assert!(!d.wants_more());
        assert!(d.finish().is_none(), "{status}");
    }
    assert!(!Download::new(200, Some(MAX_BODY as u64 + 1)).wants_more());
    assert!(Download::new(200, Some(MAX_BODY as u64)).wants_more());

    let mut full = Download::new(200, None);
    full.chunk(&vec![b'a'; MAX_BODY]);
    assert_eq!(full.finish().unwrap().len(), MAX_BODY);
    let mut over = Download::new(200, None);
    over.chunk(&vec![b'a'; MAX_BODY]);
    assert!(over.wants_more());
    over.chunk(b"b");
    assert!(!over.wants_more());
    assert!(over.finish().is_none());

    let mut broken = Download::new(200, None);
    broken.chunk(&[0xff, 0xfe]);
    assert!(broken.finish().is_none());
}

#[test]
fn srv_records_come_by_priority_without_their_dots() {
    let raw = vec![
        (10, "imap.d.test.".to_string(), 993),
        (0, ".".to_string(), 1),
        (5, "b".to_string(), 2),
        (10, "c".to_string(), 3),
    ];
    let r = srv_records(&raw);
    assert_eq!(
        r,
        vec![
            SrvRecord { host: "b".to_string(), port: 2 },
            SrvRecord { host: "imap.d.test".to_string(), port: 993 },
            SrvRecord { host: "c".to_string(), port: 3 },
        ]
    );
}

#[test]
fn exchangers_come_by_preference() {
    let raw = vec![
        (20, "c.test.".to_string()),
        (10, "a.test.".to_string()),
        (5, ".".to_string()),
        (10, "b.test".to_string()),
    ];
    assert_eq!(mx_hosts(&raw), vec!["a.test", "b.test", "c.test"]);
}

#[test]
fn targets_without_implicit_tls_are_told() {
    let mut ladder = Ladder::new("example.com".to_string(), None);
    let config = LadderAnswer::Config(Some(ClientConfig {
        incoming: vec![
            server("imap", "plain.example.com", 143, "STARTTLS"),
            server("imap", "tls.example.com", 993, "SSL"),
        ],
        outgoing: vec![server("smtp", "smtp.example.com", 587, "STARTTLS")],
    }));
    let plain = ladder.plain_targets(&config);
    assert_eq!((plain.imap, plain.smtp), (None, Some(target("smtp.example.com", 587))));
    for told in [false, false, false, false, true, false, true] {
        let (action, answer) = match ladder.action() {
            LadderAction::Fetch(url) => (url, LadderAnswer::Config(None)),
            LadderAction::Srv(name) => {
                let host = "mail.example.com".to_string();
                (name, LadderAnswer::Srv(vec![SrvRecord { host, port: 1 }]))
            }
            other => panic!("{other:?} was not expected"),
        };
        let plain = ladder.plain_targets(&answer);
        assert_eq!(plain.imap.is_some() || plain.smtp.is_some(), told, "{action}");
        ladder.answer(if told { answer } else { LadderAnswer::Config(None) });
    }
}
