//! The address policy on targets, and the addresses themselves.

use overfwd::auth::HostPort;
use overfwd::endpoint::{
    is_forbidden_ip, public_addresses, EndpointGuard, Lookup, Verdict,
};
use overfwd::error::GatewayError;
use overfwd::net::{parse_ip, parse_socket, IpAddr, SocketAddr};

fn chars(s: &str) -> Vec<char> {
    s.chars().collect()
}

fn ip(s: &str) -> IpAddr {
    parse_ip(&chars(s)).unwrap()
}

fn hp(host: &str) -> HostPort {
    HostPort { host: host.to_string(), port: 993 }
}

/// Asks the guard, looking names up in `table`.
fn check(
    guard: &EndpointGuard,
    source: &str,
    host: &str,
    table: &[(&str, &[&str])],
) -> Result<(), GatewayError> {
    match guard.check(source, &hp(host), None) {
        Verdict::Allowed => Ok(()),
        Verdict::Refused(e) => Err(e),
        Verdict::NeedsLookup(name) => {
            let answer = match table.iter().find(|(n, _)| n.eq_ignore_ascii_case(&name)) {
                Some((_, ips)) => Lookup::Addresses(ips.iter().map(|s| ip(s)).collect()),
                None => Lookup::Failed("no such host".to_string()),
            };
            match guard.check(source, &hp(host), Some(&answer)) {
                Verdict::Allowed => Ok(()),
                Verdict::Refused(e) => Err(e),
                Verdict::NeedsLookup(again) => panic!("{again} was looked up already"),
            }
        }
    }
}

fn enforcing() -> EndpointGuard {
    EndpointGuard::new(true)
}

#[test]
fn enforcing_rejects_non_public_literals() {
    for host in [
        "127.0.0.1",
        "10.0.0.1",
        "172.16.0.1",
        "192.168.1.1",
        "169.254.169.254",
        "100.64.0.1",
        "0.0.0.0",
        "::1",
        "[::1]",
        "fd00::1",
        "fe80::1",
        "::ffff:127.0.0.1",
    ] {
        let err = check(&enforcing(), "X-Mailbox-Imap", host, &[]).unwrap_err();
        assert_eq!(err.code(), "bad_request", "{host} was not refused");
        assert!(
            err.message().contains("X-Mailbox-Imap"),
            "{host}: error does not name the header: {}",
            err.message()
        );
    }
}

#[test]
fn enforcing_rejects_internal_names_without_a_lookup() {
    for host in ["localhost", "greenmail.local", "db.internal", "LOCALHOST"] {
        let err = check(&enforcing(), "X-Mailbox-Smtp", host, &[]).unwrap_err();
        assert_eq!(err.code(), "bad_request", "{host} was not refused");
    }
}

#[test]
fn enforcing_rejects_a_name_resolving_to_a_private_address() {
    let table: &[(&str, &[&str])] = &[("evil.example.com", &["10.0.0.5"])];
    let err = check(&enforcing(), "X-Mailbox-Imap", "evil.example.com", table).unwrap_err();
    assert_eq!(err.code(), "bad_request");
}

#[test]
fn enforcing_rejects_when_any_answer_is_private() {
    let table: &[(&str, &[&str])] =
        &[("mixed.example.com", &["93.184.216.34", "169.254.169.254"])];
    let err = check(&enforcing(), "X-Mailbox-Imap", "mixed.example.com", table).unwrap_err();
    assert_eq!(err.code(), "bad_request");
}

#[test]
fn enforcing_accepts_a_public_host_and_literal() {
    let table: &[(&str, &[&str])] = &[("imap.fastmail.com", &["103.168.172.45"])];
    check(&enforcing(), "X-Mailbox-Imap", "imap.fastmail.com", table).unwrap();
    check(&enforcing(), "X-Mailbox-Imap", "93.184.216.34", table).unwrap();
}

#[test]
fn unresolvable_host_is_host_unreachable_not_bad_request() {
    let err = check(&enforcing(), "X-Mailbox-Imap", "nope.example.com", &[]).unwrap_err();
    assert_eq!(err.code(), "host_unreachable");
    assert_eq!(
        err.message(),
        "cannot resolve X-Mailbox-Imap host 'nope.example.com': no such host"
    );
}

#[test]
fn disabled_guard_allows_everything() {
    let guard = EndpointGuard::disabled();
    assert!(!guard.enabled());
    for host in ["localhost", "127.0.0.1", "169.254.169.254", "::1"] {
        check(&guard, "X-Mailbox-Imap", host, &[]).unwrap();
    }
}

#[test]
fn a_name_without_addresses_is_unreachable() {
    let err = match enforcing().check("S", &hp("empty.test"), Some(&Lookup::Addresses(vec![]))) {
        Verdict::Refused(e) => e,
        _ => panic!("there is nothing to connect to"),
    };
    assert_eq!(err.code(), "host_unreachable");
    assert_eq!(err.message(), "S host 'empty.test' has no addresses");
}

#[test]
fn the_refusal_names_source_host_and_switch() {
    let err = check(&enforcing(), "X-Mailbox-Imap", " [::1]. ", &[]).unwrap_err();
    assert_eq!(
        err.message(),
        "X-Mailbox-Imap host '[::1]' is not a public address; this gateway refuses loopback, \
         private, link-local, and CGNAT endpoints (OVERFWD_BLOCK_PRIVATE_ENDPOINTS)"
    );
}

#[test]
fn the_name_that_is_looked_up_is_bare() {
    match enforcing().check("S", &hp("  Mail.Example.com.. "), None) {
        Verdict::NeedsLookup(name) => assert_eq!(name, "Mail.Example.com"),
        _ => panic!("the name has to be looked up"),
    }
}

#[test]
fn forbidden_addresses() {
    for s in [
        "127.255.255.255", "10.255.0.1", "172.16.0.0", "172.31.255.255", "192.168.0.0",
        "169.254.0.1", "255.255.255.255", "224.0.0.1", "239.255.255.255", "192.0.2.7",
        "198.51.100.1", "203.0.113.9", "100.64.0.0", "100.127.255.255", "0.1.2.3", "::", "::1",
        "ff02::1", "fc00::", "fdff::1", "fe80::", "febf::1", "::ffff:10.0.0.1",
        "::ffff:169.254.169.254", "::ffff:0.0.0.0",
    ] {
        assert!(is_forbidden_ip(ip(s)), "{s} is not public");
    }
    for s in [
        "1.1.1.1", "9.255.255.255", "11.0.0.0", "126.0.0.1", "128.0.0.1", "172.15.255.255",
        "172.32.0.0", "192.167.0.1", "192.169.0.1", "169.253.1.1", "223.255.255.255",
        "240.0.0.1", "192.0.3.1", "100.63.255.255", "100.128.0.0", "255.255.255.254",
        "2606:4700::1111", "::2", "fbff::1", "fe00::1", "fec0::1", "::ffff:1.1.1.1",
        "::fffe:127.0.0.1",
    ] {
        assert!(!is_forbidden_ip(ip(s)), "{s} is public");
    }
}

#[test]
fn public_addresses_keep_their_order() {
    let all: Vec<IpAddr> = ["8.8.8.8", "10.0.0.1", "1.1.1.1", "::1"].iter().map(|s| ip(s)).collect();
    assert_eq!(public_addresses(&all), vec![ip("8.8.8.8"), ip("1.1.1.1")]);
    assert!(public_addresses(&vec![ip("127.0.0.1")]).is_empty());
}

// --- Reading and writing addresses --------------------------------------------------

#[test]
fn v4_literals() {
    assert_eq!(parse_ip(&chars("93.184.216.34")), Some(IpAddr::V4([93, 184, 216, 34])));
    assert_eq!(parse_ip(&chars("0.0.0.0")), Some(IpAddr::V4([0, 0, 0, 0])));
    assert_eq!(parse_ip(&chars("255.255.255.255")), Some(IpAddr::V4([255, 255, 255, 255])));
    for s in [
        "", "1.2.3", "1.2.3.4.5", "256.1.1.1", "1.2.3.", ".1.2.3", "01.2.3.4", "1.2.3.00",
        "1.2.3.4 ", "1.2.3.0x4", "+1.2.3.4", "1.2.3.1000", "a.b.c.d",
    ] {
        assert_eq!(parse_ip(&chars(s)), None, "{s:?} is no address");
    }
}

#[test]
fn v6_literals() {
    let v6 = |s: &str| parse_ip(&chars(s));
    assert_eq!(v6("::"), Some(IpAddr::V6([0; 8])));
    assert_eq!(v6("::1"), Some(IpAddr::V6([0, 0, 0, 0, 0, 0, 0, 1])));
    assert_eq!(v6("1::"), Some(IpAddr::V6([1, 0, 0, 0, 0, 0, 0, 0])));
    assert_eq!(v6("1:2:3:4:5:6:7:8"), Some(IpAddr::V6([1, 2, 3, 4, 5, 6, 7, 8])));
    assert_eq!(v6("1:2:3:4:5:6:7::"), Some(IpAddr::V6([1, 2, 3, 4, 5, 6, 7, 0])));
    assert_eq!(v6("::2:3:4:5:6:7:8"), Some(IpAddr::V6([0, 2, 3, 4, 5, 6, 7, 8])));
    assert_eq!(v6("FfFf::aB"), Some(IpAddr::V6([0xffff, 0, 0, 0, 0, 0, 0, 0xab])));
    assert_eq!(v6("::0001"), v6("::1"));
    assert_eq!(v6("::ffff:1.2.3.4"), Some(IpAddr::V6([0, 0, 0, 0, 0, 0xffff, 0x102, 0x304])));
    assert_eq!(v6("1:2:3:4:5:6:1.2.3.4"), Some(IpAddr::V6([1, 2, 3, 4, 5, 6, 0x102, 0x304])));
    for s in [
        ":", ":::", "1", "1:2:3:4:5:6:7", "1:2:3:4:5:6:7:8:9", "1:2:3:4:5:6:7:8::", "::1::",
        ":1:2:3:4:5:6:7:8", "1:2:3:4:5:6:7:8:", "12345::", "g::", "1.2.3.4::", "::1.2.3.4:5",
        "1:2:3:4:5:6:7:1.2.3.4", "1:2:3:4:5:6::1.2.3.4", "::1.2.3", "::1.2.3.256", "[::1]",
        "fe80::1%1", " ::1",
    ] {
        assert_eq!(v6(s), None, "{s:?} is no address");
    }
}

#[test]
fn socket_literals() {
    let addr = |s: &str| parse_socket(&chars(s));
    assert_eq!(
        addr("0.0.0.0:8000"),
        Some(SocketAddr { ip: IpAddr::V4([0, 0, 0, 0]), port: 8000, scope_id: 0 })
    );
    assert_eq!(
        addr("[::1]:0"),
        Some(SocketAddr { ip: ip("::1"), port: 0, scope_id: 0 })
    );
    assert_eq!(
        addr("[fe80::1%7]:65535"),
        Some(SocketAddr { ip: ip("fe80::1"), port: 65535, scope_id: 7 })
    );
    assert_eq!(addr("1.2.3.4:00080").unwrap().port, 80);
    for s in [
        "", "localhost:8000", "0.0.0.0", "0.0.0.0:", "0.0.0.0:65536", "0.0.0.0:+80", "::1:80",
        "[::1]", "[::1]80", "[::1]:", "[::1%]:1", "[::1%4294967296]:1", "[1.2.3.4]:80",
        "1.2.3.4:80 ", "[::1:80", "]:80",
    ] {
        assert_eq!(addr(s), None, "{s:?} is no address");
    }
}

#[test]
fn socket_texts() {
    for s in [
        "0.0.0.0:8000", "127.0.0.1:1", "[::]:80", "[::1]:80", "[1::]:80", "[1::8]:80",
        "[1:2:3:4:5:6:7:8]:80", "[1:0:3:4:5:6:7:8]:80", "[1::4:0:0:7:8]:80", "[1:2:0:0:5::]:80",
        "[::ffff:1.2.3.4]:80", "[fe80::abcd%7]:65535", "[2001:db8::1:0:0:1]:443",
    ] {
        assert_eq!(parse_socket(&chars(s)).unwrap().to_text(), s);
    }
    assert_eq!(parse_socket(&chars("[0:0:1:0:0:0:0:0]:1")).unwrap().to_text(), "[0:0:1::]:1");
}
