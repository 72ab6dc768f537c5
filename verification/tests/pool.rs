//! Warm connections.

use overfwd::auth::{HostPort, MailboxCredential, Secret};
use overfwd::pool::{ImapPool, PoolConfig, PoolKey, Reservoir};

const NANOS: u128 = 1_000_000_000;

fn cred(host: &str, port: u16, user: &str, pass: &str) -> MailboxCredential {
    MailboxCredential {
        username: user.to_string(),
        password: Secret::new(pass.to_string()),
        imap: HostPort { host: host.to_string(), port },
        smtp: HostPort { host: host.to_string(), port: 3025 },
    }
}

fn key(host: &str, port: u16, user: &str, pass: &str) -> PoolKey {
    PoolKey::from_cred(&cred(host, port, user, pass))
}

#[test]
fn key_matches_for_identical_credentials() {
    assert!(
        key("mail.example.com", 993, "alice", "s3cr3t")
            == key("mail.example.com", 993, "alice", "s3cr3t")
    );
}

#[test]
fn key_differs_when_password_changes() {
    assert!(
        key("mail.example.com", 993, "alice", "old-pass")
            != key("mail.example.com", 993, "alice", "new-pass")
    );
}

#[test]
fn key_differs_across_login_host_and_port() {
    let base = key("mail.example.com", 993, "alice", "pw");
    assert!(base != key("mail.example.com", 993, "bob", "pw"));
    assert!(base != key("other.example.com", 993, "alice", "pw"));
    assert!(base != key("mail.example.com", 143, "alice", "pw"));
}

#[test]
fn key_debug_redacts_password_digest_but_shows_target() {
    let rendered = key("mail.example.com", 993, "alice", "hunter2").debug_text();
    assert!(rendered.contains("mail.example.com"), "{rendered}");
    assert!(rendered.contains("alice"), "{rendered}");
    assert!(rendered.contains("redacted"), "{rendered}");
    assert!(!rendered.contains("hunter2"), "{rendered}");
}

#[test]
fn a_key_is_made_of_target_login_and_digest() {
    let c = cred("h", 1, "u", "p");
    assert!(PoolKey::with_digest(&c, [7; 32]) == PoolKey::with_digest(&c, [7; 32]));
    assert!(PoolKey::with_digest(&c, [7; 32]) != PoolKey::with_digest(&c, [8; 32]));
    // SHA-256 of "p".
    let digest = [
        0x14, 0x8d, 0xe9, 0xc5, 0xa7, 0xa4, 0x4d, 0x19, 0xe5, 0x6c, 0xd9, 0xae, 0x1a, 0x55, 0x4b,
        0xf6, 0x78, 0x47, 0xaf, 0xb0, 0xc5, 0x8f, 0x6e, 0x12, 0xfa, 0x29, 0xac, 0x7d, 0xdf, 0xca,
        0x99, 0x40,
    ];
    assert!(PoolKey::from_cred(&c) == PoolKey::with_digest(&c, digest));
}

const TTL: u128 = 60 * NANOS;
const BIG: usize = 100;
const NOW: u128 = 1_000 * NANOS;

fn kx(n: u16) -> PoolKey {
    key("h", n, "u", "p")
}

#[test]
fn miss_on_empty_and_on_unknown_key() {
    let mut r: Reservoir<i32> = Reservoir::new();
    let (hit, dead) = r.take(&kx(1), NOW, TTL);
    assert!(hit.is_none());
    assert!(dead.is_empty());
}

#[test]
fn put_then_take_roundtrips_by_key() {
    let mut r: Reservoir<i32> = Reservoir::new();
    assert!(r.put(kx(1), 111, NOW, TTL, BIG).is_empty());
    assert!(r.put(kx(2), 222, NOW, TTL, BIG).is_empty());
    assert_eq!(r.len(), 2);

    let (hit, _) = r.take(&kx(2), NOW, TTL);
    assert_eq!(hit, Some(222));
    // Taking removes it; the other key is untouched.
    assert_eq!(r.len(), 1);
    let (hit1, _) = r.take(&kx(1), NOW, TTL);
    assert_eq!(hit1, Some(111));
    assert_eq!(r.len(), 0);
}

#[test]
fn take_returns_most_recently_used_for_a_key() {
    let mut r: Reservoir<i32> = Reservoir::new();
    r.put(kx(1), 1, NOW, TTL, BIG);
    r.put(kx(1), 2, NOW, TTL, BIG);
    let (hit, _) = r.take(&kx(1), NOW, TTL);
    assert_eq!(hit, Some(2));
    let (hit, _) = r.take(&kx(1), NOW, TTL);
    assert_eq!(hit, Some(1));
}

#[test]
fn cap_evicts_least_recently_used_first() {
    let mut r: Reservoir<i32> = Reservoir::new();
    let max = 2;
    assert!(r.put(kx(1), 1, NOW, TTL, max).is_empty());
    assert!(r.put(kx(2), 2, NOW, TTL, max).is_empty());
    let evicted = r.put(kx(3), 3, NOW, TTL, max);
    assert_eq!(evicted, vec![1]);
    assert_eq!(r.len(), 2);
    assert_eq!(r.take(&kx(1), NOW, TTL).0, None);
    assert_eq!(r.take(&kx(2), NOW, TTL).0, Some(2));
    assert_eq!(r.take(&kx(3), NOW, TTL).0, Some(3));
}

#[test]
fn zero_cap_never_retains() {
    let mut r: Reservoir<i32> = Reservoir::new();
    let evicted = r.put(kx(1), 42, NOW, TTL, 0);
    assert_eq!(evicted, vec![42], "the just-inserted conn is evicted");
    assert_eq!(r.len(), 0);
}

#[test]
fn expired_entries_are_swept_on_take() {
    let mut r: Reservoir<i32> = Reservoir::new();
    r.put(kx(1), 1, NOW, TTL, BIG);
    r.put(kx(2), 2, NOW, TTL, BIG);
    let later = NOW + TTL + NANOS;
    let (hit, mut dead) = r.take(&kx(1), later, TTL);
    assert_eq!(hit, None);
    dead.sort_unstable();
    assert_eq!(dead, vec![1, 2]);
    assert_eq!(r.len(), 0);
}

#[test]
fn expired_entries_are_swept_on_put() {
    let mut r: Reservoir<i32> = Reservoir::new();
    r.put(kx(1), 1, NOW, TTL, BIG);
    let later = NOW + TTL + NANOS;
    let dead = r.put(kx(2), 2, later, TTL, BIG);
    assert_eq!(dead, vec![1]);
    assert_eq!(r.len(), 1);
    assert_eq!(r.take(&kx(2), later, TTL).0, Some(2));
}

#[test]
fn entry_just_under_ttl_is_still_reusable() {
    let mut r: Reservoir<i32> = Reservoir::new();
    r.put(kx(1), 7, NOW, TTL, BIG);
    let almost = NOW + TTL - NANOS;
    assert_eq!(r.take(&kx(1), almost, TTL).0, Some(7));
}

#[test]
fn entry_at_its_ttl_is_gone_and_a_clock_set_back_is_no_age() {
    let mut r: Reservoir<i32> = Reservoir::new();
    r.put(kx(1), 7, NOW, TTL, BIG);
    assert_eq!(r.take(&kx(1), NOW + TTL, TTL), (None, vec![7]));
    r.put(kx(1), 8, NOW, TTL, BIG);
    assert_eq!(r.take(&kx(1), NOW - 1, TTL), (Some(8), vec![]));
    r.put(kx(1), 9, NOW, TTL, BIG);
    assert_eq!(r.drain_expired(NOW, 0), vec![9]);
}

#[test]
fn disabled_pool_reports_not_enabled() {
    let pool: ImapPool<i32> = ImapPool::new(PoolConfig::disabled());
    assert!(!pool.is_enabled());
    assert_eq!(pool.idle_count(), 0);
}

#[test]
fn enabled_pool_reports_enabled() {
    let pool: ImapPool<i32> = ImapPool::new(PoolConfig::default());
    assert!(pool.is_enabled());
}

#[test]
fn a_pool_keeps_by_credential() {
    let mut pool: ImapPool<i32> = ImapPool::new(PoolConfig { max_idle: 2, idle_ttl: 60 });
    let alice = cred("h", 993, "alice", "a");
    let bob = cred("h", 993, "bob", "b");
    assert!(pool.give_back(&alice, 1, NOW).is_empty());
    assert!(pool.give_back(&bob, 2, NOW).is_empty());
    assert_eq!(pool.idle_count(), 2);
    assert_eq!(pool.take_warm(&bob, NOW), (Some(2), vec![]));
    assert_eq!(pool.take_warm(&bob, NOW), (None, vec![]));
    assert_eq!(pool.take_warm(&alice, NOW + TTL), (None, vec![1]));
    assert_eq!(pool.idle_count(), 0);
}

#[test]
fn a_disabled_pool_keeps_nothing() {
    let mut pool: ImapPool<i32> = ImapPool::new(PoolConfig::disabled());
    let alice = cred("h", 993, "alice", "a");
    assert_eq!(pool.give_back(&alice, 1, NOW), vec![1]);
    assert_eq!(pool.take_warm(&alice, NOW), (None, vec![]));
}

#[test]
fn pool_config_from_the_environment() {
    let some = |s: &str| Some(s.to_string());
    let c = PoolConfig::from_env(&None, &None);
    assert_eq!((c.max_idle, c.idle_ttl), (32, 60));
    let c = PoolConfig::from_env(&some(" 5 "), &some("7"));
    assert_eq!((c.max_idle, c.idle_ttl), (5, 7));
    let c = PoolConfig::from_env(&some("many"), &some(""));
    assert_eq!((c.max_idle, c.idle_ttl), (32, 60));
    let c = PoolConfig::disabled();
    assert_eq!(c.max_idle, 0);
}

#[test]
fn a_pool_from_the_environment() {
    let pool: ImapPool<i32> = ImapPool::from_env(&Some("0".to_string()), &None);
    assert!(!pool.is_enabled());
    let pool: ImapPool<i32> = ImapPool::from_env(&None, &None);
    assert!(pool.is_enabled());
}

#[test]
fn unreadable_settings_are_warned_of() {
    let some = |s: &str| Some(s.to_string());
    assert!(PoolConfig::warnings(&None, &None).is_empty());
    assert!(PoolConfig::warnings(&some(" 5 "), &some("0")).is_empty());
    assert_eq!(
        PoolConfig::warnings(&some("-1"), &some(" x")),
        [
            "OVERFWD_POOL_MAX_IDLE='-1' is not a valid value; using the default instead",
            "OVERFWD_POOL_IDLE_TTL_SECS=' x' is not a valid value; using the default instead",
        ]
    );
}
