//! A small, short-lived store of idle connections.
//!
//! A logged-in connection is expensive to make, so one that is done with is kept for a
//! while and handed to the next request that presents the same credential. Nothing
//! outlives the process. The store is bounded: beyond its cap the least recently used
//! connection is given up, and a connection that has been idle for too long is never
//! handed out. A cap of 0 switches the store off.

use std::collections::VecDeque;
use vstd::prelude::*;

use crate::auth;
use crate::auth::{CredentialValue, MailboxCredential};
use crate::autoconfig;
use crate::text;

verus! {

/// How many idle connections are kept where nothing else is said.
pub const DEFAULT_MAX_IDLE: usize = 32;

/// For how many seconds a connection is kept where nothing else is said.
pub const DEFAULT_IDLE_TTL_SECS: u64 = 60;

// ---------------------------------------------------------------------------
// Settings
// ---------------------------------------------------------------------------

/// How connections are kept.
#[derive(Debug, Clone, Copy, PartialEq, Eq)]
pub struct PoolConfig {
    /// How many idle connections are kept, over all credentials.
    pub max_idle: usize,
    /// For how many seconds an idle connection may be reused.
    pub idle_ttl: u64,
}

/// The number that a variable says; `default` where it is not set or says none up to
/// `max`.
pub open spec fn number_or(raw: Option<Seq<char>>, max: nat, default: nat) -> nat {
    match raw {
        Some(s) => match text::unsigned_in(text::trimmed(s), max) {
            Some(n) => n,
            None => default,
        },
        None => default,
    }
}

fn parse_env(raw: &Option<String>, max: u64, default: u64) -> (r: u64)
    requires
        default <= max,
    ensures
        r == number_or(raw.deep_view(), max as nat, default as nat),
        r <= max,
{
    match raw {
        Some(s) => {
            let all = text::to_chars(s.as_str());
            match text::parse_unsigned(text::trim_chars(all.as_slice()), max) {
                Some(n) => n,
                None => default,
            }
        },
        None => default,
    }
}

/// What is to be said of the variable `name`: nothing where it is not set or says a number
/// up to `max`.
pub open spec fn unread(name: Seq<char>, raw: Option<Seq<char>>, max: nat) -> Seq<Seq<char>> {
    match raw {
        Some(s) => if text::unsigned_in(text::trimmed(s), max) is None {
            seq![name + "='"@ + s + "' is not a valid value; using the default instead"@]
        } else {
            Seq::empty()
        },
        None => Seq::empty(),
    }
}

fn warn_unread(out: &mut Vec<String>, name: &str, raw: &Option<String>, max: u64)
    ensures
        final(out).deep_view() == old(out).deep_view() + unread(name@, raw.deep_view(), max as nat),
{
    let ghost before = out.deep_view();
    if let Some(s) = raw {
        let all = text::to_chars(s.as_str());
        if text::parse_unsigned(text::trim_chars(all.as_slice()), max).is_none() {
            let mut m = text::concat3(name, "='", s.as_str());
            m.append("' is not a valid value; using the default instead");
            out.push(m);
            assert(out.deep_view() =~= before.push(m@));
        }
    }
    assert(out.deep_view() =~= before + unread(name@, raw.deep_view(), max as nat));
}

/// The settings that the variables ask for; one that cannot be read counts as not set.
pub open spec fn config_of(
    max_idle: Option<Seq<char>>,
    idle_ttl_secs: Option<Seq<char>>,
) -> PoolConfig {
    PoolConfig {
        max_idle: number_or(max_idle, usize::MAX as nat, DEFAULT_MAX_IDLE as nat) as usize,
        idle_ttl: number_or(idle_ttl_secs, u64::MAX as nat, DEFAULT_IDLE_TTL_SECS as nat) as u64,
    }
}

impl PoolConfig {
    /// The settings that the variables `OVERFWD_POOL_MAX_IDLE` and
    /// `OVERFWD_POOL_IDLE_TTL_SECS` ask for; one that cannot be read counts as not set.
    pub fn from_env(max_idle: &Option<String>, idle_ttl_secs: &Option<String>) -> (r: Self)
        ensures
            r == config_of(max_idle.deep_view(), idle_ttl_secs.deep_view()),
    {
        let max: u64 = parse_env(max_idle, usize::MAX as u64, DEFAULT_MAX_IDLE as u64);
        PoolConfig {
            max_idle: max as usize,
            idle_ttl: parse_env(idle_ttl_secs, u64::MAX, DEFAULT_IDLE_TTL_SECS),
        }
    }

    /// What is to be said of the variables that `from_env` cannot read.
    pub fn warnings(max_idle: &Option<String>, idle_ttl_secs: &Option<String>) -> (r: Vec<String>)
        ensures
            r.deep_view() == unread("OVERFWD_POOL_MAX_IDLE"@, max_idle.deep_view(), usize::MAX as nat)
                + unread("OVERFWD_POOL_IDLE_TTL_SECS"@, idle_ttl_secs.deep_view(), u64::MAX as nat),
    {
        let mut out: Vec<String> = Vec::new();
        warn_unread(&mut out, "OVERFWD_POOL_MAX_IDLE", max_idle, usize::MAX as u64);
        warn_unread(&mut out, "OVERFWD_POOL_IDLE_TTL_SECS", idle_ttl_secs, u64::MAX);
        out
    }

    /// Nothing is kept.
    pub fn disabled() -> (r: Self)
        ensures
            r == (PoolConfig { max_idle: 0, idle_ttl: 0 }),
    {
        PoolConfig { max_idle: 0, idle_ttl: 0 }
    }
}

impl Default for PoolConfig {
    fn default() -> (r: Self)
        ensures
            r == (PoolConfig { max_idle: DEFAULT_MAX_IDLE, idle_ttl: DEFAULT_IDLE_TTL_SECS }),
    {
        PoolConfig { max_idle: DEFAULT_MAX_IDLE, idle_ttl: DEFAULT_IDLE_TTL_SECS }
    }
}

// ---------------------------------------------------------------------------
// Keys
// ---------------------------------------------------------------------------

/// The SHA-256 digest of `bytes`.
pub uninterp spec fn sha256_digest(bytes: Seq<u8>) -> Seq<u8>;

/// `ring::digest::digest` with `SHA256`: 32 bytes that are a function of the input
/// alone, named by `sha256_digest`. Input of 2^61 bytes or more, whose length in bits
/// does not fit 64 bits, makes it panic.
#[verifier::external_body]
fn sha256(bytes: &[u8]) -> (r: [u8; 32])
    requires
        bytes@.len() < 0x2000_0000_0000_0000,
    ensures
        r@ == sha256_digest(bytes@),
{
    let digest = ring::digest::digest(&ring::digest::SHA256, bytes);
    let mut out = [0u8; 32];
    out.copy_from_slice(digest.as_ref());
    out
}

/// What a connection is kept under: where it leads, whose it is, and an opaque digest
/// of the password with which it was made. The password itself is not part of a key.
pub struct PoolKey {
    host: String,
    port: u16,
    username: String,
    secret_digest: [u8; 32],
}

/// What a `PoolKey` holds.
#[verifier::ext_equal]
pub struct KeyValue {
    pub host: Seq<char>,
    pub port: u16,
    pub username: Seq<char>,
    pub secret_digest: Seq<u8>,
}

impl View for PoolKey {
    type V = KeyValue;

    closed spec fn view(&self) -> KeyValue {
        KeyValue {
            host: self.host@,
            port: self.port,
            username: self.username@,
            secret_digest: self.secret_digest@,
        }
    }
}

/// The key of a credential: its IMAP target, its login and the digest of its password.
pub open spec fn key_value(c: CredentialValue) -> KeyValue {
    KeyValue {
        host: c.imap.0,
        port: c.imap.1,
        username: c.username,
        secret_digest: sha256_digest(vstd::utf8::encode_utf8(c.password)),
    }
}

/// A password whose digest can be taken: fewer than 2^61 bytes.
pub open spec fn can_digest(password: Seq<char>) -> bool {
    vstd::utf8::encode_utf8(password).len() < 0x2000_0000_0000_0000
}

/// The debug form of a key, with a placeholder for the digest.
pub open spec fn key_debug(k: KeyValue) -> Seq<char> {
    "PoolKey { host: "@ + text::quoted_text(k.host) + ", port: "@ + text::decimal(k.port as nat)
        + ", username: "@ + text::quoted_text(k.username)
        + ", secret_digest: \"***redacted***\" }"@
}

fn same_bytes(a: &[u8; 32], b: &[u8; 32]) -> (r: bool)
    ensures
        r == (a@ == b@),
{
    let mut i: usize = 0;
    while i < 32
        invariant
            i <= 32,
            forall|j: int| 0 <= j < i ==> a@[j] == b@[j],
        decreases 32 - i,
    {
        if a[i] != b[i] {
            return false;
        }
        i = i + 1;
    }
    assert(a@ =~= b@);
    true
}

impl PartialEq for PoolKey {
    fn eq(&self, other: &Self) -> (r: bool) {
        text::same(self.host.as_str(), other.host.as_str()) && self.port == other.port
            && text::same(self.username.as_str(), other.username.as_str()) && same_bytes(
            &self.secret_digest,
            &other.secret_digest,
        )
    }
}

impl vstd::std_specs::cmp::PartialEqSpecImpl for PoolKey {
    open spec fn obeys_eq_spec() -> bool {
        true
    }

    open spec fn eq_spec(&self, other: &Self) -> bool {
        self@ == other@
    }
}

impl PoolKey {
    /// The key of a credential. It is scoped to the IMAP target.
    pub fn from_cred(cred: &MailboxCredential) -> (r: Self)
        requires
            can_digest(cred.password@),
        ensures
            r@ == key_value(cred.deep_view()),
    {
        PoolKey::with_digest(cred, sha256(cred.password.expose().as_bytes()))
    }

    /// The key of a credential whose password has this digest.
    pub fn with_digest(cred: &MailboxCredential, secret_digest: [u8; 32]) -> (r: Self)
        ensures
            r@ == (KeyValue {
                host: cred.imap.host@,
                port: cred.imap.port,
                username: cred.username@,
                secret_digest: secret_digest@,
            }),
    {
        PoolKey {
            host: cred.imap.host.clone(),
            port: cred.imap.port,
            username: cred.username.clone(),
            secret_digest,
        }
    }

    /// The key in debug form, its digest replaced by a placeholder.
    pub fn debug_text(&self) -> (r: String)
        ensures
            r@ == key_debug(self@),
    {
        let mut out = text::concat3(
            "PoolKey { host: ",
            text::quoted(self.host.as_str()).as_str(),
            ", port: ",
        );
        text::push_decimal(&mut out, self.port as u64);
        out.append(", username: ");
        out.append(text::quoted(self.username.as_str()).as_str());
        out.append(", secret_digest: \"***redacted***\" }");
        out
    }
}

/// Credentials share a connection only where IMAP host and port, login and the
/// password's digest are all the same; the SMTP target plays no part.
pub proof fn law_keys_match(a: CredentialValue, b: CredentialValue)
    ensures
        key_value(a) == key_value(b) <==> {
            &&& a.imap == b.imap
            &&& a.username == b.username
            &&& sha256_digest(vstd::utf8::encode_utf8(a.password)) == sha256_digest(
                vstd::utf8::encode_utf8(b.password),
            )
        },
{
}

/// The debug form tells neither passwords nor their digests apart.
pub proof fn law_key_debug_hides_digest(a: KeyValue, b: KeyValue)
    requires
        a.host == b.host,
        a.port == b.port,
        a.username == b.username,
    ensures
        key_debug(a) == key_debug(b),
{
}

// ---------------------------------------------------------------------------
// The store
// ---------------------------------------------------------------------------

/// A connection that is kept, and since when, in nanoseconds.
pub struct Entry<T> {
    pub key: PoolKey,
    pub conn: T,
    pub stored_at: u128,
}

/// What an `Entry` holds.
#[verifier::ext_equal]
pub struct EntryValue<T> {
    pub key: KeyValue,
    pub conn: T,
    pub stored_at: u128,
}

/// The contents of entries.
pub open spec fn entry_values<T>(s: Seq<Entry<T>>) -> Seq<EntryValue<T>> {
    Seq::new(
        s.len(),
        |i: int| EntryValue { key: s[i].key@, conn: s[i].conn, stored_at: s[i].stored_at },
    )
}

/// How long an entry has been kept; none of the time that lies in the future.
pub open spec fn age<T>(e: EntryValue<T>, now: u128) -> int {
    if now >= e.stored_at {
        now - e.stored_at
    } else {
        0
    }
}

/// The entries that are still fresh, in their order.
pub open spec fn fresh<T>(s: Seq<EntryValue<T>>, now: u128, ttl: u128) -> Seq<EntryValue<T>>
    decreases s.len(),
{
    if s.len() == 0 {
        Seq::empty()
    } else {
        let rest = fresh(s.drop_last(), now, ttl);
        if age(s.last(), now) < ttl {
            rest.push(s.last())
        } else {
            rest
        }
    }
}

/// The connections that have been kept for `ttl` or longer, in their order.
pub open spec fn expired<T>(s: Seq<EntryValue<T>>, now: u128, ttl: u128) -> Seq<T>
    decreases s.len(),
{
    if s.len() == 0 {
        Seq::empty()
    } else {
        let rest = expired(s.drop_last(), now, ttl);
        if age(s.last(), now) < ttl {
            rest
        } else {
            rest.push(s.last().conn)
        }
    }
}

/// The position of the last entry under `key`; -1 where there is none.
pub open spec fn last_under<T>(s: Seq<EntryValue<T>>, key: KeyValue) -> int
    decreases s.len(),
{
    if s.len() == 0 {
        -1
    } else if s.last().key == key {
        s.len() - 1
    } else {
        last_under(s.drop_last(), key)
    }
}

/// The connections in a row of entries.
pub open spec fn conns<T>(s: Seq<EntryValue<T>>) -> Seq<T> {
    Seq::new(s.len(), |i: int| s[i].conn)
}

/// How many entries at the front are given up so that `max_idle` are left.
pub open spec fn excess(len: nat, max_idle: usize) -> int {
    if len > max_idle {
        len - max_idle
    } else {
        0
    }
}

/// The entries once `e` has been added, before the cap is applied.
pub open spec fn with_new<T>(
    s: Seq<EntryValue<T>>,
    e: EntryValue<T>,
    now: u128,
    ttl: u128,
) -> Seq<EntryValue<T>> {
    fresh(s, now, ttl).push(e)
}

/// The entries once `e` has been added and the cap applied.
pub open spec fn after_put<T>(
    s: Seq<EntryValue<T>>,
    e: EntryValue<T>,
    now: u128,
    ttl: u128,
    max_idle: usize,
) -> Seq<EntryValue<T>> {
    let all = with_new(s, e, now, ttl);
    all.skip(excess(all.len(), max_idle))
}

/// What is given up when `e` is added: the connections that are no longer fresh, then the
/// least recently used beyond the cap.
pub open spec fn given_up<T>(
    s: Seq<EntryValue<T>>,
    e: EntryValue<T>,
    now: u128,
    ttl: u128,
    max_idle: usize,
) -> Seq<T> {
    let all = with_new(s, e, now, ttl);
    expired(s, now, ttl) + conns(all.take(excess(all.len(), max_idle)))
}

/// The entries once a connection has been asked for under `key`.
pub open spec fn after_take<T>(s: Seq<EntryValue<T>>, key: KeyValue, now: u128, ttl: u128) -> Seq<
    EntryValue<T>,
> {
    let live = fresh(s, now, ttl);
    let i = last_under(live, key);
    if 0 <= i < live.len() {
        live.remove(i)
    } else {
        live
    }
}

/// The connection that is handed out under `key`: the one that was kept last.
pub open spec fn taken<T>(s: Seq<EntryValue<T>>, key: KeyValue, now: u128, ttl: u128) -> Option<T> {
    let live = fresh(s, now, ttl);
    let i = last_under(live, key);
    if 0 <= i < live.len() {
        Some(live[i].conn)
    } else {
        None
    }
}

/// A bounded set of idle connections, from the least to the most recently used.
pub struct Reservoir<T> {
    entries: VecDeque<Entry<T>>,
}

impl<T> View for Reservoir<T> {
    type V = Seq<EntryValue<T>>;

    closed spec fn view(&self) -> Seq<EntryValue<T>> {
        entry_values(self.entries@)
    }
}

impl<T> Reservoir<T> {
    /// An empty store.
    pub fn new() -> (r: Self)
        ensures
            r@ == Seq::<EntryValue<T>>::empty(),
    {
        let r = Reservoir { entries: VecDeque::new() };
        assert(r@ =~= Seq::<EntryValue<T>>::empty());
        r
    }

    /// How many connections are kept.
    pub fn len(&self) -> (r: usize)
        ensures
            r == self@.len(),
    {
        self.entries.len()
    }

    /// Gives up every connection that has been kept for `ttl` or longer. The others keep
    /// their order.
    pub fn drain_expired(&mut self, now: u128, ttl: u128) -> (r: Vec<T>)
        ensures
            final(self)@ == fresh(old(self)@, now, ttl),
            r@ == expired(old(self)@, now, ttl),
    {
        let ghost all = self@;
        let n: usize = self.entries.len();
        let mut dead: Vec<T> = Vec::new();
        let mut done: usize = 0;
        assert(all.take(0) =~= Seq::empty());
        assert(self@ =~= all.skip(0) + fresh(all.take(0), now, ttl));
        while done < n
            invariant
                done <= n,
                n == all.len(),
                entry_values(self.entries@) =~= all.skip(done as int) + fresh(
                    all.take(done as int),
                    now,
                    ttl,
                ),
                dead@ == expired(all.take(done as int), now, ttl),
            decreases n - done,
        {
            let ghost before = entry_values(self.entries@);
            proof {
                assert(all.take(done + 1).drop_last() =~= all.take(done as int));
                assert(before[0] == all[done as int]);
            }
            match self.entries.pop_front() {
                Some(e) => {
                    let ghost value = EntryValue {
                        key: e.key@,
                        conn: e.conn,
                        stored_at: e.stored_at,
                    };
                    assert(value == before[0]);
                    let kept_for: u128 = if now >= e.stored_at {
                        now - e.stored_at
                    } else {
                        0
                    };
                    assert(entry_values(self.entries@) =~= before.skip(1));
                    if kept_for < ttl {
                        self.entries.push_back(e);
                        assert(entry_values(self.entries@) =~= before.skip(1).push(value));
                    } else {
                        dead.push(e.conn);
                    }
                },
                None => {
                    assert(before.len() > 0);
                },
            }
            assert(entry_values(self.entries@) =~= all.skip(done + 1) + fresh(
                all.take(done + 1),
                now,
                ttl,
            ));
            done = done + 1;
        }
        proof {
            assert(all.take(n as int) =~= all);
            assert(self@ =~= fresh(all, now, ttl));
        }
        dead
    }

    /// Takes out the most recently used connection under `key`, if there is one that is
    /// still fresh, and gives up those that are not.
    pub fn take(&mut self, key: &PoolKey, now: u128, ttl: u128) -> (r: (Option<T>, Vec<T>))
        ensures
            final(self)@ == after_take(old(self)@, key@, now, ttl),
            r.0 == taken(old(self)@, key@, now, ttl),
            r.1@ == expired(old(self)@, now, ttl),
    {
        let dead = self.drain_expired(now, ttl);
        let ghost live = self@;
        let mut i: usize = self.entries.len();
        assert(live.take(i as int) =~= live);
        while i > 0
            invariant
                i <= live.len(),
                live == self@,
                live == fresh(old(self)@, now, ttl),
                dead@ == expired(old(self)@, now, ttl),
                last_under(live.take(i as int), key@) == last_under(live, key@),
            decreases i,
        {
            assert(live[i - 1].key == self.entries@[i - 1].key@);
            assert(live.take(i as int).last() == live[i - 1]);
            if self.entries[i - 1].key == *key {
                let hit = match self.entries.remove(i - 1) {
                    Some(e) => Some(e.conn),
                    None => None,
                };
                assert(self@ =~= live.remove(i - 1));
                return (hit, dead);
            }
            assert(live.take(i as int).drop_last() =~= live.take(i - 1));
            i = i - 1;
        }
        (None, dead)
    }

    /// Keeps `conn` under `key` as the most recently used, and gives up what is no longer
    /// fresh and the least recently used beyond the cap. With a cap of 0 that is `conn`
    /// itself.
    pub fn put(&mut self, key: PoolKey, conn: T, now: u128, ttl: u128, max_idle: usize) -> (r: Vec<
        T,
    >)
        ensures
            final(self)@ == after_put(
                old(self)@,
                (EntryValue { key: key@, conn, stored_at: now }),
                now,
                ttl,
                max_idle,
            ),
            r@ == given_up(
                old(self)@,
                (EntryValue { key: key@, conn, stored_at: now }),
                now,
                ttl,
                max_idle,
            ),
    {
        let ghost value = EntryValue { key: key@, conn, stored_at: now };
        let mut dead = self.drain_expired(now, ttl);
        let ghost swept = dead@;
        let ghost live = self@;
        self.entries.push_back(Entry { key, conn, stored_at: now });
        let ghost all = live.push(value);
        assert(self@ =~= all);
        let ghost gone: int = 0;
        assert(all.skip(0) =~= all);
        assert(swept + conns(all.take(0)) =~= swept);
        while self.entries.len() > max_idle
            invariant
                all == with_new(old(self)@, value, now, ttl),
                0 <= gone <= excess(all.len(), max_idle),
                entry_values(self.entries@) == all.skip(gone),
                dead@ == swept + conns(all.take(gone)),
            decreases self.entries.len(),
        {
            let ghost before = entry_values(self.entries@);
            match self.entries.pop_front() {
                Some(e) => {
                    assert(before[0].conn == e.conn);
                    dead.push(e.conn);
                    proof {
                        assert(entry_values(self.entries@) =~= before.skip(1));
                        assert(all.skip(gone).skip(1) =~= all.skip(gone + 1));
                        assert(conns(all.take(gone + 1)) =~= conns(all.take(gone)).push(
                            all[gone].conn,
                        ));
                        assert(dead@ =~= swept + conns(all.take(gone + 1)));
                        gone = gone + 1;
                    }
                },
                None => {},
            }
        }
        dead
    }
}

// ---------------------------------------------------------------------------
// The pool
// ---------------------------------------------------------------------------

/// The pool: a store with its settings.
pub struct ImapPool<T> {
    inner: Reservoir<T>,
    config: PoolConfig,
}

/// The time that connections are kept, in nanoseconds.
pub open spec fn ttl_nanos(config: PoolConfig) -> u128 {
    (config.idle_ttl as nat * autoconfig::NANOS as nat) as u128
}

impl<T> ImapPool<T> {
    /// What is kept.
    pub closed spec fn idle(self) -> Seq<EntryValue<T>> {
        self.inner@
    }

    /// How it is kept.
    pub closed spec fn settings(self) -> PoolConfig {
        self.config
    }

    /// An empty pool.
    pub fn new(config: PoolConfig) -> (r: Self)
        ensures
            r.settings() == config,
            r.idle() == Seq::<EntryValue<T>>::empty(),
    {
        ImapPool { inner: Reservoir::new(), config }
    }

    /// An empty pool with the settings that the variables ask for.
    pub fn from_env(max_idle: &Option<String>, idle_ttl_secs: &Option<String>) -> (r: Self)
        ensures
            r.settings() == config_of(max_idle.deep_view(), idle_ttl_secs.deep_view()),
            r.idle() == Seq::<EntryValue<T>>::empty(),
    {
        ImapPool::new(PoolConfig::from_env(max_idle, idle_ttl_secs))
    }

    /// Whether anything is kept at all.
    pub fn is_enabled(&self) -> (r: bool)
        ensures
            r == (self.settings().max_idle > 0),
    {
        self.config.max_idle > 0
    }

    /// How many connections are kept.
    pub fn idle_count(&self) -> (r: usize)
        ensures
            r == self.idle().len(),
    {
        self.inner.len()
    }

    fn ttl(&self) -> (r: u128)
        ensures
            r == ttl_nanos(self.settings()),
    {
        let secs: u64 = self.config.idle_ttl;
        assert(secs as u128 * autoconfig::NANOS <= u128::MAX) by (nonlinear_arith)
            requires
                secs <= u64::MAX,
                autoconfig::NANOS == 1_000_000_000,
        ;
        secs as u128 * autoconfig::NANOS
    }

    /// Takes out a connection for `cred` at the moment `now`, and the connections that are
    /// to be closed. Before its use a connection has to be tried: the server may have
    /// dropped it.
    pub fn take_warm(&mut self, cred: &MailboxCredential, now: u128) -> (r: (Option<T>, Vec<T>))
        requires
            can_digest(cred.password@),
        ensures
            final(self).settings() == old(self).settings(),
            old(self).settings().max_idle == 0 ==> final(self).idle() == old(self).idle() && r.0
                == None::<T> && r.1@ == Seq::<T>::empty(),
            old(self).settings().max_idle > 0 ==> {
                let key = key_value(cred.deep_view());
                let ttl = ttl_nanos(old(self).settings());
                &&& final(self).idle() == after_take(old(self).idle(), key, now, ttl)
                &&& r.0 == taken(old(self).idle(), key, now, ttl)
                &&& r.1@ == expired(old(self).idle(), now, ttl)
            },
    {
        if !self.is_enabled() {
            return (None, Vec::new());
        }
        let ttl: u128 = self.ttl();
        self.inner.take(&PoolKey::from_cred(cred), now, ttl)
    }

    /// Keeps a healthy connection of `cred` at the moment `now`, and says which
    /// connections are to be closed; where nothing is kept, that is this one.
    pub fn give_back(&mut self, cred: &MailboxCredential, session: T, now: u128) -> (r: Vec<T>)
        requires
            can_digest(cred.password@),
        ensures
            final(self).settings() == old(self).settings(),
            old(self).settings().max_idle == 0 ==> final(self).idle() == old(self).idle() && r@
                == seq![session],
            old(self).settings().max_idle > 0 ==> {
                let e = EntryValue {
                    key: key_value(cred.deep_view()),
                    conn: session,
                    stored_at: now,
                };
                let ttl = ttl_nanos(old(self).settings());
                let max = old(self).settings().max_idle;
                &&& final(self).idle() == after_put(old(self).idle(), e, now, ttl, max)
                &&& r@ == given_up(old(self).idle(), e, now, ttl, max)
            },
    {
        if !self.is_enabled() {
            let mut out: Vec<T> = Vec::new();
            out.push(session);
            assert(out@ =~= seq![session]);
            return out;
        }
        let ttl: u128 = self.ttl();
        let max_idle: usize = self.config.max_idle;
        self.inner.put(PoolKey::from_cred(cred), session, now, ttl, max_idle)
    }
}

// ---------------------------------------------------------------------------
// Laws
// ---------------------------------------------------------------------------

proof fn lemma_fresh<T>(s: Seq<EntryValue<T>>, now: u128, ttl: u128)
    ensures
        fresh(s, now, ttl).len() <= s.len(),
        forall|i: int|
            0 <= i < fresh(s, now, ttl).len() ==> age(#[trigger] fresh(s, now, ttl)[i], now) < ttl
                && s.contains(fresh(s, now, ttl)[i]),
    decreases s.len(),
{
    if s.len() > 0 {
        lemma_fresh(s.drop_last(), now, ttl);
        let rest = fresh(s.drop_last(), now, ttl);
        assert forall|i: int| 0 <= i < fresh(s, now, ttl).len() implies age(
            #[trigger] fresh(s, now, ttl)[i],
            now,
        ) < ttl && s.contains(fresh(s, now, ttl)[i]) by {
            if i < rest.len() {
                assert(fresh(s, now, ttl)[i] == rest[i]);
                let j = choose|j: int|
                    0 <= j < s.drop_last().len() && s.drop_last()[j] == rest[i];
                assert(s[j] == rest[i]);
            } else {
                assert(s[s.len() - 1] == fresh(s, now, ttl)[i]);
            }
        }
    }
}

proof fn lemma_last_under<T>(s: Seq<EntryValue<T>>, key: KeyValue)
    ensures
        -1 <= last_under(s, key) < s.len(),
        last_under(s, key) >= 0 ==> s[last_under(s, key)].key == key,
        forall|i: int| last_under(s, key) < i < s.len() ==> (#[trigger] s[i]).key != key,
    decreases s.len(),
{
    if s.len() > 0 && s.last().key != key {
        lemma_last_under(s.drop_last(), key);
        assert forall|i: int| last_under(s, key) < i < s.len() implies (
        #[trigger] s[i]).key != key by {
            if i < s.len() - 1 {
                assert(s.drop_last()[i] == s[i]);
            }
        }
    }
}

/// The store never holds more than its cap once something has been put in; with a cap
/// of 0 it holds nothing.
pub proof fn law_cap_holds<T>(
    s: Seq<EntryValue<T>>,
    e: EntryValue<T>,
    now: u128,
    ttl: u128,
    max_idle: usize,
)
    ensures
        after_put(s, e, now, ttl, max_idle).len() <= max_idle,
{
}

/// Where there is any room, what was put in last stays, as the most recently used, and
/// what is given up beyond the cap is what has been there longest: the entries that stay
/// are the last ones.
pub proof fn law_least_recently_used_leaves_first<T>(
    s: Seq<EntryValue<T>>,
    e: EntryValue<T>,
    now: u128,
    ttl: u128,
    max_idle: usize,
)
    requires
        max_idle > 0,
    ensures
        after_put(s, e, now, ttl, max_idle).last() == e,
        exists|n: int|
            0 <= n <= with_new(s, e, now, ttl).len() && #[trigger] with_new(s, e, now, ttl).skip(n)
                == after_put(s, e, now, ttl, max_idle),
{
    let all = with_new(s, e, now, ttl);
    let n = excess(all.len(), max_idle);
    assert(all.skip(n).last() == all.last());
    assert(with_new(s, e, now, ttl).skip(n) == after_put(s, e, now, ttl, max_idle));
}

/// A connection that is kept and asked for under its key before its time is over is
/// handed out again, where the store keeps anything.
pub proof fn law_put_then_take<T>(
    s: Seq<EntryValue<T>>,
    e: EntryValue<T>,
    put_at: u128,
    taken_at: u128,
    ttl: u128,
    max_idle: usize,
)
    requires
        max_idle > 0,
        e.stored_at == put_at,
        put_at <= taken_at,
        taken_at - put_at < ttl,
    ensures
        taken(after_put(s, e, put_at, ttl, max_idle), e.key, taken_at, ttl) == Some(e.conn),
{
    let kept = after_put(s, e, put_at, ttl, max_idle);
    law_least_recently_used_leaves_first(s, e, put_at, ttl, max_idle);
    assert(kept.len() > 0);
    let live = fresh(kept, taken_at, ttl);
    assert(live.last() == e);
    assert(last_under(live, e.key) == live.len() - 1);
}

/// What is handed out was kept under the same key and is fresh, and of several such it
/// is the one that was kept last.
pub proof fn law_only_fresh_and_own_connections_are_reused<T>(
    s: Seq<EntryValue<T>>,
    key: KeyValue,
    now: u128,
    ttl: u128,
)
    ensures
        taken(s, key, now, ttl) matches Some(conn) ==> exists|e: EntryValue<T>| #[trigger]
            s.contains(e) && e.key == key && age(e, now) < ttl && e.conn == conn,
        taken(s, key, now, ttl) is None ==> forall|i: int|
            0 <= i < fresh(s, now, ttl).len() ==> (#[trigger] fresh(s, now, ttl)[i]).key != key,
{
    let live = fresh(s, now, ttl);
    lemma_last_under(live, key);
    lemma_fresh(s, now, ttl);
    let i = last_under(live, key);
    if 0 <= i {
        assert(s.contains(live[i]));
    }
}

proof fn lemma_split_by_age<T>(s: Seq<EntryValue<T>>, now: u128, ttl: u128)
    ensures
        conns(s).to_multiset() =~= conns(fresh(s, now, ttl)).to_multiset().add(
            expired(s, now, ttl).to_multiset(),
        ),
    decreases s.len(),
{
    broadcast use vstd::seq_lib::group_to_multiset_ensures;

    if s.len() == 0 {
        assert(conns(s) =~= Seq::<T>::empty());
        assert(conns(fresh(s, now, ttl)) =~= Seq::<T>::empty());
    } else {
        lemma_split_by_age(s.drop_last(), now, ttl);
        let rest = fresh(s.drop_last(), now, ttl);
        assert(conns(s) =~= conns(s.drop_last()).push(s.last().conn));
        assert(conns(rest.push(s.last())) =~= conns(rest).push(s.last().conn));
    }
}

/// No connection is lost: each that was there, and the one put in, is afterwards kept
/// or given up, once.
pub proof fn law_put_loses_nothing<T>(
    s: Seq<EntryValue<T>>,
    e: EntryValue<T>,
    now: u128,
    ttl: u128,
    max_idle: usize,
)
    ensures
        conns(after_put(s, e, now, ttl, max_idle)).to_multiset().add(
            given_up(s, e, now, ttl, max_idle).to_multiset(),
        ) =~= conns(s).push(e.conn).to_multiset(),
{
    broadcast use vstd::seq_lib::group_to_multiset_ensures;

    lemma_split_by_age(s, now, ttl);
    let live = fresh(s, now, ttl);
    let all = with_new(s, e, now, ttl);
    let n = excess(all.len(), max_idle);
    let front = conns(all.take(n));
    let back = conns(all.skip(n));
    assert(conns(all) =~= front + back);
    assert(conns(all) =~= conns(live).push(e.conn));
    vstd::seq_lib::lemma_multiset_commutative(front, back);
    vstd::seq_lib::lemma_multiset_commutative(expired(s, now, ttl), front);
    assert(given_up(s, e, now, ttl, max_idle) =~= expired(s, now, ttl) + front);
    assert(after_put(s, e, now, ttl, max_idle) =~= all.skip(n));
    assert(conns(live).push(e.conn).to_multiset() =~= conns(live).to_multiset().insert(e.conn));
    assert(conns(s).push(e.conn).to_multiset() =~= conns(s).to_multiset().insert(e.conn));
    let f = front.to_multiset();
    let b = back.to_multiset();
    let x = expired(s, now, ttl).to_multiset();
    assert(f.add(b) =~= conns(live).to_multiset().insert(e.conn));
    assert(b.add(x.add(f)) =~= f.add(b).add(x));
    assert(f.add(b).add(x) =~= conns(live).to_multiset().add(x).insert(e.conn));
}

/// No connection is lost when one is asked for: each that was there is afterwards kept,
/// handed out or given up, once.
pub proof fn law_take_loses_nothing<T>(s: Seq<EntryValue<T>>, key: KeyValue, now: u128, ttl: u128)
    ensures
        ({
            let kept = conns(after_take(s, key, now, ttl)).to_multiset();
            let out = match taken(s, key, now, ttl) {
                Some(conn) => kept.insert(conn),
                None => kept,
            };
            out.add(expired(s, now, ttl).to_multiset()) =~= conns(s).to_multiset()
        }),
{
    broadcast use vstd::seq_lib::group_to_multiset_ensures;

    lemma_split_by_age(s, now, ttl);
    let live = fresh(s, now, ttl);
    lemma_last_under(live, key);
    let i = last_under(live, key);
    if 0 <= i {
        let c = conns(live);
        assert(conns(live.remove(i)) =~= c.remove(i));
        assert(c =~= c.take(i).push(c[i]) + c.skip(i + 1));
        assert(c.remove(i) =~= c.take(i) + c.skip(i + 1));
        vstd::seq_lib::lemma_multiset_commutative(c.take(i), c.skip(i + 1));
        vstd::seq_lib::lemma_multiset_commutative(c.take(i).push(c[i]), c.skip(i + 1));
        assert(c.to_multiset() =~= c.remove(i).to_multiset().insert(c[i]));
    }
}

proof fn lemma_fresh_append<T>(a: Seq<EntryValue<T>>, b: Seq<EntryValue<T>>, now: u128, ttl: u128)
    ensures
        fresh(a + b, now, ttl) == fresh(a, now, ttl) + fresh(b, now, ttl),
        expired(a + b, now, ttl) == expired(a, now, ttl) + expired(b, now, ttl),
    decreases b.len(),
{
    if b.len() == 0 {
        assert(a + b =~= a);
        assert(fresh(a, now, ttl) + fresh(b, now, ttl) =~= fresh(a, now, ttl));
        assert(expired(a, now, ttl) + expired(b, now, ttl) =~= expired(a, now, ttl));
    } else {
        lemma_fresh_append(a, b.drop_last(), now, ttl);
        assert((a + b).drop_last() =~= a + b.drop_last());
        assert(fresh(a + b, now, ttl) =~= fresh(a, now, ttl) + fresh(b, now, ttl));
        assert(expired(a + b, now, ttl) =~= expired(a, now, ttl) + expired(b, now, ttl));
    }
}

/// A connection stays exactly until it has been kept for its time, each by its own, and
/// those that stay keep their order; the others are given up, in theirs.
pub proof fn law_time_alone_ends_a_connection<T>(
    a: Seq<EntryValue<T>>,
    b: Seq<EntryValue<T>>,
    e: EntryValue<T>,
    now: u128,
    ttl: u128,
)
    ensures
        fresh(a + b, now, ttl) == fresh(a, now, ttl) + fresh(b, now, ttl),
        expired(a + b, now, ttl) == expired(a, now, ttl) + expired(b, now, ttl),
        now >= e.stored_at && now - e.stored_at < ttl ==> fresh(seq![e], now, ttl) == seq![e]
            && expired(seq![e], now, ttl) == Seq::<T>::empty(),
        now >= e.stored_at && now - e.stored_at >= ttl ==> fresh(seq![e], now, ttl) == Seq::<
            EntryValue<T>,
        >::empty() && expired(seq![e], now, ttl) == seq![e.conn],
{
    lemma_fresh_append(a, b, now, ttl);
    let one = seq![e];
    assert(one.drop_last() =~= Seq::<EntryValue<T>>::empty());
    assert(fresh(one.drop_last(), now, ttl) =~= Seq::<EntryValue<T>>::empty());
    assert(expired(one.drop_last(), now, ttl) =~= Seq::<T>::empty());
    assert(one.last() == e);
    if age(e, now) < ttl {
        assert(fresh(one, now, ttl) =~= seq![e]);
        assert(expired(one, now, ttl) =~= Seq::<T>::empty());
    } else {
        assert(fresh(one, now, ttl) =~= Seq::<EntryValue<T>>::empty());
        assert(expired(one, now, ttl) =~= seq![e.conn]);
    }
}

/// No connection is given up for want of room while there is room: after one is put in, as
/// many are kept as are fresh, up to the cap.
pub proof fn law_the_cap_is_used_up<T>(
    s: Seq<EntryValue<T>>,
    e: EntryValue<T>,
    now: u128,
    ttl: u128,
    max_idle: usize,
)
    ensures
        after_put(s, e, now, ttl, max_idle).len() == if fresh(s, now, ttl).len() + 1 < max_idle {
            fresh(s, now, ttl).len() + 1
        } else {
            max_idle as nat
        },
        fresh(s, now, ttl).len() < max_idle ==> after_put(s, e, now, ttl, max_idle) == fresh(
            s,
            now,
            ttl,
        ).push(e),
{
    let all = fresh(s, now, ttl).push(e);
    assert(all.skip(0) =~= all);
}

/// Of the fresh connections under a key the one that was kept last is handed out, where
/// there is one; the other fresh ones stay, in their order.
pub proof fn law_the_last_one_kept_is_handed_out<T>(
    s: Seq<EntryValue<T>>,
    key: KeyValue,
    now: u128,
    ttl: u128,
    i: int,
)
    requires
        0 <= i < fresh(s, now, ttl).len(),
        fresh(s, now, ttl)[i].key == key,
        forall|j: int|
            i < j < fresh(s, now, ttl).len() ==> (#[trigger] fresh(s, now, ttl)[j]).key != key,
    ensures
        taken(s, key, now, ttl) == Some(fresh(s, now, ttl)[i].conn),
        after_take(s, key, now, ttl) == fresh(s, now, ttl).remove(i),
{
    let live = fresh(s, now, ttl);
    lemma_last_under(live, key);
    let at = last_under(live, key);
    if at < i {
        assert(live[i].key != key);
    }
    if at > i {
        assert(live[at].key != key);
    }
}

/// Where nothing fresh is kept under a key, nothing is handed out and all that is fresh
/// stays.
pub proof fn law_nothing_is_handed_out_under_another_key<T>(
    s: Seq<EntryValue<T>>,
    key: KeyValue,
    now: u128,
    ttl: u128,
)
    requires
        forall|j: int|
            0 <= j < fresh(s, now, ttl).len() ==> (#[trigger] fresh(s, now, ttl)[j]).key != key,
    ensures
        taken(s, key, now, ttl) is None,
        after_take(s, key, now, ttl) == fresh(s, now, ttl),
{
    lemma_last_under(fresh(s, now, ttl), key);
}

/// A key holds the IMAP target, the login and the digest of the password, and nothing of
/// where mail is sent.
pub proof fn law_what_a_key_is_made_of(c: CredentialValue, smtp: (Seq<char>, u16))
    ensures
        key_value(c).host == c.imap.0,
        key_value(c).port == c.imap.1,
        key_value(c).username == c.username,
        key_value(c).secret_digest == sha256_digest(vstd::utf8::encode_utf8(c.password)),
        key_value(CredentialValue { smtp, ..c }) == key_value(c),
{
}

/// The settings are the numbers that the variables say; where one is not set or cannot be
/// read, 32 connections are kept, or each for a minute. Of one that is set and cannot be
/// read, and of no other, a warning tells.
pub proof fn law_settings_by_variable(
    max_idle: Option<Seq<char>>,
    ttl: Option<Seq<char>>,
    name: Seq<char>,
    n: nat,
    max: nat,
)
    ensures
        config_of(None, ttl).max_idle == 32,
        config_of(max_idle, None).idle_ttl == 60,
        n <= usize::MAX ==> config_of(Some(text::decimal(n)), ttl).max_idle == n,
        n <= u64::MAX ==> config_of(max_idle, Some(text::decimal(n))).idle_ttl == n,
        (max_idle matches Some(t) && text::unsigned_in(text::trimmed(t), usize::MAX as nat) is None)
            ==> config_of(max_idle, ttl).max_idle == 32,
        (ttl matches Some(t) && text::unsigned_in(text::trimmed(t), u64::MAX as nat) is None)
            ==> config_of(max_idle, ttl).idle_ttl == 60,
        unread(name, max_idle, max).len() == if max_idle is Some && text::unsigned_in(
            text::trimmed(max_idle->0),
            max,
        ) is None {
            1nat
        } else {
            0
        },
        unread(name, max_idle, max).len() == 1 ==> text::has_prefix(
            unread(name, max_idle, max)[0],
            name,
        ),
{
    text::law_decimal_reads_back(n, usize::MAX as nat);
    text::law_decimal_reads_back(n, u64::MAX as nat);
    let s = text::decimal(n);
    assert(text::is_digit(s[0]));
    assert(text::is_digit(s[s.len() - 1]));
    text::law_trimmed_text_stays(s);
    if unread(name, max_idle, max).len() == 1 {
        let w = unread(name, max_idle, max)[0];
        assert(w.take(name.len() as int) =~= name);
    }
}

/// Times are counted in billionths of a second.
pub proof fn law_time_in_nanoseconds(config: PoolConfig)
    ensures
        ttl_nanos(config) == config.idle_ttl * 1_000_000_000,
{
    assert(config.idle_ttl as nat * autoconfig::NANOS as nat == config.idle_ttl * 1_000_000_000)
        by (nonlinear_arith)
        requires
            autoconfig::NANOS == 1_000_000_000,
    ;
    assert(config.idle_ttl * 1_000_000_000 <= u128::MAX) by (nonlinear_arith)
        requires
            config.idle_ttl <= u64::MAX,
    ;
}

} // verus!
