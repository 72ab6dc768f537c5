//! Deriving a provider's targets from the mailbox's domain, as mail clients do.
//!
//! Where a target is not given, a ladder of sources is climbed until both targets are
//! known or the sources are used up:
//!
//! 1. the configuration that the provider hosts, at `autoconfig.<domain>`;
//! 2. the well-known configuration, at `<domain>` itself;
//! 3. the ISPDB, a public directory of configurations;
//! 4. DNS SRV records;
//! 5. the mail exchanger's domain, looked up in the ISPDB.
//!
//! The first source to name a side wins, and from each source a side over implicit TLS
//! is preferred. The ladder fetches and looks up nothing itself: `Ladder::action` says
//! what is needed next and `Ladder::answer` takes the reply. Results are kept in memory
//! for a while, failures for a shorter while.
//!
//! The domain comes from a caller, so nothing is asked of the network unless
//! `is_public_domain` holds of it.

use vstd::hash_map::StringHashMap;
use vstd::prelude::*;

use crate::auth;
use crate::auth::HostPort;
use crate::config;
use crate::endpoint;
use crate::error;
use crate::error::{ErrorKind, GatewayError};
use crate::ladder;
use crate::ladder::{Ladder, LadderValue};
use crate::net;
use crate::text;

verus! {

/// Where the ISPDB keeps its configurations.
pub const ISPDB_BASE: &'static str = "https://autoconfig.thunderbird.net/v1.1";

/// Nanoseconds in a second.
pub const NANOS: u128 = 1_000_000_000;

// ---------------------------------------------------------------------------
// Settings
// ---------------------------------------------------------------------------

/// How targets are derived. Times are in seconds.
#[derive(Debug, Clone, Copy, PartialEq, Eq)]
pub struct AutoconfigSettings {
    /// Whether targets are derived at all.
    pub enabled: bool,
    /// How long one fetch or lookup may take.
    pub timeout: u64,
    /// How long a result is kept.
    pub pos_ttl: u64,
    /// How long a failure is kept.
    pub neg_ttl: u64,
}

impl Default for AutoconfigSettings {
    fn default() -> (r: Self)
        ensures
            r == default_settings(),
    {
        AutoconfigSettings { enabled: true, timeout: 5, pos_ttl: 3600, neg_ttl: 300 }
    }
}

/// The settings that hold where nothing else is said.
pub open spec fn default_settings() -> AutoconfigSettings {
    AutoconfigSettings { enabled: true, timeout: 5, pos_ttl: 3600, neg_ttl: 300 }
}

/// The seconds that a variable says, where it says a whole number above 0.
pub open spec fn seconds(raw: Option<Seq<char>>, default: u64) -> u64 {
    match raw {
        None => default,
        Some(s) => match text::unsigned_in(text::trimmed(s), u64::MAX as nat) {
            Some(n) => if n > 0 {
                n as u64
            } else {
                default
            },
            None => default,
        },
    }
}

/// The seconds that `raw` says, where it says a whole number above 0; else `default`.
pub fn secs_or(raw: &Option<String>, default: u64) -> (r: u64)
    ensures
        r == seconds(raw.deep_view(), default),
{
    match raw {
        None => default,
        Some(s) => {
            let all = text::to_chars(s.as_str());
            match text::parse_unsigned(text::trim_chars(all.as_slice()), u64::MAX) {
                Some(n) => if n > 0 {
                    n
                } else {
                    default
                },
                None => default,
            }
        },
    }
}

/// The settings that the variables ask for. A switch or a time that cannot be read counts as
/// not set.
pub open spec fn settings_of(
    enable: Option<Seq<char>>,
    timeout_secs: Option<Seq<char>>,
    cache_ttl_secs: Option<Seq<char>>,
) -> AutoconfigSettings {
    AutoconfigSettings {
        enabled: match enable {
            Some(v) => match config::bool_text(v) {
                Some(on) => on,
                None => true,
            },
            None => true,
        },
        timeout: seconds(timeout_secs, 5),
        pos_ttl: seconds(cache_ttl_secs, 3600),
        neg_ttl: 300,
    }
}

impl AutoconfigSettings {
    /// The settings that the variables `OVERFWD_AUTOCONFIG_ENABLE`, `_TIMEOUT_SECS` and
    /// `_CACHE_TTL_SECS` ask for.
    pub fn from_env(
        enable: &Option<String>,
        timeout_secs: &Option<String>,
        cache_ttl_secs: &Option<String>,
    ) -> (r: Self)
        ensures
            r == settings_of(
                enable.deep_view(),
                timeout_secs.deep_view(),
                cache_ttl_secs.deep_view(),
            ),
    {
        let defaults = AutoconfigSettings::default();
        let enabled = match enable {
            Some(v) => match config::parse_bool(v.as_str()) {
                Some(on) => on,
                None => defaults.enabled,
            },
            None => defaults.enabled,
        };
        AutoconfigSettings {
            enabled,
            timeout: secs_or(timeout_secs, defaults.timeout),
            pos_ttl: secs_or(cache_ttl_secs, defaults.pos_ttl),
            neg_ttl: defaults.neg_ttl,
        }
    }
}

// ---------------------------------------------------------------------------
// Targets
// ---------------------------------------------------------------------------

/// The targets that a source names; either side may be missing.
#[derive(Debug, PartialEq, Eq)]
pub struct MailServers {
    pub imap: Option<HostPort>,
    pub smtp: Option<HostPort>,
}

/// What a `MailServers` holds.
#[verifier::ext_equal]
pub struct ServersValue {
    pub imap: Option<(Seq<char>, u16)>,
    pub smtp: Option<(Seq<char>, u16)>,
}

impl DeepView for MailServers {
    type V = ServersValue;

    open spec fn deep_view(&self) -> ServersValue {
        ServersValue { imap: self.imap.deep_view(), smtp: self.smtp.deep_view() }
    }
}

impl Clone for MailServers {
    fn clone(&self) -> (r: Self)
        ensures
            r == *self,
    {
        MailServers { imap: auth::clone_target(&self.imap), smtp: auth::clone_target(&self.smtp) }
    }
}

impl Default for MailServers {
    fn default() -> (r: Self)
        ensures
            r.deep_view() == no_servers(),
    {
        MailServers { imap: None, smtp: None }
    }
}

/// No targets.
pub open spec fn no_servers() -> ServersValue {
    ServersValue { imap: None, smtp: None }
}

impl ServersValue {
    /// Both sides are there.
    pub open spec fn complete(self) -> bool {
        self.imap is Some && self.smtp is Some
    }

    /// Neither side is there.
    pub open spec fn empty(self) -> bool {
        self.imap is None && self.smtp is None
    }

    /// These targets, a missing side taken from `other`.
    pub open spec fn or(self, other: ServersValue) -> ServersValue {
        ServersValue {
            imap: if self.imap is Some {
                self.imap
            } else {
                other.imap
            },
            smtp: if self.smtp is Some {
                self.smtp
            } else {
                other.smtp
            },
        }
    }
}

impl MailServers {
    /// Whether both sides are there.
    pub fn is_complete(&self) -> (r: bool)
        ensures
            r == self.deep_view().complete(),
    {
        self.imap.is_some() && self.smtp.is_some()
    }

    /// Whether neither side is there.
    pub fn is_empty(&self) -> (r: bool)
        ensures
            r == self.deep_view().empty(),
    {
        self.imap.is_none() && self.smtp.is_none()
    }

    /// Takes a missing side from `other`.
    pub fn merge_from(&mut self, other: MailServers)
        ensures
            final(self).deep_view() == old(self).deep_view().or(other.deep_view()),
    {
        if self.imap.is_none() {
            self.imap = other.imap;
        }
        if self.smtp.is_none() {
            self.smtp = other.smtp;
        }
    }
}

/// A DNS SRV record: host and port.
#[derive(Debug, PartialEq, Eq)]
pub struct SrvRecord {
    pub host: String,
    pub port: u16,
}

impl DeepView for SrvRecord {
    type V = (Seq<char>, u16);

    open spec fn deep_view(&self) -> (Seq<char>, u16) {
        (self.host@, self.port)
    }
}

impl Clone for SrvRecord {
    fn clone(&self) -> (r: Self)
        ensures
            r == *self,
    {
        SrvRecord { host: self.host.clone(), port: self.port }
    }
}

// ---------------------------------------------------------------------------
// Domains
// ---------------------------------------------------------------------------

/// A label of a domain name: 1 to 63 letters, digits and hyphens, no hyphen at an end.
pub open spec fn is_label(s: Seq<char>) -> bool {
    &&& 1 <= s.len() <= 63
    &&& forall|i: int| 0 <= i < s.len() ==> text::is_alphanumeric(#[trigger] s[i]) || s[i] == '-'
    &&& s[0] != '-'
    &&& s.last() != '-'
}

/// A plausible public mail domain: two labels or more, not an IP address and not a name
/// that never denotes a public host.
pub open spec fn is_public(domain: Seq<char>) -> bool {
    let d = text::stripped_end(domain, '.');
    let labels = text::split(d, '.');
    &&& d.len() <= 253
    &&& d.contains('.')
    &&& net::ip_literal(d) is None
    &&& !endpoint::is_internal_name(d)
    &&& forall|i: int| 0 <= i < labels.len() ==> is_label(#[trigger] labels[i])
}

fn label(s: &[char]) -> (r: bool)
    ensures
        r == is_label(s@),
{
    if s.len() == 0 || s.len() > 63 || s[0] == '-' || s[s.len() - 1] == '-' {
        return false;
    }
    let mut i: usize = 0;
    while i < s.len()
        invariant
            i <= s.len(),
            forall|j: int|
                0 <= j < i ==> text::is_alphanumeric(#[trigger] s@[j]) || s@[j] == '-',
        decreases s.len() - i,
    {
        let c = s[i];
        let ok = ('0' <= c && c <= '9') || ('a' <= c && c <= 'z') || ('A' <= c && c <= 'Z') || c
            == '-';
        if !ok {
            return false;
        }
        i = i + 1;
    }
    true
}

/// Whether `domain` is a plausible public mail domain. Nothing is asked of the network
/// for any other.
pub fn is_public_domain(domain: &str) -> (r: bool)
    ensures
        r == is_public(domain@),
{
    let all = text::to_chars(domain);
    let d = text::strip_end_chars(all.as_slice(), '.');
    if d.len() > 253 || !text::has_char(d, '.') {
        return false;
    }
    if net::parse_ip(d).is_some() {
        return false;
    }
    if endpoint::internal_name(d) {
        return false;
    }
    let labels = text::split_chars(d, '.');
    let ghost want = text::split(d@, '.');
    let mut i: usize = 0;
    while i < labels.len()
        invariant
            i <= labels.len(),
            text::pieces(labels@) == want,
            want == text::split(text::stripped_end(domain@, '.'), '.'),
            forall|j: int| 0 <= j < i ==> is_label(#[trigger] want[j]),
        decreases labels.len() - i,
    {
        assert(want[i as int] == labels@[i as int]@);
        if !label(labels[i]) {
            assert(!is_label(want[i as int]));
            return false;
        }
        i = i + 1;
    }
    true
}

/// The labels that are not empty.
pub open spec fn full_labels(host: Seq<char>) -> Seq<Seq<char>> {
    text::split(host, '.').filter(|l: Seq<char>| l.len() > 0)
}

/// The last two labels of a host name, in small letters.
pub open spec fn registrable(host: Seq<char>) -> Seq<char> {
    let h = text::lowered(text::stripped_end(host, '.'));
    let labels = full_labels(h);
    let n = labels.len() as int;
    if n <= 2 {
        h
    } else {
        labels[n - 2] + "."@ + labels[n - 1]
    }
}

fn keep_full<'a>(all: &Vec<&'a [char]>) -> (r: Vec<&'a [char]>)
    ensures
        text::pieces(r@) == text::pieces(all@).filter(|l: Seq<char>| l.len() > 0),
{
    let mut out: Vec<&'a [char]> = Vec::new();
    let ghost want = text::pieces(all@);
    let ghost full = |l: Seq<char>| l.len() > 0;
    let mut i: usize = 0;
    assert(text::pieces(out@) =~= want.take(0).filter(full)) by {
        reveal_with_fuel(Seq::filter, 1);
    }
    while i < all.len()
        invariant
            i <= all.len(),
            want == text::pieces(all@),
            full == (|l: Seq<char>| l.len() > 0),
            text::pieces(out@) == want.take(i as int).filter(full),
        decreases all.len() - i,
    {
        let l = all[i];
        proof {
            assert(want.take(i + 1).drop_last() =~= want.take(i as int));
            assert(want[i as int] == l@);
            reveal_with_fuel(Seq::filter, 2);
        }
        let ghost before = text::pieces(out@);
        if l.len() > 0 {
            out.push(l);
            assert(text::pieces(out@) =~= before.push(l@));
        }
        i = i + 1;
    }
    assert(want.take(i as int) =~= want);
    out
}

/// The last two labels of a host name: the key under which an exchanger's provider is
/// looked up.
pub fn registrable_domain(host: &str) -> (r: String)
    ensures
        r@ == registrable(host@),
{
    let all = text::to_chars(host);
    let h = text::lower_chars(text::strip_end_chars(all.as_slice(), '.'));
    let pieces = text::split_chars(h.as_slice(), '.');
    let labels = keep_full(&pieces);
    assert(text::pieces(labels@) == full_labels(h@));
    let n: usize = labels.len();
    if n <= 2 {
        text::from_chars(h.as_slice())
    } else {
        assert(full_labels(h@)[n - 2] == labels@[n - 2]@);
        assert(full_labels(h@)[n - 1] == labels@[n - 1]@);
        let mut out = text::from_chars(labels[n - 2]);
        out.append(".");
        out.append(text::from_chars(labels[n - 1]).as_str());
        out
    }
}

// ---------------------------------------------------------------------------
// Configurations
// ---------------------------------------------------------------------------

/// A server in a provider's configuration.
#[derive(Debug, Clone, PartialEq, Eq)]
pub struct XmlServer {
    /// The protocol: `imap`, `pop3`, `smtp`.
    pub kind: String,
    pub hostname: Option<String>,
    pub port: Option<u16>,
    /// How the connection is secured: `SSL` is implicit TLS.
    pub socket_type: Option<String>,
}

/// A provider's configuration: its incoming and outgoing servers.
#[derive(Debug, Clone, PartialEq, Eq)]
pub struct ClientConfig {
    pub incoming: Vec<XmlServer>,
    pub outgoing: Vec<XmlServer>,
}

/// What an `XmlServer` holds.
#[verifier::ext_equal]
pub struct XmlServerValue {
    pub kind: Seq<char>,
    pub hostname: Option<Seq<char>>,
    pub port: Option<u16>,
    pub socket_type: Option<Seq<char>>,
}

/// What a `ClientConfig` holds.
#[verifier::ext_equal]
pub struct ConfigValue {
    pub incoming: Seq<XmlServerValue>,
    pub outgoing: Seq<XmlServerValue>,
}

impl DeepView for XmlServer {
    type V = XmlServerValue;

    open spec fn deep_view(&self) -> XmlServerValue {
        XmlServerValue {
            kind: self.kind@,
            hostname: self.hostname.deep_view(),
            port: self.port,
            socket_type: self.socket_type.deep_view(),
        }
    }
}

impl DeepView for ClientConfig {
    type V = ConfigValue;

    open spec fn deep_view(&self) -> ConfigValue {
        ConfigValue { incoming: self.incoming.deep_view(), outgoing: self.outgoing.deep_view() }
    }
}

impl XmlServerValue {
    /// A server of the protocol `kind`, whatever the case of its letters, that names a
    /// host and a port.
    pub open spec fn usable(self, kind: Seq<char>) -> bool {
        &&& text::lowered(self.kind) == text::lowered(kind)
        &&& self.hostname matches Some(h)
        &&& h.len() > 0
        &&& self.port is Some
    }

    /// A server over implicit TLS.
    pub open spec fn implicit_tls(self) -> bool {
        &&& self.socket_type matches Some(t)
        &&& text::lowered(t) == text::lowered("SSL"@)
    }

    /// Host and port of a usable server.
    pub open spec fn target(self) -> (Seq<char>, u16) {
        (self.hostname->0, self.port->0)
    }
}

/// The first of `servers` that is usable for `kind`, over implicit TLS where `tls` is set.
pub open spec fn first_usable(servers: Seq<XmlServerValue>, kind: Seq<char>, tls: bool) -> Option<
    (Seq<char>, u16),
>
    decreases servers.len(),
{
    if servers.len() == 0 {
        None
    } else if servers[0].usable(kind) && (tls ==> servers[0].implicit_tls()) {
        Some(servers[0].target())
    } else {
        first_usable(servers.skip(1), kind, tls)
    }
}

/// The target picked for `kind`: the first over implicit TLS, else the first there is.
pub open spec fn picked(servers: Seq<XmlServerValue>, kind: Seq<char>) -> Option<
    (Seq<char>, u16),
> {
    match first_usable(servers, kind, true) {
        Some(t) => Some(t),
        None => first_usable(servers, kind, false),
    }
}

/// The target picked for `kind` where it is not over implicit TLS.
pub open spec fn picked_plain(servers: Seq<XmlServerValue>, kind: Seq<char>) -> Option<
    (Seq<char>, u16),
> {
    if first_usable(servers, kind, true) is Some {
        None
    } else {
        first_usable(servers, kind, false)
    }
}

/// The targets that a configuration names.
pub open spec fn config_servers(config: ConfigValue) -> ServersValue {
    ServersValue {
        imap: picked(config.incoming, "imap"@),
        smtp: picked(config.outgoing, "smtp"@),
    }
}

fn same_letters(a: &str, b: &str) -> (r: bool)
    ensures
        r == (text::lowered(a@) == text::lowered(b@)),
{
    text::same(text::lower(a).as_str(), text::lower(b).as_str())
}

fn find_server(servers: &Vec<XmlServer>, kind: &str, tls: bool) -> (r: Option<HostPort>)
    ensures
        r.deep_view() == first_usable(servers.deep_view(), kind@, tls),
{
    let ghost all = servers.deep_view();
    let mut i: usize = 0;
    assert(all.skip(0) =~= all);
    while i < servers.len()
        invariant
            i <= servers.len(),
            all == servers.deep_view(),
            first_usable(all.skip(i as int), kind@, tls) == first_usable(all, kind@, tls),
        decreases servers.len() - i,
    {
        let s = &servers[i];
        proof {
            assert(all[i as int] == s.deep_view());
            assert(all.skip(i as int)[0] == s.deep_view());
            assert(all.skip(i as int).skip(1) =~= all.skip(i + 1));
        }
        if same_letters(s.kind.as_str(), kind) {
            if let (Some(host), Some(port)) = (&s.hostname, s.port) {
                let over_tls = match &s.socket_type {
                    Some(t) => same_letters(t.as_str(), "SSL"),
                    None => false,
                };
                if !text::same(host.as_str(), "") && (!tls || over_tls) {
                    assert(host@.len() > 0) by {
                        reveal_strlit("");
                        if host@.len() == 0 {
                            assert(host@ =~= ""@);
                        }
                    }
                    return Some(HostPort { host: host.clone(), port });
                }
                proof {
                    reveal_strlit("");
                }
            }
        }
        i = i + 1;
    }
    assert(all.skip(i as int) =~= Seq::empty());
    None
}

/// The target for `kind` among `servers`: the first over implicit TLS, else the first
/// that is usable.
pub fn pick_server(servers: &Vec<XmlServer>, kind: &str) -> (r: Option<HostPort>)
    ensures
        r.deep_view() == picked(servers.deep_view(), kind@),
{
    match find_server(servers, kind, true) {
        Some(t) => Some(t),
        None => find_server(servers, kind, false),
    }
}

/// The target for `kind` among `servers` where none is usable over implicit TLS.
pub fn pick_plain(servers: &Vec<XmlServer>, kind: &str) -> (r: Option<HostPort>)
    ensures
        r.deep_view() == picked_plain(servers.deep_view(), kind@),
{
    match find_server(servers, kind, true) {
        Some(_) => None,
        None => find_server(servers, kind, false),
    }
}

/// The targets that a configuration names; `None` where it names none.
pub fn parse_autoconfig(config: &ClientConfig) -> (r: Option<MailServers>)
    ensures
        r.deep_view() == if config_servers(config.deep_view()).empty() {
            None::<ServersValue>
        } else {
            Some(config_servers(config.deep_view()))
        },
{
    let servers = MailServers {
        imap: pick_server(&config.incoming, "imap"),
        smtp: pick_server(&config.outgoing, "smtp"),
    };
    if servers.is_empty() {
        None
    } else {
        Some(servers)
    }
}

// ---------------------------------------------------------------------------
// Results that are kept
// ---------------------------------------------------------------------------

/// A result that is kept: the targets, or that there are none, until a moment given in
/// nanoseconds.
#[derive(Debug)]
pub struct CacheEntry {
    pub expires: u128,
    pub value: Option<MailServers>,
}

/// What a `CacheEntry` holds.
pub type EntryValue = (u128, Option<ServersValue>);

impl DeepView for CacheEntry {
    type V = EntryValue;

    open spec fn deep_view(&self) -> EntryValue {
        (self.expires, self.value.deep_view())
    }
}

/// The resolver: its settings, and the results that it keeps, by domain.
pub struct Autoconfig {
    settings: AutoconfigSettings,
    cache: StringHashMap<CacheEntry>,
}

/// How a request for a domain's targets goes on.
pub enum Resolution {
    /// It is settled without asking anything.
    Settled(Result<MailServers, GatewayError>),
    /// The ladder is to be climbed, and its end handed to `Autoconfig::settle`.
    Climb(Ladder),
}

/// What a `Resolution` holds.
#[verifier::ext_equal]
pub enum ResolutionValue {
    Settled(Result<ServersValue, (ErrorKind, Seq<char>)>),
    Climb(LadderValue),
}

impl DeepView for Resolution {
    type V = ResolutionValue;

    open spec fn deep_view(&self) -> ResolutionValue {
        match *self {
            Resolution::Settled(r) => ResolutionValue::Settled(error::outcome(r)),
            Resolution::Climb(l) => ResolutionValue::Climb(l.deep_view()),
        }
    }
}

/// The domain as it is kept and asked for: trimmed, without dots at its end, in small
/// letters.
pub open spec fn normal_domain(domain: Seq<char>) -> Seq<char> {
    text::lowered(text::stripped_end(text::trimmed(domain), '.'))
}

/// The error for a domain without targets.
pub open spec fn miss_error(domain: Seq<char>) -> (ErrorKind, Seq<char>) {
    (
        ErrorKind::AutoconfigFailed,
        "no mail autoconfiguration found for domain '"@ + domain
            + "'; supply X-Mailbox-Imap/-Smtp explicitly"@,
    )
}

/// The error for a domain that cannot be a public mail domain.
pub open spec fn not_public_error(domain: Seq<char>) -> (ErrorKind, Seq<char>) {
    (ErrorKind::AutoconfigFailed, "'"@ + domain + "' is not a resolvable public mail domain"@)
}

/// What is said to a caller of a domain's targets.
pub open spec fn told(domain: Seq<char>, value: Option<ServersValue>) -> Result<
    ServersValue,
    (ErrorKind, Seq<char>),
> {
    match value {
        Some(servers) => Ok(servers),
        None => Err(miss_error(domain)),
    }
}

/// What is kept of a domain at the moment `now`.
pub open spec fn cached(contents: Map<Seq<char>, EntryValue>, domain: Seq<char>, now: u128) -> Option<
    Option<ServersValue>,
> {
    if contents.contains_key(domain) && contents[domain].0 > now {
        Some(contents[domain].1)
    } else {
        None
    }
}

/// How a request for the targets of `domain` goes on at the moment `now`.
pub open spec fn resolution(
    contents: Map<Seq<char>, EntryValue>,
    domain: Seq<char>,
    email: Option<Seq<char>>,
    now: u128,
) -> ResolutionValue {
    let d = normal_domain(domain);
    if !is_public(d) {
        ResolutionValue::Settled(Err(not_public_error(d)))
    } else {
        match cached(contents, d, now) {
            Some(value) => ResolutionValue::Settled(told(d, value)),
            None => ResolutionValue::Climb(ladder::ladder_start(d, email)),
        }
    }
}

/// What is kept of targets that were found: nothing where none was.
pub open spec fn kept_value(found: ServersValue) -> Option<ServersValue> {
    if found.empty() {
        None
    } else {
        Some(found)
    }
}

/// How long a result, or that there is none, is kept, in nanoseconds.
pub open spec fn kept_for(settings: AutoconfigSettings, value: Option<ServersValue>) -> nat {
    if value is Some {
        settings.pos_ttl as nat * NANOS as nat
    } else {
        settings.neg_ttl as nat * NANOS as nat
    }
}

fn autoconfig_miss(domain: &str) -> (r: GatewayError)
    ensures
        r@ == miss_error(domain@),
{
    GatewayError::AutoconfigFailed(
        text::concat3(
            "no mail autoconfiguration found for domain '",
            domain,
            "'; supply X-Mailbox-Imap/-Smtp explicitly",
        ),
    )
}

impl Autoconfig {
    /// The settings of the resolver.
    pub closed spec fn settings(self) -> AutoconfigSettings {
        self.settings
    }

    /// The results that are kept, by domain.
    pub closed spec fn contents(self) -> Map<Seq<char>, EntryValue> {
        self.cache@.map_values(|e: CacheEntry| e.deep_view())
    }

    /// A resolver that keeps nothing yet.
    pub fn new(settings: AutoconfigSettings) -> (r: Self)
        ensures
            r.settings() == settings,
            r.contents() == Map::<Seq<char>, EntryValue>::empty(),
    {
        let r = Autoconfig { settings, cache: StringHashMap::new() };
        assert(r.contents() =~= Map::<Seq<char>, EntryValue>::empty());
        r
    }

    /// A resolver with the settings that the variables ask for, which keeps nothing yet.
    pub fn from_env(
        enable: &Option<String>,
        timeout_secs: &Option<String>,
        cache_ttl_secs: &Option<String>,
    ) -> (r: Self)
        ensures
            r.settings() == settings_of(
                enable.deep_view(),
                timeout_secs.deep_view(),
                cache_ttl_secs.deep_view(),
            ),
            r.contents() == Map::<Seq<char>, EntryValue>::empty(),
    {
        Autoconfig::new(AutoconfigSettings::from_env(enable, timeout_secs, cache_ttl_secs))
    }

    /// Whether targets are derived at all.
    pub fn enabled(&self) -> (r: bool)
        ensures
            r == self.settings().enabled,
    {
        self.settings.enabled
    }

    fn cache_get(&self, domain: &str, now: u128) -> (r: Option<Option<MailServers>>)
        ensures
            r.deep_view() == cached(self.contents(), domain@, now),
    {
        match self.cache.get(domain) {
            None => None,
            Some(entry) => if entry.expires > now {
                match &entry.value {
                    Some(servers) => Some(Some(servers.clone())),
                    None => Some(None),
                }
            } else {
                None
            },
        }
    }

    /// How a request for the targets of `domain` goes on at the moment `now`, in
    /// nanoseconds: it fails for a domain that is not public, is answered from what is
    /// kept, or asks for the ladder to be climbed.
    pub fn resolve(&self, domain: &str, email: Option<String>, now: u128) -> (r: Resolution)
        ensures
            r.deep_view() == resolution(self.contents(), domain@, email.deep_view(), now),
    {
        let all = text::to_chars(domain);
        let trimmed = text::strip_end_chars(text::trim_chars(all.as_slice()), '.');
        let d = text::from_chars(text::lower_chars(trimmed).as_slice());
        if !is_public_domain(d.as_str()) {
            return Resolution::Settled(
                Err(
                    GatewayError::AutoconfigFailed(
                        text::concat3(
                            "'",
                            d.as_str(),
                            "' is not a resolvable public mail domain",
                        ),
                    ),
                ),
            );
        }
        match self.cache_get(d.as_str(), now) {
            Some(Some(servers)) => Resolution::Settled(Ok(servers)),
            Some(None) => Resolution::Settled(Err(autoconfig_miss(d.as_str()))),
            None => Resolution::Climb(Ladder::new(d, email)),
        }
    }

    fn cache_put(&mut self, domain: &str, value: Option<MailServers>, now: u128)
        requires
            now + kept_for(old(self).settings(), value.deep_view()) <= u128::MAX,
        ensures
            final(self).settings() == old(self).settings(),
            final(self).contents() == old(self).contents().insert(
                domain@,
                (
                    (now + kept_for(old(self).settings(), value.deep_view())) as u128,
                    value.deep_view(),
                ),
            ),
    {
        let secs: u64 = if value.is_some() {
            self.settings.pos_ttl
        } else {
            self.settings.neg_ttl
        };
        assert(secs as u128 * NANOS <= u128::MAX) by (nonlinear_arith)
            requires
                secs <= u64::MAX,
                NANOS == 1_000_000_000,
        ;
        let entry = CacheEntry { expires: now + secs as u128 * NANOS, value };
        let ghost stored = entry.deep_view();
        self.cache.insert(domain.to_owned(), entry);
        assert(self.contents() =~= old(self).contents().insert(domain@, stored));
    }

    /// Takes the end of the ladder at the moment `now`: keeps what was found, or that
    /// nothing was, and says what is to be told to the caller.
    pub fn settle(&mut self, ladder: Ladder, now: u128) -> (r: Result<MailServers, GatewayError>)
        requires
            now + kept_for(old(self).settings(), kept_value(ladder.found.deep_view()))
                <= u128::MAX,
        ensures
            final(self).settings() == old(self).settings(),
            final(self).contents() == old(self).contents().insert(
                ladder.domain@,
                (
                    (now + kept_for(
                        old(self).settings(),
                        kept_value(ladder.found.deep_view()),
                    )) as u128,
                    kept_value(ladder.found.deep_view()),
                ),
            ),
            error::outcome(r) == told(ladder.domain@, kept_value(ladder.found.deep_view())),
    {
        let found = ladder.found;
        if found.is_empty() {
            self.cache_put(ladder.domain.as_str(), None, now);
            Err(autoconfig_miss(ladder.domain.as_str()))
        } else {
            self.cache_put(ladder.domain.as_str(), Some(found.clone()), now);
            Ok(found)
        }
    }
}

/// What was found for a domain, targets or none, is what the next caller is told, with
/// nothing asked, until it has been kept for its time.
pub proof fn law_result_is_kept(
    contents: Map<Seq<char>, EntryValue>,
    domain: Seq<char>,
    email: Option<Seq<char>>,
    found: ServersValue,
    expires: u128,
    now: u128,
)
    requires
        is_public(normal_domain(domain)),
        now < expires,
    ensures
        resolution(
            contents.insert(normal_domain(domain), (expires, kept_value(found))),
            domain,
            email,
            now,
        ) == ResolutionValue::Settled(told(normal_domain(domain), kept_value(found))),
{
}

/// Once its time is over, a result is no longer used: the ladder is climbed anew.
pub proof fn law_old_result_is_not_used(
    contents: Map<Seq<char>, EntryValue>,
    domain: Seq<char>,
    email: Option<Seq<char>>,
    found: ServersValue,
    expires: u128,
    now: u128,
)
    requires
        is_public(normal_domain(domain)),
        now >= expires,
    ensures
        resolution(
            contents.insert(normal_domain(domain), (expires, kept_value(found))),
            domain,
            email,
            now,
        ) == ResolutionValue::Climb(ladder::ladder_start(normal_domain(domain), email)),
{
}

/// For a domain that is not public nothing is asked of the network, whatever is kept.
pub proof fn law_only_public_domains_are_asked_for(
    contents: Map<Seq<char>, EntryValue>,
    domain: Seq<char>,
    email: Option<Seq<char>>,
    now: u128,
)
    ensures
        resolution(contents, domain, email, now) is Climb ==> is_public(normal_domain(domain)),
{
}

proof fn lemma_first_usable(servers: Seq<XmlServerValue>, kind: Seq<char>, tls: bool, i: int)
    requires
        0 <= i < servers.len(),
        servers[i].usable(kind) && (tls ==> servers[i].implicit_tls()),
        forall|j: int|
            0 <= j < i ==> !((#[trigger] servers[j]).usable(kind) && (tls
                ==> servers[j].implicit_tls())),
    ensures
        first_usable(servers, kind, tls) == Some(servers[i].target()),
    decreases i,
{
    if i > 0 {
        assert(!(servers[0].usable(kind) && (tls ==> servers[0].implicit_tls())));
        let rest = servers.skip(1);
        assert(rest[i - 1] == servers[i]);
        assert forall|j: int| 0 <= j < i - 1 implies !((#[trigger] rest[j]).usable(kind) && (tls
            ==> rest[j].implicit_tls())) by {
            assert(rest[j] == servers[j + 1]);
        }
        lemma_first_usable(rest, kind, tls, i - 1);
    }
}

proof fn lemma_no_usable(servers: Seq<XmlServerValue>, kind: Seq<char>, tls: bool)
    requires
        forall|j: int|
            0 <= j < servers.len() ==> !((#[trigger] servers[j]).usable(kind) && (tls
                ==> servers[j].implicit_tls())),
    ensures
        first_usable(servers, kind, tls) is None,
    decreases servers.len(),
{
    if servers.len() > 0 {
        assert(!(servers[0].usable(kind) && (tls ==> servers[0].implicit_tls())));
        let rest = servers.skip(1);
        assert forall|j: int| 0 <= j < rest.len() implies !((#[trigger] rest[j]).usable(kind) && (
        tls ==> rest[j].implicit_tls())) by {
            assert(rest[j] == servers[j + 1]);
        }
        lemma_no_usable(rest, kind, tls);
    }
}

/// A listed server that can be a target of the protocol `kind`: it is of that protocol, in
/// letters of whichever case, and names a host, not an empty one, and a port.
pub open spec fn names_target(s: XmlServerValue, kind: Seq<char>) -> bool {
    &&& text::lowered(s.kind) == kind
    &&& s.hostname is Some && s.hostname->0.len() > 0
    &&& s.port is Some
}

/// A listed server over implicit TLS: its socket type is `SSL`, in letters of whichever
/// case.
pub open spec fn says_ssl(s: XmlServerValue) -> bool {
    s.socket_type is Some && text::lowered(s.socket_type->0) == "ssl"@
}

proof fn lemma_kinds()
    ensures
        text::lowered("imap"@) == "imap"@,
        text::lowered("smtp"@) == "smtp"@,
        text::lowered("SSL"@) == "ssl"@,
{
    reveal_strlit("imap");
    reveal_strlit("smtp");
    reveal_strlit("SSL");
    reveal_strlit("ssl");
    assert(text::lowered("imap"@) =~= "imap"@);
    assert(text::lowered("smtp"@) =~= "smtp"@);
    assert(text::lowered("SSL"@) =~= "ssl"@);
}

/// On the side of reading mail, the first listed IMAP server over implicit TLS that names
/// host and port is the target, wherever in the list it stands; without one, it is the
/// first IMAP server that names both; without any, there is no target.
pub proof fn law_implicit_tls_is_preferred_for_imap(config: ConfigValue, i: int)
    ensures
        0 <= i < config.incoming.len() && names_target(config.incoming[i], "imap"@) && says_ssl(
            config.incoming[i],
        ) && (forall|j: int|
            0 <= j < i ==> !(names_target(#[trigger] config.incoming[j], "imap"@) && says_ssl(
                config.incoming[j],
            ))) ==> config_servers(config).imap == Some(
            (config.incoming[i].hostname->0, config.incoming[i].port->0),
        ),
        0 <= i < config.incoming.len() && names_target(config.incoming[i], "imap"@) && (forall|
            j: int,
        |
            0 <= j < config.incoming.len() ==> !(names_target(
                #[trigger] config.incoming[j],
                "imap"@,
            ) && says_ssl(config.incoming[j]))) && (forall|j: int|
            0 <= j < i ==> !names_target(#[trigger] config.incoming[j], "imap"@))
            ==> config_servers(config).imap == Some(
            (config.incoming[i].hostname->0, config.incoming[i].port->0),
        ),
        (forall|j: int|
            0 <= j < config.incoming.len() ==> !names_target(
                #[trigger] config.incoming[j],
                "imap"@,
            )) ==> config_servers(config).imap is None,
{
    lemma_kinds();
    lemma_side(config.incoming, "imap"@, i);
}

/// On the side of sending mail, the first listed SMTP server over implicit TLS that names
/// host and port is the target, wherever in the list it stands; without one, it is the
/// first SMTP server that names both; without any, there is no target.
pub proof fn law_implicit_tls_is_preferred_for_smtp(config: ConfigValue, i: int)
    ensures
        0 <= i < config.outgoing.len() && names_target(config.outgoing[i], "smtp"@) && says_ssl(
            config.outgoing[i],
        ) && (forall|j: int|
            0 <= j < i ==> !(names_target(#[trigger] config.outgoing[j], "smtp"@) && says_ssl(
                config.outgoing[j],
            ))) ==> config_servers(config).smtp == Some(
            (config.outgoing[i].hostname->0, config.outgoing[i].port->0),
        ),
        0 <= i < config.outgoing.len() && names_target(config.outgoing[i], "smtp"@) && (forall|
            j: int,
        |
            0 <= j < config.outgoing.len() ==> !(names_target(
                #[trigger] config.outgoing[j],
                "smtp"@,
            ) && says_ssl(config.outgoing[j]))) && (forall|j: int|
            0 <= j < i ==> !names_target(#[trigger] config.outgoing[j], "smtp"@))
            ==> config_servers(config).smtp == Some(
            (config.outgoing[i].hostname->0, config.outgoing[i].port->0),
        ),
        (forall|j: int|
            0 <= j < config.outgoing.len() ==> !names_target(
                #[trigger] config.outgoing[j],
                "smtp"@,
            )) ==> config_servers(config).smtp is None,
{
    lemma_kinds();
    lemma_side(config.outgoing, "smtp"@, i);
}

proof fn lemma_side(servers: Seq<XmlServerValue>, kind: Seq<char>, i: int)
    requires
        text::lowered(kind) == kind,
        text::lowered("SSL"@) == "ssl"@,
    ensures
        0 <= i < servers.len() && names_target(servers[i], kind) && says_ssl(servers[i]) && (forall|
            j: int,
        |
            0 <= j < i ==> !(names_target(#[trigger] servers[j], kind) && says_ssl(servers[j])))
            ==> picked(servers, kind) == Some((servers[i].hostname->0, servers[i].port->0)),
        0 <= i < servers.len() && names_target(servers[i], kind) && (forall|j: int|
            0 <= j < servers.len() ==> !(names_target(#[trigger] servers[j], kind) && says_ssl(
                servers[j],
            ))) && (forall|j: int| 0 <= j < i ==> !names_target(#[trigger] servers[j], kind))
            ==> picked(servers, kind) == Some((servers[i].hostname->0, servers[i].port->0)),
        (forall|j: int| 0 <= j < servers.len() ==> !names_target(#[trigger] servers[j], kind))
            ==> picked(servers, kind) is None,
{
    assert forall|j: int| 0 <= j < servers.len() implies (#[trigger] servers[j]).usable(kind)
        == names_target(servers[j], kind) && servers[j].implicit_tls() == says_ssl(servers[j]) by {}
    if 0 <= i < servers.len() && names_target(servers[i], kind) && says_ssl(servers[i]) && (forall|
        j: int,
    |
        0 <= j < i ==> !(names_target(#[trigger] servers[j], kind) && says_ssl(servers[j]))) {
        lemma_first_usable(servers, kind, true, i);
    }
    if (forall|j: int|
        0 <= j < servers.len() ==> !(names_target(#[trigger] servers[j], kind) && says_ssl(
            servers[j],
        ))) {
        lemma_no_usable(servers, kind, true);
        if 0 <= i < servers.len() && names_target(servers[i], kind) && (forall|j: int|
            0 <= j < i ==> !names_target(#[trigger] servers[j], kind)) {
            lemma_first_usable(servers, kind, false, i);
        }
    }
    if (forall|j: int| 0 <= j < servers.len() ==> !names_target(#[trigger] servers[j], kind)) {
        lemma_no_usable(servers, kind, true);
        lemma_no_usable(servers, kind, false);
    }
}

/// The operator is warned of a target exactly where it is picked and no server of its
/// protocol that names host and port is over implicit TLS.
pub proof fn law_plain_targets_are_the_picked_ones(servers: Seq<XmlServerValue>, kind: Seq<char>)
    ensures
        picked_plain(servers, kind) matches Some(t) ==> picked(servers, kind) == Some(t)
            && forall|j: int|
            0 <= j < servers.len() ==> !((#[trigger] servers[j]).usable(kind)
                && servers[j].implicit_tls()),
        picked_plain(servers, kind) is None && picked(servers, kind) is Some ==> exists|j: int|
            0 <= j < servers.len() && (#[trigger] servers[j]).usable(kind)
                && servers[j].implicit_tls(),
{
    if exists|j: int|
        0 <= j < servers.len() && (#[trigger] servers[j]).usable(kind)
            && servers[j].implicit_tls() {
        let j = choose|j: int|
            0 <= j < servers.len() && (#[trigger] servers[j]).usable(kind)
                && servers[j].implicit_tls();
        lemma_some_usable(servers, kind, j);
    } else {
        lemma_no_usable(servers, kind, true);
    }
}

proof fn lemma_some_usable(servers: Seq<XmlServerValue>, kind: Seq<char>, i: int)
    requires
        0 <= i < servers.len(),
        servers[i].usable(kind) && servers[i].implicit_tls(),
    ensures
        first_usable(servers, kind, true) is Some,
    decreases i,
{
    if i > 0 && !(servers[0].usable(kind) && servers[0].implicit_tls()) {
        assert(servers.skip(1)[i - 1] == servers[i]);
        lemma_some_usable(servers.skip(1), kind, i - 1);
    }
}

/// A side that is known is never replaced, and one that is missing is taken from the next
/// source as it is there.
pub proof fn law_missing_sides_are_filled(a: ServersValue, b: ServersValue)
    ensures
        a.imap is Some ==> a.or(b).imap == a.imap,
        a.imap is None ==> a.or(b).imap == b.imap,
        a.smtp is Some ==> a.or(b).smtp == a.smtp,
        a.smtp is None ==> a.or(b).smtp == b.smtp,
        a.complete() <==> a.imap is Some && a.smtp is Some,
        a.empty() <==> a.imap is None && a.smtp is None,
{
}

/// Nothing is asked of the network for a name without a dot, for an address, or for a name
/// that ends in `.local`, `.localhost` or `.internal`; and a public name is made of labels
/// of one to 63 letters, digits and hyphens, none of which begins or ends with a hyphen.
pub proof fn law_public_names(domain: Seq<char>, i: int)
    requires
        is_public(domain),
    ensures
        ({
            let d = text::stripped_end(domain, '.');
            let labels = text::split(d, '.');
            &&& d.len() <= 253
            &&& labels.len() >= 2
            &&& net::v4_octets(d) is None && net::v6_groups(d) is None
            &&& !text::has_suffix(text::lowered(d), ".local"@)
            &&& !text::has_suffix(text::lowered(d), ".localhost"@)
            &&& !text::has_suffix(text::lowered(d), ".internal"@)
            &&& 0 <= i < labels.len() ==> 1 <= labels[i].len() <= 63 && labels[i][0] != '-'
                && labels[i].last() != '-' && forall|k: int|
                0 <= k < labels[i].len() ==> {
                    let c = (#[trigger] labels[i][k]) as u32;
                    48 <= c <= 57 || 65 <= c <= 90 || 97 <= c <= 122 || c == 45
                }
        }),
{
    let d = text::stripped_end(domain, '.');
    let labels = text::split(d, '.');
    text::lemma_find(d, '.');
    let at = text::find(d, '.');
    if at == d.len() {
        let k = d.index_of('.');
        assert(d[k] == '.');
    }
    text::law_cutting_loses_nothing(d.skip(at + 1), '.');
    if 0 <= i < labels.len() {
        assert(is_label(labels[i]));
    }
}

/// Every other name is one that may be asked for: two or more labels that are labels, not
/// too long in all, neither an address nor an internal name.
pub proof fn law_ordinary_names_are_public(labels: Seq<Seq<char>>, domain: Seq<char>)
    requires
        labels.len() >= 2,
        forall|i: int| 0 <= i < labels.len() ==> is_label(#[trigger] labels[i]),
        domain == text::join(labels, seq!['.']),
        domain.len() <= 253,
        net::ip_literal(domain) is None,
        !endpoint::is_internal_name(domain),
    ensures
        is_public(domain),
{
    assert forall|i: int| 0 <= i < labels.len() implies !(#[trigger] labels[i]).contains('.') by {
        assert(is_label(labels[i]));
        if labels[i].contains('.') {
            let k = labels[i].index_of('.');
            assert(labels[i][k] == '.');
            assert(text::is_alphanumeric(labels[i][k]) || labels[i][k] == '-');
        }
    }
    text::law_joined_parts_are_cut_out_again(labels, '.');
    let front = text::join(labels.drop_last(), seq!['.']);
    let last = labels.last();
    assert(is_label(labels[labels.len() - 1]));
    assert(domain == front + seq!['.'] + last);
    assert(domain[front.len() as int] == '.');
    assert(domain.last() == last.last());
    assert(last[last.len() - 1] != '.') by {
        assert(text::is_alphanumeric(last[last.len() - 1]) || last[last.len() - 1] == '-');
    }
    assert(text::stripped_end(domain, '.') == domain);
}

/// Of a host name with three labels or more, the last two, in small letters, are looked up.
pub proof fn law_the_last_two_labels_count(front: Seq<Seq<char>>, a: Seq<char>, b: Seq<char>)
    requires
        front.len() > 0,
        forall|i: int|
            0 <= i < front.len() ==> (#[trigger] front[i]).len() > 0 && !front[i].contains('.'),
        a.len() > 0 && !a.contains('.'),
        b.len() > 0 && !b.contains('.'),
    ensures
        registrable(text::join(front.push(a).push(b), seq!['.'])) == text::lowered(a) + "."@
            + text::lowered(b),
{
    let labels = front.push(a).push(b);
    let host = text::join(labels, seq!['.']);
    let small = Seq::new(labels.len(), |i: int| text::lowered(labels[i]));
    assert(labels.drop_last() =~= front.push(a));
    let most = text::join(front.push(a), seq!['.']);
    assert(host == most + seq!['.'] + b);
    assert(host.last() == b.last());
    assert(b.contains(b[b.len() - 1]));
    assert(text::stripped_end(host, '.') == host);
    lemma_lowered_join(labels);
    assert forall|i: int| 0 <= i < small.len() implies (#[trigger] small[i]).len() > 0
        && !small[i].contains('.') by {
        assert(labels[i].len() > 0 && !labels[i].contains('.')) by {
            if i < front.len() {
                assert(labels[i] == front[i]);
            } else if i == front.len() {
                assert(labels[i] == a);
            } else {
                assert(labels[i] == b);
            }
        }
        if small[i].contains('.') {
            let k = small[i].index_of('.');
            assert(small[i][k] == text::lower_char(labels[i][k]));
            assert(labels[i][k] == '.');
            assert(labels[i].contains(labels[i][k]));
        }
    }
    text::law_joined_parts_are_cut_out_again(small, '.');
    lemma_all_full(small);
    reveal_strlit(".");
    assert("."@ =~= seq!['.']);
    assert(small[small.len() - 2] == text::lowered(a));
    assert(small[small.len() - 1] == text::lowered(b));
}

proof fn lemma_lowered_join(labels: Seq<Seq<char>>)
    ensures
        text::lowered(text::join(labels, seq!['.'])) == text::join(
            Seq::new(labels.len(), |i: int| text::lowered(labels[i])),
            seq!['.'],
        ),
    decreases labels.len(),
{
    let small = Seq::new(labels.len(), |i: int| text::lowered(labels[i]));
    if labels.len() == 0 {
        assert(text::lowered(Seq::<char>::empty()) =~= Seq::empty());
    } else if labels.len() > 1 {
        lemma_lowered_join(labels.drop_last());
        assert(small.drop_last() =~= Seq::new(
            labels.drop_last().len(),
            |i: int| text::lowered(labels.drop_last()[i]),
        ));
        let front = text::join(labels.drop_last(), seq!['.']);
        assert(text::lowered(front + seq!['.'] + labels.last()) =~= text::lowered(front) + seq!['.']
            + text::lowered(labels.last()));
    }
}

proof fn lemma_all_full(labels: Seq<Seq<char>>)
    requires
        forall|i: int| 0 <= i < labels.len() ==> (#[trigger] labels[i]).len() > 0,
    ensures
        labels.filter(|l: Seq<char>| l.len() > 0) == labels,
    decreases labels.len(),
{
    reveal(Seq::filter);
    if labels.len() > 0 {
        assert(labels[labels.len() - 1].len() > 0);
        assert forall|i: int| 0 <= i < labels.drop_last().len() implies (
        #[trigger] labels.drop_last()[i]).len() > 0 by {
            assert(labels.drop_last()[i] == labels[i]);
        }
        lemma_all_full(labels.drop_last());
        assert(labels.drop_last().push(labels.last()) =~= labels);
    }
}

/// A host name that is one label or two is looked up as it is, in small letters.
pub proof fn law_a_short_name_is_kept(a: Seq<char>, b: Seq<char>)
    requires
        a.len() > 0 && !a.contains('.'),
        b.len() > 0 && !b.contains('.'),
    ensures
        registrable(a) == text::lowered(a),
        registrable(a + "."@ + b) == text::lowered(a + "."@ + b),
{
    reveal_strlit(".");
    assert("."@ =~= seq!['.']);
    assert(a.contains(a[a.len() - 1]));
    assert(b.contains(b[b.len() - 1]));
    let two = a + "."@ + b;
    assert(two.last() == b.last());
    assert(text::stripped_end(two, '.') == two);
    assert(text::stripped_end(a, '.') == a);
    let la = text::lowered(a);
    let lb = text::lowered(b);
    lemma_no_dot(a);
    lemma_no_dot(b);
    assert(text::join(seq![la], seq!['.']) == la);
    assert(seq![la, lb].drop_last() =~= seq![la]);
    assert(text::lowered(two) =~= text::join(seq![la, lb], seq!['.']));
    text::law_joined_parts_are_cut_out_again(seq![la], '.');
    text::law_joined_parts_are_cut_out_again(seq![la, lb], '.');
    lemma_all_full(seq![la]);
    lemma_all_full(seq![la, lb]);
}

proof fn lemma_no_dot(s: Seq<char>)
    requires
        !s.contains('.'),
    ensures
        !text::lowered(s).contains('.'),
{
    let small = text::lowered(s);
    if small.contains('.') {
        let k = small.index_of('.');
        assert(small[k] == text::lower_char(s[k]));
        assert(s.contains(s[k]));
    }
}

/// The settings are those that the variables say. Where one is not set or cannot be read,
/// targets are derived, with 5 seconds for each step, and kept for an hour; a failure is
/// always kept for 5 minutes. A time of 0 counts as not set.
pub proof fn law_settings_by_variable(
    enable: Option<Seq<char>>,
    timeout: Option<Seq<char>>,
    ttl: Option<Seq<char>>,
    n: nat,
)
    requires
        0 < n <= u64::MAX,
    ensures
        settings_of(enable, timeout, ttl).enabled <==> !(enable is Some && config::bool_text(
            enable->0,
        ) == Some(false)),
        settings_of(enable, timeout, ttl).neg_ttl == 300,
        settings_of(enable, None, ttl).timeout == 5,
        settings_of(enable, timeout, None).pos_ttl == 3600,
        settings_of(enable, Some(text::decimal(n)), ttl).timeout == n,
        settings_of(enable, timeout, Some(text::decimal(n))).pos_ttl == n,
        settings_of(enable, Some(text::decimal(0)), ttl).timeout == 5,
        settings_of(enable, timeout, Some(text::decimal(0))).pos_ttl == 3600,
        (timeout matches Some(t) && text::unsigned_in(text::trimmed(t), u64::MAX as nat) is None)
            ==> settings_of(enable, timeout, ttl).timeout == 5,
        (ttl matches Some(t) && text::unsigned_in(text::trimmed(t), u64::MAX as nat) is None)
            ==> settings_of(enable, timeout, ttl).pos_ttl == 3600,
{
    text::law_decimal_reads_back(n, u64::MAX as nat);
    text::law_decimal_reads_back(0, u64::MAX as nat);
    lemma_decimal_is_trimmed(n);
    lemma_decimal_is_trimmed(0);
}

proof fn lemma_decimal_is_trimmed(n: nat)
    ensures
        text::trimmed(text::decimal(n)) == text::decimal(n),
{
    text::law_decimal_reads_back(n, n);
    let s = text::decimal(n);
    assert(text::is_digit(s[0]));
    assert(text::is_digit(s[s.len() - 1]));
    text::law_trimmed_text_stays(s);
}

/// A domain is the same whatever the case of its letters, the space around it and the dots
/// at its end.
pub proof fn law_one_domain_under_all_its_spellings(domain: Seq<char>)
    ensures
        normal_domain(text::uppered(domain)) == normal_domain(domain),
        normal_domain(text::lowered(domain)) == normal_domain(domain),
        normal_domain(text::trimmed(domain)) == normal_domain(domain),
        normal_domain(domain).len() > 0 ==> normal_domain(domain).last() != '.',
{
    lemma_case_passes_through(domain);
    let t = text::trimmed(domain);
    let from = text::law_trimming_takes_outer_space_alone(domain);
    text::law_trimmed_text_stays(t);
    text::law_stripping_takes_the_end_alone(t, '.');
    let cut = text::stripped_end(t, '.');
    if cut.len() > 0 {
        assert(normal_domain(domain).last() == text::lower_char(cut.last()));
    }
}

proof fn lemma_case_passes_through(s: Seq<char>)
    ensures
        normal_domain(text::uppered(s)) == normal_domain(s),
        normal_domain(text::lowered(s)) == normal_domain(s),
{
    lemma_trim_case(s);
    let t = text::trimmed(s);
    lemma_strip_case(t);
    let d = text::stripped_end(t, '.');
    text::law_lowering_changes_capitals_alone(d);
}

proof fn lemma_trim_case(s: Seq<char>)
    ensures
        text::trimmed(text::uppered(s)) == text::uppered(text::trimmed(s)),
        text::trimmed(text::lowered(s)) == text::lowered(text::trimmed(s)),
{
    lemma_trim_start_case(s);
    lemma_trim_end_case(text::trimmed_start(s));
}

proof fn lemma_trim_start_case(s: Seq<char>)
    ensures
        text::trimmed_start(text::uppered(s)) == text::uppered(text::trimmed_start(s)),
        text::trimmed_start(text::lowered(s)) == text::lowered(text::trimmed_start(s)),
    decreases s.len(),
{
    if s.len() > 0 && text::is_space(s[0]) {
        lemma_trim_start_case(s.skip(1));
        assert(text::uppered(s).skip(1) =~= text::uppered(s.skip(1)));
        assert(text::lowered(s).skip(1) =~= text::lowered(s.skip(1)));
    }
}

proof fn lemma_trim_end_case(s: Seq<char>)
    ensures
        text::trimmed_end(text::uppered(s)) == text::uppered(text::trimmed_end(s)),
        text::trimmed_end(text::lowered(s)) == text::lowered(text::trimmed_end(s)),
    decreases s.len(),
{
    if s.len() > 0 && text::is_space(s.last()) {
        lemma_trim_end_case(s.drop_last());
        assert(text::uppered(s).drop_last() =~= text::uppered(s.drop_last()));
        assert(text::lowered(s).drop_last() =~= text::lowered(s.drop_last()));
    }
}

proof fn lemma_strip_case(s: Seq<char>)
    ensures
        text::stripped_end(text::uppered(s), '.') == text::uppered(text::stripped_end(s, '.')),
        text::stripped_end(text::lowered(s), '.') == text::lowered(text::stripped_end(s, '.')),
    decreases s.len(),
{
    if s.len() > 0 && s.last() == '.' {
        lemma_strip_case(s.drop_last());
        assert(text::uppered(s).drop_last() =~= text::uppered(s.drop_last()));
        assert(text::lowered(s).drop_last() =~= text::lowered(s.drop_last()));
    }
}

/// What was found is kept, and told, as it was found: both sides, or the one that there is.
/// A failure is kept and told exactly where neither side was found, and it is kept for its
/// own time. Times are counted in billionths of a second.
pub proof fn law_what_is_kept_is_what_was_found(
    domain: Seq<char>,
    found: ServersValue,
    settings: AutoconfigSettings,
)
    ensures
        kept_value(found) is None <==> found.imap is None && found.smtp is None,
        kept_value(found) matches Some(v) ==> v.imap == found.imap && v.smtp == found.smtp,
        told(domain, kept_value(found)) matches Ok(v) ==> v.imap == found.imap && v.smtp
            == found.smtp,
        told(domain, kept_value(found)) is Ok <==> found.imap is Some || found.smtp is Some,
        told(domain, kept_value(found)) matches Err(e) ==> e.0 == ErrorKind::AutoconfigFailed,
        kept_for(settings, kept_value(found)) == 1_000_000_000 * (if found.imap is Some
            || found.smtp is Some {
            settings.pos_ttl as nat
        } else {
            settings.neg_ttl as nat
        }),
{
    assert(settings.pos_ttl as nat * NANOS as nat == 1_000_000_000 * settings.pos_ttl as nat)
        by (nonlinear_arith)
        requires
            NANOS == 1_000_000_000,
    ;
    assert(settings.neg_ttl as nat * NANOS as nat == 1_000_000_000 * settings.neg_ttl as nat)
        by (nonlinear_arith)
        requires
            NANOS == 1_000_000_000,
    ;
}

/// For a public domain of which nothing is kept, the network is asked for that domain and
/// with that address; for one that is not public the caller is told so, whatever is kept.
pub proof fn law_what_is_not_kept_is_asked_for(
    contents: Map<Seq<char>, EntryValue>,
    domain: Seq<char>,
    email: Option<Seq<char>>,
    now: u128,
)
    ensures
        is_public(normal_domain(domain)) && !contents.contains_key(normal_domain(domain)) ==> (
        resolution(contents, domain, email, now) matches ResolutionValue::Climb(l) && l.domain
            == normal_domain(domain) && l.email == email && l.found.imap is None
            && l.found.smtp is None),
        !is_public(normal_domain(domain)) ==> (resolution(
            contents,
            domain,
            email,
            now,
        ) matches ResolutionValue::Settled(r) && (r matches Err(e) && e.0
            == ErrorKind::AutoconfigFailed)),
{
}

/// The settings that hold by themselves are those that hold where no variable is set.
pub proof fn law_nothing_set_means_the_default()
    ensures
        settings_of(None, None, None) == default_settings(),
        default_settings().enabled,
{
}

/// A label is made of 1 to 63 ASCII letters, digits and hyphens and neither starts nor ends
/// with a hyphen, and everything so made is one.
pub proof fn law_what_a_label_is(s: Seq<char>)
    ensures
        is_label(s) <==> {
            &&& 0 < s.len() < 64
            &&& forall|i: int|
                0 <= i < s.len() ==> '0' <= #[trigger] s[i] <= '9' || 'a' <= s[i] <= 'z' || 'A'
                    <= s[i] <= 'Z' || (s[i] == '-' && 0 < i < s.len() - 1)
        },
{
    if is_label(s) {
        assert forall|i: int| 0 <= i < s.len() implies '0' <= #[trigger] s[i] <= '9' || 'a' <= s[i]
            <= 'z' || 'A' <= s[i] <= 'Z' || (s[i] == '-' && 0 < i < s.len() - 1) by {
            assert(text::is_alphanumeric(s[i]) || s[i] == '-');
        }
    }
    if 0 < s.len() {
        assert(s.last() == s[s.len() - 1]);
    }
}

/// What is said of a domain without targets, and of one that is no public mail domain, shows
/// the domain.
pub proof fn law_a_miss_names_the_domain(domain: Seq<char>)
    ensures
        told(domain, None) matches Err(e) && e.0 == ErrorKind::AutoconfigFailed && text::holds(
            e.1,
            "'"@ + domain + "'"@,
        ),
        not_public_error(domain).0 == ErrorKind::AutoconfigFailed,
        text::has_prefix(not_public_error(domain).1, "'"@ + domain + "'"@),
{
    reveal_strlit("'");
    reveal_strlit("no mail autoconfiguration found for domain ");
    reveal_strlit("no mail autoconfiguration found for domain '");
    reveal_strlit("; supply X-Mailbox-Imap/-Smtp explicitly");
    reveal_strlit("'; supply X-Mailbox-Imap/-Smtp explicitly");
    reveal_strlit("' is not a resolvable public mail domain");
    let name = "'"@ + domain + "'"@;
    let before = "no mail autoconfiguration found for domain "@;
    let after = "; supply X-Mailbox-Imap/-Smtp explicitly"@;
    text::law_a_text_holds_its_middle(before, name, after);
    assert(before + name + after =~= miss_error(domain).1);
    assert(not_public_error(domain).1.take(name.len() as int) =~= name);
}

/// What is said of a value is said of what it holds: every field and every case stands
/// under its own name, and nothing is left out.
pub proof fn law_views_say_what_the_values_hold(
    mail_servers: MailServers,
    srv_record: SrvRecord,
    xml_server: XmlServer,
    client_config: ClientConfig,
    cache_entry: CacheEntry,
    resolution: Resolution,
)
    ensures
        mail_servers.deep_view().imap == mail_servers.imap.deep_view(),
        mail_servers.deep_view().smtp == mail_servers.smtp.deep_view(),
        srv_record.deep_view().0 == srv_record.host@,
        srv_record.deep_view().1 == srv_record.port,
        xml_server.deep_view().kind == xml_server.kind@,
        xml_server.deep_view().hostname == xml_server.hostname.deep_view(),
        xml_server.deep_view().port == xml_server.port,
        xml_server.deep_view().socket_type == xml_server.socket_type.deep_view(),
        client_config.deep_view().incoming == client_config.incoming.deep_view(),
        client_config.deep_view().outgoing == client_config.outgoing.deep_view(),
        cache_entry.deep_view().0 == cache_entry.expires,
        cache_entry.deep_view().1 == cache_entry.value.deep_view(),
        match resolution {
            Resolution::Settled(r) => resolution.deep_view()
                == ResolutionValue::Settled(error::outcome(r)),
            Resolution::Climb(l) => resolution.deep_view() == ResolutionValue::Climb(l.deep_view()),
        },
{
}

} // verus!
