//! The two independent axes of access.
//!
//! - Gateway access: `Authorization: Bearer <api_key>` is held against the one
//!   configured key, where a key is required at all.
//! - The mailbox credential: `X-Mailbox-Auth` carries user and password, the optional
//!   `X-Mailbox-Imap` and `X-Mailbox-Smtp` carry the provider's targets, and
//!   `X-Mailbox-Domain` names the domain from which an absent target is derived.
//!
//! The value of `X-Mailbox-Auth` and the password in it never reach an error message
//! or a debug text.

use axum::http::HeaderMap;
use base64::Engine;
use vstd::prelude::*;
use vstd::slice::slice_subrange;

use crate::autoconfig::{MailServers, ServersValue};
use crate::endpoint;
use crate::endpoint::{EndpointGuard, Lookup, LookupValue, Verdict, VerdictValue};
use crate::error;
use crate::error::{ErrorKind, GatewayError};
use crate::headers;
use crate::headers::{HeaderText, HeaderTextValue};
use crate::text;

verus! {

/// Header with the mailbox credential: `Basic base64(user:pass)`.
pub const H_MAILBOX_AUTH: &'static str = "X-Mailbox-Auth";

/// Header with the IMAP target: `host:port`.
pub const H_MAILBOX_IMAP: &'static str = "X-Mailbox-Imap";

/// Header with the SMTP target: `host:port`.
pub const H_MAILBOX_SMTP: &'static str = "X-Mailbox-Smtp";

/// Header with the domain to derive absent targets from.
pub const H_MAILBOX_DOMAIN: &'static str = "X-Mailbox-Domain";

/// Header with the gateway key.
pub const H_AUTHORIZATION: &'static str = "Authorization";

// ---------------------------------------------------------------------------
// Secrets
// ---------------------------------------------------------------------------

/// A secret string: a mailbox password or the gateway key. Its texts for people are
/// fixed placeholders; `expose` gives the secret itself.
#[derive(PartialEq, Eq)]
pub struct Secret(String);

impl View for Secret {
    type V = Seq<char>;

    closed spec fn view(&self) -> Seq<char> {
        self.0@
    }
}

impl DeepView for Secret {
    type V = Seq<char>;

    open spec fn deep_view(&self) -> Seq<char> {
        self@
    }
}

impl Clone for Secret {
    fn clone(&self) -> (r: Self)
        ensures
            r == *self,
    {
        Secret(self.0.clone())
    }
}

impl Secret {
    /// Wraps a secret.
    pub fn new(value: String) -> (r: Self)
        ensures
            r@ == value@,
    {
        Secret(value)
    }

    /// The secret itself, for the point of use.
    pub fn expose(&self) -> (r: &str)
        ensures
            r@ == self@,
    {
        self.0.as_str()
    }

    /// The placeholder shown in place of the secret.
    pub fn to_text(&self) -> (r: String)
        ensures
            r@ == "***redacted***"@,
    {
        "***redacted***".to_owned()
    }

    /// The placeholder shown in debug texts.
    pub fn debug_text(&self) -> (r: String)
        ensures
            r@ == "Secret(***redacted***)"@,
    {
        "Secret(***redacted***)".to_owned()
    }
}

// ---------------------------------------------------------------------------
// Targets
// ---------------------------------------------------------------------------

/// A provider's target.
#[derive(Debug, PartialEq, Eq)]
pub struct HostPort {
    pub host: String,
    pub port: u16,
}

impl DeepView for HostPort {
    type V = (Seq<char>, u16);

    open spec fn deep_view(&self) -> (Seq<char>, u16) {
        (self.host@, self.port)
    }
}

impl Clone for HostPort {
    fn clone(&self) -> (r: Self)
        ensures
            r == *self,
    {
        HostPort { host: self.host.clone(), port: self.port }
    }
}

/// What `raw`, the value of the header `header`, says as `host:port`.
pub open spec fn host_port(header: Seq<char>, raw: Seq<char>) -> Result<
    (Seq<char>, u16),
    (ErrorKind, Seq<char>),
> {
    let t = text::trimmed(raw);
    let at = text::rfind(t, ':');
    if at < 0 {
        Err((ErrorKind::BadRequest, header + " must be in host:port form"@))
    } else if at == 0 {
        Err((ErrorKind::BadRequest, header + " is missing a host"@))
    } else {
        match text::unsigned_in(t.skip(at + 1), 65535) {
            Some(port) => Ok((t.take(at), port as u16)),
            None => Err((ErrorKind::BadRequest, header + " has an invalid port"@)),
        }
    }
}

impl HostPort {
    /// Reads `host:port`: a host that is not empty, up to the last colon, and a port. An
    /// error names the header.
    pub fn parse(header: &str, raw: &str) -> (r: Result<Self, GatewayError>)
        ensures
            error::outcome(r) == host_port(header@, raw@),
    {
        let all = text::to_chars(raw);
        let t = text::trim_chars(all.as_slice());
        proof {
            text::lemma_rfind(t@, ':');
        }
        let at: usize = match text::rfind_char(t, ':') {
            None => {
                return Err(
                    GatewayError::BadRequest(text::concat(header, " must be in host:port form")),
                );
            },
            Some(i) => i,
        };
        if at == 0 {
            return Err(GatewayError::BadRequest(text::concat(header, " is missing a host")));
        }
        match text::parse_unsigned(slice_subrange(t, at + 1, t.len()), 65535) {
            None => Err(GatewayError::BadRequest(text::concat(header, " has an invalid port"))),
            Some(port) => Ok(
                HostPort { host: text::from_chars(slice_subrange(t, 0, at)), port: port as u16 },
            ),
        }
    }

    /// The target in debug form.
    pub fn debug_text(&self) -> (r: String)
        ensures
            r@ == host_port_debug(self.deep_view()),
    {
        let mut out = text::concat3(
            "HostPort { host: ",
            text::quoted(self.host.as_str()).as_str(),
            ", port: ",
        );
        text::push_decimal(&mut out, self.port as u64);
        out.append(" }");
        out
    }
}

/// The debug form of a target.
pub open spec fn host_port_debug(t: (Seq<char>, u16)) -> Seq<char> {
    "HostPort { host: "@ + text::quoted_text(t.0) + ", port: "@ + text::decimal(t.1 as nat) + " }"@
}

// ---------------------------------------------------------------------------
// The mailbox credential
// ---------------------------------------------------------------------------

/// A mailbox login with both of its targets.
pub struct MailboxCredential {
    /// The login id.
    pub username: String,
    /// The password.
    pub password: Secret,
    /// Where mail is read.
    pub imap: HostPort,
    /// Where mail is sent.
    pub smtp: HostPort,
}

/// What a `MailboxCredential` holds.
#[verifier::ext_equal]
pub struct CredentialValue {
    pub username: Seq<char>,
    pub password: Seq<char>,
    pub imap: (Seq<char>, u16),
    pub smtp: (Seq<char>, u16),
}

impl DeepView for MailboxCredential {
    type V = CredentialValue;

    open spec fn deep_view(&self) -> CredentialValue {
        CredentialValue {
            username: self.username@,
            password: self.password@,
            imap: self.imap.deep_view(),
            smtp: self.smtp.deep_view(),
        }
    }
}

impl Clone for MailboxCredential {
    fn clone(&self) -> (r: Self)
        ensures
            r == *self,
    {
        MailboxCredential {
            username: self.username.clone(),
            password: self.password.clone(),
            imap: self.imap.clone(),
            smtp: self.smtp.clone(),
        }
    }
}

/// The debug form of a credential, with the placeholder for its password.
pub open spec fn credential_debug(c: CredentialValue) -> Seq<char> {
    "MailboxCredential { username: "@ + text::quoted_text(c.username)
        + ", password: Secret(***redacted***), imap: "@ + host_port_debug(c.imap) + ", smtp: "@
        + host_port_debug(c.smtp) + " }"@
}

impl MailboxCredential {
    /// The credential in debug form, its password replaced by the placeholder.
    pub fn debug_text(&self) -> (r: String)
        ensures
            r@ == credential_debug(self.deep_view()),
    {
        let mut out = text::concat3(
            "MailboxCredential { username: ",
            text::quoted(self.username.as_str()).as_str(),
            ", password: Secret(***redacted***), imap: ",
        );
        out.append(self.imap.debug_text().as_str());
        out.append(", smtp: ");
        out.append(self.smtp.debug_text().as_str());
        out.append(" }");
        out
    }
}

/// The `X-Mailbox-*` headers as they were read, before absent targets are derived.
pub struct InlineHeaders {
    /// The login id.
    pub username: String,
    /// The password.
    pub password: Secret,
    /// The target of `X-Mailbox-Imap`.
    pub imap: Option<HostPort>,
    /// The target of `X-Mailbox-Smtp`.
    pub smtp: Option<HostPort>,
    /// The domain of `X-Mailbox-Domain`.
    pub domain: Option<String>,
}

/// What an `InlineHeaders` holds.
#[verifier::ext_equal]
pub struct InlineValue {
    pub username: Seq<char>,
    pub password: Seq<char>,
    pub imap: Option<(Seq<char>, u16)>,
    pub smtp: Option<(Seq<char>, u16)>,
    pub domain: Option<Seq<char>>,
}

impl DeepView for InlineHeaders {
    type V = InlineValue;

    open spec fn deep_view(&self) -> InlineValue {
        InlineValue {
            username: self.username@,
            password: self.password@,
            imap: self.imap.deep_view(),
            smtp: self.smtp.deep_view(),
            domain: self.domain.deep_view(),
        }
    }
}

impl Clone for InlineHeaders {
    fn clone(&self) -> (r: Self)
        ensures
            r.deep_view() == self.deep_view(),
    {
        InlineHeaders {
            username: self.username.clone(),
            password: self.password.clone(),
            imap: clone_target(&self.imap),
            smtp: clone_target(&self.smtp),
            domain: clone_text(&self.domain),
        }
    }
}

/// A copy of an optional target.
pub fn clone_target(t: &Option<HostPort>) -> (r: Option<HostPort>)
    ensures
        r == *t,
{
    match t {
        Some(hp) => Some(hp.clone()),
        None => None,
    }
}

/// A copy of an optional text.
pub fn clone_text(t: &Option<String>) -> (r: Option<String>)
    ensures
        r == *t,
{
    match t {
        Some(s) => Some(s.clone()),
        None => None,
    }
}

// ---------------------------------------------------------------------------
// Basic credentials
// ---------------------------------------------------------------------------

/// What the base64 text `s` decodes to, standard alphabet with padding; `None` where it
/// is no such text.
pub uninterp spec fn base64_bytes(s: Seq<char>) -> Option<Seq<u8>>;

/// `decode` of the `base64` crate's `STANDARD` engine. Its result is a function of the
/// text alone, named by `base64_bytes`.
#[verifier::external_body]
fn decode_base64(s: &str) -> (r: Option<Vec<u8>>)
    ensures
        match r {
            Some(bytes) => base64_bytes(s@) == Some(bytes@),
            None => base64_bytes(s@) is None,
        },
{
    base64::engine::general_purpose::STANDARD.decode(s).ok()
}

/// The base64 text of a `Basic` value: what follows the scheme, trimmed.
pub open spec fn basic_payload(value: Seq<char>) -> Option<Seq<char>> {
    if text::has_prefix(value, "Basic "@) || text::has_prefix(value, "basic "@) {
        Some(text::trimmed(value.skip(6)))
    } else {
        None
    }
}

/// User and password in the decoded bytes: UTF-8 text, line ends at its end dropped,
/// cut at the first colon; the user may not be empty.
pub open spec fn basic_pair(bytes: Seq<u8>) -> Option<(Seq<char>, Seq<char>)> {
    if !vstd::utf8::valid_utf8(bytes) {
        None
    } else {
        let t = text::without_line_end(vstd::utf8::decode_utf8(bytes));
        let at = text::find(t, ':');
        if at == t.len() || at == 0 {
            None
        } else {
            Some((t.take(at), t.skip(at + 1)))
        }
    }
}

/// The one error for a `Basic` value that cannot be read; nothing of the value is in it.
pub open spec fn malformed_auth() -> (ErrorKind, Seq<char>) {
    (ErrorKind::BadRequest, "X-Mailbox-Auth is malformed"@)
}

/// What a `Basic` value says, given what its base64 text decodes to.
pub open spec fn basic_credential(
    value: Seq<char>,
    decoded: spec_fn(Seq<char>) -> Option<Seq<u8>>,
) -> Result<(Seq<char>, Seq<char>), (ErrorKind, Seq<char>)> {
    match basic_payload(value) {
        None => Err(malformed_auth()),
        Some(payload) => match decoded(payload) {
            None => Err(malformed_auth()),
            Some(bytes) => match basic_pair(bytes) {
                None => Err(malformed_auth()),
                Some(pair) => Ok(pair),
            },
        },
    }
}

/// User and password in decoded bytes.
pub fn split_basic(bytes: Vec<u8>) -> (r: Option<(String, Secret)>)
    ensures
        r.deep_view() == basic_pair(bytes@),
{
    let decoded = match text::from_utf8(bytes) {
        None => {
            return None;
        },
        Some(s) => s,
    };
    let all = text::to_chars(decoded.as_str());
    let t = text::strip_line_end(all.as_slice());
    let at: usize = text::find_char(t, ':');
    if at == t.len() || at == 0 {
        return None;
    }
    let user = text::from_chars(slice_subrange(t, 0, at));
    let pass = text::from_chars(slice_subrange(t, at + 1, t.len()));
    Some((user, Secret::new(pass)))
}

fn malformed() -> (r: GatewayError)
    ensures
        r@ == malformed_auth(),
{
    GatewayError::BadRequest("X-Mailbox-Auth is malformed".to_owned())
}

/// Reads `Basic base64(user:pass)`. The error is the same whatever is wrong, so that
/// nothing of the value is echoed.
pub fn parse_basic(value: &str) -> (r: Result<(String, Secret), GatewayError>)
    ensures
        error::outcome(r) == basic_credential(value@, |s: Seq<char>| base64_bytes(s)),
{
    let all = text::to_chars(value);
    proof {
        reveal_strlit("Basic ");
        reveal_strlit("basic ");
    }
    if !(text::starts_with(all.as_slice(), "Basic ") || text::starts_with(
        all.as_slice(),
        "basic ",
    )) {
        return Err(malformed());
    }
    let payload = text::from_chars(text::trim_chars(slice_subrange(all.as_slice(), 6, all.len())));
    match decode_base64(payload.as_str()) {
        None => Err(malformed()),
        Some(bytes) => match split_basic(bytes) {
            None => Err(malformed()),
            Some(pair) => Ok(pair),
        },
    }
}

/// Whatever user and password are put into a `Basic` value come out of it again: the
/// user, which may not be empty nor hold a colon, as it is, and the password without the
/// line ends at its end.
pub proof fn law_basic_reads_back(user: Seq<char>, pass: Seq<char>)
    requires
        user.len() > 0,
        !user.contains(':'),
    ensures
        basic_pair(vstd::utf8::encode_utf8(user + ":"@ + pass)) == Some(
            (user, text::without_line_end(pass)),
        ),
{
    reveal_strlit(":");
    let all = user + ":"@ + pass;
    vstd::utf8::encode_utf8_valid_utf8(all);
    vstd::utf8::encode_utf8_decode_utf8(all);
    text::lemma_line_end_of_the_rest(user + ":"@, pass);
    let t = text::without_line_end(all);
    assert forall|j: int| 0 <= j < user.len() implies t[j] != ':' by {
        assert(t[j] == user[j]);
    }
    text::lemma_find_is(t, ':', user.len() as int);
    assert(t.take(user.len() as int) =~= user);
    assert(t.skip(user.len() as int + 1) =~= text::without_line_end(pass));
}

// ---------------------------------------------------------------------------
// Reading the headers
// ---------------------------------------------------------------------------

/// What the required header `name` says, of which `t` was read.
pub open spec fn required_header(t: HeaderTextValue, name: Seq<char>) -> Result<
    Seq<char>,
    (ErrorKind, Seq<char>),
> {
    match t {
        HeaderTextValue::Absent => Err((ErrorKind::BadRequest, "missing "@ + name + " header"@)),
        HeaderTextValue::NotAscii => Err((ErrorKind::BadRequest, name + " is not valid ASCII"@)),
        HeaderTextValue::Text(s) => Ok(s),
    }
}

/// What the optional header `name` says, of which `t` was read.
pub open spec fn optional_header(t: HeaderTextValue, name: Seq<char>) -> Result<
    Option<Seq<char>>,
    (ErrorKind, Seq<char>),
> {
    match t {
        HeaderTextValue::Absent => Ok(None),
        HeaderTextValue::NotAscii => Err((ErrorKind::BadRequest, name + " is not valid ASCII"@)),
        HeaderTextValue::Text(s) => Ok(Some(s)),
    }
}

/// What the optional header `name` says as `host:port`.
pub open spec fn optional_target(t: HeaderTextValue, name: Seq<char>) -> Result<
    Option<(Seq<char>, u16)>,
    (ErrorKind, Seq<char>),
> {
    match optional_header(t, name) {
        Err(e) => Err(e),
        Ok(None) => Ok(None),
        Ok(Some(raw)) => match host_port(name, raw) {
            Err(e) => Err(e),
            Ok(t) => Ok(Some(t)),
        },
    }
}

/// What `X-Mailbox-Domain` says: trimmed, in small letters, and nothing where it is blank.
pub open spec fn domain_header(t: HeaderTextValue) -> Result<
    Option<Seq<char>>,
    (ErrorKind, Seq<char>),
> {
    match optional_header(t, H_MAILBOX_DOMAIN@) {
        Err(e) => Err(e),
        Ok(None) => Ok(None),
        Ok(Some(raw)) => if text::is_blank(raw) {
            Ok(None)
        } else {
            Ok(Some(text::lowered(text::trimmed(raw))))
        },
    }
}

/// What was read of the `X-Mailbox-*` headers.
#[verifier::ext_equal]
pub struct HeaderTexts {
    pub auth: HeaderTextValue,
    pub imap: HeaderTextValue,
    pub smtp: HeaderTextValue,
    pub domain: HeaderTextValue,
}

/// What is read of the `X-Mailbox-*` headers, given what the headers hold.
pub open spec fn mailbox_texts(c: Map<Seq<char>, Seq<u8>>) -> HeaderTexts {
    HeaderTexts {
        auth: headers::header_text(c, H_MAILBOX_AUTH@),
        imap: headers::header_text(c, H_MAILBOX_IMAP@),
        smtp: headers::header_text(c, H_MAILBOX_SMTP@),
        domain: headers::header_text(c, H_MAILBOX_DOMAIN@),
    }
}

/// What the `X-Mailbox-*` headers say, given what base64 text decodes to. The first
/// header that cannot be read, in the order auth, IMAP, SMTP, domain, gives the error.
pub open spec fn inline_headers(
    t: HeaderTexts,
    decoded: spec_fn(Seq<char>) -> Option<Seq<u8>>,
) -> Result<InlineValue, (ErrorKind, Seq<char>)> {
    match required_header(t.auth, H_MAILBOX_AUTH@) {
        Err(e) => Err(e),
        Ok(auth) => match basic_credential(auth, decoded) {
            Err(e) => Err(e),
            Ok(pair) => match optional_target(t.imap, H_MAILBOX_IMAP@) {
                Err(e) => Err(e),
                Ok(imap) => match optional_target(t.smtp, H_MAILBOX_SMTP@) {
                    Err(e) => Err(e),
                    Ok(smtp) => match domain_header(t.domain) {
                        Err(e) => Err(e),
                        Ok(domain) => Ok(
                            InlineValue { username: pair.0, password: pair.1, imap, smtp, domain },
                        ),
                    },
                },
            },
        },
    }
}

fn required_str(read: HeaderText, name: &str) -> (r: Result<String, GatewayError>)
    ensures
        error::outcome(r) == required_header(read@, name@),
{
    match read {
        HeaderText::Absent => Err(
            GatewayError::BadRequest(text::concat3("missing ", name, " header")),
        ),
        HeaderText::NotAscii => Err(
            GatewayError::BadRequest(text::concat(name, " is not valid ASCII")),
        ),
        HeaderText::Text(s) => Ok(s),
    }
}

fn optional_str(read: HeaderText, name: &str) -> (r: Result<Option<String>, GatewayError>)
    ensures
        error::outcome(r) == optional_header(read@, name@),
{
    match read {
        HeaderText::Absent => Ok(None),
        HeaderText::NotAscii => Err(
            GatewayError::BadRequest(text::concat(name, " is not valid ASCII")),
        ),
        HeaderText::Text(s) => Ok(Some(s)),
    }
}

fn optional_host_port(read: HeaderText, name: &str) -> (r: Result<Option<HostPort>, GatewayError>)
    ensures
        error::outcome(r) == optional_target(read@, name@),
{
    match optional_str(read, name) {
        Err(e) => Err(e),
        Ok(None) => Ok(None),
        Ok(Some(raw)) => match HostPort::parse(name, raw.as_str()) {
            Err(e) => Err(e),
            Ok(t) => Ok(Some(t)),
        },
    }
}

fn optional_domain(read: HeaderText) -> (r: Result<Option<String>, GatewayError>)
    ensures
        error::outcome(r) == domain_header(read@),
{
    match optional_str(read, H_MAILBOX_DOMAIN) {
        Err(e) => Err(e),
        Ok(None) => Ok(None),
        Ok(Some(raw)) => {
            let all = text::to_chars(raw.as_str());
            let t = text::trim_chars(all.as_slice());
            if t.len() == 0 {
                Ok(None)
            } else {
                Ok(Some(text::from_chars(text::lower_chars(t).as_slice())))
            }
        },
    }
}

/// The domain to derive targets from: the one given, else what follows the last `@` of
/// the login id.
pub open spec fn derived_domain(v: InlineValue) -> Option<Seq<char>> {
    let at = text::rfind(v.username, '@');
    if v.domain is Some {
        v.domain
    } else if at >= 0 && at + 1 < v.username.len() {
        Some(text::lowered(v.username.skip(at + 1)))
    } else {
        None
    }
}

/// The address to name to a provider: the login id where it is one, else the login id at
/// the given domain.
pub open spec fn derived_email(v: InlineValue) -> Option<Seq<char>> {
    if v.username.contains('@') {
        Some(v.username)
    } else {
        match v.domain {
            Some(d) => Some(v.username + "@"@ + d),
            None => None,
        }
    }
}

impl InlineHeaders {
    /// Reads the `X-Mailbox-*` headers. The auth header is required; an optional one that
    /// is there but cannot be read is an error.
    pub fn parse(headers: &HeaderMap) -> (r: Result<Self, GatewayError>)
        ensures
            error::outcome(r) == inline_headers(
                mailbox_texts(headers::header_contents(*headers)),
                |s: Seq<char>| base64_bytes(s),
            ),
    {
        InlineHeaders::from_texts(
            headers::read_header(headers, H_MAILBOX_AUTH),
            headers::read_header(headers, H_MAILBOX_IMAP),
            headers::read_header(headers, H_MAILBOX_SMTP),
            headers::read_header(headers, H_MAILBOX_DOMAIN),
        )
    }

    /// Takes what was read of the four `X-Mailbox-*` headers.
    pub fn from_texts(
        auth: HeaderText,
        imap: HeaderText,
        smtp: HeaderText,
        domain: HeaderText,
    ) -> (r: Result<Self, GatewayError>)
        ensures
            error::outcome(r) == inline_headers(
                HeaderTexts { auth: auth@, imap: imap@, smtp: smtp@, domain: domain@ },
                |s: Seq<char>| base64_bytes(s),
            ),
    {
        let auth = match required_str(auth, H_MAILBOX_AUTH) {
            Err(e) => {
                return Err(e);
            },
            Ok(s) => s,
        };
        let (username, password) = match parse_basic(auth.as_str()) {
            Err(e) => {
                return Err(e);
            },
            Ok(pair) => pair,
        };
        let imap = match optional_host_port(imap, H_MAILBOX_IMAP) {
            Err(e) => {
                return Err(e);
            },
            Ok(t) => t,
        };
        let smtp = match optional_host_port(smtp, H_MAILBOX_SMTP) {
            Err(e) => {
                return Err(e);
            },
            Ok(t) => t,
        };
        let domain = match optional_domain(domain) {
            Err(e) => {
                return Err(e);
            },
            Ok(d) => d,
        };
        Ok(InlineHeaders { username, password, imap, smtp, domain })
    }

    /// The domain to derive absent targets from.
    pub fn autoconfig_domain(&self) -> (r: Option<String>)
        ensures
            r.deep_view() == derived_domain(self.deep_view()),
    {
        if let Some(d) = &self.domain {
            return Some(d.clone());
        }
        let all = text::to_chars(self.username.as_str());
        let t = all.as_slice();
        proof {
            text::lemma_rfind(t@, '@');
        }
        match text::rfind_char(t, '@') {
            None => None,
            Some(at) => if at + 1 == t.len() {
                None
            } else {
                let d = slice_subrange(t, at + 1, t.len());
                Some(text::from_chars(text::lower_chars(d).as_slice()))
            },
        }
    }

    /// The full address to name to a provider, where one can be formed.
    pub fn autoconfig_email(&self) -> (r: Option<String>)
        ensures
            r.deep_view() == derived_email(self.deep_view()),
    {
        if text::has_char(text::to_chars(self.username.as_str()).as_slice(), '@') {
            return Some(self.username.clone());
        }
        match &self.domain {
            Some(d) => Some(text::concat3(self.username.as_str(), "@", d.as_str())),
            None => None,
        }
    }

    /// The headers in debug form, the password replaced by the placeholder.
    pub fn debug_text(&self) -> (r: String)
        ensures
            r@ == inline_debug(self.deep_view()),
    {
        let mut out = text::concat3(
            "InlineHeaders { username: ",
            text::quoted(self.username.as_str()).as_str(),
            ", password: Secret(***redacted***), imap: ",
        );
        push_target_debug(&mut out, &self.imap);
        out.append(", smtp: ");
        push_target_debug(&mut out, &self.smtp);
        out.append(", domain: ");
        match &self.domain {
            Some(d) => {
                out.append("Some(");
                out.append(text::quoted(d.as_str()).as_str());
                out.append(")");
            },
            None => {
                out.append("None");
            },
        }
        out.append(" }");
        assert(out@ =~= inline_debug(self.deep_view()));
        out
    }
}

/// The debug form of an optional target.
pub open spec fn target_debug(t: Option<(Seq<char>, u16)>) -> Seq<char> {
    match t {
        Some(hp) => "Some("@ + host_port_debug(hp) + ")"@,
        None => "None"@,
    }
}

/// The debug form of the headers, with the placeholder for the password.
pub open spec fn inline_debug(v: InlineValue) -> Seq<char> {
    let domain = match v.domain {
        Some(d) => "Some("@ + text::quoted_text(d) + ")"@,
        None => "None"@,
    };
    "InlineHeaders { username: "@ + text::quoted_text(v.username)
        + ", password: Secret(***redacted***), imap: "@ + target_debug(v.imap) + ", smtp: "@
        + target_debug(v.smtp) + ", domain: "@ + domain + " }"@
}

fn push_target_debug(out: &mut String, t: &Option<HostPort>)
    ensures
        final(out)@ == old(out)@ + target_debug(t.deep_view()),
{
    match t {
        Some(hp) => {
            out.append("Some(");
            out.append(hp.debug_text().as_str());
            out.append(")");
        },
        None => {
            out.append("None");
        },
    }
    assert(out@ =~= old(out)@ + target_debug(t.deep_view()));
}

/// No debug text tells two passwords apart.
pub proof fn law_debug_hides_password(a: CredentialValue, b: CredentialValue, v: InlineValue, w: InlineValue)
    requires
        a.username == b.username,
        a.imap == b.imap,
        a.smtp == b.smtp,
        v.username == w.username,
        v.imap == w.imap,
        v.smtp == w.smtp,
        v.domain == w.domain,
    ensures
        credential_debug(a) == credential_debug(b),
        inline_debug(v) == inline_debug(w),
{
}

/// One of the messages with which reading the headers can fail, all of them made of a
/// header's name and fixed words.
pub open spec fn is_header_message(m: Seq<char>) -> bool {
    exists|name: Seq<char>|
        {
            &&& #[trigger] is_mailbox_header(name)
            &&& {
                ||| m == "missing "@ + name + " header"@
                ||| m == name + " is not valid ASCII"@
                ||| m == name + " must be in host:port form"@
                ||| m == name + " is missing a host"@
                ||| m == name + " has an invalid port"@
                ||| m == "X-Mailbox-Auth is malformed"@
            }
        }
}

/// The name of one of the `X-Mailbox-*` headers.
pub open spec fn is_mailbox_header(name: Seq<char>) -> bool {
    name == H_MAILBOX_AUTH@ || name == H_MAILBOX_IMAP@ || name == H_MAILBOX_SMTP@ || name
        == H_MAILBOX_DOMAIN@
}

/// However reading the headers fails, it is a bad request whose message holds nothing
/// of any header's value: it is one of a fixed few.
pub proof fn law_header_errors_echo_nothing(
    t: HeaderTexts,
    decoded: spec_fn(Seq<char>) -> Option<Seq<u8>>,
)
    ensures
        inline_headers(t, decoded) matches Err(e) ==> e.0 == ErrorKind::BadRequest
            && is_header_message(e.1),
{
    assert(is_mailbox_header(H_MAILBOX_AUTH@));
    assert(is_mailbox_header(H_MAILBOX_IMAP@));
    assert(is_mailbox_header(H_MAILBOX_SMTP@));
    assert(is_mailbox_header(H_MAILBOX_DOMAIN@));
}

// ---------------------------------------------------------------------------
// From headers to credential
// ---------------------------------------------------------------------------

/// Where a derived IMAP target came from, as refusals name it.
pub const DERIVED_IMAP: &'static str = "autoconfigured IMAP";

/// Where a derived SMTP target came from, as refusals name it.
pub const DERIVED_SMTP: &'static str = "autoconfigured SMTP";

/// What has been asked on the way to a credential, and the replies so far.
pub struct TargetAnswers {
    /// The targets derived from the domain.
    pub servers: Option<Result<MailServers, GatewayError>>,
    /// The addresses of the IMAP host.
    pub imap: Option<Lookup>,
    /// The addresses of the SMTP host.
    pub smtp: Option<Lookup>,
}

/// What a `TargetAnswers` holds.
#[verifier::ext_equal]
pub struct AnswersValue {
    pub servers: Option<Result<ServersValue, (ErrorKind, Seq<char>)>>,
    pub imap: Option<LookupValue>,
    pub smtp: Option<LookupValue>,
}

impl DeepView for TargetAnswers {
    type V = AnswersValue;

    open spec fn deep_view(&self) -> AnswersValue {
        AnswersValue {
            servers: match self.servers {
                Some(r) => Some(error::outcome(r)),
                None => None,
            },
            imap: self.imap.deep_view(),
            smtp: self.smtp.deep_view(),
        }
    }
}

impl TargetAnswers {
    /// Nothing has been asked yet.
    pub fn new() -> (r: Self)
        ensures
            r.deep_view() == (AnswersValue { servers: None, imap: None, smtp: None }),
    {
        TargetAnswers { servers: None, imap: None, smtp: None }
    }
}

/// The next step on the way to a credential.
pub enum CredentialStep {
    /// Derive the targets of this domain, naming this address.
    Resolve { domain: String, email: Option<String> },
    /// Look up the addresses of this IMAP host.
    LookupImap(String),
    /// Look up the addresses of this SMTP host.
    LookupSmtp(String),
    /// The credential is complete.
    Ready(MailboxCredential),
    /// There is no credential.
    Refused(GatewayError),
}

/// What a `CredentialStep` holds.
#[verifier::ext_equal]
pub enum StepValue {
    Resolve { domain: Seq<char>, email: Option<Seq<char>> },
    LookupImap(Seq<char>),
    LookupSmtp(Seq<char>),
    Ready(CredentialValue),
    Refused((ErrorKind, Seq<char>)),
}

impl DeepView for CredentialStep {
    type V = StepValue;

    open spec fn deep_view(&self) -> StepValue {
        match *self {
            CredentialStep::Resolve { domain, email } => StepValue::Resolve {
                domain: domain@,
                email: email.deep_view(),
            },
            CredentialStep::LookupImap(host) => StepValue::LookupImap(host@),
            CredentialStep::LookupSmtp(host) => StepValue::LookupSmtp(host@),
            CredentialStep::Ready(c) => StepValue::Ready(c.deep_view()),
            CredentialStep::Refused(e) => StepValue::Refused(e@),
        }
    }
}

/// The words for an absent target.
pub open spec fn missing_target() -> Seq<char> {
    "missing X-Mailbox-Imap and/or X-Mailbox-Smtp header"@
}

/// A side's target: the one given, else the one derived.
pub open spec fn side(given: Option<(Seq<char>, u16)>, derived: Option<(Seq<char>, u16)>) -> Option<
    (Seq<char>, u16),
> {
    if given is Some {
        given
    } else {
        derived
    }
}

/// Where a side's target came from.
pub open spec fn side_source(
    given: Option<(Seq<char>, u16)>,
    header: Seq<char>,
    label: Seq<char>,
) -> Seq<char> {
    if given is Some {
        header
    } else {
        label
    }
}

/// What the guard says of both targets; with no objection the credential is ready.
pub open spec fn guarded(
    v: InlineValue,
    imap: (Seq<char>, u16),
    smtp: (Seq<char>, u16),
    guard_on: bool,
    a: AnswersValue,
) -> StepValue {
    let imap_source = side_source(v.imap, H_MAILBOX_IMAP@, DERIVED_IMAP@);
    let smtp_source = side_source(v.smtp, H_MAILBOX_SMTP@, DERIVED_SMTP@);
    match endpoint::verdict(guard_on, imap_source, imap.0, a.imap) {
        VerdictValue::Refused(e) => StepValue::Refused(e),
        VerdictValue::NeedsLookup(host) => StepValue::LookupImap(host),
        VerdictValue::Allowed => match endpoint::verdict(guard_on, smtp_source, smtp.0, a.smtp) {
            VerdictValue::Refused(e) => StepValue::Refused(e),
            VerdictValue::NeedsLookup(host) => StepValue::LookupSmtp(host),
            VerdictValue::Allowed => StepValue::Ready(
                CredentialValue { username: v.username, password: v.password, imap, smtp },
            ),
        },
    }
}

/// The next step on the way from the headers `v` to a credential.
pub open spec fn credential_step(
    v: InlineValue,
    derive: bool,
    guard_on: bool,
    a: AnswersValue,
) -> StepValue {
    if v.imap is Some && v.smtp is Some {
        guarded(v, v.imap->0, v.smtp->0, guard_on, a)
    } else if !derive {
        StepValue::Refused((ErrorKind::BadRequest, missing_target()))
    } else {
        match derived_domain(v) {
            None => StepValue::Refused(
                (
                    ErrorKind::BadRequest,
                    missing_target()
                        + "; cannot autoconfigure without a domain — supply the host header(s) or X-Mailbox-Domain"@,
                ),
            ),
            Some(domain) => match a.servers {
                None => StepValue::Resolve { domain, email: derived_email(v) },
                Some(Err(e)) => StepValue::Refused(e),
                Some(Ok(servers)) => match side(v.imap, servers.imap) {
                    None => StepValue::Refused(
                        (
                            ErrorKind::AutoconfigFailed,
                            "no IMAP endpoint resolved for '"@ + domain + "'"@,
                        ),
                    ),
                    Some(imap) => match side(v.smtp, servers.smtp) {
                        None => StepValue::Refused(
                            (
                                ErrorKind::AutoconfigFailed,
                                "no SMTP endpoint resolved for '"@ + domain + "'"@,
                            ),
                        ),
                        Some(smtp) => guarded(v, imap, smtp, guard_on, a),
                    },
                },
            },
        }
    }
}

fn missing_target_message() -> (r: String)
    ensures
        r@ == missing_target(),
{
    "missing X-Mailbox-Imap and/or X-Mailbox-Smtp header".to_owned()
}

fn choose_target(given: &Option<HostPort>, derived: &Option<HostPort>) -> (r: Option<HostPort>)
    ensures
        r.deep_view() == side(given.deep_view(), derived.deep_view()),
{
    if given.is_some() {
        clone_target(given)
    } else {
        clone_target(derived)
    }
}

impl InlineHeaders {
    fn guard_targets(
        &self,
        imap: HostPort,
        smtp: HostPort,
        guard: &EndpointGuard,
        answers: &TargetAnswers,
    ) -> (r: CredentialStep)
        ensures
            r.deep_view() == guarded(
                self.deep_view(),
                imap.deep_view(),
                smtp.deep_view(),
                guard.is_enabled(),
                answers.deep_view(),
            ),
    {
        let imap_source = if self.imap.is_some() {
            H_MAILBOX_IMAP
        } else {
            DERIVED_IMAP
        };
        match guard.check(imap_source, &imap, answers.imap.as_ref()) {
            Verdict::Refused(e) => {
                return CredentialStep::Refused(e);
            },
            Verdict::NeedsLookup(host) => {
                return CredentialStep::LookupImap(host);
            },
            Verdict::Allowed => {},
        }
        let smtp_source = if self.smtp.is_some() {
            H_MAILBOX_SMTP
        } else {
            DERIVED_SMTP
        };
        match guard.check(smtp_source, &smtp, answers.smtp.as_ref()) {
            Verdict::Refused(e) => {
                return CredentialStep::Refused(e);
            },
            Verdict::NeedsLookup(host) => {
                return CredentialStep::LookupSmtp(host);
            },
            Verdict::Allowed => {},
        }
        CredentialStep::Ready(
            MailboxCredential {
                username: self.username.clone(),
                password: self.password.clone(),
                imap,
                smtp,
            },
        )
    }

    /// The next step on the way to a credential, given the replies so far: an absent
    /// target is derived from the domain, where `derive` allows it, and both targets have
    /// to pass the guard. A target that was given always wins over a derived one.
    pub fn into_credential(
        &self,
        derive: bool,
        guard: &EndpointGuard,
        answers: &TargetAnswers,
    ) -> (r: CredentialStep)
        ensures
            r.deep_view() == credential_step(
                self.deep_view(),
                derive,
                guard.is_enabled(),
                answers.deep_view(),
            ),
    {
        if let (Some(imap), Some(smtp)) = (&self.imap, &self.smtp) {
            return self.guard_targets(imap.clone(), smtp.clone(), guard, answers);
        }
        if !derive {
            return CredentialStep::Refused(GatewayError::BadRequest(missing_target_message()));
        }
        let domain = match self.autoconfig_domain() {
            None => {
                return CredentialStep::Refused(
                    GatewayError::BadRequest(
                        text::concat(
                            missing_target_message().as_str(),
                            "; cannot autoconfigure without a domain — supply the host header(s) or X-Mailbox-Domain",
                        ),
                    ),
                );
            },
            Some(d) => d,
        };
        let servers = match &answers.servers {
            None => {
                return CredentialStep::Resolve { domain, email: self.autoconfig_email() };
            },
            Some(Err(e)) => {
                return CredentialStep::Refused(e.clone());
            },
            Some(Ok(servers)) => servers,
        };
        let imap = match choose_target(&self.imap, &servers.imap) {
            None => {
                return CredentialStep::Refused(
                    GatewayError::AutoconfigFailed(
                        text::concat3("no IMAP endpoint resolved for '", domain.as_str(), "'"),
                    ),
                );
            },
            Some(t) => t,
        };
        let smtp = match choose_target(&self.smtp, &servers.smtp) {
            None => {
                return CredentialStep::Refused(
                    GatewayError::AutoconfigFailed(
                        text::concat3("no SMTP endpoint resolved for '", domain.as_str(), "'"),
                    ),
                );
            },
            Some(t) => t,
        };
        self.guard_targets(imap, smtp, guard, answers)
    }
}

/// With both targets given, nothing is ever derived, and with the guard off nothing is
/// asked at all: the credential is the one that was sent.
pub proof fn law_given_targets_need_no_derivation(
    v: InlineValue,
    derive: bool,
    guard_on: bool,
    a: AnswersValue,
)
    requires
        v.imap is Some,
        v.smtp is Some,
    ensures
        !(credential_step(v, derive, guard_on, a) is Resolve),
        !guard_on ==> credential_step(v, derive, guard_on, a) == StepValue::Ready(
            CredentialValue {
                username: v.username,
                password: v.password,
                imap: v.imap->0,
                smtp: v.smtp->0,
            },
        ),
{
}

/// A credential holds the login that was sent, every target that was given, and for an
/// absent target the derived one.
pub proof fn law_given_targets_win(
    v: InlineValue,
    derive: bool,
    guard_on: bool,
    a: AnswersValue,
)
    ensures
        credential_step(v, derive, guard_on, a) matches StepValue::Ready(c) ==> {
            &&& c.username == v.username && c.password == v.password
            &&& v.imap matches Some(t) ==> c.imap == t
            &&& v.smtp matches Some(t) ==> c.smtp == t
            &&& v.imap is None ==> (a.servers matches Some(Ok(s)) && s.imap == Some(c.imap))
            &&& v.smtp is None ==> (a.servers matches Some(Ok(s)) && s.smtp == Some(c.smtp))
        },
{
}

/// No credential gets past a guard that is on unless both of its targets, given or
/// derived, were let pass by it.
pub proof fn law_every_target_is_guarded(v: InlineValue, derive: bool, a: AnswersValue)
    ensures
        credential_step(v, derive, true, a) matches StepValue::Ready(c) ==> {
            &&& endpoint::verdict(
                true,
                side_source(v.imap, H_MAILBOX_IMAP@, DERIVED_IMAP@),
                c.imap.0,
                a.imap,
            ) == VerdictValue::Allowed
            &&& endpoint::verdict(
                true,
                side_source(v.smtp, H_MAILBOX_SMTP@, DERIVED_SMTP@),
                c.smtp.0,
                a.smtp,
            ) == VerdictValue::Allowed
        },
{
}

/// Each question is asked once: with every reply there, the step is the last one.
pub proof fn law_replies_settle(v: InlineValue, derive: bool, guard_on: bool, a: AnswersValue)
    requires
        a.servers is Some,
        a.imap is Some,
        a.smtp is Some,
    ensures
        credential_step(v, derive, guard_on, a) is Ready || credential_step(
            v,
            derive,
            guard_on,
            a,
        ) is Refused,
{
}

/// No password shows on the way to the credential: with any other password, the same is
/// asked of the network, the same targets are refused with the same words, and the
/// credential differs in the password alone.
pub proof fn law_the_way_hides_the_password(
    v: InlineValue,
    password: Seq<char>,
    derive: bool,
    guard_on: bool,
    a: AnswersValue,
)
    ensures
        credential_step(InlineValue { password, ..v }, derive, guard_on, a) == (
        match credential_step(v, derive, guard_on, a) {
            StepValue::Ready(c) => StepValue::Ready(CredentialValue { password, ..c }),
            step => step,
        }),
        credential_step(v, derive, guard_on, a) matches StepValue::Ready(c) ==> c.password
            == v.password && c.username == v.username,
{
}

// ---------------------------------------------------------------------------
// Gateway access
// ---------------------------------------------------------------------------

/// The token in what was read of the `Authorization` header.
pub open spec fn bearer(t: HeaderTextValue) -> Option<Seq<char>> {
    match t {
        HeaderTextValue::Text(value) => if (text::has_prefix(value, "Bearer "@) || text::has_prefix(
            value,
            "bearer "@,
        )) && !text::is_blank(value.skip(7)) {
            Some(text::trimmed(value.skip(7)))
        } else {
            None
        },
        _ => None,
    }
}

/// The token that the headers present.
pub open spec fn presented_token(c: Map<Seq<char>, Seq<u8>>) -> Option<Seq<char>> {
    bearer(headers::header_text(c, H_AUTHORIZATION@))
}

/// The token in what was read of the `Authorization` header: what follows `Bearer`,
/// trimmed; `None` where there is no such header or the token is blank.
pub fn token_in(read: HeaderText) -> (r: Option<String>)
    ensures
        r.deep_view() == bearer(read@),
{
    proof {
        reveal_strlit("Bearer ");
        reveal_strlit("bearer ");
    }
    match read {
        HeaderText::Text(value) => {
            let all = text::to_chars(value.as_str());
            if !(text::starts_with(all.as_slice(), "Bearer ") || text::starts_with(
                all.as_slice(),
                "bearer ",
            )) {
                return None;
            }
            let token = text::trim_chars(slice_subrange(all.as_slice(), 7, all.len()));
            if token.len() == 0 {
                None
            } else {
                Some(text::from_chars(token))
            }
        },
        _ => None,
    }
}

/// The token of an `Authorization: Bearer <token>` header; `None` where there is no such
/// header or the token is blank.
pub fn bearer_token(headers: &HeaderMap) -> (r: Option<String>)
    ensures
        r.deep_view() == presented_token(headers::header_contents(*headers)),
{
    token_in(headers::read_header(headers, H_AUTHORIZATION))
}

/// Whether a request may pass, given whether a key is required, the key and the token.
pub open spec fn access(
    require: bool,
    key: Option<Seq<char>>,
    token: Option<Seq<char>>,
) -> Result<(), (ErrorKind, Seq<char>)> {
    if !require {
        Ok(())
    } else {
        match (key, token) {
            (None, _) => Err((ErrorKind::Unauthorized, "gateway api_key required"@)),
            (_, None) => Err((ErrorKind::Unauthorized, "missing or malformed bearer token"@)),
            (Some(k), Some(t)) => if k == t {
                Ok(())
            } else {
                Err((ErrorKind::Unauthorized, "invalid api_key"@))
            },
        }
    }
}

/// Lets a request with the given token pass where no key is required, or where the token
/// is the key.
pub fn check_token(require_api_key: bool, api_key: &Option<Secret>, token: Option<String>) -> (r:
    Result<(), GatewayError>)
    ensures
        error::outcome(r) == access(require_api_key, api_key.deep_view(), token.deep_view()),
{
    if !require_api_key {
        return Ok(());
    }
    let expected = match api_key {
        None => {
            return Err(GatewayError::Unauthorized("gateway api_key required".to_owned()));
        },
        Some(k) => k,
    };
    let presented = match token {
        None => {
            return Err(GatewayError::Unauthorized("missing or malformed bearer token".to_owned()));
        },
        Some(t) => t,
    };
    if text::same(presented.as_str(), expected.expose()) {
        Ok(())
    } else {
        Err(GatewayError::Unauthorized("invalid api_key".to_owned()))
    }
}

/// Lets a request pass where no key is required, or where its bearer token is the key.
pub fn require_gateway_access(
    require_api_key: bool,
    api_key: &Option<Secret>,
    headers: &HeaderMap,
) -> (r: Result<(), GatewayError>)
    ensures
        error::outcome(r) == access(
            require_api_key,
            api_key.deep_view(),
            presented_token(headers::header_contents(*headers)),
        ),
{
    check_token(require_api_key, api_key, bearer_token(headers))
}

/// Where a key is required, the key itself and nothing else opens the gateway, and all
/// others are told that they are unauthorized, in words that do not depend on the key.
/// Where none is required, everyone passes.
pub proof fn law_only_the_key_opens(
    key: Option<Seq<char>>,
    other: Option<Seq<char>>,
    token: Option<Seq<char>>,
)
    ensures
        access(false, key, token) == Ok::<(), (ErrorKind, Seq<char>)>(()),
        access(true, key, token) is Ok <==> key is Some && token == key,
        access(true, key, token) matches Err(e) ==> e.0 == ErrorKind::Unauthorized,
        access(true, key, token) is Err && access(true, other, token) is Err && (key is Some
            <==> other is Some) ==> access(true, key, token) == access(true, other, token),
{
}

// ---------------------------------------------------------------------------
// What the headers say
// ---------------------------------------------------------------------------

/// A target that is written as `host:port` is read as that host and that port, every host
/// that is not empty and every port, with white space around it or without.
pub proof fn law_a_target_reads_back(
    header: Seq<char>,
    before: Seq<char>,
    host: Seq<char>,
    port: u16,
    after: Seq<char>,
)
    requires
        host.len() > 0,
        !text::is_space(host[0]),
        forall|i: int| 0 <= i < before.len() ==> text::is_space(#[trigger] before[i]),
        forall|i: int| 0 <= i < after.len() ==> text::is_space(#[trigger] after[i]),
    ensures
        host_port(header, before + (host + ":"@ + text::decimal(port as nat)) + after) == Ok::<
            (Seq<char>, u16),
            (ErrorKind, Seq<char>),
        >((host, port)),
{
    reveal_strlit(":");
    let digits = text::decimal(port as nat);
    let t = host + ":"@ + digits;
    text::law_decimal_reads_back(port as nat, 65535);
    text::law_outer_space_makes_no_difference(before, t, after);
    assert(t[0] == host[0]);
    assert(t.last() == digits.last());
    assert(text::is_digit(digits[digits.len() - 1]));
    text::law_trimmed_text_stays(t);
    text::lemma_rfind(t, ':');
    let at = text::rfind(t, ':');
    assert(t[host.len() as int] == ':');
    if at > host.len() {
        let k = at - host.len() - 1;
        assert(t[at] == digits[k]);
        assert(text::is_digit(digits[k]));
    }
    assert(t.skip(at + 1) =~= digits);
    assert(t.take(at) =~= host);
}

/// What is read as a target is what stands there: before the last colon a host, which is
/// not empty, and behind it a port. Anything else is a bad request that names the header.
pub proof fn law_a_target_is_host_and_port(header: Seq<char>, raw: Seq<char>)
    ensures
        host_port(header, raw) matches Ok(t) ==> t.0.len() > 0 && exists|digits: Seq<char>|
            text::trimmed(raw) == t.0 + ":"@ + digits && !digits.contains(':')
                && #[trigger] text::unsigned_in(digits, 65535) == Some(t.1 as nat),
        host_port(header, raw) matches Err(e) ==> e.0 == ErrorKind::BadRequest && text::has_prefix(
            e.1,
            header,
        ),
{
    reveal_strlit(":");
    let t = text::trimmed(raw);
    text::lemma_rfind(t, ':');
    let at = text::rfind(t, ':');
    if let Ok(found) = host_port(header, raw) {
        let digits = t.skip(at + 1);
        assert(t =~= found.0 + ":"@ + digits);
        if digits.contains(':') {
            let k = digits.index_of(':');
            assert(t[at + 1 + k] == digits[k]);
        }
        assert(text::unsigned_in(digits, 65535) == Some(found.1 as nat));
    }
    text::law_prefix_and_suffix(header, " must be in host:port form"@);
    text::law_prefix_and_suffix(header, " is missing a host"@);
    text::law_prefix_and_suffix(header, " has an invalid port"@);
}

/// The credential is what follows the word `Basic` and a space, and the token what follows
/// `Bearer` and a space, each without the white space around it. Either word may begin with
/// a small letter, and without it there is neither.
pub proof fn law_what_follows_the_scheme(value: Seq<char>)
    ensures
        basic_payload("Basic "@ + value) == Some(text::trimmed(value)),
        basic_payload("basic "@ + value) == Some(text::trimmed(value)),
        bearer(HeaderTextValue::Text("Bearer "@ + value)) == if text::is_blank(value) {
            None
        } else {
            Some(text::trimmed(value))
        },
        bearer(HeaderTextValue::Text("bearer "@ + value)) == if text::is_blank(value) {
            None
        } else {
            Some(text::trimmed(value))
        },
        !text::has_prefix(value, "Basic "@) && !text::has_prefix(value, "basic "@)
            ==> basic_payload(value) is None,
        !text::has_prefix(value, "Bearer "@) && !text::has_prefix(value, "bearer "@) ==> bearer(
            HeaderTextValue::Text(value),
        ) is None,
        bearer(HeaderTextValue::Absent) is None,
        bearer(HeaderTextValue::NotAscii) is None,
{
    reveal_strlit("Basic ");
    reveal_strlit("basic ");
    reveal_strlit("Bearer ");
    reveal_strlit("bearer ");
    text::law_prefix_and_suffix("Basic "@, value);
    text::law_prefix_and_suffix("basic "@, value);
    text::law_prefix_and_suffix("Bearer "@, value);
    text::law_prefix_and_suffix("bearer "@, value);
    assert(("Basic "@ + value).skip(6) =~= value);
    assert(("basic "@ + value).skip(6) =~= value);
    assert(("Bearer "@ + value).skip(7) =~= value);
    assert(("bearer "@ + value).skip(7) =~= value);
}

/// A credential is read exactly where the value has the scheme, decodes, and holds a user,
/// not an empty one, before a colon; it is then that user and that password.
pub proof fn law_when_there_is_a_credential(
    value: Seq<char>,
    decoded: spec_fn(Seq<char>) -> Option<Seq<u8>>,
)
    ensures
        basic_credential(value, decoded) matches Ok(pair) ==> (basic_payload(value) matches Some(p)
            && (decoded(p) matches Some(bytes) && basic_pair(bytes) == Some(pair))),
        (basic_payload(value) matches Some(p) && (decoded(p) matches Some(bytes) && basic_pair(
            bytes,
        ) is Some)) ==> basic_credential(value, decoded) is Ok,
        basic_credential(value, decoded) matches Err(e) ==> e.0 == ErrorKind::BadRequest,
{
}

/// Each header is read under its own name.
pub proof fn law_headers_have_their_names(c: Map<Seq<char>, Seq<u8>>)
    ensures
        mailbox_texts(c).auth == headers::header_text(c, "X-Mailbox-Auth"@),
        mailbox_texts(c).imap == headers::header_text(c, "X-Mailbox-Imap"@),
        mailbox_texts(c).smtp == headers::header_text(c, "X-Mailbox-Smtp"@),
        mailbox_texts(c).domain == headers::header_text(c, "X-Mailbox-Domain"@),
        presented_token(c) == bearer(headers::header_text(c, "Authorization"@)),
{
}

/// What is read of the headers is what each of them says: login and password from the auth
/// header, each target from its own, the domain from its own in small letters and without
/// the white space around it; and an absent one says nothing.
pub proof fn law_each_header_says_its_own(
    t: HeaderTexts,
    decoded: spec_fn(Seq<char>) -> Option<Seq<u8>>,
)
    ensures
        inline_headers(t, decoded) matches Ok(v) ==> {
            &&& t.auth matches HeaderTextValue::Text(a) && basic_credential(a, decoded) == Ok::<
                (Seq<char>, Seq<char>),
                (ErrorKind, Seq<char>),
            >((v.username, v.password))
            &&& v.imap is None <==> t.imap is Absent
            &&& v.smtp is None <==> t.smtp is Absent
            &&& v.imap matches Some(target) ==> (t.imap matches HeaderTextValue::Text(s)
                && host_port("X-Mailbox-Imap"@, s) == Ok::<
                (Seq<char>, u16),
                (ErrorKind, Seq<char>),
            >(target))
            &&& v.smtp matches Some(target) ==> (t.smtp matches HeaderTextValue::Text(s)
                && host_port("X-Mailbox-Smtp"@, s) == Ok::<
                (Seq<char>, u16),
                (ErrorKind, Seq<char>),
            >(target))
            &&& v.domain matches Some(d) ==> (t.domain matches HeaderTextValue::Text(s) && d
                == text::lowered(text::trimmed(s)) && d.len() > 0)
            &&& v.domain is None ==> t.domain is Absent || (t.domain matches HeaderTextValue::Text(
                s,
            ) && text::is_blank(s))
        },
{
}

/// The headers are read exactly where the auth header is there and holds a credential, and
/// each of the others that is there is text and, where it is a target, `host:port`.
pub proof fn law_when_the_headers_are_read(
    t: HeaderTexts,
    decoded: spec_fn(Seq<char>) -> Option<Seq<u8>>,
)
    ensures
        inline_headers(t, decoded) is Ok <==> {
            &&& t.auth matches HeaderTextValue::Text(a) && basic_credential(a, decoded) is Ok
            &&& t.imap is Absent || (t.imap matches HeaderTextValue::Text(s) && host_port(
                "X-Mailbox-Imap"@,
                s,
            ) is Ok)
            &&& t.smtp is Absent || (t.smtp matches HeaderTextValue::Text(s) && host_port(
                "X-Mailbox-Smtp"@,
                s,
            ) is Ok)
            &&& !(t.domain is NotAscii)
        },
{
}

/// The domain that was given is the one to derive from; without one it is what follows the
/// last `@` of the login, in small letters; and without either there is none.
pub proof fn law_the_domain_to_derive_from(v: InlineValue, local: Seq<char>, domain: Seq<char>)
    ensures
        v.domain is Some ==> derived_domain(v) == v.domain,
        v.domain is None && v.username == local + "@"@ + domain && !domain.contains('@')
            && domain.len() > 0 ==> derived_domain(v) == Some(text::lowered(domain)),
        v.domain is None && !v.username.contains('@') ==> derived_domain(v) is None,
        v.domain is None && v.username.len() > 0 && v.username.last() == '@' ==> derived_domain(
            v,
        ) is None,
{
    reveal_strlit("@");
    text::lemma_rfind(v.username, '@');
    let at = text::rfind(v.username, '@');
    if v.domain is None && v.username == local + "@"@ + domain && !domain.contains('@') {
        let u = v.username;
        assert(u[local.len() as int] == '@');
        if at > local.len() {
            assert(u[at] == domain[at - local.len() - 1]);
            assert(domain.contains(domain[at - local.len() - 1]));
        }
        assert(u.skip(at + 1) =~= domain);
    }
    if !v.username.contains('@') && at >= 0 {
        assert(v.username.contains(v.username[at]));
    }
    if v.username.len() > 0 && v.username.last() == '@' && at < v.username.len() - 1 {
        assert(v.username[v.username.len() - 1] != '@');
    }
}

/// A provider is told the login where it is an address, and else the login at the domain
/// that was given; where there is neither, nothing.
pub proof fn law_the_address_to_name(v: InlineValue)
    ensures
        v.username.contains('@') ==> derived_email(v) == Some(v.username),
        !v.username.contains('@') && v.domain is Some ==> derived_email(v) == Some(
            v.username + "@"@ + v.domain->0,
        ),
        !v.username.contains('@') && v.domain is None ==> derived_email(v) is None,
{
}

/// With no guard, a credential is ready as soon as both targets are known, whether they were
/// given or derived, and it holds the login that was sent and exactly those targets.
pub proof fn law_known_targets_make_a_credential(v: InlineValue, derive: bool, a: AnswersValue)
    ensures
        v.imap is Some && v.smtp is Some ==> credential_step(v, derive, false, a)
            == StepValue::Ready(
            CredentialValue {
                username: v.username,
                password: v.password,
                imap: v.imap->0,
                smtp: v.smtp->0,
            },
        ),
        !(v.imap is Some && v.smtp is Some) && derive && derived_domain(v) is Some && (
        a.servers matches Some(Ok(s)) && (v.imap is Some || s.imap is Some) && (v.smtp is Some
            || s.smtp is Some)) ==> (credential_step(v, derive, false, a) matches StepValue::Ready(
            c,
        ) && c.username == v.username && c.password == v.password && Some(c.imap) == (if v.imap
            is Some {
            v.imap
        } else {
            (a.servers->0->Ok_0).imap
        }) && Some(c.smtp) == (if v.smtp is Some {
            v.smtp
        } else {
            (a.servers->0->Ok_0).smtp
        })),
{
}

/// A missing target is asked for by the domain and with the address that the headers give.
/// Where targets are not derived, or there is no domain, the caller is told that a header is
/// missing; a failed derivation is passed on as it is, and a side that it does not name is
/// told to be missing.
pub proof fn law_a_missing_target_is_asked_for(
    v: InlineValue,
    derive: bool,
    guard_on: bool,
    a: AnswersValue,
)
    requires
        v.imap is None || v.smtp is None,
    ensures
        !derive || derived_domain(v) is None ==> (credential_step(
            v,
            derive,
            guard_on,
            a,
        ) matches StepValue::Refused(e) && e.0 == ErrorKind::BadRequest),
        derive && derived_domain(v) is Some && a.servers is None ==> credential_step(
            v,
            derive,
            guard_on,
            a,
        ) == (StepValue::Resolve { domain: derived_domain(v)->0, email: derived_email(v) }),
        derive && derived_domain(v) is Some && (a.servers matches Some(Err(e))) ==> credential_step(
            v,
            derive,
            guard_on,
            a,
        ) == StepValue::Refused(a.servers->0->Err_0),
        derive && derived_domain(v) is Some && (a.servers matches Some(Ok(s)) && ((v.imap is None
            && s.imap is None) || (v.smtp is None && s.smtp is None))) ==> (credential_step(
            v,
            derive,
            guard_on,
            a,
        ) matches StepValue::Refused(e) && e.0 == ErrorKind::AutoconfigFailed),
{
}

/// With a guard, what it says of a target is what becomes of it: a refusal is passed on as it
/// is, and a name is looked up before it is used, the IMAP target's first.
pub proof fn law_the_guard_is_obeyed(v: InlineValue, derive: bool, a: AnswersValue)
    requires
        v.imap is Some && v.smtp is Some,
    ensures
        ({
            let imap = endpoint::verdict(true, "X-Mailbox-Imap"@, (v.imap->0).0, a.imap);
            let smtp = endpoint::verdict(true, "X-Mailbox-Smtp"@, (v.smtp->0).0, a.smtp);
            let step = credential_step(v, derive, true, a);
            &&& imap matches VerdictValue::Refused(e) ==> step == StepValue::Refused(e)
            &&& imap matches VerdictValue::NeedsLookup(host) ==> step == StepValue::LookupImap(host)
            &&& imap is Allowed ==> (smtp matches VerdictValue::Refused(e) ==> step
                == StepValue::Refused(e))
            &&& imap is Allowed ==> (smtp matches VerdictValue::NeedsLookup(host) ==> step
                == StepValue::LookupSmtp(host))
            &&& imap is Allowed && smtp is Allowed ==> step is Ready
        }),
{
}

/// A refusal says whether the target came from its header or was derived, and for which
/// side.
pub proof fn law_where_a_target_came_from(given: (Seq<char>, u16))
    ensures
        side_source(Some(given), H_MAILBOX_IMAP@, DERIVED_IMAP@) == "X-Mailbox-Imap"@,
        side_source(Some(given), H_MAILBOX_SMTP@, DERIVED_SMTP@) == "X-Mailbox-Smtp"@,
        side_source(None, H_MAILBOX_IMAP@, DERIVED_IMAP@) == "autoconfigured IMAP"@,
        side_source(None, H_MAILBOX_SMTP@, DERIVED_SMTP@) == "autoconfigured SMTP"@,
{
}

/// Where a derivation has no target for a side, the refusal says for which side and for
/// which domain.
pub proof fn law_an_underivable_side_is_named(
    v: InlineValue,
    guard: bool,
    a: AnswersValue,
    servers: ServersValue,
    domain: Seq<char>,
)
    requires
        derived_domain(v) == Some(domain),
        a.servers == Some(Ok::<ServersValue, (ErrorKind, Seq<char>)>(servers)),
        v.imap is None || v.smtp is None,
    ensures
        v.imap is None && servers.imap is None ==> credential_step(v, true, guard, a)
            == StepValue::Refused(
            (ErrorKind::AutoconfigFailed, "no IMAP endpoint resolved for '"@ + domain + "'"@),
        ),
        (v.imap is Some || servers.imap is Some) && v.smtp is None && servers.smtp is None
            ==> credential_step(v, true, guard, a) == StepValue::Refused(
            (ErrorKind::AutoconfigFailed, "no SMTP endpoint resolved for '"@ + domain + "'"@),
        ),
{
}

/// What is said of a value is said of what it holds: every field and every case stands
/// under its own name, and nothing is left out.
pub proof fn law_views_say_what_the_values_hold(
    host_port: HostPort,
    mailbox_credential: MailboxCredential,
    inline_headers: InlineHeaders,
    target_answers: TargetAnswers,
    credential_step: CredentialStep,
)
    ensures
        host_port.deep_view().0 == host_port.host@,
        host_port.deep_view().1 == host_port.port,
        mailbox_credential.deep_view().username == mailbox_credential.username@,
        mailbox_credential.deep_view().password == mailbox_credential.password@,
        mailbox_credential.deep_view().imap == mailbox_credential.imap.deep_view(),
        mailbox_credential.deep_view().smtp == mailbox_credential.smtp.deep_view(),
        inline_headers.deep_view().username == inline_headers.username@,
        inline_headers.deep_view().password == inline_headers.password@,
        inline_headers.deep_view().imap == inline_headers.imap.deep_view(),
        inline_headers.deep_view().smtp == inline_headers.smtp.deep_view(),
        inline_headers.deep_view().domain == inline_headers.domain.deep_view(),
        target_answers.servers is None ==> target_answers.deep_view().servers is None,
        target_answers.servers matches Some(r) ==> target_answers.deep_view().servers == Some(
            error::outcome(r),
        ),
        target_answers.deep_view().imap == target_answers.imap.deep_view(),
        target_answers.deep_view().smtp == target_answers.smtp.deep_view(),
        match credential_step {
            CredentialStep::Resolve { domain, email } => credential_step.deep_view()
                == (StepValue::Resolve { domain: domain@, email: email.deep_view() }),
            CredentialStep::LookupImap(host) => credential_step.deep_view()
                == StepValue::LookupImap(host@),
            CredentialStep::LookupSmtp(host) => credential_step.deep_view()
                == StepValue::LookupSmtp(host@),
            CredentialStep::Ready(c) => credential_step.deep_view()
                == StepValue::Ready(c.deep_view()),
            CredentialStep::Refused(e) => credential_step.deep_view() == StepValue::Refused(e@),
        },
{
}

} // verus!
