//! Reading mail: how a mailbox is searched and messages are fetched, and what they are
//! shown as.
//!
//! The connection itself is made elsewhere. Here stands what is asked of it, how its
//! replies are taken, and which error each of its failures comes to.

use mail_parser::{Address, DateTime, MessageParser, PartType};
use vstd::prelude::*;

use crate::auth::HostPort;
use crate::config;
use crate::error;
use crate::error::{ErrorKind, GatewayError};
use crate::text;

verus! {

/// The mailbox that is read where none is named.
pub const DEFAULT_MAILBOX: &'static str = "INBOX";

/// The data items that fetch a whole message and its UID, without marking it as seen.
pub const FETCH_RAW_QUERY: &'static str = "(UID BODY.PEEK[])";

/// How many bytes of the body a snippet is made of.
pub const SNIPPET_LEN: usize = 200;

// ---------------------------------------------------------------------------
// Transport
// ---------------------------------------------------------------------------

/// How the IMAP client connects.
#[derive(Debug, Clone, Copy, PartialEq, Eq)]
pub struct ImapSettings {
    /// Whether any certificate is accepted.
    pub tls_insecure: bool,
}

impl ImapSettings {
    /// The settings that `MAIL_TLS_INSECURE` asks for: off unless it is switched on.
    pub fn from_env(tls_insecure: &Option<String>) -> (r: Self)
        ensures
            r.tls_insecure == config::switched_on(tls_insecure.deep_view()),
    {
        ImapSettings {
            tls_insecure: match tls_insecure {
                Some(v) => matches!(config::parse_bool(v.as_str()), Some(true)),
                None => false,
            },
        }
    }
}

/// The transport to an IMAP server.
#[derive(Debug, Clone, Copy, PartialEq, Eq, Structural)]
pub enum TlsMode {
    /// Plain TCP.
    Plain,
    /// TLS from the first byte.
    ImplicitTls,
}

/// The transport for a port.
pub open spec fn transport_of(port: u16) -> TlsMode {
    if port == 993 || port == 3993 {
        TlsMode::ImplicitTls
    } else {
        TlsMode::Plain
    }
}

impl TlsMode {
    /// The transport for a port: 993, and its local mirror 3993, are implicit TLS.
    pub fn for_port(port: u16) -> (r: TlsMode)
        ensures
            r == transport_of(port),
    {
        match port {
            993 | 3993 => TlsMode::ImplicitTls,
            _ => TlsMode::Plain,
        }
    }
}

// ---------------------------------------------------------------------------
// Failures
// ---------------------------------------------------------------------------

/// How a connection could not be made.
#[derive(Debug)]
pub enum ConnectFailure {
    /// The host could not be reached, with the reason.
    Tcp(String),
    /// The server closed the connection before it greeted.
    ClosedBeforeGreeting,
    /// The greeting could not be read, with the reason.
    Greeting(String),
    /// TLS could not be set up, with the reason.
    TlsConfig(String),
    /// The host is no name for TLS, with the reason.
    ServerName(String),
    /// The TLS handshake failed, with the reason.
    Handshake(String),
}

/// What a `ConnectFailure` comes to.
pub open spec fn connect_failed(host: Seq<char>, port: u16, f: ConnectFailure) -> (
    ErrorKind,
    Seq<char>,
) {
    match f {
        ConnectFailure::Tcp(e) => (
            ErrorKind::HostUnreachable,
            "cannot reach IMAP "@ + host + ":"@ + text::decimal(port as nat) + ": "@ + e@,
        ),
        ConnectFailure::ClosedBeforeGreeting => (
            ErrorKind::HostUnreachable,
            "IMAP server closed before greeting"@,
        ),
        ConnectFailure::Greeting(e) => (
            ErrorKind::HostUnreachable,
            "IMAP greeting failed: "@ + e@,
        ),
        ConnectFailure::TlsConfig(e) => (
            ErrorKind::TlsFailure,
            "TLS configuration failed: "@ + e@,
        ),
        ConnectFailure::ServerName(e) => (
            ErrorKind::TlsFailure,
            "invalid TLS server name '"@ + host + "': "@ + e@,
        ),
        ConnectFailure::Handshake(e) => (
            ErrorKind::TlsFailure,
            "TLS handshake with "@ + host + " failed: "@ + e@,
        ),
    }
}

/// The error for a connection to `target` that could not be made.
pub fn connect_error(target: &HostPort, f: ConnectFailure) -> (r: GatewayError)
    ensures
        r@ == connect_failed(target.host@, target.port, f),
{
    match f {
        ConnectFailure::Tcp(e) => {
            let mut m = text::concat3("cannot reach IMAP ", target.host.as_str(), ":");
            text::push_decimal(&mut m, target.port as u64);
            m.append(": ");
            m.append(e.as_str());
            GatewayError::HostUnreachable(m)
        },
        ConnectFailure::ClosedBeforeGreeting => GatewayError::HostUnreachable(
            "IMAP server closed before greeting".to_owned(),
        ),
        ConnectFailure::Greeting(e) => GatewayError::HostUnreachable(
            text::concat("IMAP greeting failed: ", e.as_str()),
        ),
        ConnectFailure::TlsConfig(e) => GatewayError::TlsFailure(
            text::concat("TLS configuration failed: ", e.as_str()),
        ),
        ConnectFailure::ServerName(e) => {
            let mut m = text::concat3("invalid TLS server name '", target.host.as_str(), "': ");
            m.append(e.as_str());
            GatewayError::TlsFailure(m)
        },
        ConnectFailure::Handshake(e) => {
            let mut m = text::concat3("TLS handshake with ", target.host.as_str(), " failed: ");
            m.append(e.as_str());
            GatewayError::TlsFailure(m)
        },
    }
}

/// The kinds of failure that a command can come to.
#[derive(Debug, Clone, Copy, PartialEq, Eq, Structural)]
pub enum FailureKind {
    /// Reading or writing failed.
    Io,
    /// The connection is gone.
    ConnectionLost,
    /// The server said `NO`.
    No,
    /// The server said `BAD`.
    Bad,
    /// The command holds a character that IMAP does not allow.
    Validate,
    /// Anything else.
    Other,
}

/// A failed command.
#[derive(Debug)]
pub struct ImapFailure {
    pub kind: FailureKind,
    /// What the server or the system said.
    pub detail: String,
    /// The failure as a whole, in words.
    pub shown: String,
}

/// What a failed `LOGIN` comes to: without an I/O failure, the credential was rejected.
pub open spec fn login_failed(f: ImapFailure) -> (ErrorKind, Seq<char>) {
    match f.kind {
        FailureKind::Io => (
            ErrorKind::HostUnreachable,
            "IMAP connection lost during login: "@ + f.detail@,
        ),
        FailureKind::ConnectionLost => (
            ErrorKind::HostUnreachable,
            "IMAP connection lost during login"@,
        ),
        _ => (ErrorKind::AuthFailure, "IMAP login rejected"@),
    }
}

/// What a failed `SELECT` comes to: a `NO` says that there is no such mailbox.
pub open spec fn select_failed(f: ImapFailure, mailbox: Seq<char>) -> (ErrorKind, Seq<char>) {
    match f.kind {
        FailureKind::No => (ErrorKind::NotFound, "mailbox '"@ + mailbox + "' not found"@),
        FailureKind::Io => (
            ErrorKind::HostUnreachable,
            "IMAP error selecting '"@ + mailbox + "': "@ + f.detail@,
        ),
        FailureKind::ConnectionLost => (ErrorKind::HostUnreachable, "IMAP connection lost"@),
        _ => (
            ErrorKind::HostUnreachable,
            "IMAP error selecting '"@ + mailbox + "': "@ + f.shown@,
        ),
    }
}

/// What a failed `SEARCH` or `FETCH` comes to: the mailbox is known to be there, so a
/// rejection is about the caller's criteria.
pub open spec fn command_failed(f: ImapFailure) -> (ErrorKind, Seq<char>) {
    match f.kind {
        FailureKind::No | FailureKind::Bad => (
            ErrorKind::BadRequest,
            "IMAP rejected the command: "@ + f.detail@,
        ),
        FailureKind::Validate => (
            ErrorKind::BadRequest,
            "invalid character in IMAP command: "@ + f.detail@,
        ),
        FailureKind::Io => (ErrorKind::HostUnreachable, "IMAP command failed: "@ + f.detail@),
        FailureKind::ConnectionLost => (ErrorKind::HostUnreachable, "IMAP connection lost"@),
        FailureKind::Other => (ErrorKind::HostUnreachable, "IMAP command failed: "@ + f.shown@),
    }
}

/// The error for a failed `LOGIN`.
pub fn map_login_err(f: ImapFailure) -> (r: GatewayError)
    ensures
        r@ == login_failed(f),
{
    match f.kind {
        FailureKind::Io => GatewayError::HostUnreachable(
            text::concat("IMAP connection lost during login: ", f.detail.as_str()),
        ),
        FailureKind::ConnectionLost => GatewayError::HostUnreachable(
            "IMAP connection lost during login".to_owned(),
        ),
        _ => GatewayError::AuthFailure("IMAP login rejected".to_owned()),
    }
}

/// The error for a failed `SELECT` of `mailbox`.
pub fn map_select_err(f: ImapFailure, mailbox: &str) -> (r: GatewayError)
    ensures
        r@ == select_failed(f, mailbox@),
{
    match f.kind {
        FailureKind::No => GatewayError::NotFound(
            text::concat3("mailbox '", mailbox, "' not found"),
        ),
        FailureKind::Io => {
            let mut m = text::concat3("IMAP error selecting '", mailbox, "': ");
            m.append(f.detail.as_str());
            GatewayError::HostUnreachable(m)
        },
        FailureKind::ConnectionLost => GatewayError::HostUnreachable(
            "IMAP connection lost".to_owned(),
        ),
        _ => {
            let mut m = text::concat3("IMAP error selecting '", mailbox, "': ");
            m.append(f.shown.as_str());
            GatewayError::HostUnreachable(m)
        },
    }
}

/// The error for a failed `SEARCH` or `FETCH`.
pub fn map_command_err(f: ImapFailure) -> (r: GatewayError)
    ensures
        r@ == command_failed(f),
{
    match f.kind {
        FailureKind::No | FailureKind::Bad => GatewayError::BadRequest(
            text::concat("IMAP rejected the command: ", f.detail.as_str()),
        ),
        FailureKind::Validate => GatewayError::BadRequest(
            text::concat("invalid character in IMAP command: ", f.detail.as_str()),
        ),
        FailureKind::Io => GatewayError::HostUnreachable(
            text::concat("IMAP command failed: ", f.detail.as_str()),
        ),
        FailureKind::ConnectionLost => GatewayError::HostUnreachable(
            "IMAP connection lost".to_owned(),
        ),
        FailureKind::Other => GatewayError::HostUnreachable(
            text::concat("IMAP command failed: ", f.shown.as_str()),
        ),
    }
}

/// An error after which the connection cannot be trusted.
pub open spec fn is_transport(kind: ErrorKind) -> bool {
    kind == ErrorKind::HostUnreachable || kind == ErrorKind::TlsFailure
}

/// Whether the connection cannot be trusted after `err`.
pub fn is_transport_error(err: &GatewayError) -> (r: bool)
    ensures
        r == is_transport(err@.0),
{
    match err {
        GatewayError::HostUnreachable(_) | GatewayError::TlsFailure(_) => true,
        _ => false,
    }
}

/// Whether a connection may be kept for reuse after an operation that came to `outcome`:
/// always after a success, and after an error that says nothing against the connection.
pub fn keeps_session<T>(outcome: &Result<T, GatewayError>) -> (r: bool)
    ensures
        r == match *outcome {
            Ok(_) => true,
            Err(e) => !is_transport(e@.0),
        },
{
    match outcome {
        Ok(_) => true,
        Err(e) => !is_transport_error(e),
    }
}

/// A rejected search is the caller's mistake and never the network's; only faults of
/// the transport are, and only they cost the connection.
pub proof fn law_rejections_keep_the_connection(f: ImapFailure)
    ensures
        is_transport(command_failed(f).0) <==> f.kind == FailureKind::Io || f.kind
            == FailureKind::ConnectionLost || f.kind == FailureKind::Other,
        !is_transport(command_failed(f).0) <==> command_failed(f).0 == ErrorKind::BadRequest,
{
}

// ---------------------------------------------------------------------------
// Messages
// ---------------------------------------------------------------------------

/// A fetched message: its UID and its bytes.
#[derive(Debug, Clone, PartialEq, Eq)]
pub struct RawMessage {
    pub uid: u32,
    pub raw: Vec<u8>,
}

impl DeepView for RawMessage {
    type V = (u32, Seq<u8>);

    open spec fn deep_view(&self) -> (u32, Seq<u8>) {
        (self.uid, self.raw@)
    }
}

/// What a search shows of a message.
#[derive(Debug, Clone, PartialEq, Eq)]
pub struct MessageSummary {
    pub uid: u32,
    pub from: Option<String>,
    pub to: Option<String>,
    pub subject: Option<String>,
    pub date: Option<String>,
    pub snippet: Option<String>,
}

/// A message in full.
#[derive(Debug, Clone, PartialEq, Eq)]
pub struct FullMessage {
    pub uid: u32,
    pub from: Option<String>,
    pub to: Option<String>,
    pub subject: Option<String>,
    pub date: Option<String>,
    pub text_body: Option<String>,
    pub html_body: Option<String>,
    /// The bytes of the message. They do not go on the wire.
    pub raw: Vec<u8>,
}

/// What a `MessageSummary` holds.
#[verifier::ext_equal]
pub struct SummaryValue {
    pub uid: u32,
    pub from: Option<Seq<char>>,
    pub to: Option<Seq<char>>,
    pub subject: Option<Seq<char>>,
    pub date: Option<Seq<char>>,
    pub snippet: Option<Seq<char>>,
}

/// What a `FullMessage` holds.
#[verifier::ext_equal]
pub struct FullValue {
    pub uid: u32,
    pub from: Option<Seq<char>>,
    pub to: Option<Seq<char>>,
    pub subject: Option<Seq<char>>,
    pub date: Option<Seq<char>>,
    pub text_body: Option<Seq<char>>,
    pub html_body: Option<Seq<char>>,
    pub raw: Seq<u8>,
}

impl DeepView for MessageSummary {
    type V = SummaryValue;

    open spec fn deep_view(&self) -> SummaryValue {
        SummaryValue {
            uid: self.uid,
            from: self.from.deep_view(),
            to: self.to.deep_view(),
            subject: self.subject.deep_view(),
            date: self.date.deep_view(),
            snippet: self.snippet.deep_view(),
        }
    }
}

impl DeepView for FullMessage {
    type V = FullValue;

    open spec fn deep_view(&self) -> FullValue {
        FullValue {
            uid: self.uid,
            from: self.from.deep_view(),
            to: self.to.deep_view(),
            subject: self.subject.deep_view(),
            date: self.date.deep_view(),
            text_body: self.text_body.deep_view(),
            html_body: self.html_body.deep_view(),
            raw: self.raw@,
        }
    }
}

/// A part of a message.
#[derive(Debug, Clone, PartialEq, Eq)]
pub enum MailPart {
    /// Text other than HTML.
    Text(String),
    /// HTML.
    Html(String),
    /// No text.
    Other,
}

/// What a `MailPart` holds.
#[verifier::ext_equal]
pub enum PartValue {
    Text(Seq<char>),
    Html(Seq<char>),
    Other,
}

impl DeepView for MailPart {
    type V = PartValue;

    open spec fn deep_view(&self) -> PartValue {
        match *self {
            MailPart::Text(t) => PartValue::Text(t@),
            MailPart::Html(h) => PartValue::Html(h@),
            MailPart::Other => PartValue::Other,
        }
    }
}

/// An entry of an address header: name and address, as far as they are there.
pub type Mailbox = (Option<String>, Option<String>);

/// What a `Mailbox` holds.
pub type MailboxValue = (Option<Seq<char>>, Option<Seq<char>>);

/// What is read from a message's bytes: headers, and a preview of the body.
#[derive(Debug, Clone, PartialEq, Eq)]
pub struct ParsedMail {
    pub from: Option<Vec<Mailbox>>,
    pub to: Option<Vec<Mailbox>>,
    pub subject: Option<String>,
    pub date: Option<String>,
    pub preview: Option<String>,
}

/// What a `ParsedMail` holds.
#[verifier::ext_equal]
pub struct MailValue {
    pub from: Option<Seq<MailboxValue>>,
    pub to: Option<Seq<MailboxValue>>,
    pub subject: Option<Seq<char>>,
    pub date: Option<Seq<char>>,
    pub preview: Option<Seq<char>>,
}

impl DeepView for ParsedMail {
    type V = MailValue;

    open spec fn deep_view(&self) -> MailValue {
        MailValue {
            from: self.from.deep_view(),
            to: self.to.deep_view(),
            subject: self.subject.deep_view(),
            date: self.date.deep_view(),
            preview: self.preview.deep_view(),
        }
    }
}

/// What the bytes of a message hold, with a preview of its body made of at most so many
/// bytes; `None` where they are no message.
pub uninterp spec fn mail_contents(raw: Seq<u8>, preview_len: nat) -> Option<MailValue>;

/// `MessageParser::parse` of `mail-parser` with its default settings: the entries of the
/// `From` and `To` headers, groups flattened, the subject, the date in RFC 3339 and the
/// preview of the body. All of it is a function of the bytes and the preview's length
/// alone, named by `mail_contents`. The parser is documented never to panic; how deep
/// messages may be nested in one another is left to the stack, and nothing is said of it.
#[verifier::external_body]
fn parse_mail(raw: &[u8], preview_len: usize) -> (r: Option<ParsedMail>)
    ensures
        r.deep_view() == mail_contents(raw@, preview_len as nat),
{
    let own = |s: Option<&str>| s.map(str::to_string);
    let list = |a: &Address| a.iter().map(|m| (own(m.name()), own(m.address()))).collect();
    let msg = MessageParser::default().parse(raw)?;
    Some(
        ParsedMail {
            from: msg.from().map(list),
            to: msg.to().map(list),
            subject: own(msg.subject()),
            date: msg.date().map(DateTime::to_rfc3339),
            preview: msg.body_preview(preview_len).map(String::from),
        },
    )
}

/// The parts of a message in their order, each decoded; `None` where the bytes are no
/// message.
pub uninterp spec fn mail_parts(raw: Seq<u8>) -> Option<Seq<PartValue>>;

/// The `parts` of what `MessageParser::parse` of `mail-parser` reads with its default
/// settings: text and HTML are told apart, and any other part is passed on without its
/// contents. They are a function of the bytes alone, named by `mail_parts`, and they are
/// there if and only if the headers are, whatever preview is asked for.
#[verifier::external_body]
fn parse_parts(raw: &[u8]) -> (r: Option<Vec<MailPart>>)
    ensures
        r.deep_view() == mail_parts(raw@),
        forall|n: nat| (#[trigger] mail_contents(raw@, n)) is Some <==> r is Some,
{
    let msg = MessageParser::default().parse(raw)?;
    let part = |p: &mail_parser::MessagePart| match &p.body {
        PartType::Text(t) => MailPart::Text(t.to_string()),
        PartType::Html(h) => MailPart::Html(h.to_string()),
        _ => MailPart::Other,
    };
    Some(msg.parts.iter().map(part).collect())
}

/// An entry as it is shown: `Name <address>`, or the address alone where the name is
/// blank; nothing where there is no address.
pub open spec fn shown_mailbox(m: MailboxValue) -> Option<Seq<char>> {
    match m.1 {
        None => None,
        Some(email) => match m.0 {
            Some(name) => if text::is_blank(name) {
                Some(email)
            } else {
                Some(text::trimmed(name) + " <"@ + email + ">"@)
            },
            None => Some(email),
        },
    }
}

/// The entries that have an address, as they are shown.
pub open spec fn shown_mailboxes(list: Seq<MailboxValue>) -> Seq<Seq<char>>
    decreases list.len(),
{
    if list.len() == 0 {
        Seq::empty()
    } else {
        let rest = shown_mailboxes(list.drop_last());
        match shown_mailbox(list.last()) {
            Some(s) => rest.push(s),
            None => rest,
        }
    }
}

/// An address header as it is shown: its entries with commas between, and nothing where
/// none has an address.
pub open spec fn shown_addresses(list: Option<Seq<MailboxValue>>) -> Option<Seq<char>> {
    match list {
        None => None,
        Some(l) => if shown_mailboxes(l).len() == 0 {
            None
        } else {
            Some(text::join(shown_mailboxes(l), ", "@))
        },
    }
}

/// The preview of the body, trimmed; nothing where it is blank.
pub open spec fn snippet(preview: Option<Seq<char>>) -> Option<Seq<char>> {
    match preview {
        Some(p) => if text::is_blank(p) {
            None
        } else {
            Some(text::trimmed(p))
        },
        None => None,
    }
}

/// The first text among the parts.
pub open spec fn first_text(parts: Seq<PartValue>) -> Option<Seq<char>>
    decreases parts.len(),
{
    if parts.len() == 0 {
        None
    } else {
        match parts[0] {
            PartValue::Text(t) => Some(t),
            _ => first_text(parts.skip(1)),
        }
    }
}

/// The first HTML among the parts.
pub open spec fn first_html(parts: Seq<PartValue>) -> Option<Seq<char>>
    decreases parts.len(),
{
    if parts.len() == 0 {
        None
    } else {
        match parts[0] {
            PartValue::Html(h) => Some(h),
            _ => first_html(parts.skip(1)),
        }
    }
}

/// The summary of what was read from a message; what could not be read is left out.
pub open spec fn summary_of(uid: u32, mail: Option<MailValue>) -> SummaryValue {
    match mail {
        Some(m) => SummaryValue {
            uid,
            from: shown_addresses(m.from),
            to: shown_addresses(m.to),
            subject: m.subject,
            date: m.date,
            snippet: snippet(m.preview),
        },
        None => SummaryValue {
            uid,
            from: None,
            to: None,
            subject: None,
            date: None,
            snippet: None,
        },
    }
}

/// The full form of what was read from a message, headers and parts; what could not be read
/// is left out, and the bytes are always kept.
pub open spec fn full_of(
    uid: u32,
    raw: Seq<u8>,
    read: Option<(MailValue, Seq<PartValue>)>,
) -> FullValue {
    match read {
        Some((m, parts)) => FullValue {
            uid,
            from: shown_addresses(m.from),
            to: shown_addresses(m.to),
            subject: m.subject,
            date: m.date,
            text_body: first_text(parts),
            html_body: first_html(parts),
            raw,
        },
        None => FullValue {
            uid,
            from: None,
            to: None,
            subject: None,
            date: None,
            text_body: None,
            html_body: None,
            raw,
        },
    }
}

/// An address header as it is shown.
pub fn render_address(list: &Vec<Mailbox>) -> (r: Option<String>)
    ensures
        r.deep_view() == shown_addresses(Some(list.deep_view())),
{
    let ghost all = list.deep_view();
    let mut shown: Vec<String> = Vec::new();
    let mut i: usize = 0;
    assert(shown.deep_view() =~= shown_mailboxes(all.take(0)));
    while i < list.len()
        invariant
            i <= list.len(),
            all == list.deep_view(),
            shown.deep_view() == shown_mailboxes(all.take(i as int)),
        decreases list.len() - i,
    {
        let m = &list[i];
        proof {
            assert(all.take(i + 1).drop_last() =~= all.take(i as int));
            assert(all[i as int] == m.deep_view());
        }
        let ghost before = shown.deep_view();
        if let Some(email) = &m.1 {
            let line = match &m.0 {
                Some(name) => if text::blank(name.as_str()) {
                    email.clone()
                } else {
                    let mut s = text::concat3(
                        text::trim(name.as_str()).as_str(),
                        " <",
                        email.as_str(),
                    );
                    s.append(">");
                    s
                },
                None => email.clone(),
            };
            assert(shown_mailbox(m.deep_view()) == Some(line@));
            shown.push(line);
            assert(shown.deep_view() =~= before.push(line@));
        }
        i = i + 1;
    }
    assert(all.take(i as int) =~= all);
    if shown.len() == 0 {
        None
    } else {
        Some(text::join_texts(&shown, ", "))
    }
}

fn shown_header(list: &Option<Vec<Mailbox>>) -> (r: Option<String>)
    ensures
        r.deep_view() == shown_addresses(list.deep_view()),
{
    match list {
        Some(l) => render_address(l),
        None => None,
    }
}

fn first_part_text(parts: &Vec<MailPart>) -> (r: Option<String>)
    ensures
        r.deep_view() == first_text(parts.deep_view()),
{
    let ghost all = parts.deep_view();
    let mut i: usize = 0;
    assert(all.skip(0) =~= all);
    while i < parts.len()
        invariant
            i <= parts.len(),
            all == parts.deep_view(),
            first_text(all.skip(i as int)) == first_text(all),
        decreases parts.len() - i,
    {
        proof {
            assert(all.skip(i as int)[0] == parts@[i as int].deep_view());
            assert(all.skip(i as int).skip(1) =~= all.skip(i + 1));
        }
        if let MailPart::Text(t) = &parts[i] {
            return Some(t.clone());
        }
        i = i + 1;
    }
    None
}

fn first_part_html(parts: &Vec<MailPart>) -> (r: Option<String>)
    ensures
        r.deep_view() == first_html(parts.deep_view()),
{
    let ghost all = parts.deep_view();
    let mut i: usize = 0;
    assert(all.skip(0) =~= all);
    while i < parts.len()
        invariant
            i <= parts.len(),
            all == parts.deep_view(),
            first_html(all.skip(i as int)) == first_html(all),
        decreases parts.len() - i,
    {
        proof {
            assert(all.skip(i as int)[0] == parts@[i as int].deep_view());
            assert(all.skip(i as int).skip(1) =~= all.skip(i + 1));
        }
        if let MailPart::Html(h) = &parts[i] {
            return Some(h.clone());
        }
        i = i + 1;
    }
    None
}

/// The summary of what was read from a message.
pub fn summarize(uid: u32, mail: Option<ParsedMail>) -> (r: MessageSummary)
    ensures
        r.deep_view() == summary_of(uid, mail.deep_view()),
{
    match mail {
        Some(m) => MessageSummary {
            uid,
            from: shown_header(&m.from),
            to: shown_header(&m.to),
            subject: m.subject,
            date: m.date,
            snippet: match m.preview {
                Some(p) => if text::blank(p.as_str()) {
                    None
                } else {
                    Some(text::trim(p.as_str()))
                },
                None => None,
            },
        },
        None => MessageSummary {
            uid,
            from: None,
            to: None,
            subject: None,
            date: None,
            snippet: None,
        },
    }
}

/// The full form of what was read from a message, headers and parts.
pub fn expand(uid: u32, raw: Vec<u8>, read: Option<(ParsedMail, Vec<MailPart>)>) -> (r: FullMessage)
    ensures
        r.deep_view() == full_of(uid, raw@, read.deep_view()),
{
    match read {
        Some((m, parts)) => FullMessage {
            uid,
            from: shown_header(&m.from),
            to: shown_header(&m.to),
            subject: m.subject,
            date: m.date,
            text_body: first_part_text(&parts),
            html_body: first_part_html(&parts),
            raw,
        },
        None => FullMessage {
            uid,
            from: None,
            to: None,
            subject: None,
            date: None,
            text_body: None,
            html_body: None,
            raw,
        },
    }
}

/// The summary of a message. Bytes that are no message give one with nothing but the UID.
pub fn parse_summary(uid: u32, raw: &[u8]) -> (r: MessageSummary)
    ensures
        r.deep_view() == summary_of(uid, mail_contents(raw@, SNIPPET_LEN as nat)),
{
    summarize(uid, parse_mail(raw, SNIPPET_LEN))
}

/// What is read from the bytes `raw`: headers and parts, and nothing where they are no
/// message.
pub open spec fn read_whole(raw: Seq<u8>) -> Option<(MailValue, Seq<PartValue>)> {
    match mail_contents(raw, SNIPPET_LEN as nat) {
        Some(m) => Some((m, mail_parts(raw)->0)),
        None => None,
    }
}

/// The full form of the message that `raw` is.
pub open spec fn read_in_full(uid: u32, raw: Seq<u8>) -> FullValue {
    full_of(uid, raw, read_whole(raw))
}

/// The full form of a message. Bytes that are no message give one with nothing but the UID
/// and the bytes.
pub fn parse_full(uid: u32, raw: &[u8]) -> (r: FullMessage)
    ensures
        r.deep_view() == read_in_full(uid, raw@),
{
    let read = match (parse_mail(raw, SNIPPET_LEN), parse_parts(raw)) {
        (Some(mail), Some(parts)) => Some((mail, parts)),
        _ => None,
    };
    expand(uid, vstd::slice::slice_to_vec(raw), read)
}

/// Summary and full form of the same message agree in everything that both show, and
/// either carries the UID it was asked for. Where nothing could be read, there is no body.
pub proof fn law_summary_and_full_form_agree(
    uid: u32,
    raw: Seq<u8>,
    read: Option<(MailValue, Seq<PartValue>)>,
)
    ensures
        ({
            let summary = summary_of(
                uid,
                match read {
                    Some((m, _)) => Some(m),
                    None => None,
                },
            );
            let full = full_of(uid, raw, read);
            &&& summary.uid == uid && full.uid == uid
            &&& full.raw == raw
            &&& full.from == summary.from
            &&& full.to == summary.to
            &&& full.subject == summary.subject
            &&& full.date == summary.date
            &&& read is None ==> full.text_body is None && full.html_body is None
        }),
{
}

// ---------------------------------------------------------------------------
// Searching and fetching
// ---------------------------------------------------------------------------

/// What a search found: summaries, and how many messages matched in all.
#[derive(Debug, Clone, PartialEq, Eq)]
pub struct SearchResults {
    /// The newest first, no more than were asked for.
    pub summaries: Vec<MessageSummary>,
    /// How many messages matched.
    pub total: usize,
}

/// What is to be fetched of the messages that matched.
#[derive(Debug, Clone, PartialEq, Eq)]
pub struct FetchPlan {
    /// How many messages matched.
    pub total: usize,
    /// The UIDs to fetch, the newest first.
    pub uids: Vec<u32>,
}

/// UIDs from the newest, which is the highest, to the oldest.
pub open spec fn newest_first(uids: Seq<u32>) -> Seq<u32> {
    uids.sort_by(|a: u32, b: u32| a >= b)
}

/// `a` or `b`, whichever is less.
pub open spec fn least(a: nat, b: nat) -> nat {
    if a <= b {
        a
    } else {
        b
    }
}

/// The newest `limit` of `uids`.
pub open spec fn newest(uids: Seq<u32>, limit: nat) -> Seq<u32> {
    newest_first(uids).take(least(limit, uids.len()) as int)
}

/// A UID set: the UIDs with commas between.
pub open spec fn set_text(uids: Seq<u32>) -> Seq<char> {
    text::join(Seq::new(uids.len(), |i: int| text::decimal(uids[i] as nat)), ","@)
}

proof fn lemma_insert<A>(s: Seq<A>, i: int, x: A)
    requires
        0 <= i <= s.len(),
    ensures
        s.insert(i, x).to_multiset() =~= s.to_multiset().insert(x),
{
    broadcast use vstd::seq_lib::group_to_multiset_ensures;

    assert(s =~= s.take(i) + s.skip(i));
    assert(s.insert(i, x) =~= s.take(i).push(x) + s.skip(i));
    vstd::seq_lib::lemma_multiset_commutative(s.take(i), s.skip(i));
    vstd::seq_lib::lemma_multiset_commutative(s.take(i).push(x), s.skip(i));
}

proof fn lemma_descending_is_total()
    ensures
        vstd::relations::total_ordering(|a: u32, b: u32| a >= b),
{
}

fn sort_newest_first(uids: &Vec<u32>) -> (r: Vec<u32>)
    ensures
        r@ == newest_first(uids@),
{
    broadcast use vstd::seq_lib::group_to_multiset_ensures;

    let ghost leq = |a: u32, b: u32| a >= b;
    let mut out: Vec<u32> = Vec::new();
    let mut i: usize = 0;
    while i < uids.len()
        invariant
            i <= uids.len(),
            out.len() == i,
            out@.to_multiset() =~= uids@.take(i as int).to_multiset(),
            forall|a: int, b: int| 0 <= a <= b < out.len() ==> out@[a] >= out@[b],
        decreases uids.len() - i,
    {
        let uid: u32 = uids[i];
        let mut at: usize = out.len();
        while at > 0 && out[at - 1] < uid
            invariant
                at <= out.len(),
                forall|k: int| at <= k < out.len() ==> out@[k] < uid,
                forall|a: int, b: int| 0 <= a <= b < out.len() ==> out@[a] >= out@[b],
            decreases at,
        {
            at = at - 1;
        }
        proof {
            assert(uids@.take(i + 1) =~= uids@.take(i as int).push(uid));
        }
        let ghost before = out@;
        out.insert(at, uid);
        proof {
            lemma_insert(before, at as int, uid);
            vstd::seq_lib::to_multiset_build(uids@.take(i as int), uid);
        }
        i = i + 1;
    }
    proof {
        assert(uids@.take(i as int) =~= uids@);
        lemma_descending_is_total();
        uids@.lemma_sort_by_ensures(leq);
        assert(vstd::relations::sorted_by(out@, leq));
        vstd::seq_lib::lemma_sorted_unique(out@, newest_first(uids@), leq);
    }
    out
}

/// What is to be fetched of the messages that matched: the newest `limit`.
pub fn plan_fetch(uids: &Vec<u32>, limit: usize) -> (r: FetchPlan)
    ensures
        r.total == uids.len(),
        r.uids@ == newest(uids@, limit as nat),
{
    let mut sorted = sort_newest_first(uids);
    proof {
        lemma_newest_first(uids@);
    }
    sorted.truncate(limit);
    assert(sorted@ =~= newest(uids@, limit as nat));
    FetchPlan { total: uids.len(), uids: sorted }
}

proof fn lemma_newest_first(uids: Seq<u32>)
    ensures
        newest_first(uids).len() == uids.len(),
        newest_first(uids).to_multiset() == uids.to_multiset(),
        forall|a: int, b: int|
            0 <= a <= b < uids.len() ==> newest_first(uids)[a] >= newest_first(uids)[b],
{
    broadcast use vstd::seq_lib::group_to_multiset_ensures;

    let leq = |a: u32, b: u32| a >= b;
    lemma_descending_is_total();
    uids.lemma_sort_by_ensures(leq);
    assert(newest_first(uids).to_multiset().len() == newest_first(uids).len());
    assert(uids.to_multiset().len() == uids.len());
    assert forall|a: int, b: int| 0 <= a <= b < uids.len() implies newest_first(uids)[a]
        >= newest_first(uids)[b] by {
        if a < b {
            assert(vstd::relations::sorted_by(newest_first(uids), leq));
            assert(leq(newest_first(uids)[a], newest_first(uids)[b]));
        }
    }
}

/// The set of `uids` as `FETCH` takes it.
pub fn uid_set(uids: &Vec<u32>) -> (r: String)
    ensures
        r@ == set_text(uids@),
{
    let mut parts: Vec<String> = Vec::new();
    let mut i: usize = 0;
    while i < uids.len()
        invariant
            i <= uids.len(),
            parts.deep_view() =~= Seq::new(
                i as nat,
                |k: int| text::decimal(uids@[k] as nat),
            ),
        decreases uids.len() - i,
    {
        let ghost before = parts.deep_view();
        let one = text::to_decimal(uids[i] as u64);
        parts.push(one);
        assert(parts.deep_view() =~= before.push(one@));
        i = i + 1;
    }
    text::join_texts(&parts, ",")
}

impl FetchPlan {
    /// The set to fetch; `None` where there is nothing to fetch.
    pub fn set(&self) -> (r: Option<String>)
        ensures
            r.deep_view() == if self.uids@.len() == 0 {
                None
            } else {
                Some(set_text(self.uids@))
            },
    {
        if self.uids.len() == 0 {
            None
        } else {
            Some(uid_set(&self.uids))
        }
    }
}

/// The messages in a reply to `FETCH`: those items that have both a UID and a body.
pub open spec fn whole_messages(items: Seq<(Option<u32>, Option<Seq<u8>>)>) -> Seq<(u32, Seq<u8>)>
    decreases items.len(),
{
    if items.len() == 0 {
        Seq::empty()
    } else {
        let rest = whole_messages(items.drop_last());
        match items.last() {
            (Some(uid), Some(raw)) => rest.push((uid, raw)),
            _ => rest,
        }
    }
}

/// The messages in a reply to `FETCH`.
pub fn raw_messages(items: Vec<(Option<u32>, Option<Vec<u8>>)>) -> (r: Vec<RawMessage>)
    ensures
        r.deep_view() == whole_messages(items.deep_view()),
{
    let ghost all = items.deep_view();
    let ghost own = items@;
    let mut out: Vec<RawMessage> = Vec::new();
    assert(out.deep_view() =~= whole_messages(all.take(0)));
    for item in it: items
        invariant
            it.seq() == own,
            own.len() == all.len(),
            forall|k: int| 0 <= k < own.len() ==> (#[trigger] own[k]).deep_view() == all[k],
            out.deep_view() == whole_messages(all.take(it.index() as int)),
    {
        let ghost done = it.index() as int;
        let ghost had = out.deep_view();
        proof {
            assert(own[done] == item);
            assert(all.take(done + 1).drop_last() =~= all.take(done));
            assert(all.take(done + 1).last() == item.deep_view());
        }
        if let (Some(uid), Some(raw)) = item {
            assert(raw.deep_view() =~= raw@);
            let m = RawMessage { uid, raw };
            out.push(m);
            assert(out.deep_view() =~= had.push(m.deep_view()));
        }
    }
    assert(all.take(all.len() as int) =~= all);
    out
}

/// Where a message of UID `uid` goes among messages from the newest to the oldest: behind
/// the last that is at least as new.
pub open spec fn place(sorted: Seq<(u32, Seq<u8>)>, uid: u32) -> int
    decreases sorted.len(),
{
    if sorted.len() == 0 || sorted.last().0 >= uid {
        sorted.len() as int
    } else {
        place(sorted.drop_last(), uid)
    }
}

/// Messages from the newest to the oldest.
pub open spec fn arranged(raws: Seq<(u32, Seq<u8>)>) -> Seq<(u32, Seq<u8>)>
    decreases raws.len(),
{
    if raws.len() == 0 {
        Seq::empty()
    } else {
        let rest = arranged(raws.drop_last());
        rest.insert(place(rest, raws.last().0), raws.last())
    }
}

/// The summaries of messages, the newest first.
pub open spec fn summaries_of(raws: Seq<(u32, Seq<u8>)>) -> Seq<SummaryValue> {
    let sorted = arranged(raws);
    Seq::new(
        sorted.len(),
        |i: int| summary_of(sorted[i].0, mail_contents(sorted[i].1, SNIPPET_LEN as nat)),
    )
}

/// What a search found, once its messages have been fetched: their summaries, the newest
/// first, and how many matched.
#[verifier::spinoff_prover]
#[verifier::rlimit(40)]
pub fn search_results(total: usize, raws: &Vec<RawMessage>) -> (r: SearchResults)
    ensures
        r.total == total,
        r.summaries.deep_view() == summaries_of(raws.deep_view()),
{
    let ghost all = raws.deep_view();
    let mut summaries: Vec<MessageSummary> = Vec::new();
    let mut order: Vec<usize> = Vec::new();
    let mut i: usize = 0;
    assert(arranged(all.take(0)) =~= Seq::empty());
    while i < raws.len()
        invariant
            i <= raws.len(),
            all == raws.deep_view(),
            order.len() == i,
            forall|k: int| 0 <= k < order.len() ==> #[trigger] order@[k] < i,
            arranged(all.take(i as int)) =~= Seq::new(i as nat, |k: int| all[order@[k] as int]),
        decreases raws.len() - i,
    {
        let uid: u32 = raws[i].uid;
        let ghost sorted = arranged(all.take(i as int));
        let mut at: usize = order.len();
        proof {
            assert(sorted.take(at as int) =~= sorted);
            assert(all.take(i + 1).drop_last() =~= all.take(i as int));
            assert(all[i as int] == raws@[i as int].deep_view());
        }
        while at > 0 && raws[order[at - 1]].uid < uid
            invariant
                at <= order.len(),
                i < raws.len(),
                order.len() == i,
                all == raws.deep_view(),
                forall|k: int| 0 <= k < order.len() ==> #[trigger] order@[k] < i,
                sorted =~= Seq::new(i as nat, |k: int| all[order@[k] as int]),
                place(sorted.take(at as int), uid) == place(sorted, uid),
            decreases at,
        {
            proof {
                assert(sorted.take(at as int).last() == sorted[at - 1]);
                assert(sorted[at - 1] == raws@[order@[at - 1] as int].deep_view());
                assert(sorted.take(at as int).drop_last() =~= sorted.take(at - 1));
            }
            at = at - 1;
        }
        proof {
            if at > 0 {
                assert(sorted.take(at as int).last() == sorted[at - 1]);
                assert(sorted[at - 1] == raws@[order@[at - 1] as int].deep_view());
            }
            assert(place(sorted, uid) == at);
        }
        order.insert(at, i);
        assert(arranged(all.take(i + 1)) =~= Seq::new(
            (i + 1) as nat,
            |k: int| all[order@[k] as int],
        ));
        i = i + 1;
    }
    assert(all.take(i as int) =~= all);
    let ghost sorted = arranged(all);
    let mut j: usize = 0;
    while j < order.len()
        invariant
            j <= order.len(),
            order.len() == raws.len(),
            all == raws.deep_view(),
            sorted == arranged(all),
            forall|k: int| 0 <= k < order.len() ==> #[trigger] order@[k] < raws.len(),
            sorted =~= Seq::new(order@.len(), |k: int| all[order@[k] as int]),
            summaries.deep_view() =~= summaries_of(all).take(j as int),
        decreases order.len() - j,
    {
        let m = &raws[order[j]];
        let ghost before = summaries.deep_view();
        assert(sorted[j as int] == m.deep_view());
        let one = parse_summary(m.uid, m.raw.as_slice());
        summaries.push(one);
        assert(summaries.deep_view() =~= before.push(one.deep_view()));
        j = j + 1;
    }
    assert(summaries_of(all).take(j as int) =~= summaries_of(all));
    SearchResults { summaries, total }
}

/// What is told of the message `uid`, once it has been fetched.
pub open spec fn got(uid: u32, raws: Seq<(u32, Seq<u8>)>) -> Result<
    FullValue,
    (ErrorKind, Seq<char>),
> {
    if raws.len() == 0 {
        Err((ErrorKind::NotFound, "no message with uid "@ + text::decimal(uid as nat)))
    } else {
        Ok(read_in_full(raws[0].0, raws[0].1))
    }
}

/// The message `uid` in full, from what was fetched for it; an error where nothing was.
pub fn get_result(uid: u32, raws: &Vec<RawMessage>) -> (r: Result<FullMessage, GatewayError>)
    ensures
        error::outcome(r) == got(uid, raws.deep_view()),
{
    if raws.len() == 0 {
        let mut m = "no message with uid ".to_owned();
        text::push_decimal(&mut m, uid as u64);
        return Err(GatewayError::NotFound(m));
    }
    assert(raws.deep_view()[0] == raws@[0].deep_view());
    Ok(parse_full(raws[0].uid, raws[0].raw.as_slice()))
}

/// Of the messages that matched, no more than `limit` are fetched, and every message that
/// is not fetched is no newer than any that is.
pub proof fn law_fetch_is_bounded_and_newest(uids: Seq<u32>, limit: nat)
    ensures
        newest(uids, limit).len() <= limit,
        newest(uids, limit).len() <= uids.len(),
        newest_first(uids).to_multiset() == uids.to_multiset(),
        forall|i: int, j: int|
            0 <= i < newest(uids, limit).len() <= j < uids.len() ==> #[trigger] newest(
                uids,
                limit,
            )[i] >= #[trigger] newest_first(uids)[j],
{
    lemma_newest_first(uids);
}

proof fn lemma_place(sorted: Seq<(u32, Seq<u8>)>, uid: u32)
    ensures
        0 <= place(sorted, uid) <= sorted.len(),
        place(sorted, uid) > 0 ==> sorted[place(sorted, uid) - 1].0 >= uid,
        forall|i: int| place(sorted, uid) <= i < sorted.len() ==> (#[trigger] sorted[i]).0 < uid,
    decreases sorted.len(),
{
    if sorted.len() > 0 && sorted.last().0 < uid {
        lemma_place(sorted.drop_last(), uid);
        assert forall|i: int| place(sorted, uid) <= i < sorted.len() implies (
        #[trigger] sorted[i]).0 < uid by {
            if i < sorted.len() - 1 {
                assert(sorted.drop_last()[i] == sorted[i]);
            }
        }
    }
}

/// Messages come out newest first, in whatever order they were fetched.
pub proof fn law_results_are_newest_first(raws: Seq<(u32, Seq<u8>)>, i: int, j: int)
    requires
        0 <= i <= j < arranged(raws).len(),
    ensures
        arranged(raws)[i].0 >= arranged(raws)[j].0,
    decreases raws.len(),
{
    let rest = arranged(raws.drop_last());
    let uid = raws.last().0;
    lemma_place(rest, uid);
    let at = place(rest, uid);
    let i0 = if i > at { i - 1 } else { i };
    let j0 = if j > at { j - 1 } else { j };
    if i != at && j != at {
        law_results_are_newest_first(raws.drop_last(), i0, j0);
    } else if i == at && j != at {
        assert(rest[j0].0 < uid);
    } else if i != at && j == at {
        law_results_are_newest_first(raws.drop_last(), i0, at - 1);
    }
}

/// Arranging messages drops none and adds none.
pub proof fn law_arranging_keeps_all(raws: Seq<(u32, Seq<u8>)>)
    ensures
        arranged(raws).to_multiset() =~= raws.to_multiset(),
    decreases raws.len(),
{
    broadcast use vstd::seq_lib::group_to_multiset_ensures;

    if raws.len() > 0 {
        law_arranging_keeps_all(raws.drop_last());
        let rest = arranged(raws.drop_last());
        lemma_place(rest, raws.last().0);
        let at = place(rest, raws.last().0);
        let x = raws.last();
        assert(raws =~= raws.drop_last().push(x));
        lemma_insert(rest, at, x);
    }
}

/// Mail is read over TLS from the first byte on the ports 993 and 3993 and on no others.
pub proof fn law_tls_by_port(port: u16)
    ensures
        transport_of(port) == TlsMode::ImplicitTls <==> port == 993 || port == 3993,
        transport_of(port) == TlsMode::Plain <==> port != 993 && port != 3993,
{
}

/// A connection that could not be made is a fault of TLS exactly where TLS was at work, and
/// of the host otherwise. The reason is passed on, behind the words for it.
pub proof fn law_connection_failures_are_told_apart(host: Seq<char>, port: u16, f: ConnectFailure)
    ensures
        ({
            let e = connect_failed(host, port, f);
            &&& e.0 == ErrorKind::TlsFailure <==> f is TlsConfig || f is ServerName || f is Handshake
            &&& e.0 == ErrorKind::HostUnreachable <==> f is Tcp || f is ClosedBeforeGreeting
                || f is Greeting
            &&& f matches ConnectFailure::Tcp(why) ==> text::has_suffix(e.1, why@)
            &&& f matches ConnectFailure::Greeting(why) ==> text::has_suffix(e.1, why@)
            &&& f matches ConnectFailure::TlsConfig(why) ==> text::has_suffix(e.1, why@)
            &&& f matches ConnectFailure::ServerName(why) ==> text::has_suffix(e.1, why@)
            &&& f matches ConnectFailure::Handshake(why) ==> text::has_suffix(e.1, why@)
        }),
{
    let e = connect_failed(host, port, f);
    match f {
        ConnectFailure::Tcp(why) => {
            assert(e.1.skip(e.1.len() - why@.len()) =~= why@);
        },
        ConnectFailure::ClosedBeforeGreeting => {},
        ConnectFailure::Greeting(why) => {
            assert(e.1.skip(e.1.len() - why@.len()) =~= why@);
        },
        ConnectFailure::TlsConfig(why) => {
            assert(e.1.skip(e.1.len() - why@.len()) =~= why@);
        },
        ConnectFailure::ServerName(why) => {
            assert(e.1.skip(e.1.len() - why@.len()) =~= why@);
        },
        ConnectFailure::Handshake(why) => {
            assert(e.1.skip(e.1.len() - why@.len()) =~= why@);
        },
    }
}

/// A login is rejected exactly where the connection held; what the server said to it is
/// not passed on.
pub proof fn law_a_login_is_rejected_on_a_sound_connection(f: ImapFailure, g: ImapFailure)
    ensures
        login_failed(f).0 == ErrorKind::AuthFailure <==> f.kind != FailureKind::Io && f.kind
            != FailureKind::ConnectionLost,
        login_failed(f).0 == ErrorKind::HostUnreachable <==> f.kind == FailureKind::Io || f.kind
            == FailureKind::ConnectionLost,
        login_failed(f).0 == ErrorKind::AuthFailure && login_failed(g).0 == ErrorKind::AuthFailure
            ==> login_failed(f) == login_failed(g),
{
}

/// A mailbox is missing exactly where the server said `NO` to selecting it; every other
/// failure to select is one of the host.
pub proof fn law_a_mailbox_is_missing_on_no(f: ImapFailure, mailbox: Seq<char>)
    ensures
        select_failed(f, mailbox).0 == ErrorKind::NotFound <==> f.kind == FailureKind::No,
        select_failed(f, mailbox).0 == ErrorKind::HostUnreachable <==> f.kind != FailureKind::No,
{
}

/// A search or a fetch is the caller's fault exactly where the server or the checks before
/// it rejected the command, and a fault of the host otherwise.
pub proof fn law_a_rejected_command_is_a_bad_request(f: ImapFailure)
    ensures
        command_failed(f).0 == ErrorKind::BadRequest <==> f.kind == FailureKind::No || f.kind
            == FailureKind::Bad || f.kind == FailureKind::Validate,
        command_failed(f).0 == ErrorKind::HostUnreachable <==> f.kind == FailureKind::Io || f.kind
            == FailureKind::ConnectionLost || f.kind == FailureKind::Other,
        f.kind == FailureKind::No || f.kind == FailureKind::Bad || f.kind == FailureKind::Validate
            ==> text::has_suffix(command_failed(f).1, f.detail@),
{
    let m = command_failed(f).1;
    if f.kind == FailureKind::No || f.kind == FailureKind::Bad || f.kind == FailureKind::Validate {
        assert(m.skip(m.len() - f.detail@.len()) =~= f.detail@);
    }
}

/// The text of a message is the first of its parts that is text, with all that is in it,
/// however long; and it has none where no part is text.
pub proof fn law_the_first_text_is_whole(parts: Seq<PartValue>, i: int, t: Seq<char>)
    ensures
        0 <= i < parts.len() && parts[i] == PartValue::Text(t) && (forall|j: int|
            0 <= j < i ==> !(#[trigger] parts[j] is Text)) ==> first_text(parts) == Some(t),
        (forall|j: int| 0 <= j < parts.len() ==> !(#[trigger] parts[j] is Text)) ==> first_text(
            parts,
        ) is None,
    decreases parts.len(),
{
    if parts.len() > 0 {
        let rest = parts.skip(1);
        assert(forall|j: int| 0 <= j < rest.len() ==> #[trigger] rest[j] == parts[j + 1]);
        if i > 0 && 0 <= i < parts.len() && parts[i] == PartValue::Text(t) && (forall|j: int|
            0 <= j < i ==> !(#[trigger] parts[j] is Text)) {
            assert(!(parts[0] is Text));
        }
        if forall|j: int| 0 <= j < parts.len() ==> !(#[trigger] parts[j] is Text) {
            assert(!(parts[0] is Text));
        }
        law_the_first_text_is_whole(rest, i - 1, t);
    }
}

/// The HTML of a message is the first of its parts that is HTML, with all that is in it,
/// however long; and it has none where no part is HTML.
pub proof fn law_the_first_html_is_whole(parts: Seq<PartValue>, i: int, h: Seq<char>)
    ensures
        0 <= i < parts.len() && parts[i] == PartValue::Html(h) && (forall|j: int|
            0 <= j < i ==> !(#[trigger] parts[j] is Html)) ==> first_html(parts) == Some(h),
        (forall|j: int| 0 <= j < parts.len() ==> !(#[trigger] parts[j] is Html)) ==> first_html(
            parts,
        ) is None,
    decreases parts.len(),
{
    if parts.len() > 0 {
        let rest = parts.skip(1);
        assert(forall|j: int| 0 <= j < rest.len() ==> #[trigger] rest[j] == parts[j + 1]);
        if i > 0 && 0 <= i < parts.len() && parts[i] == PartValue::Html(h) && (forall|j: int|
            0 <= j < i ==> !(#[trigger] parts[j] is Html)) {
            assert(!(parts[0] is Html));
        }
        if forall|j: int| 0 <= j < parts.len() ==> !(#[trigger] parts[j] is Html) {
            assert(!(parts[0] is Html));
        }
        law_the_first_html_is_whole(rest, i - 1, h);
    }
}

/// A message that was read is shown with all that was read of it: its subject and date as
/// they are, sender and recipients from their own headers, its bodies from its parts, and
/// its bytes.
pub proof fn law_a_message_is_shown_as_it_was_read(
    uid: u32,
    raw: Seq<u8>,
    m: MailValue,
    parts: Seq<PartValue>,
)
    ensures
        ({
            let full = full_of(uid, raw, Some((m, parts)));
            &&& full.uid == uid
            &&& full.from == shown_addresses(m.from)
            &&& full.to == shown_addresses(m.to)
            &&& full.subject == m.subject
            &&& full.date == m.date
            &&& full.text_body == first_text(parts)
            &&& full.html_body == first_html(parts)
            &&& full.raw == raw
        }),
        ({
            let summary = summary_of(uid, Some(m));
            &&& summary.uid == uid
            &&& summary.from == shown_addresses(m.from)
            &&& summary.to == shown_addresses(m.to)
            &&& summary.subject == m.subject
            &&& summary.date == m.date
        }),
{
}

/// A summary shows the start of the body without the white space around it, and shows none
/// where there is nothing but white space.
pub proof fn law_the_snippet_is_the_preview(uid: u32, m: MailValue)
    ensures
        summary_of(uid, Some(m)).snippet matches Some(t) ==> t.len() > 0 && (
        m.preview matches Some(p) && t == text::trimmed(p)),
        summary_of(uid, Some(m)).snippet is None <==> (m.preview matches Some(p)
            ==> text::is_blank(p)),
{
}

/// An entry without an address is not shown. One with an address is shown by it alone where
/// it has no name but white space, and else by its name, trimmed, with the address in
/// angle brackets behind it.
pub proof fn law_how_a_mailbox_is_shown(name: Option<Seq<char>>, email: Seq<char>)
    ensures
        shown_mailbox((name, None)) is None,
        (name matches Some(n) ==> text::is_blank(n)) ==> shown_mailbox((name, Some(email))) == Some(
            email,
        ),
        (name matches Some(n) && !text::is_blank(n)) ==> shown_mailbox((name, Some(email))) == Some(
            text::trimmed(name->0) + " <"@ + email + ">"@,
        ),
{
}

/// A header of addresses shows all its entries that have one, in their order: what is shown
/// of two lists in a row is what is shown of each.
pub proof fn law_every_address_is_shown(a: Seq<MailboxValue>, b: Seq<MailboxValue>, m: MailboxValue)
    ensures
        shown_mailboxes(a + b) == shown_mailboxes(a) + shown_mailboxes(b),
        shown_mailboxes(seq![m]) == match shown_mailbox(m) {
            Some(s) => seq![s],
            None => Seq::<Seq<char>>::empty(),
        },
        shown_addresses(None) is None,
        shown_addresses(Some(a)) is None <==> shown_mailboxes(a).len() == 0,
        shown_addresses(Some(a)) matches Some(line) ==> line == text::join(
            shown_mailboxes(a),
            ", "@,
        ),
    decreases b.len(),
{
    assert(seq![m].drop_last() =~= Seq::<MailboxValue>::empty());
    assert(shown_mailboxes(seq![m].drop_last()) =~= Seq::<Seq<char>>::empty());
    assert(shown_mailboxes(seq![m]) =~= match shown_mailbox(m) {
        Some(s) => seq![s],
        None => Seq::<Seq<char>>::empty(),
    });
    if b.len() == 0 {
        assert(a + b =~= a);
        assert(shown_mailboxes(a) + shown_mailboxes(b) =~= shown_mailboxes(a));
    } else {
        law_every_address_is_shown(a, b.drop_last(), m);
        assert((a + b).drop_last() =~= a + b.drop_last());
        assert(shown_mailboxes(a + b) =~= shown_mailboxes(a) + shown_mailboxes(b));
    }
}

/// As many messages are fetched as the limit allows and there are, no fewer: the newest, in
/// order from the newest on, each of them one that matched, and none that is left out is
/// newer than one that is fetched.
pub proof fn law_the_limit_is_used_up(uids: Seq<u32>, limit: nat)
    ensures
        newest(uids, limit).len() == if limit < uids.len() {
            limit
        } else {
            uids.len()
        },
        forall|i: int, j: int|
            0 <= i <= j < newest(uids, limit).len() ==> #[trigger] newest(uids, limit)[i]
                >= #[trigger] newest(uids, limit)[j],
        newest(uids, limit).to_multiset().subset_of(uids.to_multiset()),
        forall|uid: u32, i: int|
            0 <= i < newest(uids, limit).len() && #[trigger] uids.to_multiset().count(uid) > newest(
                uids,
                limit,
            ).to_multiset().count(uid) ==> uid <= #[trigger] newest(uids, limit)[i],
        uids.len() <= limit ==> newest(uids, limit).to_multiset() == uids.to_multiset(),
{
    broadcast use vstd::seq_lib::group_to_multiset_ensures;

    lemma_newest_first(uids);
    let all = newest_first(uids);
    let n = newest(uids, limit).len() as int;
    let head = newest(uids, limit);
    let tail = all.skip(n);
    assert(all =~= head + tail);
    vstd::seq_lib::lemma_multiset_commutative(head, tail);
    assert(all.to_multiset() =~= head.to_multiset().add(tail.to_multiset()));
    assert forall|uid: u32, i: int|
        0 <= i < head.len() && #[trigger] uids.to_multiset().count(uid)
            > head.to_multiset().count(uid) implies uid <= #[trigger] head[i] by {
        assert(tail.to_multiset().count(uid) > 0);
        assert(tail.contains(uid));
        let k = tail.index_of(uid);
        assert(tail[k] == all[n + k]);
    }
    if uids.len() <= limit {
        assert(head =~= all);
    }
}

/// The set of UIDs that is fetched names each of them, in decimal, in their order, and
/// nothing else.
pub proof fn law_the_set_names_every_uid(uids: Seq<u32>)
    requires
        uids.len() > 0,
    ensures
        text::split(set_text(uids), ',').len() == uids.len(),
        forall|i: int|
            0 <= i < uids.len() ==> text::decimal_in(
                #[trigger] text::split(set_text(uids), ',')[i],
                u32::MAX as nat,
            ) == Some(uids[i] as nat),
{
    let parts = Seq::new(uids.len(), |i: int| text::decimal(uids[i] as nat));
    reveal_strlit(",");
    assert(","@ =~= seq![',']);
    assert forall|i: int| 0 <= i < parts.len() implies !(#[trigger] parts[i]).contains(',') by {
        text::law_decimal_reads_back(uids[i] as nat, u32::MAX as nat);
        if parts[i].contains(',') {
            let k = parts[i].index_of(',');
            assert(text::is_digit(parts[i][k]));
        }
    }
    text::law_joined_parts_are_cut_out_again(parts, ',');
    assert forall|i: int| 0 <= i < uids.len() implies text::decimal_in(
        #[trigger] text::split(set_text(uids), ',')[i],
        u32::MAX as nat,
    ) == Some(uids[i] as nat) by {
        text::law_decimal_reads_back(uids[i] as nat, u32::MAX as nat);
        assert(parts[i] == text::decimal(uids[i] as nat));
    }
}

/// Every fetched item with a UID and bytes is a message, in its place; an item that lacks
/// either is none.
pub proof fn law_every_whole_item_is_a_message(
    a: Seq<(Option<u32>, Option<Seq<u8>>)>,
    b: Seq<(Option<u32>, Option<Seq<u8>>)>,
    uid: Option<u32>,
    raw: Option<Seq<u8>>,
)
    ensures
        whole_messages(a + b) == whole_messages(a) + whole_messages(b),
        whole_messages(seq![(uid, raw)]) == if uid is Some && raw is Some {
            seq![(uid->0, raw->0)]
        } else {
            Seq::<(u32, Seq<u8>)>::empty()
        },
    decreases b.len(),
{
    let one = seq![(uid, raw)];
    assert(one.drop_last() =~= Seq::<(Option<u32>, Option<Seq<u8>>)>::empty());
    assert(whole_messages(one.drop_last()) =~= Seq::<(u32, Seq<u8>)>::empty());
    assert(whole_messages(one) =~= if uid is Some && raw is Some {
        seq![(uid->0, raw->0)]
    } else {
        Seq::<(u32, Seq<u8>)>::empty()
    });
    if b.len() == 0 {
        assert(a + b =~= a);
        assert(whole_messages(a) + whole_messages(b) =~= whole_messages(a));
    } else {
        law_every_whole_item_is_a_message(a, b.drop_last(), uid, raw);
        assert((a + b).drop_last() =~= a + b.drop_last());
        assert(whole_messages(a + b) =~= whole_messages(a) + whole_messages(b));
    }
}

/// A search gives one summary for every message that was fetched, the newest first, each
/// the summary of that message's own bytes under its own UID.
pub proof fn law_every_fetched_message_is_summarized(raws: Seq<(u32, Seq<u8>)>, i: int)
    requires
        0 <= i < summaries_of(raws).len(),
    ensures
        summaries_of(raws).len() == raws.len(),
        exists|k: int|
            0 <= k < raws.len() && summaries_of(raws)[i] == summary_of(
                (#[trigger] raws[k]).0,
                mail_contents(raws[k].1, 200),
            ),
        forall|j: int|
            i <= j < summaries_of(raws).len() ==> summaries_of(raws)[i].uid >= #[trigger] summaries_of(
                raws,
            )[j].uid,
{
    broadcast use vstd::seq_lib::group_to_multiset_ensures;

    law_arranging_keeps_all(raws);
    let sorted = arranged(raws);
    assert(sorted.to_multiset().len() == sorted.len());
    assert(raws.to_multiset().len() == raws.len());
    assert(sorted.to_multiset().count(sorted[i]) > 0);
    assert(raws.contains(sorted[i]));
    let k = raws.index_of(sorted[i]);
    assert(summaries_of(raws)[i] == summary_of(raws[k].0, mail_contents(raws[k].1, 200)));
    assert forall|j: int| i <= j < summaries_of(raws).len() implies summaries_of(raws)[i].uid
        >= #[trigger] summaries_of(raws)[j].uid by {
        law_results_are_newest_first(raws, i, j);
    }
}

/// Getting a message gives the first message that was fetched, in full, and tells that there
/// is none exactly where nothing was fetched.
pub proof fn law_a_fetched_message_is_given(uid: u32, raws: Seq<(u32, Seq<u8>)>)
    ensures
        raws.len() == 0 ==> (got(uid, raws) matches Err(e) && e.0 == ErrorKind::NotFound
            && text::has_suffix(e.1, text::decimal(uid as nat))),
        raws.len() > 0 ==> (got(uid, raws) matches Ok(m) && m.uid == raws[0].0 && m.raw
            == raws[0].1 && m == full_of(raws[0].0, raws[0].1, read_whole(raws[0].1))),
{
    text::law_prefix_and_suffix("no message with uid "@, text::decimal(uid as nat));
}

/// What is read from the bytes is read from all of them, headers and parts alike, and it is
/// there exactly where the bytes are a message.
pub proof fn law_headers_and_parts_are_of_the_same_bytes(raw: Seq<u8>)
    ensures
        read_whole(raw) is Some <==> mail_contents(raw, 200) is Some,
        read_whole(raw) matches Some(r) ==> mail_contents(raw, 200) == Some(r.0) && (
        mail_parts(raw) is Some ==> mail_parts(raw) == Some(r.1)),
{
}

/// The error for a server that cannot be reached shows its host and port, and one about the
/// name or the handshake its host.
pub proof fn law_connection_failures_name_the_server(
    host: Seq<char>,
    port: u16,
    f: ConnectFailure,
)
    ensures
        f is Tcp ==> text::holds(
            connect_failed(host, port, f).1,
            host + ":"@ + text::decimal(port as nat),
        ),
        f is ServerName || f is Handshake ==> text::holds(connect_failed(host, port, f).1, host),
{
    let digits = text::decimal(port as nat);
    let e = connect_failed(host, port, f);
    match f {
        ConnectFailure::Tcp(why) => {
            text::law_a_text_holds_its_middle(
                "cannot reach IMAP "@,
                host + ":"@ + digits,
                ": "@ + why@,
            );
            assert("cannot reach IMAP "@ + (host + ":"@ + digits) + (": "@ + why@) =~= e.1);
        },
        ConnectFailure::ServerName(why) => {
            text::law_a_text_holds_its_middle("invalid TLS server name '"@, host, "': "@ + why@);
            assert("invalid TLS server name '"@ + host + ("': "@ + why@) =~= e.1);
        },
        ConnectFailure::Handshake(why) => {
            text::law_a_text_holds_its_middle(
                "TLS handshake with "@,
                host,
                " failed: "@ + why@,
            );
            assert("TLS handshake with "@ + host + (" failed: "@ + why@) =~= e.1);
        },
        _ => {},
    }
}

/// The error for a mailbox that could not be selected shows the mailbox, unless the
/// connection was lost, and why where the server or the system said so.
pub proof fn law_a_failed_select_names_the_mailbox(f: ImapFailure, mailbox: Seq<char>)
    ensures
        f.kind != FailureKind::ConnectionLost ==> text::holds(select_failed(f, mailbox).1, mailbox),
        f.kind == FailureKind::Io ==> text::has_suffix(select_failed(f, mailbox).1, f.detail@),
        f.kind != FailureKind::Io && f.kind != FailureKind::No && f.kind
            != FailureKind::ConnectionLost ==> text::has_suffix(
            select_failed(f, mailbox).1,
            f.shown@,
        ),
{
    let e = select_failed(f, mailbox);
    match f.kind {
        FailureKind::No => {
            text::law_a_text_holds_its_middle("mailbox '"@, mailbox, "' not found"@);
        },
        FailureKind::ConnectionLost => {},
        FailureKind::Io => {
            text::law_a_text_holds_its_middle("IMAP error selecting '"@, mailbox, "': "@ + f.detail@);
            assert("IMAP error selecting '"@ + mailbox + ("': "@ + f.detail@) =~= e.1);
            assert(e.1.skip(e.1.len() - f.detail@.len()) =~= f.detail@);
        },
        _ => {
            text::law_a_text_holds_its_middle("IMAP error selecting '"@, mailbox, "': "@ + f.shown@);
            assert("IMAP error selecting '"@ + mailbox + ("': "@ + f.shown@) =~= e.1);
            assert(e.1.skip(e.1.len() - f.shown@.len()) =~= f.shown@);
        },
    }
}

/// What is said of a value is said of what it holds: every field and every case stands
/// under its own name, and nothing is left out.
pub proof fn law_views_say_what_the_values_hold(
    raw_message: RawMessage,
    message_summary: MessageSummary,
    full_message: FullMessage,
    mail_part: MailPart,
    parsed_mail: ParsedMail,
)
    ensures
        raw_message.deep_view().0 == raw_message.uid,
        raw_message.deep_view().1 == raw_message.raw@,
        message_summary.deep_view().uid == message_summary.uid,
        message_summary.deep_view().from == message_summary.from.deep_view(),
        message_summary.deep_view().to == message_summary.to.deep_view(),
        message_summary.deep_view().subject == message_summary.subject.deep_view(),
        message_summary.deep_view().date == message_summary.date.deep_view(),
        message_summary.deep_view().snippet == message_summary.snippet.deep_view(),
        full_message.deep_view().uid == full_message.uid,
        full_message.deep_view().from == full_message.from.deep_view(),
        full_message.deep_view().to == full_message.to.deep_view(),
        full_message.deep_view().subject == full_message.subject.deep_view(),
        full_message.deep_view().date == full_message.date.deep_view(),
        full_message.deep_view().text_body == full_message.text_body.deep_view(),
        full_message.deep_view().html_body == full_message.html_body.deep_view(),
        full_message.deep_view().raw == full_message.raw@,
        match mail_part {
            MailPart::Text(t) => mail_part.deep_view() == PartValue::Text(t@),
            MailPart::Html(h) => mail_part.deep_view() == PartValue::Html(h@),
            MailPart::Other => mail_part.deep_view() == PartValue::Other,
        },
        parsed_mail.deep_view().from == parsed_mail.from.deep_view(),
        parsed_mail.deep_view().to == parsed_mail.to.deep_view(),
        parsed_mail.deep_view().subject == parsed_mail.subject.deep_view(),
        parsed_mail.deep_view().date == parsed_mail.date.deep_view(),
        parsed_mail.deep_view().preview == parsed_mail.preview.deep_view(),
{
}

} // verus!
