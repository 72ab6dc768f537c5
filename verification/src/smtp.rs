//! Sending mail: the envelope and the MIME form of a message, and which error each
//! failure of a submission comes to.
//!
//! The connection itself is made elsewhere. A blind copy reaches its recipients through
//! the envelope alone: it is never part of what the MIME form is made from.

use mail_builder::MessageBuilder;
use vstd::prelude::*;

use crate::auth::HostPort;
use crate::config;
use crate::error;
use crate::error::{ErrorKind, GatewayError};
use crate::text;

verus! {

// ---------------------------------------------------------------------------
// Transport
// ---------------------------------------------------------------------------

/// How the connection to an SMTP server is secured.
#[derive(Debug, Clone, Copy, PartialEq, Eq, Structural)]
pub enum SmtpSecurity {
    /// No TLS.
    Plaintext,
    /// TLS from the first byte; `insecure` accepts any certificate.
    ImplicitTls { insecure: bool },
}

/// The security for a port: 465, and its local mirror 3465, are implicit TLS.
pub open spec fn security_of(port: u16, tls_insecure: bool) -> SmtpSecurity {
    if port == 465 || port == 3465 {
        SmtpSecurity::ImplicitTls { insecure: tls_insecure }
    } else {
        SmtpSecurity::Plaintext
    }
}

impl SmtpSecurity {
    /// The security for a submission port.
    pub fn for_submission_port(port: u16, tls_insecure: bool) -> (r: Self)
        ensures
            r == security_of(port, tls_insecure),
    {
        match port {
            465 | 3465 => SmtpSecurity::ImplicitTls { insecure: tls_insecure },
            _ => SmtpSecurity::Plaintext,
        }
    }
}

/// How the SMTP client connects.
#[derive(Debug, Clone, Copy, PartialEq, Eq)]
pub struct SmtpSettings {
    /// Whether any certificate is accepted.
    pub tls_insecure: bool,
}

impl SmtpSettings {
    /// The settings that `MAIL_TLS_INSECURE` asks for: off unless it is switched on.
    pub fn from_env(tls_insecure: &Option<String>) -> (r: Self)
        ensures
            r.tls_insecure == config::switched_on(tls_insecure.deep_view()),
    {
        SmtpSettings {
            tls_insecure: match tls_insecure {
                Some(v) => matches!(config::parse_bool(v.as_str()), Some(true)),
                None => false,
            },
        }
    }

    /// The security for a target.
    pub fn security_for(&self, smtp: &HostPort) -> (r: SmtpSecurity)
        ensures
            r == security_of(smtp.port, self.tls_insecure),
    {
        SmtpSecurity::for_submission_port(smtp.port, self.tls_insecure)
    }
}

// ---------------------------------------------------------------------------
// Messages
// ---------------------------------------------------------------------------

/// The body of a message: text, HTML or both, but never neither.
#[derive(Debug, Clone, PartialEq, Eq)]
pub enum OutgoingBody {
    Text(String),
    Html(String),
    Both { text: String, html: String },
}

/// A message that is to be sent.
#[derive(Debug, Clone, PartialEq, Eq)]
pub struct OutgoingMessage {
    pub from: String,
    pub to: Vec<String>,
    pub cc: Vec<String>,
    pub bcc: Vec<String>,
    pub subject: String,
    pub body: OutgoingBody,
}

/// What an `OutgoingBody` holds: text and HTML.
pub open spec fn body_value(body: OutgoingBody) -> (Option<Seq<char>>, Option<Seq<char>>) {
    match body {
        OutgoingBody::Text(text) => (Some(text@), None),
        OutgoingBody::Html(html) => (None, Some(html@)),
        OutgoingBody::Both { text, html } => (Some(text@), Some(html@)),
    }
}

/// What an `OutgoingMessage` holds.
#[verifier::ext_equal]
pub struct MessageValue {
    pub from: Seq<char>,
    pub to: Seq<Seq<char>>,
    pub cc: Seq<Seq<char>>,
    pub bcc: Seq<Seq<char>>,
    pub subject: Seq<char>,
    pub text: Option<Seq<char>>,
    pub html: Option<Seq<char>>,
}

impl DeepView for OutgoingMessage {
    type V = MessageValue;

    open spec fn deep_view(&self) -> MessageValue {
        MessageValue {
            from: self.from@,
            to: self.to.deep_view(),
            cc: self.cc.deep_view(),
            bcc: self.bcc.deep_view(),
            subject: self.subject@,
            text: body_value(self.body).0,
            html: body_value(self.body).1,
        }
    }
}

/// Copies of texts.
pub fn clone_texts(v: &Vec<String>) -> (r: Vec<String>)
    ensures
        r.deep_view() == v.deep_view(),
{
    let mut out: Vec<String> = Vec::new();
    push_texts(&mut out, v);
    assert(out.deep_view() =~= v.deep_view());
    out
}

fn push_texts(out: &mut Vec<String>, v: &Vec<String>)
    ensures
        final(out).deep_view() == old(out).deep_view() + v.deep_view(),
{
    let ghost had = out.deep_view();
    let mut i: usize = 0;
    assert(out.deep_view() =~= had + v.deep_view().take(0));
    while i < v.len()
        invariant
            i <= v.len(),
            out.deep_view() =~= had + v.deep_view().take(i as int),
        decreases v.len() - i,
    {
        let ghost before = out.deep_view();
        let one = v[i].clone();
        out.push(one);
        assert(out.deep_view() =~= before.push(one@));
        i = i + 1;
    }
    assert(v.deep_view().take(i as int) =~= v.deep_view());
}

// ---------------------------------------------------------------------------
// The envelope
// ---------------------------------------------------------------------------

/// Whether `value` is a mail address.
pub uninterp spec fn is_address(value: Seq<char>) -> bool;

/// Whether `lettre`'s `Address` reads `value`. It does or does not by `value` alone, as
/// named by `is_address`; an address that is read holds `value` as it is.
#[verifier::external_body]
fn check_address(value: &str) -> (r: bool)
    ensures
        r == is_address(value@),
{
    value.parse::<lettre::Address>().is_ok()
}

/// Who a message is from and whom it goes to.
#[derive(Debug, Clone, PartialEq, Eq)]
pub struct Envelope {
    pub from: String,
    pub to: Vec<String>,
}

/// What an `Envelope` holds.
pub type EnvelopeValue = (Seq<char>, Seq<Seq<char>>);

impl DeepView for Envelope {
    type V = EnvelopeValue;

    open spec fn deep_view(&self) -> EnvelopeValue {
        (self.from@, self.to.deep_view())
    }
}

/// Everyone a message goes to: its recipients, copies and blind copies, in this order.
pub open spec fn recipients(m: MessageValue) -> Seq<Seq<char>> {
    m.to + m.cc + m.bcc
}

/// The first of `checks` that did not hold; the length where all did.
pub open spec fn first_bad(checks: Seq<bool>) -> int
    decreases checks.len(),
{
    if checks.len() == 0 || !checks[0] {
        0
    } else {
        1 + first_bad(checks.skip(1))
    }
}

/// The error for a value that is no address.
pub open spec fn address_error(role: Seq<char>, value: Seq<char>) -> (ErrorKind, Seq<char>) {
    (ErrorKind::BadRequest, "invalid "@ + role + " address: "@ + value)
}

/// The envelope of a message, given which values are addresses, the sender and each
/// recipient: the first value that is none, the sender before the recipients, gives the
/// error, and so does a message that goes to nobody.
pub open spec fn envelope_of(m: MessageValue, from_ok: bool, checks: Seq<bool>) -> Result<
    EnvelopeValue,
    (ErrorKind, Seq<char>),
> {
    let all = recipients(m);
    let bad = first_bad(checks);
    if !from_ok {
        Err(address_error("from"@, m.from))
    } else if bad < checks.len() {
        Err(address_error("recipient"@, all[bad]))
    } else if all.len() == 0 {
        Err(
            (
                ErrorKind::BadRequest,
                "invalid SMTP envelope: missing destination address, invalid envelope"@,
            ),
        )
    } else {
        Ok((m.from, all))
    }
}

/// Which of `all` are addresses.
pub open spec fn which_are_addresses(all: Seq<Seq<char>>) -> Seq<bool> {
    Seq::new(all.len(), |i: int| is_address(all[i]))
}

/// The envelope of a message, every value in it an address.
pub open spec fn checked_envelope(m: MessageValue) -> Result<EnvelopeValue, (ErrorKind, Seq<char>)> {
    envelope_of(m, is_address(m.from), which_are_addresses(recipients(m)))
}

fn bad_address(role: &str, value: &str) -> (r: GatewayError)
    ensures
        r@ == address_error(role@, value@),
{
    let mut m = text::concat3("invalid ", role, " address: ");
    m.append(value);
    GatewayError::BadRequest(m)
}

fn everyone(message: &OutgoingMessage) -> (r: Vec<String>)
    ensures
        r.deep_view() == recipients(message.deep_view()),
{
    let mut to = clone_texts(&message.to);
    push_texts(&mut to, &message.cc);
    push_texts(&mut to, &message.bcc);
    assert(to.deep_view() =~= recipients(message.deep_view()));
    to
}

/// The envelope of a message, given whether its sender is an address and, for each
/// recipient in the order to, copies, blind copies, whether that is one.
pub fn envelope_with(message: &OutgoingMessage, from_ok: bool, checks: &Vec<bool>) -> (r: Result<
    Envelope,
    GatewayError,
>)
    requires
        checks.len() == recipients(message.deep_view()).len(),
    ensures
        error::outcome(r) == envelope_of(message.deep_view(), from_ok, checks@),
{
    if !from_ok {
        return Err(bad_address("from", message.from.as_str()));
    }
    let to = everyone(message);
    let ghost all = recipients(message.deep_view());
    let mut i: usize = 0;
    assert(checks@.skip(0) =~= checks@);
    while i < to.len()
        invariant
            i <= to.len(),
            to.deep_view() == all,
            all == recipients(message.deep_view()),
            checks.len() == all.len(),
            from_ok,
            i + first_bad(checks@.skip(i as int)) == first_bad(checks@),
        decreases to.len() - i,
    {
        proof {
            assert(all[i as int] == to@[i as int]@);
            assert(checks@.skip(i as int)[0] == checks@[i as int]);
            assert(checks@.skip(i as int).skip(1) =~= checks@.skip(i + 1));
        }
        if !checks[i] {
            return Err(bad_address("recipient", to[i].as_str()));
        }
        i = i + 1;
    }
    if to.len() == 0 {
        return Err(
            GatewayError::BadRequest(
                "invalid SMTP envelope: missing destination address, invalid envelope".to_owned(),
            ),
        );
    }
    Ok(Envelope { from: message.from.clone(), to })
}

/// The envelope of a message. Every value has to be an address, and one recipient at
/// least has to be there.
pub fn build_envelope(message: &OutgoingMessage) -> (r: Result<Envelope, GatewayError>)
    ensures
        error::outcome(r) == checked_envelope(message.deep_view()),
{
    let to = everyone(message);
    let ghost all = recipients(message.deep_view());
    let mut checks: Vec<bool> = Vec::new();
    let mut i: usize = 0;
    while i < to.len()
        invariant
            i <= to.len(),
            to.deep_view() == all,
            checks@ =~= which_are_addresses(all.take(i as int)),
        decreases to.len() - i,
    {
        assert(all[i as int] == to@[i as int]@);
        checks.push(check_address(to[i].as_str()));
        i = i + 1;
    }
    assert(all.take(i as int) =~= all);
    envelope_with(message, check_address(message.from.as_str()), &checks)
}

// ---------------------------------------------------------------------------
// The MIME form
// ---------------------------------------------------------------------------

/// What the MIME form of a message is made from.
#[derive(Debug, PartialEq, Eq)]
pub struct MimeFields {
    pub from: String,
    pub to: Vec<String>,
    /// The copies, where there are any.
    pub cc: Option<Vec<String>>,
    pub subject: String,
    pub text: Option<String>,
    pub html: Option<String>,
}

/// What a `MimeFields` holds.
#[verifier::ext_equal]
pub struct MimeValue {
    pub from: Seq<char>,
    pub to: Seq<Seq<char>>,
    pub cc: Option<Seq<Seq<char>>>,
    pub subject: Seq<char>,
    pub text: Option<Seq<char>>,
    pub html: Option<Seq<char>>,
}

impl DeepView for MimeFields {
    type V = MimeValue;

    open spec fn deep_view(&self) -> MimeValue {
        MimeValue {
            from: self.from@,
            to: self.to.deep_view(),
            cc: self.cc.deep_view(),
            subject: self.subject@,
            text: self.text.deep_view(),
            html: self.html.deep_view(),
        }
    }
}

/// What the MIME form of a message is made from: everything but its blind copies.
pub open spec fn mime_value(m: MessageValue) -> MimeValue {
    MimeValue {
        from: m.from,
        to: m.to,
        cc: if m.cc.len() > 0 {
            Some(m.cc)
        } else {
            None
        },
        subject: m.subject,
        text: m.text,
        html: m.html,
    }
}

/// What is made up anew for each MIME form.
#[verifier::ext_equal]
pub struct Stamp {
    /// The message id, without its angle brackets.
    pub id: Seq<u8>,
    /// The date.
    pub date: Seq<u8>,
    /// The boundary between two bodies.
    pub boundary: Seq<u8>,
}

/// What a MIME form is put together from, besides fixed words and the sender.
#[verifier::ext_equal]
pub struct WritingValue {
    /// The recipients, as they follow `To: `, with the line end.
    pub to: Seq<u8>,
    /// The subject, as it follows `Subject: `, with the line end.
    pub subject: Seq<u8>,
    /// The copies, as they follow `Cc: `, with the line end.
    pub cc: Seq<u8>,
    /// The text, encoded, with its own headers; an empty line where there is no body at all.
    pub text: Seq<u8>,
    /// The HTML, encoded, with its own headers.
    pub html: Seq<u8>,
    /// Every stamp that a form can bear.
    pub stamps: Set<Stamp>,
}

/// What the MIME forms that are made from `f` are put together from.
pub uninterp spec fn mime_writing(f: MimeValue) -> WritingValue;

/// The bytes of a text.
pub open spec fn bytes_of(t: Seq<char>) -> Seq<u8> {
    vstd::utf8::encode_utf8(t)
}

/// The line that opens the next of two bodies.
pub open spec fn opening(boundary: Seq<u8>) -> Seq<u8> {
    bytes_of("\r\n--"@) + boundary + bytes_of("\r\n"@)
}

/// Text and HTML as alternatives. The header that names the boundary is folded where the
/// line would grow too long.
pub open spec fn alternatives(w: WritingValue, boundary: Seq<u8>) -> Seq<u8> {
    let fold = if boundary.len() >= 28 {
        bytes_of("\r\n\t"@)
    } else {
        Seq::empty()
    };
    bytes_of("Content-Type: multipart/alternative; "@) + fold + bytes_of("boundary=\""@) + boundary
        + bytes_of("\"\r\n\r\n"@) + opening(boundary) + w.text + opening(boundary) + w.html + bytes_of(
        "\r\n--"@,
    ) + boundary + bytes_of("--\r\n"@)
}

/// The MIME form that is made from `f` and bears the stamp `s`: the headers, Cc among them
/// where there are copies, and the body or both bodies. There is nothing else in it.
pub open spec fn laid_out(f: MimeValue, w: WritingValue, s: Stamp) -> Seq<u8> {
    let copies = if f.cc is Some {
        bytes_of("Cc: "@) + w.cc
    } else {
        Seq::empty()
    };
    let body = match (f.text, f.html) {
        (Some(_), Some(_)) => alternatives(w, s.boundary),
        (None, Some(_)) => w.html,
        _ => w.text,
    };
    bytes_of("From: <"@) + bytes_of(f.from) + bytes_of(">\r\nTo: "@) + w.to + bytes_of("Subject: "@)
        + w.subject + copies + bytes_of("Message-ID: <"@) + s.id + bytes_of(">\r\nDate: "@) + s.date
        + bytes_of("\r\nMIME-Version: 1.0\r\n"@) + body
}

/// Whether `bytes` is a MIME form that is made from `f`: one of those that differ in the
/// stamp alone.
pub open spec fn is_mime_of(bytes: Seq<u8>, f: MimeValue, w: WritingValue) -> bool {
    exists|s: Stamp| w.stamps.contains(s) && bytes == #[trigger] laid_out(f, w, s)
}

/// Whether `bytes` can be the MIME form of a message.
pub open spec fn is_message(bytes: Seq<u8>, m: MessageValue) -> bool {
    is_mime_of(bytes, mime_value(m), mime_writing(mime_value(m)))
}

/// `MessageBuilder` of `mail-builder`: the headers and bodies that a message is made of.
#[verifier::external_type_specification]
#[verifier::external_body]
pub struct ExMessageBuilder<'x>(MessageBuilder<'x>);

/// The headers and bodies that a `MessageBuilder` holds: From, To and Subject in this
/// order, then Cc where it was set, and the bodies that were set.
pub uninterp spec fn builder_fields(b: MessageBuilder<'static>) -> MimeValue;

/// `MessageBuilder::new` with `from`, `to` and `subject` set on it, in this order, and
/// nothing else.
#[verifier::external_body]
fn start_message(from: String, to: Vec<String>, subject: String) -> (r: MessageBuilder<'static>)
    ensures
        builder_fields(r) == (MimeValue {
            from: from@,
            to: to.deep_view(),
            cc: None,
            subject: subject@,
            text: None,
            html: None,
        }),
{
    MessageBuilder::new().from(from).to(to).subject(subject)
}

/// `MessageBuilder::cc`: the header Cc is added. A second one would stand beside the first.
#[verifier::external_body]
fn set_cc(b: MessageBuilder<'static>, cc: Vec<String>) -> (r: MessageBuilder<'static>)
    requires
        builder_fields(b).cc is None,
    ensures
        builder_fields(r) == (MimeValue { cc: Some(cc.deep_view()), ..builder_fields(b) }),
{
    b.cc(cc)
}

/// `MessageBuilder::text_body`: the text is set.
#[verifier::external_body]
fn set_text(b: MessageBuilder<'static>, text: String) -> (r: MessageBuilder<'static>)
    ensures
        builder_fields(r) == (MimeValue { text: Some(text@), ..builder_fields(b) }),
{
    b.text_body(text)
}

/// `MessageBuilder::html_body`: the HTML is set.
#[verifier::external_body]
fn set_html(b: MessageBuilder<'static>, html: String) -> (r: MessageBuilder<'static>)
    ensures
        builder_fields(r) == (MimeValue { html: Some(html@), ..builder_fields(b) }),
{
    b.html_body(html)
}

/// `MessageBuilder::write_to_vec`. It writes the headers in the order that they were set in,
/// then a message id, the date and the MIME version, and then the body, or two bodies as
/// alternatives. How the addresses, the subject and the bodies are written is a function of
/// what the builder holds, named by `mime_writing`. The message id, the date and the
/// boundary rest on time, chance and the host; nothing is said of them but that they are
/// among those that it can make. It always succeeds: its errors are those of the writer
/// alone, and it writes to a vector, which grows as needed.
#[verifier::external_body]
fn write_message(b: MessageBuilder<'static>) -> (r: Result<Vec<u8>, String>)
    ensures
        r is Ok,
        r matches Ok(bytes) ==> is_mime_of(
            bytes@,
            builder_fields(b),
            mime_writing(builder_fields(b)),
        ),
{
    b.write_to_vec().map_err(|err| err.to_string())
}

fn write_mime(f: MimeFields) -> (r: Result<Vec<u8>, String>)
    ensures
        r is Ok,
        r matches Ok(bytes) ==> is_mime_of(bytes@, f.deep_view(), mime_writing(f.deep_view())),
{
    let ghost fields = f.deep_view();
    let mut b = start_message(f.from, f.to, f.subject);
    if let Some(cc) = f.cc {
        b = set_cc(b, cc);
    }
    if let Some(text) = f.text {
        b = set_text(b, text);
    }
    if let Some(html) = f.html {
        b = set_html(b, html);
    }
    assert(builder_fields(b) == fields);
    write_message(b)
}

/// What the MIME form of a message is made from.
pub fn mime_fields(message: &OutgoingMessage) -> (r: MimeFields)
    ensures
        r.deep_view() == mime_value(message.deep_view()),
{
    let (text, html) = match &message.body {
        OutgoingBody::Text(text) => (Some(text.clone()), None),
        OutgoingBody::Html(html) => (None, Some(html.clone())),
        OutgoingBody::Both { text, html } => (Some(text.clone()), Some(html.clone())),
    };
    MimeFields {
        from: message.from.clone(),
        to: clone_texts(&message.to),
        cc: if message.cc.len() > 0 {
            Some(clone_texts(&message.cc))
        } else {
            None
        },
        subject: message.subject.clone(),
        text,
        html,
    }
}

/// The error for a message that could not be written.
pub open spec fn unwritten(why: Seq<char>) -> (ErrorKind, Seq<char>) {
    (ErrorKind::BadRequest, "could not build the MIME message: "@ + why)
}

/// What writing a message came to: its bytes, or the error for why it could not be written.
pub fn written(result: Result<Vec<u8>, String>) -> (r: Result<Vec<u8>, GatewayError>)
    ensures
        match result {
            Ok(bytes) => r == Ok::<Vec<u8>, GatewayError>(bytes),
            Err(why) => r matches Err(e) && e@ == unwritten(why@),
        },
{
    match result {
        Ok(bytes) => Ok(bytes),
        Err(why) => Err(
            GatewayError::BadRequest(
                text::concat("could not build the MIME message: ", why.as_str()),
            ),
        ),
    }
}

/// The MIME form of a message. Every message has one.
pub fn build_mime(message: &OutgoingMessage) -> (r: Result<Vec<u8>, GatewayError>)
    ensures
        r matches Ok(bytes) && is_message(bytes@, message.deep_view()),
{
    written(write_mime(mime_fields(message)))
}

/// What is handed to the server for a message.
#[derive(Debug)]
pub struct Submission {
    pub envelope: Envelope,
    pub raw: Vec<u8>,
}

/// What is handed to the server for a message: its envelope, which has to be in order,
/// and its MIME form.
pub fn prepare(message: &OutgoingMessage) -> (r: Result<Submission, GatewayError>)
    ensures
        match checked_envelope(message.deep_view()) {
            Err(e) => r matches Err(x) && x@ == e,
            Ok(envelope) => {
                &&& r matches Ok(submission)
                &&& submission.envelope.deep_view() == envelope
                &&& is_message(submission.raw@, message.deep_view())
            },
        },
{
    let envelope = match build_envelope(message) {
        Ok(envelope) => envelope,
        Err(e) => {
            return Err(e);
        },
    };
    match build_mime(message) {
        Ok(raw) => Ok(Submission { envelope, raw }),
        Err(e) => Err(e),
    }
}

/// Blind copies leave no trace in the MIME form: what can be the form of a message can be
/// the form of one with any other blind copies, and the forms of two such messages are the
/// same but for their stamps.
pub proof fn law_blind_copies_stay_blind(
    m: MessageValue,
    bcc: Seq<Seq<char>>,
    a: Seq<u8>,
    b: Seq<u8>,
)
    ensures
        is_message(a, MessageValue { bcc, ..m }) == is_message(a, m),
        is_message(a, m) && is_message(b, MessageValue { bcc, ..m }) ==> exists|s: Stamp, t: Stamp|
            a == #[trigger] laid_out(mime_value(m), mime_writing(mime_value(m)), s)
                && b == #[trigger] laid_out(mime_value(m), mime_writing(mime_value(m)), t),
{
}

/// Every recipient, copied and blindly copied ones among them, is in the envelope, as it
/// was given, and nobody else is.
pub proof fn law_envelope_reaches_everyone(
    m: MessageValue,
    from_ok: bool,
    checks: Seq<bool>,
    who: Seq<char>,
)
    ensures
        envelope_of(m, from_ok, checks) matches Ok(e) ==> e.0 == m.from && (e.1.contains(who) <==> m.to.contains(
            who,
        ) || m.cc.contains(who) || m.bcc.contains(who)),
{
    let all = recipients(m);
    if m.to.contains(who) {
        let i = m.to.index_of(who);
        assert(all[i] == who);
    }
    if m.cc.contains(who) {
        let i = m.cc.index_of(who);
        assert(all[m.to.len() + i] == who);
    }
    if m.bcc.contains(who) {
        let i = m.bcc.index_of(who);
        assert(all[m.to.len() + m.cc.len() + i] == who);
    }
    if all.contains(who) {
        let i = all.index_of(who);
        if i < m.to.len() {
            assert(m.to[i] == who);
        } else if i < m.to.len() + m.cc.len() {
            assert(m.cc[i - m.to.len()] == who);
        } else {
            assert(m.bcc[i - m.to.len() - m.cc.len()] == who);
        }
    }
}

// ---------------------------------------------------------------------------
// Failures
// ---------------------------------------------------------------------------

/// A submission that failed.
#[derive(Debug)]
pub struct SmtpFailure {
    /// Whether TLS failed.
    pub is_tls: bool,
    /// The server's reply code, where it replied.
    pub status: Option<u16>,
    /// The failure in words. It never holds the credential.
    pub shown: String,
}

/// A reply code that says that the credential was not accepted.
pub open spec fn is_auth(code: u16) -> bool {
    code == 432 || code == 454 || code == 530 || code == 534 || code == 535 || code == 538 || (code
        / 10) % 10 == 3
}

/// Whether a reply code says that the credential was not accepted: one of those that the
/// standard lists, or any other whose middle digit is 3.
pub fn is_auth_code(code: u16) -> (r: bool)
    ensures
        r == is_auth(code),
{
    matches!(code, 432 | 454 | 530 | 534 | 535 | 538) || (code / 10) % 10 == 3
}

/// A target as errors name it.
pub open spec fn shown_target(t: (Seq<char>, u16)) -> Seq<char> {
    t.0 + ":"@ + text::decimal(t.1 as nat)
}

/// What a failed submission comes to.
pub open spec fn submission_failed(smtp: (Seq<char>, u16), f: SmtpFailure) -> (
    ErrorKind,
    Seq<char>,
) {
    if f.is_tls {
        (
            ErrorKind::TlsFailure,
            "TLS negotiation with the SMTP provider "@ + shown_target(smtp) + " failed: "@
                + f.shown@,
        )
    } else {
        match f.status {
            Some(code) => if is_auth(code) {
                (
                    ErrorKind::AuthFailure,
                    "the SMTP provider rejected the mailbox credential: "@ + f.shown@,
                )
            } else {
                (
                    ErrorKind::HostUnreachable,
                    "the SMTP provider "@ + shown_target(smtp) + " rejected the submission: "@
                        + f.shown@,
                )
            },
            None => (
                ErrorKind::HostUnreachable,
                "could not reach the SMTP provider "@ + shown_target(smtp) + ": "@ + f.shown@,
            ),
        }
    }
}

fn about(before: &str, smtp: &HostPort, after: &str, why: &str) -> (r: String)
    ensures
        r@ == before@ + shown_target(smtp.deep_view()) + after@ + why@,
{
    let mut m = text::concat3(before, smtp.host.as_str(), ":");
    text::push_decimal(&mut m, smtp.port as u64);
    m.append(after);
    m.append(why);
    assert(m@ =~= before@ + shown_target(smtp.deep_view()) + after@ + why@);
    m
}

/// The error for a failed submission to `smtp`.
pub fn map_smtp_error(smtp: &HostPort, f: SmtpFailure) -> (r: GatewayError)
    ensures
        r@ == submission_failed(smtp.deep_view(), f),
{
    if f.is_tls {
        return GatewayError::TlsFailure(
            about(
                "TLS negotiation with the SMTP provider ",
                smtp,
                " failed: ",
                f.shown.as_str(),
            ),
        );
    }
    match f.status {
        Some(code) => if is_auth_code(code) {
            GatewayError::AuthFailure(
                text::concat(
                    "the SMTP provider rejected the mailbox credential: ",
                    f.shown.as_str(),
                ),
            )
        } else {
            GatewayError::HostUnreachable(
                about(
                    "the SMTP provider ",
                    smtp,
                    " rejected the submission: ",
                    f.shown.as_str(),
                ),
            )
        },
        None => GatewayError::HostUnreachable(
            about("could not reach the SMTP provider ", smtp, ": ", f.shown.as_str()),
        ),
    }
}

/// The error for TLS to `smtp` that could not be set up.
pub fn tls_setup_error(smtp: &HostPort, why: &str) -> (r: GatewayError)
    ensures
        r@ == (
            ErrorKind::TlsFailure,
            "could not configure TLS for the SMTP provider "@ + shown_target(smtp.deep_view())
                + ": "@ + why@,
        ),
{
    GatewayError::TlsFailure(
        about("could not configure TLS for the SMTP provider ", smtp, ": ", why),
    )
}

// ---------------------------------------------------------------------------
// Laws
// ---------------------------------------------------------------------------

proof fn lemma_first_bad(checks: Seq<bool>)
    ensures
        0 <= first_bad(checks) <= checks.len(),
        first_bad(checks) < checks.len() ==> !checks[first_bad(checks)],
        forall|i: int| 0 <= i < first_bad(checks) ==> #[trigger] checks[i],
    decreases checks.len(),
{
    if checks.len() > 0 && checks[0] {
        lemma_first_bad(checks.skip(1));
        assert forall|i: int| 0 <= i < first_bad(checks) implies #[trigger] checks[i] by {
            if i > 0 {
                assert(checks.skip(1)[i - 1] == checks[i]);
            }
        }
        if first_bad(checks) < checks.len() {
            assert(checks.skip(1)[first_bad(checks) - 1] == checks[first_bad(checks)]);
        }
    }
}

/// There is an envelope exactly where the sender and everyone the message goes to are
/// addresses, and it goes to someone. It is from the sender and goes to the recipients
/// first, then to the copies, then to the blind copies, each in their order, each once.
pub proof fn law_the_envelope_names_everyone_in_order(m: MessageValue, from_ok: bool, checks: Seq<bool>)
    requires
        checks.len() == m.to.len() + m.cc.len() + m.bcc.len(),
    ensures
        envelope_of(m, from_ok, checks) is Ok <==> from_ok && checks.len() > 0 && forall|i: int|
            0 <= i < checks.len() ==> #[trigger] checks[i],
        envelope_of(m, from_ok, checks) matches Ok(e) ==> {
            &&& e.0 == m.from
            &&& e.1.len() == checks.len()
            &&& forall|i: int| 0 <= i < m.to.len() ==> e.1[i] == #[trigger] m.to[i]
            &&& forall|i: int|
                0 <= i < m.cc.len() ==> e.1[m.to.len() + i] == #[trigger] m.cc[i]
            &&& forall|i: int|
                0 <= i < m.bcc.len() ==> e.1[m.to.len() + m.cc.len() + i] == #[trigger] m.bcc[i]
        },
{
    lemma_first_bad(checks);
}

/// An envelope that cannot be made is a bad request. It names the sender where that is no
/// address, and else the first of those the message goes to that is none.
pub proof fn law_the_first_bad_address_is_named(
    m: MessageValue,
    from_ok: bool,
    checks: Seq<bool>,
    i: int,
)
    requires
        checks.len() == m.to.len() + m.cc.len() + m.bcc.len(),
    ensures
        envelope_of(m, from_ok, checks) matches Err(e) ==> e.0 == ErrorKind::BadRequest,
        !from_ok ==> (envelope_of(m, from_ok, checks) matches Err(e) && text::has_suffix(
            e.1,
            m.from,
        )),
        from_ok && 0 <= i < checks.len() && !checks[i] && (forall|j: int|
            0 <= j < i ==> #[trigger] checks[j]) ==> (envelope_of(m, from_ok, checks) matches Err(e)
            && text::has_suffix(e.1, (m.to + m.cc + m.bcc)[i])),
{
    lemma_first_bad(checks);
    text::law_prefix_and_suffix("invalid "@ + "from"@ + " address: "@, m.from);
    if from_ok && 0 <= i < checks.len() && !checks[i] && (forall|j: int|
        0 <= j < i ==> #[trigger] checks[j]) {
        let bad = first_bad(checks);
        if bad < i {
            assert(checks[bad]);
        }
        if i < bad {
            assert(checks[i]);
        }
        text::law_prefix_and_suffix(
            "invalid "@ + "recipient"@ + " address: "@,
            recipients(m)[i],
        );
    }
}

/// Each of the values of an envelope is held against the reading of addresses for itself.
pub proof fn law_every_address_is_checked(m: MessageValue)
    ensures
        checked_envelope(m) is Ok <==> {
            &&& is_address(m.from)
            &&& m.to.len() + m.cc.len() + m.bcc.len() > 0
            &&& forall|i: int| 0 <= i < m.to.len() ==> is_address(#[trigger] m.to[i])
            &&& forall|i: int| 0 <= i < m.cc.len() ==> is_address(#[trigger] m.cc[i])
            &&& forall|i: int| 0 <= i < m.bcc.len() ==> is_address(#[trigger] m.bcc[i])
        },
{
    let all = recipients(m);
    let checks = which_are_addresses(all);
    law_the_envelope_names_everyone_in_order(m, is_address(m.from), checks);
    assert forall|i: int| 0 <= i < m.to.len() implies checks[i] == is_address(
        #[trigger] m.to[i],
    ) by {
        assert(all[i] == m.to[i]);
    }
    assert forall|i: int| 0 <= i < m.cc.len() implies checks[m.to.len() + i] == is_address(
        #[trigger] m.cc[i],
    ) by {
        assert(all[m.to.len() + i] == m.cc[i]);
    }
    assert forall|i: int| 0 <= i < m.bcc.len() implies checks[m.to.len() + m.cc.len() + i]
        == is_address(#[trigger] m.bcc[i]) by {
        assert(all[m.to.len() + m.cc.len() + i] == m.bcc[i]);
    }
    if (forall|i: int| 0 <= i < m.to.len() ==> is_address(#[trigger] m.to[i])) && (forall|i: int|
        0 <= i < m.cc.len() ==> is_address(#[trigger] m.cc[i])) && (forall|i: int|
        0 <= i < m.bcc.len() ==> is_address(#[trigger] m.bcc[i])) {
        assert forall|i: int| 0 <= i < checks.len() implies #[trigger] checks[i] by {
            if i < m.to.len() {
                assert(is_address(m.to[i]));
            } else if i < m.to.len() + m.cc.len() {
                assert(is_address(m.cc[i - m.to.len()]));
            } else {
                assert(is_address(m.bcc[i - m.to.len() - m.cc.len()]));
            }
        }
    }
}

/// The MIME form is made from all of a message but its blind copies: its sender, all its
/// recipients and copies in their order, its subject, its text and its HTML, each in full.
pub proof fn law_the_form_holds_the_whole_message(m: MessageValue)
    ensures
        mime_value(m).from == m.from,
        mime_value(m).to == m.to,
        mime_value(m).subject == m.subject,
        mime_value(m).text == m.text,
        mime_value(m).html == m.html,
        m.cc.len() == 0 ==> mime_value(m).cc is None,
        m.cc.len() > 0 ==> mime_value(m).cc == Some(m.cc),
{
}

/// Mail is submitted over TLS from the first byte on the ports 465 and 3465 and on no
/// others, and any certificate is accepted only where that was asked for.
pub proof fn law_tls_by_port(port: u16, tls_insecure: bool)
    ensures
        security_of(port, tls_insecure) is ImplicitTls <==> port == 465 || port == 3465,
        security_of(port, tls_insecure) matches SmtpSecurity::ImplicitTls { insecure } ==> insecure
            == tls_insecure,
{
}

/// The credential was not accepted exactly where the reply's middle digit is 3, or where
/// the reply is 454.
pub proof fn law_replies_about_the_credential(code: u16)
    ensures
        is_auth(code) <==> 30 <= code % 100 < 40 || code == 454,
{
}

/// A failed submission is told apart by what failed: TLS, the credential, or the rest, the
/// server's refusals among it. What the server said is passed on, behind the words for it.
pub proof fn law_failures_are_told_apart(smtp: (Seq<char>, u16), f: SmtpFailure)
    ensures
        ({
            let e = submission_failed(smtp, f);
            let rejected = !f.is_tls && f.status is Some && is_auth(f.status->0);
            &&& e.0 == ErrorKind::TlsFailure <==> f.is_tls
            &&& e.0 == ErrorKind::AuthFailure <==> rejected
            &&& e.0 == ErrorKind::HostUnreachable <==> !f.is_tls && !rejected
            &&& text::has_suffix(e.1, f.shown@)
        }),
{
    let e = submission_failed(smtp, f);
    let n = e.1.len() - f.shown@.len();
    assert(e.1.skip(n) =~= f.shown@);
}

/// Every error of a submission but the one about the credential shows the host and port of
/// the provider.
pub proof fn law_failures_name_the_provider(smtp: (Seq<char>, u16), f: SmtpFailure)
    ensures
        submission_failed(smtp, f).0 != ErrorKind::AuthFailure ==> text::holds(
            submission_failed(smtp, f).1,
            smtp.0 + ":"@ + text::decimal(smtp.1 as nat),
        ),
{
    let e = submission_failed(smtp, f);
    let name = shown_target(smtp);
    if f.is_tls {
        let before = "TLS negotiation with the SMTP provider "@;
        text::law_a_text_holds_its_middle(before, name, " failed: "@ + f.shown@);
        assert(before + name + (" failed: "@ + f.shown@) =~= e.1);
    } else if f.status is Some {
        let before = "the SMTP provider "@;
        text::law_a_text_holds_its_middle(before, name, " rejected the submission: "@ + f.shown@);
        assert(e.0 != ErrorKind::AuthFailure ==> before + name + (" rejected the submission: "@
            + f.shown@) =~= e.1);
    } else {
        let before = "could not reach the SMTP provider "@;
        text::law_a_text_holds_its_middle(before, name, ": "@ + f.shown@);
        assert(before + name + (": "@ + f.shown@) =~= e.1);
    }
}

/// What is said of a value is said of what it holds: every field and every case stands
/// under its own name, and nothing is left out.
pub proof fn law_views_say_what_the_values_hold(
    outgoing_message: OutgoingMessage,
    envelope: Envelope,
    mime_fields: MimeFields,
)
    ensures
        outgoing_message.deep_view().from == outgoing_message.from@,
        outgoing_message.deep_view().to == outgoing_message.to.deep_view(),
        outgoing_message.deep_view().cc == outgoing_message.cc.deep_view(),
        outgoing_message.deep_view().bcc == outgoing_message.bcc.deep_view(),
        outgoing_message.deep_view().subject == outgoing_message.subject@,
        outgoing_message.deep_view().text == body_value(outgoing_message.body).0,
        outgoing_message.deep_view().html == body_value(outgoing_message.body).1,
        envelope.deep_view().0 == envelope.from@,
        envelope.deep_view().1 == envelope.to.deep_view(),
        mime_fields.deep_view().from == mime_fields.from@,
        mime_fields.deep_view().to == mime_fields.to.deep_view(),
        mime_fields.deep_view().cc == mime_fields.cc.deep_view(),
        mime_fields.deep_view().subject == mime_fields.subject@,
        mime_fields.deep_view().text == mime_fields.text.deep_view(),
        mime_fields.deep_view().html == mime_fields.html.deep_view(),
{
}

} // verus!
