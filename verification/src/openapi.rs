//! What the API's description says of access: the security schemes of both axes.

use vstd::prelude::*;

use crate::auth;

verus! {

/// How a scheme is presented.
#[derive(Debug, Clone, Copy, PartialEq, Eq)]
pub enum SchemeKind {
    /// A bearer token.
    Bearer,
    /// The request header of this name.
    Header(&'static str),
}

/// A security scheme of the API.
#[derive(Debug, Clone, Copy, PartialEq, Eq)]
pub struct SecurityScheme {
    pub name: &'static str,
    pub kind: SchemeKind,
    pub description: &'static str,
}

/// The description of the gateway's key.
pub const GATEWAY_KEY_TEXT: &'static str = "Axis-1 gateway access: `Authorization: Bearer <api_key>`. Enforced only when the gateway is configured with `require_api_key`.";

/// The description of the mailbox credential.
pub const AUTH_TEXT: &'static str = "Axis-2 mailbox credential: `Basic base64(user:pass)`. The `Basic` value is never logged or echoed into a response.";

/// The description of the IMAP target.
pub const IMAP_TEXT: &'static str = "Axis-2 IMAP target for reads (`search`/`get`): a bare `host:port` (no scheme; TLS is inferred from the port). Optional — when absent, the target is autoconfigured from the user's domain.";

/// The description of the SMTP target.
pub const SMTP_TEXT: &'static str = "Axis-2 SMTP target for writes (`send`): a bare `host:port` (no scheme; TLS is inferred from the port). Optional — when absent, the target is autoconfigured from the user's domain.";

/// The description of the domain.
pub const DOMAIN_TEXT: &'static str = "Optional domain to autoconfigure the IMAP/SMTP target from when the host headers are absent. Overrides the domain otherwise taken from the mailbox username's `@`.";

/// What a scheme is: its name, the header it is in where it is no bearer token, and its
/// description.
pub open spec fn scheme_value(s: SecurityScheme) -> (Seq<char>, Option<Seq<char>>, Seq<char>) {
    (
        s.name@,
        match s.kind {
            SchemeKind::Bearer => None,
            SchemeKind::Header(h) => Some(h@),
        },
        s.description@,
    )
}

/// The security schemes: the gateway's key, and the headers that the mailbox credential is
/// read from.
pub open spec fn schemes() -> Seq<(Seq<char>, Option<Seq<char>>, Seq<char>)> {
    seq![
        ("gateway_api_key"@, None, GATEWAY_KEY_TEXT@),
        ("mailbox_auth"@, Some(auth::H_MAILBOX_AUTH@), AUTH_TEXT@),
        ("mailbox_imap"@, Some(auth::H_MAILBOX_IMAP@), IMAP_TEXT@),
        ("mailbox_smtp"@, Some(auth::H_MAILBOX_SMTP@), SMTP_TEXT@),
        ("mailbox_domain"@, Some(auth::H_MAILBOX_DOMAIN@), DOMAIN_TEXT@),
    ]
}

/// The security schemes of the API.
pub fn security_schemes() -> (r: Vec<SecurityScheme>)
    ensures
        Seq::new(r@.len(), |i: int| scheme_value(r@[i])) == schemes(),
{
    let mut out: Vec<SecurityScheme> = Vec::new();
    out.push(
        SecurityScheme {
            name: "gateway_api_key",
            kind: SchemeKind::Bearer,
            description: GATEWAY_KEY_TEXT,
        },
    );
    out.push(
        SecurityScheme {
            name: "mailbox_auth",
            kind: SchemeKind::Header(auth::H_MAILBOX_AUTH),
            description: AUTH_TEXT,
        },
    );
    out.push(
        SecurityScheme {
            name: "mailbox_imap",
            kind: SchemeKind::Header(auth::H_MAILBOX_IMAP),
            description: IMAP_TEXT,
        },
    );
    out.push(
        SecurityScheme {
            name: "mailbox_smtp",
            kind: SchemeKind::Header(auth::H_MAILBOX_SMTP),
            description: SMTP_TEXT,
        },
    );
    out.push(
        SecurityScheme {
            name: "mailbox_domain",
            kind: SchemeKind::Header(auth::H_MAILBOX_DOMAIN),
            description: DOMAIN_TEXT,
        },
    );
    assert(Seq::new(out@.len(), |i: int| scheme_value(out@[i])) =~= schemes());
    out
}

/// The API describes five ways of access, each by its own name: the gateway's key as a
/// bearer token, and the four headers of the mailbox.
pub proof fn law_every_way_of_access_is_described()
    ensures
        schemes().len() == 5,
        schemes()[0].0 == "gateway_api_key"@ && schemes()[0].1 is None,
        schemes()[1].0 == "mailbox_auth"@ && schemes()[1].1 == Some("X-Mailbox-Auth"@),
        schemes()[2].0 == "mailbox_imap"@ && schemes()[2].1 == Some("X-Mailbox-Imap"@),
        schemes()[3].0 == "mailbox_smtp"@ && schemes()[3].1 == Some("X-Mailbox-Smtp"@),
        schemes()[4].0 == "mailbox_domain"@ && schemes()[4].1 == Some("X-Mailbox-Domain"@),
{
}

} // verus!
