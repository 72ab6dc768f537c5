//! The gateway's bounded set of typed errors.
//!
//! Each error has a stable, machine-readable code and an HTTP status; on the wire it
//! is always `{ "code": ..., "message": ... }`. A message never holds a secret.

use vstd::prelude::*;

use crate::text;

verus! {

/// An error, with a human-readable message.
#[derive(Debug)]
pub enum GatewayError {
    /// A request that was rejected before anything was done.
    BadRequest(String),
    /// Gateway access denied: no bearer token, or not the configured one.
    Unauthorized(String),
    /// The provider rejected the mailbox credential.
    AuthFailure(String),
    /// The provider's host cannot be reached.
    HostUnreachable(String),
    /// No such mailbox or message.
    NotFound(String),
    /// TLS negotiation with the provider failed.
    TlsFailure(String),
    /// A host header was absent and the target could not be derived from the domain.
    AutoconfigFailed(String),
    /// The action is known but not available.
    NotImplemented(String),
}

impl Clone for GatewayError {
    fn clone(&self) -> (r: Self)
        ensures
            r == *self,
    {
        match self {
            GatewayError::BadRequest(m) => GatewayError::BadRequest(m.clone()),
            GatewayError::Unauthorized(m) => GatewayError::Unauthorized(m.clone()),
            GatewayError::AuthFailure(m) => GatewayError::AuthFailure(m.clone()),
            GatewayError::HostUnreachable(m) => GatewayError::HostUnreachable(m.clone()),
            GatewayError::NotFound(m) => GatewayError::NotFound(m.clone()),
            GatewayError::TlsFailure(m) => GatewayError::TlsFailure(m.clone()),
            GatewayError::AutoconfigFailed(m) => GatewayError::AutoconfigFailed(m.clone()),
            GatewayError::NotImplemented(m) => GatewayError::NotImplemented(m.clone()),
        }
    }
}

/// The variants of `GatewayError`.
#[derive(Debug, Clone, Copy, PartialEq, Eq, Structural)]
pub enum ErrorKind {
    BadRequest,
    Unauthorized,
    AuthFailure,
    HostUnreachable,
    NotFound,
    TlsFailure,
    AutoconfigFailed,
    NotImplemented,
}

impl View for GatewayError {
    type V = (ErrorKind, Seq<char>);

    open spec fn view(&self) -> (ErrorKind, Seq<char>) {
        match *self {
            GatewayError::BadRequest(m) => (ErrorKind::BadRequest, m@),
            GatewayError::Unauthorized(m) => (ErrorKind::Unauthorized, m@),
            GatewayError::AuthFailure(m) => (ErrorKind::AuthFailure, m@),
            GatewayError::HostUnreachable(m) => (ErrorKind::HostUnreachable, m@),
            GatewayError::NotFound(m) => (ErrorKind::NotFound, m@),
            GatewayError::TlsFailure(m) => (ErrorKind::TlsFailure, m@),
            GatewayError::AutoconfigFailed(m) => (ErrorKind::AutoconfigFailed, m@),
            GatewayError::NotImplemented(m) => (ErrorKind::NotImplemented, m@),
        }
    }
}

/// What a result holds: the view of the value, or the kind and message of the error.
pub open spec fn outcome<T: DeepView>(r: Result<T, GatewayError>) -> Result<
    T::V,
    (ErrorKind, Seq<char>),
> {
    match r {
        Ok(v) => Ok(v.deep_view()),
        Err(e) => Err(e@),
    }
}

/// The stable code of each kind of error.
pub open spec fn code_text(kind: ErrorKind) -> Seq<char> {
    match kind {
        ErrorKind::BadRequest => "bad_request"@,
        ErrorKind::Unauthorized => "unauthorized"@,
        ErrorKind::AuthFailure => "auth_failure"@,
        ErrorKind::HostUnreachable => "host_unreachable"@,
        ErrorKind::NotFound => "not_found"@,
        ErrorKind::TlsFailure => "tls_failure"@,
        ErrorKind::AutoconfigFailed => "autoconfig_failed"@,
        ErrorKind::NotImplemented => "not_implemented"@,
    }
}

/// The HTTP status of each kind of error.
pub open spec fn status_code(kind: ErrorKind) -> u16 {
    match kind {
        ErrorKind::BadRequest => 400,
        ErrorKind::Unauthorized => 401,
        ErrorKind::AuthFailure => 502,
        ErrorKind::HostUnreachable => 502,
        ErrorKind::NotFound => 404,
        ErrorKind::TlsFailure => 502,
        ErrorKind::AutoconfigFailed => 502,
        ErrorKind::NotImplemented => 501,
    }
}

impl GatewayError {
    /// The stable, machine-readable code. Callers match on these strings.
    pub fn code(&self) -> (r: &'static str)
        ensures
            r@ == code_text(self@.0),
    {
        match self {
            GatewayError::BadRequest(_) => "bad_request",
            GatewayError::Unauthorized(_) => "unauthorized",
            GatewayError::AuthFailure(_) => "auth_failure",
            GatewayError::HostUnreachable(_) => "host_unreachable",
            GatewayError::NotFound(_) => "not_found",
            GatewayError::TlsFailure(_) => "tls_failure",
            GatewayError::AutoconfigFailed(_) => "autoconfig_failed",
            GatewayError::NotImplemented(_) => "not_implemented",
        }
    }

    /// The HTTP status. Failures of the provider are 502: the gateway itself is healthy.
    pub fn status(&self) -> (r: u16)
        ensures
            r == status_code(self@.0),
    {
        match self {
            GatewayError::BadRequest(_) => 400,
            GatewayError::Unauthorized(_) => 401,
            GatewayError::AuthFailure(_) => 502,
            GatewayError::HostUnreachable(_) => 502,
            GatewayError::NotFound(_) => 404,
            GatewayError::TlsFailure(_) => 502,
            GatewayError::AutoconfigFailed(_) => 502,
            GatewayError::NotImplemented(_) => 501,
        }
    }

    /// The human-readable message.
    pub fn message(&self) -> (r: &str)
        ensures
            r@ == self@.1,
    {
        match self {
            GatewayError::BadRequest(m) => m.as_str(),
            GatewayError::Unauthorized(m) => m.as_str(),
            GatewayError::AuthFailure(m) => m.as_str(),
            GatewayError::HostUnreachable(m) => m.as_str(),
            GatewayError::NotFound(m) => m.as_str(),
            GatewayError::TlsFailure(m) => m.as_str(),
            GatewayError::AutoconfigFailed(m) => m.as_str(),
            GatewayError::NotImplemented(m) => m.as_str(),
        }
    }

    /// The error as one line: its code, a colon and its message.
    pub fn to_text(&self) -> (r: String)
        ensures
            r@ == code_text(self@.0) + ": "@ + self@.1,
    {
        text::concat3(self.code(), ": ", self.message())
    }

    /// The body that goes on the wire.
    pub fn to_response(&self) -> (r: ErrorResponse)
        ensures
            r.code@ == code_text(self@.0),
            r.message@ == self@.1,
    {
        ErrorResponse { code: self.code().to_owned(), message: self.message().to_owned() }
    }
}

/// The JSON body of an error: `{ "code": ..., "message": ... }`.
#[derive(Debug, Clone)]
pub struct ErrorResponse {
    /// One of the stable codes of `GatewayError::code`.
    pub code: String,
    /// Human-readable detail.
    pub message: String,
}

/// No two kinds of error share a code, so a caller can branch on it.
pub proof fn law_codes_are_distinct(a: ErrorKind, b: ErrorKind)
    requires
        a != b,
    ensures
        code_text(a) != code_text(b),
{
    reveal_strlit("bad_request");
    reveal_strlit("unauthorized");
    reveal_strlit("auth_failure");
    reveal_strlit("host_unreachable");
    reveal_strlit("not_found");
    reveal_strlit("tls_failure");
    reveal_strlit("autoconfig_failed");
    reveal_strlit("not_implemented");
    // Each code is told from the others by its length or by its first two characters.
    assert(code_text(a).len() != code_text(b).len() || code_text(a)[0] != code_text(b)[0]
        || code_text(a)[1] != code_text(b)[1]);
}

/// Callers branch on these codes.
pub proof fn law_the_codes()
    ensures
        code_text(ErrorKind::BadRequest) == "bad_request"@,
        code_text(ErrorKind::Unauthorized) == "unauthorized"@,
        code_text(ErrorKind::AuthFailure) == "auth_failure"@,
        code_text(ErrorKind::HostUnreachable) == "host_unreachable"@,
        code_text(ErrorKind::NotFound) == "not_found"@,
        code_text(ErrorKind::TlsFailure) == "tls_failure"@,
        code_text(ErrorKind::AutoconfigFailed) == "autoconfig_failed"@,
        code_text(ErrorKind::NotImplemented) == "not_implemented"@,
{
}

/// A failure of the provider is a bad gateway, and only that is: what the caller can mend
/// is told by a status from 400 to 499, each kind by its own.
pub proof fn law_the_status_says_whose_fault_it_is(kind: ErrorKind)
    ensures
        status_code(kind) == 502 <==> kind == ErrorKind::AuthFailure || kind
            == ErrorKind::HostUnreachable || kind == ErrorKind::TlsFailure || kind
            == ErrorKind::AutoconfigFailed,
        400 <= status_code(kind) < 500 <==> kind == ErrorKind::BadRequest || kind
            == ErrorKind::Unauthorized || kind == ErrorKind::NotFound,
        status_code(kind) == 400 <==> kind == ErrorKind::BadRequest,
        status_code(kind) == 401 <==> kind == ErrorKind::Unauthorized,
        status_code(kind) == 404 <==> kind == ErrorKind::NotFound,
        status_code(kind) == 501 <==> kind == ErrorKind::NotImplemented,
{
}

/// What is said of a value is said of what it holds: every field and every case stands
/// under its own name, and nothing is left out.
pub proof fn law_views_say_what_the_values_hold<T: DeepView>(
    gateway_error: GatewayError,
    result: Result<T, GatewayError>,
)
    ensures
        match result {
            Ok(v) => outcome(result) == Ok::<T::V, (ErrorKind, Seq<char>)>(v.deep_view()),
            Err(e) => outcome(result) == Err::<T::V, (ErrorKind, Seq<char>)>(e@),
        },
        match gateway_error {
            GatewayError::BadRequest(m) => gateway_error@ == (ErrorKind::BadRequest, m@),
            GatewayError::Unauthorized(m) => gateway_error@ == (ErrorKind::Unauthorized, m@),
            GatewayError::AuthFailure(m) => gateway_error@ == (ErrorKind::AuthFailure, m@),
            GatewayError::HostUnreachable(m) => gateway_error@ == (ErrorKind::HostUnreachable, m@),
            GatewayError::NotFound(m) => gateway_error@ == (ErrorKind::NotFound, m@),
            GatewayError::TlsFailure(m) => gateway_error@ == (ErrorKind::TlsFailure, m@),
            GatewayError::AutoconfigFailed(m) => gateway_error@
                == (ErrorKind::AutoconfigFailed, m@),
            GatewayError::NotImplemented(m) => gateway_error@ == (ErrorKind::NotImplemented, m@),
        },
{
}

} // verus!
