//! The errors.

use overfwd::error::GatewayError;

#[test]
fn codes_are_stable_and_distinct() {
    let cases = [
        (GatewayError::BadRequest(String::new()), "bad_request", 400),
        (GatewayError::Unauthorized(String::new()), "unauthorized", 401),
        (GatewayError::AuthFailure(String::new()), "auth_failure", 502),
        (GatewayError::HostUnreachable(String::new()), "host_unreachable", 502),
        (GatewayError::NotFound(String::new()), "not_found", 404),
        (GatewayError::TlsFailure(String::new()), "tls_failure", 502),
        (GatewayError::AutoconfigFailed(String::new()), "autoconfig_failed", 502),
        (GatewayError::NotImplemented(String::new()), "not_implemented", 501),
    ];
    for (err, code, status) in cases {
        assert_eq!(err.code(), code);
        assert_eq!(err.status(), status, "code {code}");
    }
}

#[test]
fn errors_show_code_and_message() {
    let err = GatewayError::NotFound("no such thing".to_string());
    assert_eq!(err.message(), "no such thing");
    assert_eq!(err.to_text(), "not_found: no such thing");
    let body = err.to_response();
    assert_eq!(body.code, "not_found");
    assert_eq!(body.message, "no such thing");
}
