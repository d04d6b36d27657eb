use vimmail::error::{internal, not_found, Error};

fn all() -> Vec<Error> {
    vec![
        Error::Auth("token fmu1-abc123xyz".into()),
        Error::Network("10.0.0.5:5432 refused".into()),
        Error::NotConnected,
        Error::NotFound("email xyz".into()),
        Error::BadRequest("missing field".into()),
        Error::Internal("secret db password exposed".into()),
    ]
}

#[test]
fn status_codes() {
    let codes: Vec<u16> = all().iter().map(|e| e.status_code()).collect();
    assert_eq!(codes, vec![401, 500, 503, 404, 400, 500]);
}

#[test]
fn client_messages_leak_no_detail() {
    let messages: Vec<String> = all().iter().map(|e| e.client_message()).collect();
    assert_eq!(
        messages,
        vec![
            "authentication failed",
            "network error",
            "not connected to email server",
            "not found: email xyz",
            "bad request: missing field",
            "internal error",
        ]
    );
}

#[test]
fn full_messages() {
    let messages: Vec<String> = all().iter().map(|e| e.message()).collect();
    assert_eq!(
        messages,
        vec![
            "authentication failed: token fmu1-abc123xyz",
            "network error: 10.0.0.5:5432 refused",
            "not connected to email server",
            "not found: email xyz",
            "bad request: missing field",
            "internal error: secret db password exposed",
        ]
    );
}

#[test]
fn constructors() {
    assert!(matches!(internal("x"), Error::Internal(m) if m == "x"));
    assert!(matches!(not_found("y"), Error::NotFound(m) if m == "y"));
}

#[test]
fn auth_error_returns_401() {
    assert_eq!(Error::Auth("bad token".into()).status_code(), 401);
}

#[test]
fn not_found_returns_404() {
    let error = Error::NotFound("email xyz".into());
    assert_eq!(error.status_code(), 404);
    assert!(error.client_message().contains("not found"));
}

#[test]
fn bad_request_returns_400() {
    assert_eq!(Error::BadRequest("missing field".into()).status_code(), 400);
}

#[test]
fn not_connected_returns_503() {
    assert_eq!(Error::NotConnected.status_code(), 503);
}

#[test]
fn network_error_returns_500() {
    assert_eq!(Error::Network("connection refused".into()).status_code(), 500);
}

#[test]
fn internal_error_returns_500() {
    assert_eq!(Error::Internal("database corruption".into()).status_code(), 500);
}

#[test]
fn internal_error_does_not_leak_details() {
    let body = Error::Internal("secret db password exposed".into()).client_message();
    assert!(!body.contains("secret db password exposed"));
    assert!(body.contains("internal error"));
}

#[test]
fn network_error_does_not_leak_details() {
    let body = Error::Network("10.0.0.5:5432 refused".into()).client_message();
    assert!(!body.contains("10.0.0.5"));
    assert!(body.contains("network error"));
}

#[test]
fn auth_error_does_not_leak_token() {
    let body = Error::Auth("token fmu1-abc123xyz".into()).client_message();
    assert!(!body.contains("fmu1-abc123xyz"));
    assert!(body.contains("authentication failed"));
}
