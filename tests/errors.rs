use iam_search::errors::{ApiError, ScraperError};

#[test]
fn test_auth_error_detection() {
    let auth_err = ScraperError::GcpAuthError("Unauthorized".to_string());
    assert!(auth_err.is_auth_error());
    assert!(!auth_err.is_rate_limit_error());
}

#[test]
fn test_rate_limit_detection() {
    let rate_err = ScraperError::GcpRateLimitError("Rate limited".to_string());
    assert!(!rate_err.is_auth_error());
    assert!(rate_err.is_rate_limit_error());
}

#[test]
fn error_messages_and_advice() {
    let e = ScraperError::EnvError("missing".to_string());
    assert_eq!(e.message(), "Environment error: missing");
    assert!(e.remediation_advice().is_none());
    let a = ScraperError::GcpAuthError("no".to_string());
    assert!(a.remediation_advice().unwrap().contains("GOOGLE_APPLICATION_CREDENTIALS"));
    assert_eq!(ApiError::NotFound("x".to_string()).message(), "Not Found: x");
    assert_eq!(ApiError::BadRequest("y".to_string()).status_code(), 400);
    assert_eq!(ApiError::InternalError("z".to_string()).status_code(), 500);
}
