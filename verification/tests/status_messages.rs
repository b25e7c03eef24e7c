use roder_k8s::status::{
    backoff_millis, classify_status, is_auth_error, is_forbidden_error, matches_status_str,
    ApiErrorDisposition,
};

#[test]
fn forbidden_error_is_detected() {
    let forbidden_needles = ["Forbidden", "403"];
    assert!(matches_status_str(
        "ApiError: pods is forbidden: 403",
        &forbidden_needles
    ));
    assert!(!matches_status_str(
        "connection refused",
        &forbidden_needles
    ));
}

#[test]
fn auth_error_is_detected() {
    let auth_needles = ["Unauthorized", "401"];
    assert!(matches_status_str("ApiError: Unauthorized", &auth_needles));
    assert!(matches_status_str(
        "ApiError: request failed: 401",
        &auth_needles
    ));
    assert!(!matches_status_str("connection refused", &auth_needles));
}

#[test]
fn matches_status_str_is_needle_disjoint() {
    assert!(!matches_status_str(
        "pods is forbidden: 403",
        &["Unauthorized", "401"]
    ));
    assert!(!matches_status_str(
        "Unauthorized: 401",
        &["Forbidden", "403"]
    ));
}

#[test]
fn source_chain_is_searched_link_by_link() {
    let chain = vec!["watch failed".to_string(), "ApiError: Unauthorized".to_string()];
    assert!(is_auth_error(&chain));
    assert!(!is_forbidden_error(&chain));
    let chain = vec!["list failed".to_string(), "403 Forbidden".to_string()];
    assert!(is_forbidden_error(&chain));
    assert!(!is_auth_error(&[]));
}

#[test]
fn status_codes_are_classified() {
    assert_eq!(classify_status(404), ApiErrorDisposition::NotFound);
    assert_eq!(classify_status(429), ApiErrorDisposition::Retryable);
    assert_eq!(classify_status(500), ApiErrorDisposition::Retryable);
    assert_eq!(classify_status(599), ApiErrorDisposition::Retryable);
    assert_eq!(classify_status(600), ApiErrorDisposition::Permanent);
    assert_eq!(classify_status(403), ApiErrorDisposition::Permanent);
}

#[test]
fn backoff_doubles_then_caps_at_thirty_seconds() {
    assert_eq!(backoff_millis(0, 0), 1000);
    assert_eq!(backoff_millis(1, 5), 2005);
    assert_eq!(backoff_millis(4, 999), 16999);
    assert_eq!(backoff_millis(5, 0), 30000);
    assert_eq!(backoff_millis(u32::MAX, 0), 30000);
}
