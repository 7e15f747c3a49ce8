use avadhi::config::UserConfig;
use avadhi::refresh::{
    apply_refresh_response, refresh_request_body, refresh_token_to_send, refresh_url, RefreshError,
};

fn user() -> UserConfig {
    UserConfig {
        user_id: Some("user-1".to_string()),
        access_token: Some("oldacc".to_string()),
        refresh_token: Some("oldref".to_string()),
        last_posted_date: Some("2025-06-09".to_string()),
    }
}

#[test]
fn token_to_send_requires_stored_token() {
    assert_eq!(refresh_token_to_send(&user()).unwrap(), "oldref");
    let mut u = user();
    u.refresh_token = None;
    assert!(matches!(
        refresh_token_to_send(&u),
        Err(RefreshError::MissingRefreshToken)
    ));
}

#[test]
fn refresh_request_pieces_are_exact() {
    assert_eq!(
        refresh_url("https://db.example", "anonkey123"),
        "https://db.example/auth/v1/token?grant_type=refresh_token&apikey=anonkey123"
    );
    assert_eq!(refresh_request_body("oldref"), "{\"refresh_token\":\"oldref\"}");
    // A token holding JSON metacharacters is escaped.
    assert_eq!(refresh_request_body("a\"b"), "{\"refresh_token\":\"a\\\"b\"}");
}

#[test]
fn successful_exchange_replaces_both_tokens() {
    let mut u = user();
    let body = "{\"access_token\":\"newacc\",\"refresh_token\":\"newref\",\"expires_in\":3600}";
    assert!(apply_refresh_response(&mut u, 200, body).is_ok());
    assert_eq!(u.access_token.as_deref(), Some("newacc"));
    assert_eq!(u.refresh_token.as_deref(), Some("newref"));
    assert_eq!(u.user_id.as_deref(), Some("user-1"));
    assert_eq!(u.last_posted_date.as_deref(), Some("2025-06-09"));
}

#[test]
fn partial_answer_is_malformed_and_adopts_nothing() {
    let mut u = user();
    let body = "{\"access_token\":\"newacc\"}";
    assert!(matches!(
        apply_refresh_response(&mut u, 200, body),
        Err(RefreshError::MalformedRefreshResponse)
    ));
    assert_eq!(u.access_token.as_deref(), Some("oldacc"));
    assert_eq!(u.refresh_token.as_deref(), Some("oldref"));

    let mut u = user();
    assert!(matches!(
        apply_refresh_response(&mut u, 200, "not json at all"),
        Err(RefreshError::MalformedRefreshResponse)
    ));
    assert_eq!(u.access_token.as_deref(), Some("oldacc"));

    // A field of the wrong JSON type counts as missing.
    let mut u = user();
    let body = "{\"access_token\":7,\"refresh_token\":\"newref\"}";
    assert!(matches!(
        apply_refresh_response(&mut u, 200, body),
        Err(RefreshError::MalformedRefreshResponse)
    ));
}

#[test]
fn consumed_token_is_terminal() {
    let mut u = user();
    let body = "{\"error\":\"refresh_token_already_used\"}";
    assert!(matches!(
        apply_refresh_response(&mut u, 400, body),
        Err(RefreshError::RefreshTokenExhausted)
    ));
    assert_eq!(u.refresh_token.as_deref(), Some("oldref"));
}

#[test]
fn other_failures_carry_the_status() {
    let mut u = user();
    match apply_refresh_response(&mut u, 502, "bad gateway") {
        Err(RefreshError::RefreshFailed { status }) => assert_eq!(status, 502),
        other => panic!("expected RefreshFailed, got {:?}", other),
    }
    assert_eq!(u.access_token.as_deref(), Some("oldacc"));
}
