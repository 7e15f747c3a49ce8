use avadhi::api::{
    bearer_header, publish_payload, publish_payload_all, publish_step, publish_url, start_publish,
    PublishError, PublishEvent, PublishState, WorkSpanData, MAX_RETRIES,
};
use avadhi::config::{AdminConfig, UserConfig};

fn admin() -> AdminConfig {
    AdminConfig {
        web_app_url: Some("https://app.example".to_string()),
        supabase_url: Some("https://db.example".to_string()),
        supabase_anon_key: Some("anonkey123".to_string()),
    }
}

fn user() -> UserConfig {
    UserConfig {
        user_id: Some("user-1".to_string()),
        access_token: Some("tok".to_string()),
        refresh_token: Some("ref".to_string()),
        last_posted_date: None,
    }
}

fn response(status: u16, body: &str) -> PublishEvent {
    PublishEvent::Response { status, body: body.to_string() }
}

fn fresh_sending() -> PublishState {
    PublishState::Sending { retries: 0, delay_seconds: 0, refresh_spent: false, manual_spent: false }
}

#[test]
fn start_requires_complete_config() {
    assert!(matches!(
        start_publish(&admin(), &user()),
        Ok(PublishState::Sending {
            retries: 0,
            delay_seconds: 0,
            refresh_spent: false,
            manual_spent: false
        })
    ));
    let mut u = user();
    u.access_token = None;
    assert!(matches!(start_publish(&admin(), &u), Err(PublishError::ConfigIncomplete)));
    let mut u = user();
    u.user_id = None;
    assert!(matches!(start_publish(&admin(), &u), Err(PublishError::ConfigIncomplete)));
    let mut a = admin();
    a.supabase_url = None;
    assert!(matches!(start_publish(&a, &user()), Err(PublishError::ConfigIncomplete)));
    let mut a = admin();
    a.supabase_anon_key = None;
    assert!(matches!(start_publish(&a, &user()), Err(PublishError::ConfigIncomplete)));
}

#[test]
fn success_ends_immediately() {
    let st = publish_step(
        fresh_sending(),
        response(201, ""),
    );
    assert!(matches!(st, PublishState::Succeeded));
}

#[test]
fn three_server_errors_exhaust_with_growing_backoff() {
    assert_eq!(MAX_RETRIES, 3);
    let st0 = fresh_sending();
    let st1 = publish_step(st0, response(503, "overloaded"));
    assert!(matches!(st1, PublishState::Sending { retries: 1, delay_seconds: 2, .. }));
    let st2 = publish_step(st1, response(503, "overloaded"));
    assert!(matches!(st2, PublishState::Sending { retries: 2, delay_seconds: 4, .. }));
    let st3 = publish_step(st2, response(503, "overloaded"));
    match st3 {
        PublishState::Failed { error: PublishError::ServerExhausted { status } } => {
            assert_eq!(status, 503)
        }
        other => panic!("expected ServerExhausted, got {:?}", other),
    }
}

#[test]
fn three_network_failures_exhaust() {
    let st0 = fresh_sending();
    let st1 = publish_step(st0, PublishEvent::NetworkFailed);
    assert!(matches!(st1, PublishState::Sending { retries: 1, delay_seconds: 2, .. }));
    let st2 = publish_step(st1, PublishEvent::NetworkFailed);
    assert!(matches!(st2, PublishState::Sending { retries: 2, delay_seconds: 4, .. }));
    let st3 = publish_step(st2, PublishEvent::NetworkFailed);
    assert!(matches!(st3, PublishState::Failed { error: PublishError::NetworkExhausted }));
}

#[test]
fn unauthorized_refresh_retry_succeeds_and_resets_budget() {
    // 401 -> refresh succeeds -> retry returns 200 => overall success,
    // with the transient budget back at zero for the retry.
    let st0 = PublishState::Sending {
        retries: 2,
        delay_seconds: 4,
        refresh_spent: false,
        manual_spent: false,
    };
    let st1 = publish_step(st0, response(401, "jwt expired"));
    assert!(matches!(st1, PublishState::AwaitingRefresh));
    let st2 = publish_step(st1, PublishEvent::RefreshFinished { ok: true });
    assert!(matches!(
        st2,
        PublishState::Sending { retries: 0, delay_seconds: 0, refresh_spent: true, manual_spent: false }
    ));
    let st3 = publish_step(st2, response(200, ""));
    assert!(matches!(st3, PublishState::Succeeded));
}

#[test]
fn refresh_failure_falls_back_to_manual_auth() {
    let st1 = publish_step(fresh_sending(), response(401, ""));
    let st2 = publish_step(st1, PublishEvent::RefreshFinished { ok: false });
    assert!(matches!(st2, PublishState::AwaitingManualAuth));
    let st3 = publish_step(st2.clone(), PublishEvent::ManualAuthFinished { has_token: true });
    assert!(matches!(
        st3,
        PublishState::Sending { retries: 0, delay_seconds: 0, refresh_spent: true, manual_spent: true }
    ));
    let st4 = publish_step(st2, PublishEvent::ManualAuthFinished { has_token: false });
    assert!(matches!(st4, PublishState::Failed { error: PublishError::AuthExhausted }));
}

#[test]
fn auth_recovery_is_bounded_per_call() {
    // The call may spend one automatic refresh, then one manual
    // re-authentication; a 401 beyond that is terminal even though every
    // recovery step succeeded.
    let st1 = publish_step(fresh_sending(), response(401, "jwt expired"));
    assert!(matches!(st1, PublishState::AwaitingRefresh));
    let st2 = publish_step(st1, PublishEvent::RefreshFinished { ok: true });
    assert!(matches!(
        st2,
        PublishState::Sending { refresh_spent: true, manual_spent: false, .. }
    ));
    let st3 = publish_step(st2, response(401, "jwt expired"));
    assert!(matches!(st3, PublishState::AwaitingManualAuth));
    let st4 = publish_step(st3, PublishEvent::ManualAuthFinished { has_token: true });
    assert!(matches!(
        st4,
        PublishState::Sending { refresh_spent: true, manual_spent: true, .. }
    ));
    let st5 = publish_step(st4, response(401, "jwt expired"));
    assert!(matches!(st5, PublishState::Failed { error: PublishError::AuthExhausted }));
}

#[test]
fn transient_budget_survives_auth_recovery() {
    // Transient retries consumed before a 401 do not come back as extra
    // sends: the counter resets, but the auth budget is marked spent.
    let st0 = PublishState::Sending {
        retries: 2,
        delay_seconds: 4,
        refresh_spent: true,
        manual_spent: true,
    };
    let st1 = publish_step(st0, response(401, ""));
    assert!(matches!(st1, PublishState::Failed { error: PublishError::AuthExhausted }));
}

#[test]
fn permanent_rejection_is_immediate_and_flags_policy() {
    let st = publish_step(fresh_sending(), response(403, "violates row level security policy"));
    match st {
        PublishState::Failed {
            error: PublishError::Rejected { status, body, policy_hint },
        } => {
            assert_eq!(status, 403);
            assert!(body.contains("policy"));
            assert!(policy_hint);
        }
        other => panic!("expected Rejected, got {:?}", other),
    }
    let st = publish_step(
        PublishState::Sending {
            retries: 1,
            delay_seconds: 2,
            refresh_spent: false,
            manual_spent: false,
        },
        response(404, "relation does not exist"),
    );
    match st {
        PublishState::Failed { error: PublishError::Rejected { status, policy_hint, .. } } => {
            assert_eq!(status, 404);
            assert!(!policy_hint);
        }
        other => panic!("expected Rejected, got {:?}", other),
    }
}

#[test]
fn payload_is_exact_json() {
    let w = WorkSpanData {
        date: "2025-06-10".to_string(),
        total_span_minutes: 510,
        total_span: "8h 30m".to_string(),
        first_boot: "09:00:00".to_string(),
        last_shutdown: "17:30:00".to_string(),
    };
    let payload = publish_payload("user-1", &w);
    assert_eq!(
        payload,
        "{\"user_id\":\"user-1\",\"date\":\"2025-06-10\",\"total_span_minutes\":510,\
         \"total_span\":\"8h 30m\",\"first_boot\":\"09:00:00\",\"last_shutdown\":\"17:30:00\"}"
    );
    let parsed: serde_json::Value = serde_json::from_str(&payload).unwrap();
    assert_eq!(parsed["user_id"], "user-1");
    assert_eq!(parsed["total_span_minutes"], 510);
}

#[test]
fn payload_escapes_special_characters() {
    let w = WorkSpanData {
        date: "2025-06-10".to_string(),
        total_span_minutes: 0,
        total_span: "0h 0m".to_string(),
        first_boot: "00:00:00".to_string(),
        last_shutdown: "00:00:01".to_string(),
    };
    let payload = publish_payload("a\"b\\c\nd", &w);
    let parsed: serde_json::Value = serde_json::from_str(&payload).unwrap();
    assert_eq!(parsed["user_id"], "a\"b\\c\nd");
}

#[test]
fn batch_payload_is_a_json_array() {
    let w1 = WorkSpanData {
        date: "2025-06-10".to_string(),
        total_span_minutes: 510,
        total_span: "8h 30m".to_string(),
        first_boot: "09:00:00".to_string(),
        last_shutdown: "17:30:00".to_string(),
    };
    let w2 = WorkSpanData {
        date: "2025-06-11".to_string(),
        total_span_minutes: 75,
        total_span: "1h 15m".to_string(),
        first_boot: "23:30:00".to_string(),
        last_shutdown: "00:45:00".to_string(),
    };
    assert_eq!(publish_payload_all("user-1", &vec![]), "[]");
    let batch = publish_payload_all("user-1", &vec![w1.clone(), w2]);
    let parsed: serde_json::Value = serde_json::from_str(&batch).unwrap();
    let rows = parsed.as_array().unwrap();
    assert_eq!(rows.len(), 2);
    assert_eq!(rows[0]["date"], "2025-06-10");
    assert_eq!(rows[1]["total_span_minutes"], 75);
    assert_eq!(
        publish_payload_all("user-1", &vec![w1.clone()]),
        format!("[{}]", publish_payload("user-1", &w1))
    );
}

#[test]
fn request_pieces_are_exact() {
    assert_eq!(publish_url("https://db.example"), "https://db.example/rest/v1/daily_work_span");
    assert_eq!(bearer_header("tok"), "Bearer tok");
}
