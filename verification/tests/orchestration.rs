use avadhi::calendar::{day_number, Date, Timestamp};
use avadhi::config::{AdminConfig, UserConfig};
use avadhi::orchestrate::{apply_finalized_marker, filter_pending, plan_run, stored_marker, SyncRun};
use avadhi::sessions::{DaySpan, SessionRecord};

fn date(year: u16, month: u8, day: u8) -> Date {
    Date { year, month, day }
}

fn span(d: Date, start_sec: u64, end_sec: u64) -> DaySpan {
    let day = day_number(&d);
    DaySpan { date: d, first_secs: day * 86400 + start_sec, last_secs: day * 86400 + end_sec }
}

fn user_with_marker(marker: Option<&str>) -> UserConfig {
    UserConfig {
        user_id: Some("user-1".to_string()),
        access_token: Some("tok".to_string()),
        refresh_token: Some("ref".to_string()),
        last_posted_date: marker.map(|m| m.to_string()),
    }
}

#[test]
fn default_records_are_empty() {
    let a = AdminConfig::default();
    assert!(a.web_app_url.is_none() && a.supabase_url.is_none() && a.supabase_anon_key.is_none());
    let u = UserConfig::default();
    assert!(u.user_id.is_none() && u.access_token.is_none());
    assert!(u.refresh_token.is_none() && u.last_posted_date.is_none());
}

#[test]
fn set_tokens_replaces_the_pair_only() {
    let mut u = user_with_marker(Some("2025-06-09"));
    u.set_tokens("a2".to_string(), "r2".to_string());
    assert_eq!(u.access_token.as_deref(), Some("a2"));
    assert_eq!(u.refresh_token.as_deref(), Some("r2"));
    assert_eq!(u.user_id.as_deref(), Some("user-1"));
    assert_eq!(u.last_posted_date.as_deref(), Some("2025-06-09"));
}

#[test]
fn filter_keeps_marker_day_and_later() {
    let spans = vec![
        span(date(2025, 6, 8), 3600, 7200),
        span(date(2025, 6, 9), 3600, 7200),
        span(date(2025, 6, 10), 3600, 7200),
        span(date(2025, 6, 11), 3600, 7200),
    ];
    let marker = Some(date(2025, 6, 10));
    let pending = filter_pending(&spans, &marker);
    assert_eq!(pending.len(), 2);
    assert_eq!(pending[0].date, date(2025, 6, 10));
    assert_eq!(pending[1].date, date(2025, 6, 11));
}

#[test]
fn no_marker_keeps_everything() {
    let spans = vec![span(date(2025, 6, 8), 3600, 7200), span(date(2025, 6, 9), 3600, 7200)];
    let pending = filter_pending(&spans, &None);
    assert_eq!(pending.len(), 2);
}

#[test]
fn stored_marker_parses_or_ignores() {
    assert_eq!(stored_marker(&user_with_marker(Some("2025-06-10"))), Some(date(2025, 6, 10)));
    assert_eq!(stored_marker(&user_with_marker(None)), None);
    assert_eq!(stored_marker(&user_with_marker(Some("garbage"))), None);
}

#[test]
fn yesterday_advances_marker_today_does_not() {
    let today = date(2025, 6, 11);
    let pending = vec![
        span(date(2025, 6, 10), 3600, 7200),
        span(date(2025, 6, 11), 3600, 7200),
    ];
    let mut run = SyncRun::new(pending);
    assert!(!run.done());
    // Yesterday's span publishes: the candidate advances to it.
    run.record_success(&today);
    assert_eq!(run.finalized, Some(date(2025, 6, 10)));
    // Today's span publishes: the candidate must stay at yesterday.
    run.record_success(&today);
    assert_eq!(run.finalized, Some(date(2025, 6, 10)));
    assert!(run.done());
}

#[test]
fn failure_halts_the_run() {
    let today = date(2025, 6, 12);
    let pending = vec![
        span(date(2025, 6, 9), 3600, 7200),
        span(date(2025, 6, 10), 3600, 7200),
        span(date(2025, 6, 11), 3600, 7200),
    ];
    let mut run = SyncRun::new(pending);
    run.record_success(&today);
    run.record_failure();
    assert!(run.done());
    // Only the first day was finalized; the failed and later days were not.
    assert_eq!(run.finalized, Some(date(2025, 6, 9)));
}

#[test]
fn marker_persists_only_on_change() {
    // A finalized day rewrites a different stored marker.
    let mut u = user_with_marker(Some("2025-06-09"));
    assert!(apply_finalized_marker(&mut u, &Some(date(2025, 6, 10))));
    assert_eq!(u.last_posted_date.as_deref(), Some("2025-06-10"));
    // The same day again changes nothing.
    assert!(!apply_finalized_marker(&mut u, &Some(date(2025, 6, 10))));
    assert_eq!(u.last_posted_date.as_deref(), Some("2025-06-10"));
    // No finalized day leaves even a garbage marker untouched.
    let mut u = user_with_marker(Some("garbage"));
    assert!(!apply_finalized_marker(&mut u, &None));
    assert_eq!(u.last_posted_date.as_deref(), Some("garbage"));
}

#[test]
fn plan_run_combines_aggregation_and_filtering() {
    let d9 = date(2025, 6, 9);
    let d10 = date(2025, 6, 10);
    let d11 = date(2025, 6, 11);
    let sessions = vec![
        SessionRecord {
            start: Timestamp { date: d9, sec_of_day: 9 * 3600 },
            end: Timestamp { date: d9, sec_of_day: 10 * 3600 },
        },
        SessionRecord {
            start: Timestamp { date: d11, sec_of_day: 8 * 3600 },
            end: Timestamp { date: d11, sec_of_day: 16 * 3600 },
        },
        SessionRecord {
            start: Timestamp { date: d10, sec_of_day: 9 * 3600 },
            end: Timestamp { date: d10, sec_of_day: 17 * 3600 + 30 * 60 },
        },
    ];
    let run = plan_run(&sessions, &user_with_marker(Some("2025-06-10")));
    assert_eq!(run.next, 0);
    assert!(!run.halted);
    assert_eq!(run.finalized, None);
    assert_eq!(run.pending.len(), 2);
    assert_eq!(run.pending[0].date, d10);
    assert_eq!(run.pending[1].date, d11);
}
