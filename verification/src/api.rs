//! The wire-facing span record, the exact request texts sent to the data
//! and auth endpoints, and the publish state machine.
//!
//! Every attempt to post one day's span is modelled as an explicit state
//! machine driven by a pure transition function: the surrounding process
//! performs one HTTP call, refresh or prompt per state and feeds the
//! outcome back as an event. The transition function is total, so the
//! whole retry/re-authentication policy is stated and proved here.

use vstd::prelude::*;
use crate::config::{AdminConfig, UserConfig};
use crate::sessions::DaySpan;
use crate::text::{
    contains_seq, date_string_of, dec_seq, decimal_string, format_date, format_time_of_day,
    json_escaped, push_json_escaped, span_label, span_label_of, str_contains, time_string_of,
};

verus! {

/// One day's aggregated span in the form the data endpoint accepts.
#[derive(Debug, Clone)]
pub struct WorkSpanData {
    pub date: String,
    pub total_span_minutes: i32,
    pub total_span: String,
    pub first_boot: String,
    pub last_shutdown: String,
}

/// `w` renders the span `sp`: canonical date, truncated minute count,
/// `"{h}h {m}m"` label, and the two times of day.
pub open spec fn work_span_shows(sp: DaySpan, w: WorkSpanData) -> bool {
    &&& w.date@ == date_string_of(sp.date)
    &&& w.total_span_minutes == sp.total_minutes()
    &&& w.total_span@ == span_label_of(sp.total_seconds())
    &&& w.first_boot@ == time_string_of(sp.first_boot_sec())
    &&& w.last_shutdown@ == time_string_of(sp.last_shutdown_sec())
}

/// Render a span for posting.
pub fn work_span_data(sp: &DaySpan) -> (w: WorkSpanData)
    requires
        sp.valid(),
        sp.total_minutes() <= i32::MAX,
    ensures
        work_span_shows(*sp, w),
        w.total_span_minutes >= 0,
{
    let total_seconds: u64 = sp.last_secs - sp.first_secs;
    let minutes: u64 = total_seconds / 60;
    WorkSpanData {
        date: format_date(&sp.date),
        total_span_minutes: minutes as i32,
        total_span: span_label(total_seconds),
        first_boot: format_time_of_day((sp.first_secs % 86400) as u32),
        last_shutdown: format_time_of_day((sp.last_secs % 86400) as u32),
    }
}

/// Render a span for posting, refusing the (enormous) spans whose minute
/// count does not fit the wire field.
pub fn work_span_data_checked(sp: &DaySpan) -> (w: Option<WorkSpanData>)
    requires
        sp.valid(),
    ensures
        match w {
            Some(w) => sp.total_minutes() <= i32::MAX && work_span_shows(*sp, w)
                && w.total_span_minutes >= 0,
            None => sp.total_minutes() > i32::MAX,
        },
{
    let total_seconds: u64 = sp.last_secs - sp.first_secs;
    if total_seconds / 60 <= i32::MAX as u64 {
        Some(work_span_data(sp))
    } else {
        None
    }
}

/// The hour/minute label agrees with the minute count: the label's hours
/// and minutes recombine to exactly `total_seconds / 60`.
pub proof fn lemma_label_minutes_consistent(total_seconds: int)
    requires
        total_seconds >= 0,
    ensures
        (total_seconds / 3600) * 60 + (total_seconds % 3600) / 60 == total_seconds / 60,
        0 <= (total_seconds % 3600) / 60 < 60,
{
    let q = total_seconds / 3600;
    let r = total_seconds % 3600;
    assert(total_seconds == 3600 * q + r && 0 <= r < 3600);
    let r60 = r / 60;
    let rr = r % 60;
    assert(r == 60 * r60 + rr && 0 <= rr < 60);
    assert(total_seconds == 60 * (60 * q + r60) + rr) by (nonlinear_arith)
        requires
            total_seconds == 3600 * q + r,
            r == 60 * r60 + rr,
    ;
    assert(total_seconds / 60 == 60 * q + r60) by (nonlinear_arith)
        requires
            total_seconds == 60 * (60 * q + r60) + rr,
            0 <= rr < 60,
    ;
}

/// The JSON body posted for one span, exactly as sent.
pub open spec fn publish_payload_of(user_id: Seq<char>, w: WorkSpanData) -> Seq<char> {
    "{\"user_id\":\""@ + json_escaped(user_id) + "\",\"date\":\""@ + json_escaped(w.date@)
        + "\",\"total_span_minutes\":"@ + dec_seq(w.total_span_minutes as int)
        + ",\"total_span\":\""@ + json_escaped(w.total_span@) + "\",\"first_boot\":\""@
        + json_escaped(w.first_boot@) + "\",\"last_shutdown\":\""@ + json_escaped(
        w.last_shutdown@,
    ) + "\"}"@
}

/// Build the JSON body for posting one span.
pub fn publish_payload(user_id: &str, w: &WorkSpanData) -> (r: String)
    requires
        w.total_span_minutes >= 0,
    ensures
        r@ == publish_payload_of(user_id@, *w),
{
    let mut s = String::new();
    s.append("{\"user_id\":\"");
    push_json_escaped(&mut s, user_id);
    s.append("\",\"date\":\"");
    push_json_escaped(&mut s, w.date.as_str());
    s.append("\",\"total_span_minutes\":");
    let minutes = decimal_string(w.total_span_minutes as u64);
    s.append(minutes.as_str());
    s.append(",\"total_span\":\"");
    push_json_escaped(&mut s, w.total_span.as_str());
    s.append("\",\"first_boot\":\"");
    push_json_escaped(&mut s, w.first_boot.as_str());
    s.append("\",\"last_shutdown\":\"");
    push_json_escaped(&mut s, w.last_shutdown.as_str());
    s.append("\"}");
    proof {
        assert(s@ =~= publish_payload_of(user_id@, *w));
    }
    s
}

/// Bound on transient (network and 5xx) attempts per logical publish call.
pub const MAX_RETRIES: u8 = 3;

/// Why a publish gave up.
#[derive(Debug, Clone)]
pub enum PublishError {
    /// Identity, token or endpoint configuration missing; no request was
    /// attempted.
    ConfigIncomplete,
    /// `MAX_RETRIES` transport failures in a row.
    NetworkExhausted,
    /// `MAX_RETRIES` server-side (5xx) failures in a row.
    ServerExhausted { status: u16 },
    /// A permanent (non-401 4xx class) rejection; `policy_hint` marks the
    /// row-level-security flavour of denial for diagnosis.
    Rejected { status: u16, body: String, policy_hint: bool },
    /// The auth-recovery budget is spent: one automatic refresh and one
    /// manual re-authentication, and the server still answers 401.
    AuthExhausted,
}

/// Where one logical publish call stands.
///
/// Auth recovery is budgeted per call: the first 401 spends the one
/// automatic refresh, the next the one manual re-authentication, and a
/// 401 beyond that is terminal. The `refresh_spent` and `manual_spent`
/// flags carry that budget through the retries.
#[derive(Debug, Clone)]
pub enum PublishState {
    /// About to (re)send the request, after waiting `delay_seconds`;
    /// `retries` transient failures have been consumed so far, and the
    /// flags say which auth-recovery steps this call has already spent.
    Sending { retries: u8, delay_seconds: u64, refresh_spent: bool, manual_spent: bool },
    /// A 401 came back; the one token refresh must run next.
    AwaitingRefresh,
    /// The refresh was spent (it failed, or a later 401 arrived); the one
    /// interactive re-authentication must run next.
    AwaitingManualAuth,
    /// The span was accepted.
    Succeeded,
    /// The publish gave up.
    Failed { error: PublishError },
}

/// What the outside world reports back to the machine.
#[derive(Debug, Clone)]
pub enum PublishEvent {
    /// The request obtained no response at all.
    NetworkFailed,
    /// The request obtained an HTTP response.
    Response { status: u16, body: String },
    /// The token refresh finished, successfully or not.
    RefreshFinished { ok: bool },
    /// The interactive re-authentication finished; `has_token` says
    /// whether an access token is now present.
    ManualAuthFinished { has_token: bool },
}

pub open spec fn is_success_status(s: int) -> bool {
    200 <= s < 300
}

pub open spec fn is_server_error_status(s: int) -> bool {
    500 <= s < 600
}

/// Seconds waited before transient retry number `r`: `2^r`.
pub open spec fn backoff_seconds(r: int) -> int
    decreases r,
{
    if r <= 0 {
        1
    } else {
        2 * backoff_seconds(r - 1)
    }
}

/// The response body hints at a policy or permission denial.
pub open spec fn policy_hint_of(body: Seq<char>) -> bool {
    contains_seq(body, "policy"@) || contains_seq(body, "permission"@)
}

/// The complete publish policy as a pure transition function. Terminal
/// states and events that do not fit the state leave it unchanged.
///
/// A 401 spends the auth-recovery budget in order: the one automatic
/// refresh first, then the one manual re-authentication, then the call
/// fails with `AuthExhausted` — so auth recovery is bounded per call even
/// when every recovery step succeeds and the server keeps answering 401.
pub open spec fn publish_step_spec(state: PublishState, event: PublishEvent) -> PublishState {
    match (state, event) {
        (
            PublishState::Sending { retries, delay_seconds, refresh_spent, manual_spent },
            PublishEvent::NetworkFailed,
        ) => {
            if retries + 1 >= MAX_RETRIES {
                PublishState::Failed { error: PublishError::NetworkExhausted }
            } else {
                PublishState::Sending {
                    retries: (retries + 1) as u8,
                    delay_seconds: backoff_seconds(retries + 1) as u64,
                    refresh_spent,
                    manual_spent,
                }
            }
        },
        (
            PublishState::Sending { retries, delay_seconds, refresh_spent, manual_spent },
            PublishEvent::Response { status, body },
        ) => {
            if is_success_status(status as int) {
                PublishState::Succeeded
            } else if status == 401 {
                if !refresh_spent {
                    PublishState::AwaitingRefresh
                } else if !manual_spent {
                    PublishState::AwaitingManualAuth
                } else {
                    PublishState::Failed { error: PublishError::AuthExhausted }
                }
            } else if is_server_error_status(status as int) {
                if retries + 1 >= MAX_RETRIES {
                    PublishState::Failed { error: PublishError::ServerExhausted { status } }
                } else {
                    PublishState::Sending {
                        retries: (retries + 1) as u8,
                        delay_seconds: backoff_seconds(retries + 1) as u64,
                        refresh_spent,
                        manual_spent,
                    }
                }
            } else {
                PublishState::Failed {
                    error: PublishError::Rejected {
                        status,
                        body,
                        policy_hint: policy_hint_of(body@),
                    },
                }
            }
        },
        (PublishState::AwaitingRefresh, PublishEvent::RefreshFinished { ok }) => {
            if ok {
                PublishState::Sending {
                    retries: 0,
                    delay_seconds: 0,
                    refresh_spent: true,
                    manual_spent: false,
                }
            } else {
                PublishState::AwaitingManualAuth
            }
        },
        (PublishState::AwaitingManualAuth, PublishEvent::ManualAuthFinished { has_token }) => {
            if has_token {
                PublishState::Sending {
                    retries: 0,
                    delay_seconds: 0,
                    refresh_spent: true,
                    manual_spent: true,
                }
            } else {
                PublishState::Failed { error: PublishError::AuthExhausted }
            }
        },
        (s, _) => s,
    }
}

fn backoff_delay(r: u8) -> (d: u64)
    requires
        1 <= r <= 2,
    ensures
        d as int == backoff_seconds(r as int),
{
    proof {
        reveal_with_fuel(backoff_seconds, 3);
    }
    if r == 1 {
        2
    } else {
        4
    }
}

/// Drive the publish machine one event forward.
pub fn publish_step(state: PublishState, event: PublishEvent) -> (next: PublishState)
    ensures
        next == publish_step_spec(state, event),
{
    match (state, event) {
        (
            PublishState::Sending { retries, delay_seconds, refresh_spent, manual_spent },
            PublishEvent::NetworkFailed,
        ) => {
            if retries >= MAX_RETRIES - 1 {
                PublishState::Failed { error: PublishError::NetworkExhausted }
            } else {
                PublishState::Sending {
                    retries: retries + 1,
                    delay_seconds: backoff_delay(retries + 1),
                    refresh_spent,
                    manual_spent,
                }
            }
        },
        (
            PublishState::Sending { retries, delay_seconds, refresh_spent, manual_spent },
            PublishEvent::Response { status, body },
        ) => {
            if 200 <= status && status < 300 {
                PublishState::Succeeded
            } else if status == 401 {
                if !refresh_spent {
                    PublishState::AwaitingRefresh
                } else if !manual_spent {
                    PublishState::AwaitingManualAuth
                } else {
                    PublishState::Failed { error: PublishError::AuthExhausted }
                }
            } else if 500 <= status && status < 600 {
                if retries >= MAX_RETRIES - 1 {
                    PublishState::Failed { error: PublishError::ServerExhausted { status } }
                } else {
                    PublishState::Sending {
                        retries: retries + 1,
                        delay_seconds: backoff_delay(retries + 1),
                        refresh_spent,
                        manual_spent,
                    }
                }
            } else {
                let policy_hint = str_contains(body.as_str(), "policy") || str_contains(
                    body.as_str(),
                    "permission",
                );
                PublishState::Failed {
                    error: PublishError::Rejected { status, body, policy_hint },
                }
            }
        },
        (PublishState::AwaitingRefresh, PublishEvent::RefreshFinished { ok }) => {
            if ok {
                PublishState::Sending {
                    retries: 0,
                    delay_seconds: 0,
                    refresh_spent: true,
                    manual_spent: false,
                }
            } else {
                PublishState::AwaitingManualAuth
            }
        },
        (PublishState::AwaitingManualAuth, PublishEvent::ManualAuthFinished { has_token }) => {
            if has_token {
                PublishState::Sending {
                    retries: 0,
                    delay_seconds: 0,
                    refresh_spent: true,
                    manual_spent: true,
                }
            } else {
                PublishState::Failed { error: PublishError::AuthExhausted }
            }
        },
        (s, _) => s,
    }
}

/// A publish can begin only with identity, access token, endpoint and key
/// all present; otherwise it fails without attempting a request.
pub fn start_publish(admin: &AdminConfig, user: &UserConfig) -> (r: Result<
    PublishState,
    PublishError,
>)
    ensures
        match r {
            Ok(st) => user.has_publish_auth() && admin.supabase_url is Some
                && admin.supabase_anon_key is Some && st == (PublishState::Sending {
                retries: 0,
                delay_seconds: 0,
                refresh_spent: false,
                manual_spent: false,
            }),
            Err(e) => !(user.has_publish_auth() && admin.supabase_url is Some
                && admin.supabase_anon_key is Some) && e is ConfigIncomplete,
        },
{
    if user.user_id.is_some() && user.access_token.is_some() && admin.supabase_url.is_some()
        && admin.supabase_anon_key.is_some() {
        Ok(
            PublishState::Sending {
                retries: 0,
                delay_seconds: 0,
                refresh_spent: false,
                manual_spent: false,
            },
        )
    } else {
        Err(PublishError::ConfigIncomplete)
    }
}

/// Machine invariant: the transient-retry counter never leaves
/// `0 ..= MAX_RETRIES - 1`, and the manual re-authentication is never
/// spent before the automatic refresh.
pub open spec fn machine_inv(state: PublishState) -> bool {
    match state {
        PublishState::Sending { retries, refresh_spent, manual_spent, .. } => retries < MAX_RETRIES
            && (manual_spent ==> refresh_spent),
        _ => true,
    }
}

/// Stepping preserves the machine invariant.
pub proof fn lemma_step_preserves_inv(state: PublishState, event: PublishEvent)
    requires
        machine_inv(state),
    ensures
        machine_inv(publish_step_spec(state, event)),
{
}

/// The event kind each non-terminal state is waiting for.
pub open spec fn event_fits(state: PublishState, event: PublishEvent) -> bool {
    match state {
        PublishState::Sending { .. } => event is NetworkFailed || event is Response,
        PublishState::AwaitingRefresh => event is RefreshFinished,
        PublishState::AwaitingManualAuth => event is ManualAuthFinished,
        _ => false,
    }
}

/// How much work a publish call can still take: the remaining auth
/// budget, weighted above the whole transient budget, plus the remaining
/// transient budget. Terminal states rank zero.
pub open spec fn machine_rank(state: PublishState) -> int {
    match state {
        PublishState::Sending { retries, refresh_spent, manual_spent, .. } => {
            let auth_credit: int = if !refresh_spent {
                2
            } else if !manual_spent {
                1
            } else {
                0
            };
            10 * auth_credit + (MAX_RETRIES - retries)
        },
        PublishState::AwaitingRefresh => 14,
        PublishState::AwaitingManualAuth => 5,
        PublishState::Succeeded => 0,
        PublishState::Failed { .. } => 0,
    }
}

/// Every publish call terminates: each fitting event strictly decreases
/// the rank, and the rank starts no higher than 23, so a terminal state
/// is reached after boundedly many responses, refreshes and prompts —
/// in particular at most one automatic refresh and one manual
/// re-authentication, however the server answers.
pub proof fn lemma_step_decreases_rank(state: PublishState, event: PublishEvent)
    requires
        machine_inv(state),
        event_fits(state, event),
    ensures
        0 <= machine_rank(publish_step_spec(state, event)) < machine_rank(state),
        machine_rank(state) <= 23,
{
}

/// An expired token is recovered transparently: a 401 followed by a
/// successful refresh and a 2xx retry ends in success, with the
/// transient-retry budget untouched throughout.
pub proof fn lemma_auth_refresh_roundtrip(
    retries: u8,
    delay: u64,
    body1: String,
    body2: String,
    status2: u16,
)
    requires
        200 <= status2 < 300,
    ensures
        ({
            let st0 = PublishState::Sending {
                retries,
                delay_seconds: delay,
                refresh_spent: false,
                manual_spent: false,
            };
            let st1 = publish_step_spec(
                st0,
                PublishEvent::Response { status: 401, body: body1 },
            );
            let st2 = publish_step_spec(st1, PublishEvent::RefreshFinished { ok: true });
            let st3 = publish_step_spec(
                st2,
                PublishEvent::Response { status: status2, body: body2 },
            );
            st1 == PublishState::AwaitingRefresh && st2 == (PublishState::Sending {
                retries: 0,
                delay_seconds: 0,
                refresh_spent: true,
                manual_spent: false,
            }) && st3 == PublishState::Succeeded
        }),
{
}

/// The auth-recovery budget is exactly one automatic refresh and one
/// manual re-authentication per call: a second 401 after a successful
/// refresh goes straight to the manual fallback, and a third 401 after a
/// successful manual re-authentication is terminal, even though every
/// recovery step succeeded.
pub proof fn lemma_auth_budget_spent_in_order(body1: String, body2: String, body3: String)
    ensures
        ({
            let st0 = PublishState::Sending {
                retries: 0,
                delay_seconds: 0,
                refresh_spent: false,
                manual_spent: false,
            };
            let st1 = publish_step_spec(
                st0,
                PublishEvent::Response { status: 401, body: body1 },
            );
            let st2 = publish_step_spec(st1, PublishEvent::RefreshFinished { ok: true });
            let st3 = publish_step_spec(
                st2,
                PublishEvent::Response { status: 401, body: body2 },
            );
            let st4 = publish_step_spec(st3, PublishEvent::ManualAuthFinished { has_token: true });
            let st5 = publish_step_spec(
                st4,
                PublishEvent::Response { status: 401, body: body3 },
            );
            st1 == PublishState::AwaitingRefresh && st2 == (PublishState::Sending {
                retries: 0,
                delay_seconds: 0,
                refresh_spent: true,
                manual_spent: false,
            }) && st3 == PublishState::AwaitingManualAuth && st4 == (PublishState::Sending {
                retries: 0,
                delay_seconds: 0,
                refresh_spent: true,
                manual_spent: true,
            }) && st5 == (PublishState::Failed { error: PublishError::AuthExhausted })
        }),
{
}

/// Three server errors in a row exhaust the transient budget: exactly
/// three requests are sent, the second and third after strictly growing
/// backoff waits, and the machine fails with `ServerExhausted`.
pub proof fn lemma_server_errors_exhaust(
    s1: u16,
    s2: u16,
    s3: u16,
    body1: String,
    body2: String,
    body3: String,
)
    requires
        500 <= s1 < 600,
        500 <= s2 < 600,
        500 <= s3 < 600,
    ensures
        ({
            let st0 = PublishState::Sending {
                retries: 0,
                delay_seconds: 0,
                refresh_spent: false,
                manual_spent: false,
            };
            let st1 = publish_step_spec(st0, PublishEvent::Response { status: s1, body: body1 });
            let st2 = publish_step_spec(st1, PublishEvent::Response { status: s2, body: body2 });
            let st3 = publish_step_spec(st2, PublishEvent::Response { status: s3, body: body3 });
            st1 == (PublishState::Sending {
                retries: 1,
                delay_seconds: 2,
                refresh_spent: false,
                manual_spent: false,
            }) && st2 == (PublishState::Sending {
                retries: 2,
                delay_seconds: 4,
                refresh_spent: false,
                manual_spent: false,
            }) && st3 == (PublishState::Failed {
                error: PublishError::ServerExhausted { status: s3 },
            })
        }),
{
    reveal_with_fuel(backoff_seconds, 3);
}

/// The JSON array body for a bulk upsert of several spans, in order.
pub open spec fn batch_items_of(user_id: Seq<char>, spans: Seq<WorkSpanData>) -> Seq<char>
    decreases spans.len(),
{
    if spans.len() == 0 {
        Seq::empty()
    } else if spans.len() == 1 {
        publish_payload_of(user_id, spans[0])
    } else {
        batch_items_of(user_id, spans.drop_last()) + ","@ + publish_payload_of(
            user_id,
            spans.last(),
        )
    }
}

pub open spec fn batch_payload_of(user_id: Seq<char>, spans: Seq<WorkSpanData>) -> Seq<char> {
    "["@ + batch_items_of(user_id, spans) + "]"@
}

/// Build the JSON array body for posting several spans at once.
pub fn publish_payload_all(user_id: &str, spans: &Vec<WorkSpanData>) -> (r: String)
    requires
        forall|i: int| 0 <= i < spans@.len() ==> (#[trigger] spans@[i]).total_span_minutes >= 0,
    ensures
        r@ == batch_payload_of(user_id@, spans@),
{
    let n = spans.len();
    let mut s = String::new();
    s.append("[");
    let mut i: usize = 0;
    while i < n
        invariant
            i <= n,
            n == spans@.len(),
            forall|k: int| 0 <= k < n ==> (#[trigger] spans@[k]).total_span_minutes >= 0,
            s@ == "["@ + batch_items_of(user_id@, spans@.subrange(0, i as int)),
        decreases n - i,
    {
        if i > 0 {
            s.append(",");
        }
        let item = publish_payload(user_id, &spans[i]);
        s.append(item.as_str());
        proof {
            let pre = spans@.subrange(0, i as int);
            let cur = spans@.subrange(0, i + 1 as int);
            assert(cur.drop_last() =~= pre);
            assert(cur.last() == spans@[i as int]);
            if i == 0 {
                assert(cur.len() == 1);
                assert(cur[0] == spans@[0]);
                assert(s@ =~= "["@ + batch_items_of(user_id@, cur));
            } else {
                assert(s@ =~= "["@ + batch_items_of(user_id@, cur));
            }
        }
        i += 1;
    }
    s.append("]");
    proof {
        assert(spans@.subrange(0, n as int) =~= spans@);
        assert(s@ =~= batch_payload_of(user_id@, spans@));
    }
    s
}

/// The data-endpoint URL: the configured base plus the table route.
pub fn publish_url(base: &str) -> (r: String)
    ensures
        r@ == base@ + "/rest/v1/daily_work_span"@,
{
    let mut s = String::from_str(base);
    s.append("/rest/v1/daily_work_span");
    s
}

/// The bearer authorization header value.
pub fn bearer_header(token: &str) -> (r: String)
    ensures
        r@ == "Bearer "@ + token@,
{
    let mut s = String::from_str("Bearer ");
    s.append(token);
    s
}

} // verus!
