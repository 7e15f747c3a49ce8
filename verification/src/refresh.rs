//! The refresh-token exchange: what is sent, and how the auth endpoint's
//! answer is classified and applied to the credential record.
//!
//! Refresh tokens are single-use. A successful exchange must replace both
//! tokens at once, and the caller must persist the record before treating
//! the refresh as finished, so a crash can never leave the burned refresh
//! token as the only copy. A partial answer (either token missing) is
//! treated as failure and changes nothing.

use vstd::prelude::*;
use crate::api::is_success_status;
use crate::config::UserConfig;
use crate::text::{contains_seq, json_escaped, push_json_escaped, str_contains};

verus! {

/// Why a refresh exchange failed.
#[derive(Debug, Clone)]
pub enum RefreshError {
    /// No refresh token is stored; nothing was sent.
    MissingRefreshToken,
    /// The endpoint reported success but the answer lacked one of the two
    /// tokens; nothing was adopted.
    MalformedRefreshResponse,
    /// The endpoint says this single-use token was already consumed;
    /// only interactive re-authentication can recover.
    RefreshTokenExhausted,
    /// Any other non-success answer.
    RefreshFailed { status: u16 },
}

/// The string field named `key` of the JSON document `body`, if `body`
/// parses as JSON and holds such a field.
pub uninterp spec fn json_string_field_of(body: Seq<char>, key: Seq<char>) -> Option<Seq<char>>;

/// Relies on serde_json's `from_str::<Value>`, `Value::get` and
/// `Value::as_str`: parses `body` as a JSON document and hands back the
/// string field named `key`. The result depends on the two arguments
/// alone.
#[verifier::external_body]
fn json_string_field(body: &str, key: &str) -> (r: Option<String>)
    ensures
        match r {
            Some(s) => json_string_field_of(body@, key@) == Some(s@),
            None => json_string_field_of(body@, key@) is None,
        },
{
    match serde_json::from_str::<serde_json::Value>(body) {
        Ok(v) => match v.get(key) {
            Some(f) => f.as_str().map(|s| s.to_string()),
            None => None,
        },
        Err(_) => None,
    }
}

/// The stored refresh token, to be sent to the auth endpoint; fails
/// immediately when none is stored.
pub fn refresh_token_to_send(user: &UserConfig) -> (r: Result<String, RefreshError>)
    ensures
        match r {
            Ok(t) => user.refresh_token == Some(t),
            Err(e) => user.refresh_token is None && e is MissingRefreshToken,
        },
{
    match &user.refresh_token {
        Some(t) => Ok(t.clone()),
        None => Err(RefreshError::MissingRefreshToken),
    }
}

/// The auth-endpoint URL for a refresh-token grant.
pub fn refresh_url(base: &str, anon_key: &str) -> (r: String)
    ensures
        r@ == base@ + "/auth/v1/token?grant_type=refresh_token&apikey="@ + anon_key@,
{
    let mut s = String::from_str(base);
    s.append("/auth/v1/token?grant_type=refresh_token&apikey=");
    s.append(anon_key);
    proof {
        assert(s@ =~= base@ + "/auth/v1/token?grant_type=refresh_token&apikey="@ + anon_key@);
    }
    s
}

/// The JSON body sent with the refresh request.
pub fn refresh_request_body(refresh_token: &str) -> (r: String)
    ensures
        r@ == "{\"refresh_token\":\""@ + json_escaped(refresh_token@) + "\"}"@,
{
    let mut s = String::new();
    s.append("{\"refresh_token\":\"");
    push_json_escaped(&mut s, refresh_token);
    s.append("\"}");
    proof {
        assert(s@ =~= "{\"refresh_token\":\""@ + json_escaped(refresh_token@) + "\"}"@);
    }
    s
}

/// Both stored tokens are exactly the two string fields of `body`.
pub open spec fn tokens_updated_from(post: UserConfig, body: Seq<char>) -> bool {
    &&& post.access_token matches Some(a) && json_string_field_of(body, "access_token"@) == Some(
        a@,
    )
    &&& post.refresh_token matches Some(rt) && json_string_field_of(body, "refresh_token"@)
        == Some(rt@)
}

/// Classify the auth endpoint's answer and, on a complete success, adopt
/// the new token pair. On any failure the record is left untouched. The
/// caller must persist the record before acting on a success.
pub fn apply_refresh_response(user: &mut UserConfig, status: u16, body: &str) -> (r: Result<
    (),
    RefreshError,
>)
    ensures
        match r {
            Ok(_) => {
                &&& is_success_status(status as int)
                &&& json_string_field_of(body@, "access_token"@) is Some
                &&& json_string_field_of(body@, "refresh_token"@) is Some
                &&& tokens_updated_from(*final(user), body@)
                &&& final(user).user_id == old(user).user_id
                &&& final(user).last_posted_date == old(user).last_posted_date
            },
            Err(e) => *final(user) == *old(user) && match e {
                RefreshError::MissingRefreshToken => false,
                RefreshError::MalformedRefreshResponse => is_success_status(status as int) && (
                json_string_field_of(body@, "access_token"@) is None || json_string_field_of(
                    body@,
                    "refresh_token"@,
                ) is None),
                RefreshError::RefreshTokenExhausted => !is_success_status(status as int)
                    && contains_seq(body@, "refresh_token_already_used"@),
                RefreshError::RefreshFailed { status: st } => !is_success_status(status as int)
                    && st == status && !contains_seq(body@, "refresh_token_already_used"@),
            },
        },
{
    if 200 <= status && status < 300 {
        let access = json_string_field(body, "access_token");
        let refresh = json_string_field(body, "refresh_token");
        match (access, refresh) {
            (Some(a), Some(rt)) => {
                user.set_tokens(a, rt);
                Ok(())
            },
            _ => Err(RefreshError::MalformedRefreshResponse),
        }
    } else {
        if str_contains(body, "refresh_token_already_used") {
            Err(RefreshError::RefreshTokenExhausted)
        } else {
            Err(RefreshError::RefreshFailed { status })
        }
    }
}

} // verus!
