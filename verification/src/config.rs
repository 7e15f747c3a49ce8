//! Configuration records: the fixed endpoint settings and the mutable
//! per-user credential state.
//!
//! The user record is the single owner of the bearer-token pair and of the
//! last-synced-date marker. Loading and saving these records from disk is
//! plain I/O and lives outside the library; the library states how the
//! records change.

use vstd::prelude::*;

verus! {

/// Fixed deployment settings: the endpoints and the public API key.
#[derive(Clone, Debug)]
pub struct AdminConfig {
    pub web_app_url: Option<String>,
    pub supabase_url: Option<String>,
    pub supabase_anon_key: Option<String>,
}

/// Mutable per-user state: identity, the bearer-token pair, and the date
/// marker of the last finalized, successfully posted day (`YYYY-MM-DD`).
#[derive(Clone, Debug)]
pub struct UserConfig {
    pub user_id: Option<String>,
    pub access_token: Option<String>,
    pub refresh_token: Option<String>,
    pub last_posted_date: Option<String>,
}

impl Default for AdminConfig {
    /// An empty settings record, as used when no file is readable.
    fn default() -> (r: AdminConfig)
        ensures
            r.web_app_url is None,
            r.supabase_url is None,
            r.supabase_anon_key is None,
    {
        AdminConfig { web_app_url: None, supabase_url: None, supabase_anon_key: None }
    }
}

impl Default for UserConfig {
    /// An empty credential record, as used when no file is readable.
    fn default() -> (r: UserConfig)
        ensures
            r.user_id is None,
            r.access_token is None,
            r.refresh_token is None,
            r.last_posted_date is None,
    {
        UserConfig { user_id: None, access_token: None, refresh_token: None, last_posted_date: None }
    }
}

impl UserConfig {
    /// Identity and access token are present, so a publish request can be
    /// built.
    pub open spec fn has_publish_auth(self) -> bool {
        self.user_id is Some && self.access_token is Some
    }

    /// Replace both tokens of the pair at once, leaving identity and the
    /// date marker untouched. The old refresh token must never survive a
    /// successful exchange, so there is no way to set only one of the two.
    pub fn set_tokens(&mut self, access: String, refresh: String)
        ensures
            final(self).access_token == Some(access),
            final(self).refresh_token == Some(refresh),
            final(self).user_id == old(self).user_id,
            final(self).last_posted_date == old(self).last_posted_date,
    {
        self.access_token = Some(access);
        self.refresh_token = Some(refresh);
    }

    /// Advance (or clear) the last-synced-date marker, leaving identity
    /// and tokens untouched.
    pub fn set_last_posted_date(&mut self, date: Option<String>)
        ensures
            final(self).last_posted_date == date,
            final(self).user_id == old(self).user_id,
            final(self).access_token == old(self).access_token,
            final(self).refresh_token == old(self).refresh_token,
    {
        self.last_posted_date = date;
    }
}

} // verus!
