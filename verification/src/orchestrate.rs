//! One synchronization run: which spans are still pending, in what order
//! they are posted, and when the stored last-synced marker may advance.
//!
//! The marker filter is inclusive: the boundary day is deliberately
//! re-sent, so a shutdown observed after the previous run still reaches
//! the datastore. A span dated today never advances the marker, because
//! today's shutdown time is not final; it will be re-sent tomorrow. On
//! the first failure the run halts rather than skip days, so a systemic
//! outage cannot masquerade as a one-day gap.

use vstd::prelude::*;
use crate::calendar::{Date, date_before, date_le, date_lt};
use crate::config::UserConfig;
use crate::sessions::{DaySpan, SessionRecord, aggregate, aggregation_of, date_sorted};
use crate::text::{date_string_of, format_date, parse_date};

verus! {

/// The span still needs posting: no marker is stored, or the span's date
/// is on or after the marker (inclusive boundary).
pub open spec fn pending_span(sp: DaySpan, marker: Option<Date>) -> bool {
    match marker {
        Some(m) => date_le(m, sp.date),
        None => true,
    }
}

/// `marker` is the calendar date stored in the user record: `None` when
/// nothing (or nothing parseable) is stored.
pub open spec fn marker_matches(user: UserConfig, marker: Option<Date>) -> bool {
    match user.last_posted_date {
        None => marker is None,
        Some(m) => match marker {
            Some(d) => d.valid() && m@ == date_string_of(d),
            None => forall|d: Date| d.valid() ==> m@ != date_string_of(d),
        },
    }
}

/// `pending` holds exactly the spans of `spans` that still need posting.
pub open spec fn pending_selection(
    spans: Seq<DaySpan>,
    marker: Option<Date>,
    pending: Seq<DaySpan>,
) -> bool {
    forall|sp: DaySpan| pending.contains(sp) <==> spans.contains(sp) && pending_span(sp, marker)
}

/// Read the stored last-synced marker as a date; an absent or unparseable
/// marker counts as no marker, so the whole history is pending.
pub fn stored_marker(user: &UserConfig) -> (r: Option<Date>)
    ensures
        marker_matches(*user, r),
{
    match &user.last_posted_date {
        Some(m) => parse_date(m.as_str()),
        None => None,
    }
}

/// `sp` is one of the first `i` spans and passes the marker filter.
pub open spec fn from_prefix(spans: Seq<DaySpan>, marker: Option<Date>, sp: DaySpan, i: int) -> bool {
    exists|k: int| 0 <= k < i && sp == spans[k] && pending_span(#[trigger] spans[k], marker)
}

proof fn lemma_from_prefix_widen(
    spans: Seq<DaySpan>,
    marker: Option<Date>,
    sp: DaySpan,
    i: int,
    j: int,
)
    requires
        from_prefix(spans, marker, sp, i),
        i <= j,
    ensures
        from_prefix(spans, marker, sp, j),
{
    let k = choose|k: int| 0 <= k < i && sp == spans[k] && pending_span(#[trigger] spans[k], marker);
    assert(0 <= k < j && sp == spans[k] && pending_span(spans[k], marker));
}

/// Keep the spans on or after the marker, in their given ascending
/// order; with no marker, keep everything.
pub fn filter_pending(spans: &Vec<DaySpan>, marker: &Option<Date>) -> (r: Vec<DaySpan>)
    requires
        date_sorted(spans@),
    ensures
        date_sorted(r@),
        pending_selection(spans@, *marker, r@),
        forall|i: int|
            0 <= i < r@.len() ==> from_prefix(spans@, *marker, #[trigger] r@[i], spans@.len() as int),
{
    let n = spans.len();
    let mut r: Vec<DaySpan> = Vec::new();
    let mut i: usize = 0;
    while i < n
        invariant
            i <= n,
            n == spans@.len(),
            date_sorted(spans@),
            date_sorted(r@),
            forall|a: int|
                0 <= a < r@.len() ==> from_prefix(spans@, *marker, #[trigger] r@[a], i as int),
            forall|k: int|
                0 <= k < i && pending_span(#[trigger] spans@[k], *marker) ==> r@.contains(
                    spans@[k],
                ),
        decreases n - i,
    {
        let sp = spans[i];
        let keep = match marker {
            Some(m) => !date_before(&sp.date, m),
            None => true,
        };
        proof {
            assert(keep == pending_span(sp, *marker));
        }
        if keep {
            let ghost pre = r@;
            r.push(sp);
            proof {
                assert(r@ == pre.push(sp));
                assert(r@[r@.len() - 1] == spans@[i as int]);
                assert forall|a: int, b: int| 0 <= a < b < r@.len() implies date_lt(
                    #[trigger] r@[a].date,
                    #[trigger] r@[b].date,
                ) by {
                    if b == r@.len() - 1 {
                        assert(from_prefix(spans@, *marker, pre[a], i as int));
                        let k = choose|k: int|
                            0 <= k < i && pre[a] == spans@[k] && pending_span(
                                #[trigger] spans@[k],
                                *marker,
                            );
                        assert(date_lt(spans@[k].date, spans@[i as int].date));
                    }
                }
                assert forall|a: int| 0 <= a < r@.len() implies from_prefix(
                    spans@,
                    *marker,
                    #[trigger] r@[a],
                    i + 1,
                ) by {
                    if a < pre.len() {
                        lemma_from_prefix_widen(spans@, *marker, pre[a], i as int, i + 1);
                    } else {
                        assert(0 <= i < i + 1 && r@[a] == spans@[i as int] && pending_span(
                            spans@[i as int],
                            *marker,
                        ));
                    }
                }
                assert forall|k: int|
                    0 <= k < i + 1 && pending_span(#[trigger] spans@[k], *marker) implies
                    r@.contains(spans@[k]) by {
                    if k == i {
                        assert(r@[r@.len() - 1] == spans@[k]);
                    } else {
                        let a = choose|a: int| 0 <= a < pre.len() && pre[a] == spans@[k];
                        assert(r@[a] == spans@[k]);
                    }
                }
            }
        } else {
            proof {
                assert forall|a: int| 0 <= a < r@.len() implies from_prefix(
                    spans@,
                    *marker,
                    #[trigger] r@[a],
                    i + 1,
                ) by {
                    lemma_from_prefix_widen(spans@, *marker, r@[a], i as int, i + 1);
                }
            }
        }
        i += 1;
    }
    proof {
        assert forall|sp: DaySpan| r@.contains(sp) implies spans@.contains(sp) && pending_span(
            sp,
            *marker,
        ) by {
            let a = choose|a: int| 0 <= a < r@.len() && r@[a] == sp;
            assert(from_prefix(spans@, *marker, sp, n as int));
            let k = choose|k: int|
                0 <= k < n && sp == spans@[k] && pending_span(#[trigger] spans@[k], *marker);
            assert(spans@.contains(spans@[k]));
        }
        assert forall|sp: DaySpan| spans@.contains(sp) && pending_span(sp, *marker) implies
            r@.contains(sp) by {
            let k = choose|k: int| 0 <= k < spans@.len() && spans@[k] == sp;
        }
    }
    r
}

/// The state of one run's publish loop: the pending spans in ascending
/// date order, the position reached, the finalized-day candidate, and
/// whether the run has halted on a failure.
#[derive(Debug)]
pub struct SyncRun {
    pub pending: Vec<DaySpan>,
    pub next: usize,
    pub finalized: Option<Date>,
    pub halted: bool,
}

impl SyncRun {
    pub open spec fn wf(self) -> bool {
        self.next <= self.pending@.len()
    }

    /// Begin a run over the pending spans; nothing is finalized yet.
    pub fn new(pending: Vec<DaySpan>) -> (r: SyncRun)
        ensures
            r.pending == pending,
            r.next == 0,
            r.finalized is None,
            !r.halted,
            r.wf(),
    {
        SyncRun { pending, next: 0, finalized: None, halted: false }
    }

    /// The run is over: every span was posted, or a failure halted it.
    pub fn done(&self) -> (r: bool)
        ensures
            r == (self.halted || self.next >= self.pending@.len()),
    {
        self.halted || self.next >= self.pending.len()
    }

    /// The span to post next.
    pub fn current_span(&self) -> (r: DaySpan)
        requires
            self.wf(),
            !self.halted,
            self.next < self.pending@.len(),
        ensures
            r == self.pending@[self.next as int],
    {
        self.pending[self.next]
    }

    /// Record that the current span was posted. A span dated strictly
    /// before today advances the finalized candidate to its date; a span
    /// dated today (or later) leaves the candidate unchanged, so an
    /// unfinished day is re-sent on a future run.
    pub fn record_success(&mut self, today: &Date)
        requires
            old(self).wf(),
            !old(self).halted,
            old(self).next < old(self).pending@.len(),
        ensures
            final(self).pending == old(self).pending,
            final(self).next == old(self).next + 1,
            !final(self).halted,
            final(self).finalized == if date_lt(
                old(self).pending@[old(self).next as int].date,
                *today,
            ) {
                Some(old(self).pending@[old(self).next as int].date)
            } else {
                old(self).finalized
            },
            final(self).wf(),
    {
        // Pins the queue length as a machine word, so `next + 1` fits.
        let _len = self.pending.len();
        let d = self.pending[self.next].date;
        if date_before(&d, today) {
            self.finalized = Some(d);
        }
        self.next = self.next + 1;
    }

    /// Record that posting the current span failed: the run halts and no
    /// later span is attempted, so a failure cannot hide behind a gap.
    pub fn record_failure(&mut self)
        ensures
            final(self).pending == old(self).pending,
            final(self).next == old(self).next,
            final(self).finalized == old(self).finalized,
            final(self).halted,
    {
        self.halted = true;
    }
}

/// The stored marker text equals the canonical form of `d`.
pub open spec fn marker_text_is(user: UserConfig, d: Date) -> bool {
    user.last_posted_date matches Some(m) && m@ == date_string_of(d)
}

/// Write the finalized day (if any) back into the user record. Returns
/// whether the record changed, in which case the caller must persist it.
/// With no finalized day the record is untouched, so a run with no
/// qualifying success never rewrites storage.
pub fn apply_finalized_marker(user: &mut UserConfig, finalized: &Option<Date>) -> (changed: bool)
    requires
        match *finalized {
            Some(d) => d.valid(),
            None => true,
        },
    ensures
        match *finalized {
            None => !changed && *final(user) == *old(user),
            Some(d) => {
                &&& changed == !marker_text_is(*old(user), d)
                &&& marker_text_is(*final(user), d)
                &&& final(user).user_id == old(user).user_id
                &&& final(user).access_token == old(user).access_token
                &&& final(user).refresh_token == old(user).refresh_token
                &&& (!changed ==> *final(user) == *old(user))
            },
        },
{
    match finalized {
        None => false,
        Some(d) => {
            let txt = format_date(d);
            let same = match &user.last_posted_date {
                Some(m) => *m == txt,
                None => false,
            };
            if same {
                false
            } else {
                user.set_last_posted_date(Some(txt));
                true
            }
        },
    }
}

/// Plan one run from raw sessions and the stored user record: aggregate,
/// drop the days already synced (inclusive of the boundary day), and
/// start at the earliest pending span.
pub fn plan_run(sessions: &Vec<SessionRecord>, user: &UserConfig) -> (r: SyncRun)
    requires
        forall|i: int| 0 <= i < sessions@.len() ==> (#[trigger] sessions@[i]).valid(),
    ensures
        r.next == 0,
        r.finalized is None,
        !r.halted,
        r.wf(),
        date_sorted(r.pending@),
        forall|i: int| 0 <= i < r.pending@.len() ==> (#[trigger] r.pending@[i]).valid(),
        exists|spans: Seq<DaySpan>, marker: Option<Date>|
            #[trigger] aggregation_of(sessions@, spans) && #[trigger] marker_matches(*user, marker)
                && pending_selection(spans, marker, r.pending@),
{
    let spans = aggregate(sessions);
    let marker = stored_marker(user);
    let pending = filter_pending(&spans, &marker);
    proof {
        assert forall|i: int| 0 <= i < pending@.len() implies (#[trigger] pending@[i]).valid() by {
            assert(from_prefix(spans@, marker, pending@[i], spans@.len() as int));
            let k = choose|k: int|
                0 <= k < spans@.len() && pending@[i] == spans@[k] && pending_span(
                    #[trigger] spans@[k],
                    marker,
                );
        }
        assert(aggregation_of(sessions@, spans@) && marker_matches(*user, marker)
            && pending_selection(spans@, marker, pending@));
    }
    SyncRun::new(pending)
}

} // verus!
