//! Session records and their aggregation into one span per calendar day.
//!
//! A session is attributed to the calendar date it starts on. A session
//! that crosses midnight additionally offers its end as a shutdown
//! candidate for the date it ends on, but never seeds that date's first
//! boot: a day's first boot comes only from sessions that start on it.
//! A day yields a span only when it has a starting session and its latest
//! end lies strictly after its earliest start.

use vstd::prelude::*;
use crate::calendar::{Date, Timestamp, date_lt, day_number_of, seconds_of, timestamp_seconds};
use crate::calendar::{date_before, date_eq};

verus! {

/// One boot/shutdown interval in local civil time.
#[derive(Clone, Copy, PartialEq, Eq, Structural, Debug)]
pub struct SessionRecord {
    pub start: Timestamp,
    pub end: Timestamp,
}

impl SessionRecord {
    /// Well-formed session: valid instants, start not after end.
    pub open spec fn valid(self) -> bool {
        self.start.valid() && self.end.valid() && seconds_of(self.start) <= seconds_of(self.end)
    }
}

/// The aggregated first-boot-to-last-shutdown interval of one calendar day,
/// both ends measured in seconds on the linear day axis.
#[derive(Clone, Copy, PartialEq, Eq, Structural, Debug)]
pub struct DaySpan {
    pub date: Date,
    pub first_secs: u64,
    pub last_secs: u64,
}

impl DaySpan {
    /// Well-formed span: the first boot falls on the span's own date and
    /// the last shutdown lies strictly after it.
    pub open spec fn valid(self) -> bool {
        &&& self.date.valid()
        &&& day_number_of(self.date) * 86400 <= self.first_secs < day_number_of(self.date) * 86400
            + 86400
        &&& self.first_secs < self.last_secs
    }

    pub open spec fn total_seconds(self) -> int {
        self.last_secs - self.first_secs
    }

    pub open spec fn total_minutes(self) -> int {
        self.total_seconds() / 60
    }

    /// The second-of-day at which the day first booted.
    pub open spec fn first_boot_sec(self) -> int {
        self.first_secs as int % 86400
    }

    /// The second-of-day (possibly of a following day) of the last shutdown.
    pub open spec fn last_shutdown_sec(self) -> int {
        self.last_secs as int % 86400
    }

    /// Runtime check of well-formedness, for callers outside the proof.
    pub fn is_well_formed(&self) -> (r: bool)
        ensures
            r == self.valid(),
    {
        if !crate::calendar::date_valid(&self.date) {
            return false;
        }
        proof {
            crate::calendar::lemma_day_number_bounds(self.date);
        }
        let base = crate::calendar::day_number(&self.date) * 86400;
        base <= self.first_secs && self.first_secs < base + 86400 && self.first_secs
            < self.last_secs
    }
}

/// The session starts on day `d` and so contributes its start to `d`.
pub open spec fn starts_on(s: SessionRecord, d: Date) -> bool {
    s.start.date == d
}

/// The session contributes its end to day `d`: it starts on `d`, or it
/// crosses midnight and ends on `d`.
pub open spec fn touches(s: SessionRecord, d: Date) -> bool {
    s.start.date == d || s.end.date == d
}

/// `v` is the earliest start (in seconds) among the sessions starting on `d`.
pub open spec fn is_day_first(ss: Seq<SessionRecord>, d: Date, v: int) -> bool {
    &&& exists|s: SessionRecord|
        #[trigger] ss.contains(s) && starts_on(s, d) && seconds_of(s.start) == v
    &&& forall|s: SessionRecord|
        #[trigger] ss.contains(s) && starts_on(s, d) ==> v <= seconds_of(s.start)
}

/// `v` is the latest end (in seconds) among the sessions contributing an
/// end to `d`.
pub open spec fn is_day_last(ss: Seq<SessionRecord>, d: Date, v: int) -> bool {
    &&& exists|s: SessionRecord| #[trigger] ss.contains(s) && touches(s, d) && seconds_of(s.end) == v
    &&& forall|s: SessionRecord| #[trigger] ss.contains(s) && touches(s, d) ==> seconds_of(s.end) <= v
}

/// Some session starts on `d`.
pub open spec fn day_has_start(ss: Seq<SessionRecord>, d: Date) -> bool {
    exists|s: SessionRecord| #[trigger] ss.contains(s) && starts_on(s, d)
}

/// Day `d` yields a span: it has a starting session and its latest end
/// lies strictly after its earliest start.
pub open spec fn emits_day(ss: Seq<SessionRecord>, d: Date) -> bool {
    &&& day_has_start(ss, d)
    &&& exists|f: int, l: int| #[trigger] is_day_first(ss, d, f) && #[trigger] is_day_last(ss, d, l) && f < l
}

/// The span records exactly day `d`'s earliest start and latest end.
pub open spec fn span_matches(ss: Seq<SessionRecord>, sp: DaySpan) -> bool {
    &&& is_day_first(ss, sp.date, sp.first_secs as int)
    &&& is_day_last(ss, sp.date, sp.last_secs as int)
    &&& sp.first_secs < sp.last_secs
}

/// `r` is the aggregation of `ss`: every span records a day's true
/// extremes, the spans are strictly ordered by date, and every day that
/// yields a span is present. Together with the uniqueness of extremes this
/// pins `r` completely, so aggregation cannot depend on input order.
pub open spec fn aggregation_of(ss: Seq<SessionRecord>, r: Seq<DaySpan>) -> bool {
    &&& forall|i: int| 0 <= i < r.len() ==> span_matches(ss, #[trigger] r[i])
    &&& forall|i: int, j: int|
        0 <= i < j < r.len() ==> date_lt(#[trigger] r[i].date, #[trigger] r[j].date)
    &&& forall|d: Date|
        #[trigger] emits_day(ss, d) ==> exists|i: int| 0 <= i < r.len() && r[i].date == d
}

/// A day's earliest start and latest end are unique values.
pub proof fn lemma_day_bounds_unique(ss: Seq<SessionRecord>, d: Date, v1: int, v2: int)
    ensures
        is_day_first(ss, d, v1) && is_day_first(ss, d, v2) ==> v1 == v2,
        is_day_last(ss, d, v1) && is_day_last(ss, d, v2) ==> v1 == v2,
{
}

/// Scan all sessions once, computing day `d`'s earliest start and latest
/// end in seconds.
fn day_bounds(sessions: &Vec<SessionRecord>, d: &Date) -> (b: (u64, u64))
    requires
        forall|i: int| 0 <= i < sessions@.len() ==> (#[trigger] sessions@[i]).valid(),
        day_has_start(sessions@, *d),
    ensures
        is_day_first(sessions@, *d, b.0 as int),
        is_day_last(sessions@, *d, b.1 as int),
{
    let n = sessions.len();
    let mut have_first = false;
    let mut first: u64 = 0;
    let mut have_last = false;
    let mut last: u64 = 0;
    let mut i: usize = 0;
    while i < n
        invariant
            n == sessions@.len(),
            i <= n,
            forall|k: int| 0 <= k < n ==> (#[trigger] sessions@[k]).valid(),
            have_first ==> exists|k: int|
                0 <= k < i && starts_on(#[trigger] sessions@[k], *d) && seconds_of(
                    sessions@[k].start,
                ) == first,
            forall|k: int|
                0 <= k < i && starts_on(#[trigger] sessions@[k], *d) ==> have_first && first
                    <= seconds_of(sessions@[k].start),
            have_last ==> exists|k: int|
                0 <= k < i && touches(#[trigger] sessions@[k], *d) && seconds_of(sessions@[k].end)
                    == last,
            forall|k: int|
                0 <= k < i && touches(#[trigger] sessions@[k], *d) ==> have_last && seconds_of(
                    sessions@[k].end,
                ) <= last,
        decreases n - i,
    {
        let s = sessions[i];
        if date_eq(&s.start.date, d) {
            let v = timestamp_seconds(&s.start);
            if !have_first || v < first {
                have_first = true;
                first = v;
            }
        }
        if date_eq(&s.start.date, d) || date_eq(&s.end.date, d) {
            let v = timestamp_seconds(&s.end);
            if !have_last || v > last {
                have_last = true;
                last = v;
            }
        }
        i += 1;
    }
    proof {
        let s0 = choose|s: SessionRecord| sessions@.contains(s) && starts_on(s, *d);
        assert(sessions@.contains(s0) && starts_on(s0, *d));
        let k0 = choose|k: int| 0 <= k < sessions@.len() && sessions@[k] == s0;
        assert(starts_on(sessions@[k0], *d));
        assert(have_first);
        assert(have_last);
        assert forall|s: SessionRecord|
            #[trigger] sessions@.contains(s) && starts_on(s, *d) implies first as int <= seconds_of(
            s.start,
        ) by {
            let k = choose|k: int| 0 <= k < sessions@.len() && sessions@[k] == s;
            assert(starts_on(sessions@[k], *d));
        }
        assert forall|s: SessionRecord|
            #[trigger] sessions@.contains(s) && touches(s, *d) implies seconds_of(s.end)
            <= last as int by {
            let k = choose|k: int| 0 <= k < sessions@.len() && sessions@[k] == s;
            assert(touches(sessions@[k], *d));
        }
        let kf = choose|k: int|
            0 <= k < n && starts_on(#[trigger] sessions@[k], *d) && seconds_of(sessions@[k].start)
                == first;
        assert(sessions@.contains(sessions@[kf]));
        let kl = choose|k: int|
            0 <= k < n && touches(#[trigger] sessions@[k], *d) && seconds_of(sessions@[k].end)
                == last;
        assert(sessions@.contains(sessions@[kl]));
    }
    (first, last)
}

/// Insert a date into a strictly sorted vector, keeping it sorted and
/// ignoring duplicates.
fn insert_date_sorted(dates: &mut Vec<Date>, d: Date)
    requires
        forall|i: int, j: int|
            0 <= i < j < old(dates)@.len() ==> date_lt(
                #[trigger] old(dates)@[i],
                #[trigger] old(dates)@[j],
            ),
    ensures
        forall|i: int, j: int|
            0 <= i < j < final(dates)@.len() ==> date_lt(
                #[trigger] final(dates)@[i],
                #[trigger] final(dates)@[j],
            ),
        forall|x: Date|
            final(dates)@.contains(x) <==> old(dates)@.contains(x) || x == d,
{
    let n = dates.len();
    let mut pos: usize = 0;
    while pos < n && date_before(&dates[pos], &d)
        invariant
            pos <= n,
            n == dates@.len(),
            dates@ == old(dates)@,
            forall|k: int| 0 <= k < pos ==> date_lt(#[trigger] dates@[k], d),
        decreases n - pos,
    {
        pos += 1;
    }
    if pos < n && dates[pos] == d {
        proof {
            assert(dates@[pos as int] == d);
            assert(dates@.contains(d));
        }
        return ;
    }
    let ghost pre = dates@;
    dates.insert(pos, d);
    proof {
        assert(dates@ == pre.subrange(0, pos as int).push(d) + pre.subrange(
            pos as int,
            pre.len() as int,
        ));
        assert(dates@.len() == pre.len() + 1);
        assert(forall|k: int| 0 <= k < pos ==> dates@[k] == pre[k]);
        assert(dates@[pos as int] == d);
        assert(forall|k: int| pos < k < dates@.len() ==> dates@[k] == pre[k - 1]);
        // The element at the insertion point, if any, lies strictly after d.
        if (pos as int) < pre.len() {
            assert(!date_lt(pre[pos as int], d));
            assert(pre[pos as int] != d);
            assert(date_lt(d, pre[pos as int]));
        }
        assert forall|i: int, j: int| 0 <= i < j < dates@.len() implies date_lt(
            dates@[i],
            dates@[j],
        ) by {
            if j < pos {
            } else if j == pos {
                assert(date_lt(pre[i], d));
            } else if i < pos {
                if i < j - 1 {
                } else {
                    assert(i == j - 1 && i < pos && j > pos);
                    assert(false);
                }
            } else if i == pos {
                assert(pos as int <= j - 1 < pre.len());
                if pos as int == j - 1 {
                } else {
                    assert(date_lt(pre[pos as int], pre[j - 1]));
                }
            } else {
            }
        }
        assert forall|x: Date| dates@.contains(x) implies (pre.contains(x) || x == d) by {
            let k = choose|k: int| 0 <= k < dates@.len() && dates@[k] == x;
            if k < pos {
                assert(pre[k] == x);
            } else if k > pos {
                assert(pre[k - 1] == x);
            }
        }
        assert forall|x: Date| pre.contains(x) || x == d implies dates@.contains(x) by {
            if x == d {
                assert(dates@[pos as int] == x);
            } else {
                let k = choose|k: int| 0 <= k < pre.len() && pre[k] == x;
                if k < pos {
                    assert(dates@[k] == x);
                } else {
                    assert(dates@[k + 1] == x);
                }
            }
        }
    }
}

/// Collect, in ascending order and without duplicates, every date on which
/// some session starts.
fn collect_start_dates(sessions: &Vec<SessionRecord>) -> (dates: Vec<Date>)
    ensures
        forall|i: int, j: int|
            0 <= i < j < dates@.len() ==> date_lt(#[trigger] dates@[i], #[trigger] dates@[j]),
        forall|d: Date| dates@.contains(d) <==> day_has_start(sessions@, d),
{
    let n = sessions.len();
    let mut dates: Vec<Date> = Vec::new();
    let mut i: usize = 0;
    while i < n
        invariant
            i <= n,
            n == sessions@.len(),
            forall|a: int, b: int|
                0 <= a < b < dates@.len() ==> date_lt(#[trigger] dates@[a], #[trigger] dates@[b]),
            forall|d: Date|
                dates@.contains(d) <==> exists|k: int|
                    0 <= k < i && starts_on(#[trigger] sessions@[k], d),
        decreases n - i,
    {
        let d = sessions[i].start.date;
        insert_date_sorted(&mut dates, d);
        proof {
            assert(starts_on(sessions@[i as int], d));
        }
        i += 1;
    }
    proof {
        assert forall|d: Date| dates@.contains(d) implies day_has_start(sessions@, d) by {
            let k = choose|k: int| 0 <= k < n && starts_on(#[trigger] sessions@[k], d);
            assert(sessions@.contains(sessions@[k]));
        }
        assert forall|d: Date| day_has_start(sessions@, d) implies dates@.contains(d) by {
            let s = choose|s: SessionRecord| sessions@.contains(s) && starts_on(s, d);
            let k = choose|k: int| 0 <= k < sessions@.len() && sessions@[k] == s;
            assert(starts_on(sessions@[k], d));
        }
    }
    dates
}

/// Aggregate raw sessions into one span per calendar day, in ascending
/// date order. The result is pinned by `aggregation_of`, so it does not
/// depend on the order in which the sessions are listed.
#[verifier::rlimit(60)]
pub fn aggregate(sessions: &Vec<SessionRecord>) -> (r: Vec<DaySpan>)
    requires
        forall|i: int| 0 <= i < sessions@.len() ==> (#[trigger] sessions@[i]).valid(),
    ensures
        aggregation_of(sessions@, r@),
        forall|i: int| 0 <= i < r@.len() ==> (#[trigger] r@[i]).valid(),
{
    let dates = collect_start_dates(sessions);
    let nd = dates.len();
    let mut r: Vec<DaySpan> = Vec::new();
    let mut di: usize = 0;
    while di < nd
        invariant
            di <= nd,
            nd == dates@.len(),
            forall|i: int| 0 <= i < sessions@.len() ==> (#[trigger] sessions@[i]).valid(),
            forall|a: int, b: int|
                0 <= a < b < dates@.len() ==> date_lt(#[trigger] dates@[a], #[trigger] dates@[b]),
            forall|d: Date| dates@.contains(d) <==> day_has_start(sessions@, d),
            forall|a: int| 0 <= a < r@.len() ==> span_matches(sessions@, #[trigger] r@[a]),
            forall|a: int| 0 <= a < r@.len() ==> (#[trigger] r@[a]).valid(),
            forall|a: int, b: int|
                0 <= a < b < r@.len() ==> date_lt(#[trigger] r@[a].date, #[trigger] r@[b].date),
            forall|a: int|
                0 <= a < r@.len() ==> exists|k: int| 0 <= k < di && (#[trigger] r@[a]).date
                    == dates@[k],
            forall|k: int|
                0 <= k < di && emits_day(sessions@, #[trigger] dates@[k]) ==> exists|a: int|
                    0 <= a < r@.len() && r@[a].date == dates@[k],
        decreases nd - di,
    {
        let d = dates[di];
        proof {
            assert(dates@[di as int] == d);
            assert(dates@.contains(d));
        }
        let (f, l) = day_bounds(sessions, &d);
        if f < l {
            let ghost pre = r@;
            proof {
                // The earliest start is the start of a valid session on d,
                // which bounds it within d's own day.
                let s = choose|s: SessionRecord|
                    sessions@.contains(s) && starts_on(s, d) && seconds_of(s.start) == f as int;
                let k = choose|k: int| 0 <= k < sessions@.len() && sessions@[k] == s;
                assert(sessions@[k].valid());
                assert(s.start.valid());
                assert(seconds_of(s.start) == day_number_of(d) * 86400 + s.start.sec_of_day);
            }
            r.push(DaySpan { date: d, first_secs: f, last_secs: l });
            proof {
                assert(r@ == pre.push(DaySpan { date: d, first_secs: f, last_secs: l }));
                assert forall|a: int, b: int| 0 <= a < b < r@.len() implies date_lt(
                    r@[a].date,
                    r@[b].date,
                ) by {
                    if b == r@.len() - 1 {
                        let k = choose|k: int| 0 <= k < di && pre[a].date == dates@[k];
                        assert(date_lt(dates@[k], dates@[di as int]));
                    }
                }
                assert forall|a: int| 0 <= a < r@.len() implies exists|k: int|
                    0 <= k < di + 1 && (#[trigger] r@[a]).date == dates@[k] by {
                    if a < pre.len() {
                        let k = choose|k: int| 0 <= k < di && pre[a].date == dates@[k];
                        assert(0 <= k < di + 1 && r@[a].date == dates@[k]);
                    } else {
                        assert(r@[a].date == dates@[di as int]);
                    }
                }
                assert forall|k: int|
                    0 <= k < di + 1 && emits_day(sessions@, #[trigger] dates@[k]) implies exists|
                    a: int,
                |
                    0 <= a < r@.len() && r@[a].date == dates@[k] by {
                    if k == di {
                        assert(r@[r@.len() - 1].date == dates@[di as int]);
                    } else {
                        let a = choose|a: int| 0 <= a < pre.len() && pre[a].date == dates@[k];
                        assert(r@[a].date == dates@[k]);
                    }
                }
            }
        } else {
            proof {
                // The day's extremes coincide or invert, so it emits no span.
                assert forall|k: int|
                    0 <= k < di + 1 && emits_day(sessions@, #[trigger] dates@[k]) implies exists|
                    a: int,
                |
                    0 <= a < r@.len() && r@[a].date == dates@[k] by {
                    if k == di {
                        let (f2, l2) = choose|f2: int, l2: int|
                            #[trigger] is_day_first(sessions@, d, f2) && #[trigger] is_day_last(
                                sessions@,
                                d,
                                l2,
                            ) && f2 < l2;
                        lemma_day_bounds_unique(sessions@, d, f2, f as int);
                        lemma_day_bounds_unique(sessions@, d, l2, l as int);
                        assert(false);
                    }
                }
            }
        }
        di += 1;
    }
    proof {
        assert forall|d: Date| #[trigger] emits_day(sessions@, d) implies exists|i: int|
            0 <= i < r@.len() && r@[i].date == d by {
            assert(day_has_start(sessions@, d));
            assert(dates@.contains(d));
            let k = choose|k: int| 0 <= k < dates@.len() && dates@[k] == d;
            assert(emits_day(sessions@, dates@[k]));
        }
    }
    r
}

spec fn prefix_min_start(ss: Seq<SessionRecord>, d: Date, n: int, v: int) -> bool {
    &&& exists|k: int|
        0 <= k < n && starts_on(#[trigger] ss[k], d) && seconds_of(ss[k].start) == v
    &&& forall|k: int| 0 <= k < n && starts_on(#[trigger] ss[k], d) ==> v <= seconds_of(ss[k].start)
}

spec fn prefix_max_end(ss: Seq<SessionRecord>, d: Date, n: int, v: int) -> bool {
    &&& exists|k: int| 0 <= k < n && touches(#[trigger] ss[k], d) && seconds_of(ss[k].end) == v
    &&& forall|k: int| 0 <= k < n && touches(#[trigger] ss[k], d) ==> seconds_of(ss[k].end) <= v
}

proof fn lemma_min_start_prefix(ss: Seq<SessionRecord>, d: Date, n: int)
    requires
        0 <= n <= ss.len(),
        exists|k: int| 0 <= k < n && starts_on(#[trigger] ss[k], d),
    ensures
        exists|v: int| #[trigger] prefix_min_start(ss, d, n, v),
    decreases n,
{
    let last = ss[n - 1];
    if starts_on(last, d) {
        if exists|k: int| 0 <= k < n - 1 && starts_on(#[trigger] ss[k], d) {
            lemma_min_start_prefix(ss, d, n - 1);
            let v0 = choose|v: int| #[trigger] prefix_min_start(ss, d, n - 1, v);
            let v = if seconds_of(last.start) < v0 {
                seconds_of(last.start)
            } else {
                v0
            };
            assert(starts_on(ss[n - 1], d) && seconds_of(ss[n - 1].start) == seconds_of(
                last.start,
            ));
            assert(prefix_min_start(ss, d, n, v));
        } else {
            let v = seconds_of(last.start);
            assert(starts_on(ss[n - 1], d) && seconds_of(ss[n - 1].start) == v);
            assert(prefix_min_start(ss, d, n, v));
        }
    } else {
        lemma_min_start_prefix(ss, d, n - 1);
        let v0 = choose|v: int| #[trigger] prefix_min_start(ss, d, n - 1, v);
        assert(prefix_min_start(ss, d, n, v0));
    }
}

proof fn lemma_max_end_prefix(ss: Seq<SessionRecord>, d: Date, n: int)
    requires
        0 <= n <= ss.len(),
        exists|k: int| 0 <= k < n && touches(#[trigger] ss[k], d),
    ensures
        exists|v: int| #[trigger] prefix_max_end(ss, d, n, v),
    decreases n,
{
    let last = ss[n - 1];
    if touches(last, d) {
        if exists|k: int| 0 <= k < n - 1 && touches(#[trigger] ss[k], d) {
            lemma_max_end_prefix(ss, d, n - 1);
            let v0 = choose|v: int| #[trigger] prefix_max_end(ss, d, n - 1, v);
            let v = if seconds_of(last.end) > v0 {
                seconds_of(last.end)
            } else {
                v0
            };
            assert(touches(ss[n - 1], d) && seconds_of(ss[n - 1].end) == seconds_of(last.end));
            assert(prefix_max_end(ss, d, n, v));
        } else {
            let v = seconds_of(last.end);
            assert(touches(ss[n - 1], d) && seconds_of(ss[n - 1].end) == v);
            assert(prefix_max_end(ss, d, n, v));
        }
    } else {
        lemma_max_end_prefix(ss, d, n - 1);
        let v0 = choose|v: int| #[trigger] prefix_max_end(ss, d, n - 1, v);
        assert(prefix_max_end(ss, d, n, v0));
    }
}

/// A day with a starting session has a well-defined earliest start.
pub proof fn lemma_day_first_exists(ss: Seq<SessionRecord>, d: Date)
    requires
        day_has_start(ss, d),
    ensures
        exists|v: int| #[trigger] is_day_first(ss, d, v),
{
    let s = choose|s: SessionRecord| ss.contains(s) && starts_on(s, d);
    let k = choose|k: int| 0 <= k < ss.len() && ss[k] == s;
    assert(starts_on(ss[k], d));
    lemma_min_start_prefix(ss, d, ss.len() as int);
    let v = choose|v: int| #[trigger] prefix_min_start(ss, d, ss.len() as int, v);
    let ka = choose|k: int|
        0 <= k < ss.len() && starts_on(#[trigger] ss[k], d) && seconds_of(ss[k].start) == v;
    assert(ss.contains(ss[ka]));
    assert forall|x: SessionRecord| #[trigger] ss.contains(x) && starts_on(x, d) implies v
        <= seconds_of(x.start) by {
        let kx = choose|k: int| 0 <= k < ss.len() && ss[k] == x;
        assert(starts_on(ss[kx], d));
    }
    assert(is_day_first(ss, d, v));
}

/// A day with a starting session has a well-defined latest end.
pub proof fn lemma_day_last_exists(ss: Seq<SessionRecord>, d: Date)
    requires
        day_has_start(ss, d),
    ensures
        exists|v: int| #[trigger] is_day_last(ss, d, v),
{
    let s = choose|s: SessionRecord| ss.contains(s) && starts_on(s, d);
    let k = choose|k: int| 0 <= k < ss.len() && ss[k] == s;
    assert(touches(ss[k], d));
    lemma_max_end_prefix(ss, d, ss.len() as int);
    let v = choose|v: int| #[trigger] prefix_max_end(ss, d, ss.len() as int, v);
    let ka = choose|k: int|
        0 <= k < ss.len() && touches(#[trigger] ss[k], d) && seconds_of(ss[k].end) == v;
    assert(ss.contains(ss[ka]));
    assert forall|x: SessionRecord| #[trigger] ss.contains(x) && touches(x, d) implies seconds_of(
        x.end,
    ) <= v by {
        let kx = choose|k: int| 0 <= k < ss.len() && ss[k] == x;
        assert(touches(ss[kx], d));
    }
    assert(is_day_last(ss, d, v));
}

/// For inputs whose sessions each lie within one day and last a positive
/// time, every day with a session yields exactly one span, whose first
/// boot is the day's earliest start and whose last shutdown is the day's
/// latest end.
pub proof fn lemma_same_day_aggregation(ss: Seq<SessionRecord>, r: Seq<DaySpan>, d: Date)
    requires
        aggregation_of(ss, r),
        forall|s: SessionRecord|
            #[trigger] ss.contains(s) ==> s.start.date == s.end.date && seconds_of(s.start)
                < seconds_of(s.end),
        day_has_start(ss, d),
    ensures
        exists|i: int| 0 <= i < r.len() && r[i].date == d,
        forall|i: int, j: int|
            0 <= i < r.len() && 0 <= j < r.len() && r[i].date == d && r[j].date == d ==> i == j,
        forall|i: int|
            0 <= i < r.len() && (#[trigger] r[i]).date == d ==> is_day_first(
                ss,
                d,
                r[i].first_secs as int,
            ) && is_day_last(ss, d, r[i].last_secs as int),
{
    lemma_day_first_exists(ss, d);
    lemma_day_last_exists(ss, d);
    let f = choose|v: int| #[trigger] is_day_first(ss, d, v);
    let l = choose|v: int| #[trigger] is_day_last(ss, d, v);
    let sf = choose|s: SessionRecord|
        #[trigger] ss.contains(s) && starts_on(s, d) && seconds_of(s.start) == f;
    assert(touches(sf, d));
    assert(seconds_of(sf.end) <= l);
    assert(f < l);
    assert(emits_day(ss, d));
    assert forall|i: int, j: int|
        0 <= i < r.len() && 0 <= j < r.len() && r[i].date == d && r[j].date == d implies i == j by {
        if i < j {
            assert(date_lt(r[i].date, r[j].date));
        }
        if j < i {
            assert(date_lt(r[j].date, r[i].date));
        }
    }
}

/// A session crossing midnight contributes its end to the day it ends on,
/// while that day's first boot still comes only from its own sessions.
/// `overnight` is the crossing session, `own` any session starting on the
/// spillover day.
pub proof fn lemma_midnight_spillover(
    ss: Seq<SessionRecord>,
    r: Seq<DaySpan>,
    overnight: SessionRecord,
    own: SessionRecord,
)
    requires
        aggregation_of(ss, r),
        forall|s: SessionRecord| #[trigger] ss.contains(s) ==> seconds_of(s.start) < seconds_of(
            s.end,
        ),
        ss.contains(overnight),
        overnight.start.date != overnight.end.date,
        ss.contains(own),
        own.start.date == overnight.end.date,
    ensures
        exists|i: int| 0 <= i < r.len() && r[i].date == overnight.end.date,
        forall|i: int|
            0 <= i < r.len() && (#[trigger] r[i]).date == overnight.end.date ==> r[i].last_secs
                >= seconds_of(overnight.end) && is_day_first(
                ss,
                overnight.end.date,
                r[i].first_secs as int,
            ),
{
    let d = overnight.end.date;
    assert(starts_on(own, d));
    assert(day_has_start(ss, d));
    lemma_day_first_exists(ss, d);
    lemma_day_last_exists(ss, d);
    let f = choose|v: int| #[trigger] is_day_first(ss, d, v);
    let l = choose|v: int| #[trigger] is_day_last(ss, d, v);
    let sf = choose|s: SessionRecord|
        #[trigger] ss.contains(s) && starts_on(s, d) && seconds_of(s.start) == f;
    assert(touches(sf, d));
    assert(seconds_of(sf.end) <= l);
    assert(f < l);
    assert(emits_day(ss, d));
    assert(touches(overnight, d));
    assert forall|i: int|
        0 <= i < r.len() && (#[trigger] r[i]).date == d implies r[i].last_secs >= seconds_of(
        overnight.end,
    ) && is_day_first(ss, d, r[i].first_secs as int) by {
        assert(span_matches(ss, r[i]));
    }
}

/// The spans stand in strictly ascending date order.
pub open spec fn date_sorted(r: Seq<DaySpan>) -> bool {
    forall|i: int, j: int| 0 <= i < j < r.len() ==> date_lt(#[trigger] r[i].date, #[trigger] r[j].date)
}

/// Every span of `r1` occurs in `r2`.
spec fn span_subset(r1: Seq<DaySpan>, r2: Seq<DaySpan>) -> bool {
    forall|i: int| 0 <= i < r1.len() ==> r2.contains(#[trigger] r1[i])
}

proof fn lemma_sorted_span_seqs_equal(r1: Seq<DaySpan>, r2: Seq<DaySpan>)
    requires
        date_sorted(r1),
        date_sorted(r2),
        span_subset(r1, r2),
        span_subset(r2, r1),
    ensures
        r1 =~= r2,
    decreases r1.len(),
{
    if r1.len() == 0 {
        if r2.len() > 0 {
            assert(r1.contains(r2[0]));
            assert(false);
        }
    } else {
        if r2.len() == 0 {
            assert(r2.contains(r1[0]));
            assert(false);
        }
        assert(r1[0] == r2[0]) by {
            assert(r2.contains(r1[0]));
            assert(r1.contains(r2[0]));
            let j0 = choose|j: int| 0 <= j < r2.len() && r2[j] == r1[0];
            let i0 = choose|i: int| 0 <= i < r1.len() && r1[i] == r2[0];
            if j0 > 0 && i0 > 0 {
                assert(date_lt(r2[0].date, r2[j0].date));
                assert(date_lt(r1[0].date, r1[i0].date));
                assert(false);
            }
        }
        let t1 = r1.subrange(1, r1.len() as int);
        let t2 = r2.subrange(1, r2.len() as int);
        assert(date_sorted(t1)) by {
            assert forall|i: int, j: int| 0 <= i < j < t1.len() implies date_lt(
                #[trigger] t1[i].date,
                #[trigger] t1[j].date,
            ) by {
                assert(t1[i] == r1[i + 1] && t1[j] == r1[j + 1]);
            }
        }
        assert(date_sorted(t2)) by {
            assert forall|i: int, j: int| 0 <= i < j < t2.len() implies date_lt(
                #[trigger] t2[i].date,
                #[trigger] t2[j].date,
            ) by {
                assert(t2[i] == r2[i + 1] && t2[j] == r2[j + 1]);
            }
        }
        assert(span_subset(t1, t2)) by {
            assert forall|i: int| 0 <= i < t1.len() implies t2.contains(#[trigger] t1[i]) by {
                assert(t1[i] == r1[i + 1]);
                assert(r2.contains(r1[i + 1]));
                let j = choose|j: int| 0 <= j < r2.len() && r2[j] == r1[i + 1];
                if j == 0 {
                    assert(r1[i + 1] == r1[0]);
                    assert(date_lt(r1[0].date, r1[i + 1].date));
                    assert(false);
                }
                assert(t2[j - 1] == t1[i]);
            }
        }
        assert(span_subset(t2, t1)) by {
            assert forall|j: int| 0 <= j < t2.len() implies t1.contains(#[trigger] t2[j]) by {
                assert(t2[j] == r2[j + 1]);
                assert(r1.contains(r2[j + 1]));
                let i = choose|i: int| 0 <= i < r1.len() && r1[i] == r2[j + 1];
                if i == 0 {
                    assert(r2[j + 1] == r2[0]);
                    assert(date_lt(r2[0].date, r2[j + 1].date));
                    assert(false);
                }
                assert(t1[i - 1] == t2[j]);
            }
        }
        lemma_sorted_span_seqs_equal(t1, t2);
        assert(r1.len() == r2.len());
        assert forall|k: int| 0 <= k < r1.len() implies r1[k] == r2[k] by {
            if k > 0 {
                assert(t1[k - 1] == t2[k - 1]);
            }
        }
    }
}

/// Aggregation is order-independent: two inputs holding the same sessions
/// (in particular, any shuffle of one list) aggregate to the same spans.
#[verifier::rlimit(100)]
pub proof fn lemma_aggregation_order_independent(
    ss1: Seq<SessionRecord>,
    ss2: Seq<SessionRecord>,
    r1: Seq<DaySpan>,
    r2: Seq<DaySpan>,
)
    requires
        forall|s: SessionRecord| ss1.contains(s) <==> ss2.contains(s),
        aggregation_of(ss1, r1),
        aggregation_of(ss2, r2),
    ensures
        r1 == r2,
{
    assert forall|d: Date, v: int| #[trigger] is_day_first(ss1, d, v) implies is_day_first(
        ss2,
        d,
        v,
    ) by {
        let s = choose|s: SessionRecord|
            #[trigger] ss1.contains(s) && starts_on(s, d) && seconds_of(s.start) == v;
        assert(ss2.contains(s));
        assert forall|x: SessionRecord| #[trigger] ss2.contains(x) && starts_on(x, d) implies v
            <= seconds_of(x.start) by {
            assert(ss1.contains(x));
        }
    }
    assert forall|d: Date, v: int| #[trigger] is_day_first(ss2, d, v) implies is_day_first(
        ss1,
        d,
        v,
    ) by {
        let s = choose|s: SessionRecord|
            #[trigger] ss2.contains(s) && starts_on(s, d) && seconds_of(s.start) == v;
        assert(ss1.contains(s));
        assert forall|x: SessionRecord| #[trigger] ss1.contains(x) && starts_on(x, d) implies v
            <= seconds_of(x.start) by {
            assert(ss2.contains(x));
        }
    }
    assert forall|d: Date, v: int| #[trigger] is_day_last(ss1, d, v) implies is_day_last(
        ss2,
        d,
        v,
    ) by {
        let s = choose|s: SessionRecord|
            #[trigger] ss1.contains(s) && touches(s, d) && seconds_of(s.end) == v;
        assert(ss2.contains(s));
        assert forall|x: SessionRecord| #[trigger] ss2.contains(x) && touches(x, d) implies
            seconds_of(x.end) <= v by {
            assert(ss1.contains(x));
        }
    }
    assert forall|d: Date, v: int| #[trigger] is_day_last(ss2, d, v) implies is_day_last(
        ss1,
        d,
        v,
    ) by {
        let s = choose|s: SessionRecord|
            #[trigger] ss2.contains(s) && touches(s, d) && seconds_of(s.end) == v;
        assert(ss1.contains(s));
        assert forall|x: SessionRecord| #[trigger] ss1.contains(x) && touches(x, d) implies
            seconds_of(x.end) <= v by {
            assert(ss2.contains(x));
        }
    }
    assert forall|i: int| 0 <= i < r1.len() implies r2.contains(#[trigger] r1[i]) by {
        assert(span_matches(ss1, r1[i]));
        assert(is_day_first(ss2, r1[i].date, r1[i].first_secs as int));
        assert(is_day_last(ss2, r1[i].date, r1[i].last_secs as int));
        let s = choose|s: SessionRecord|
            #[trigger] ss2.contains(s) && starts_on(s, r1[i].date) && seconds_of(s.start) == r1[i].first_secs as int;
        assert(day_has_start(ss2, r1[i].date));
        assert(emits_day(ss2, r1[i].date));
        let j = choose|j: int| 0 <= j < r2.len() && r2[j].date == r1[i].date;
        assert(span_matches(ss2, r2[j]));
        lemma_day_bounds_unique(ss2, r1[i].date, r1[i].first_secs as int, r2[j].first_secs as int);
        lemma_day_bounds_unique(ss2, r1[i].date, r1[i].last_secs as int, r2[j].last_secs as int);
        assert(r2[j] == r1[i]);
    }
    assert forall|j: int| 0 <= j < r2.len() implies r1.contains(#[trigger] r2[j]) by {
        assert(span_matches(ss2, r2[j]));
        assert(is_day_first(ss1, r2[j].date, r2[j].first_secs as int));
        assert(is_day_last(ss1, r2[j].date, r2[j].last_secs as int));
        let s = choose|s: SessionRecord|
            #[trigger] ss1.contains(s) && starts_on(s, r2[j].date) && seconds_of(s.start) == r2[j].first_secs as int;
        assert(day_has_start(ss1, r2[j].date));
        assert(emits_day(ss1, r2[j].date));
        let i = choose|i: int| 0 <= i < r1.len() && r1[i].date == r2[j].date;
        assert(span_matches(ss1, r1[i]));
        lemma_day_bounds_unique(ss1, r2[j].date, r2[j].first_secs as int, r1[i].first_secs as int);
        lemma_day_bounds_unique(ss1, r2[j].date, r2[j].last_secs as int, r1[i].last_secs as int);
        assert(r1[i] == r2[j]);
    }
    assert(date_sorted(r1));
    assert(date_sorted(r2));
    lemma_sorted_span_seqs_equal(r1, r2);
}

} // verus!
