//! The aggregation engine: one forward pass over the raw event stream folds
//! every admitted event into its author's summary and daily timeline.

use crate::clock::current_year;
use crate::date::{date_le, date_lt, Date};
use crate::datemap::spec_sum;
use crate::heatmap::{
    heatmap_wf, lemma_sum_from_nonneg, lemma_sum_from_unfold, lemma_sum_split,
    lemma_totals_from_nonneg, lemma_totals_from_unfold, lemma_totals_split, spec_project_date,
    spec_project_into, spec_project_union, sum_totals, HeatMapData,
};
use crate::strmap::AuthorTimelineMap;
use crate::user_commit_info::{
    empty_timeline, lemma_timeline_add_wf, timeline_add, timeline_wf, CommitData, SummaryModel,
    TimelineData, TimelineModel,
};
use crate::datemap::{lemma_count_le_sum, lemma_spec_find, spec_find, spec_get};
use vstd::prelude::*;

verus! {

/// One raw event from the history stream; either field may be missing when
/// the backend could not resolve it.
#[derive(Debug)]
pub struct CommitEvent {
    pub email: Option<String>,
    pub date: Option<Date>,
}

/// The event at the specification level.
pub struct EventModel {
    pub email: Option<Seq<char>>,
    pub date: Option<Date>,
}

impl View for CommitEvent {
    type V = EventModel;

    open spec fn view(&self) -> EventModel {
        EventModel {
            email: match self.email {
                Some(ref e) => Some(e@),
                None => None,
            },
            date: self.date,
        }
    }
}

pub open spec fn events_view(s: Seq<CommitEvent>) -> Seq<EventModel> {
    s.map_values(|e: CommitEvent| e@)
}

/// The optional bounds and cap an aggregation run applies to the stream.
#[derive(Debug, Clone, Copy, Default)]
pub struct RepositoryConfig {
    pub max_commits: Option<u32>,
    pub since_date: Option<Date>,
    pub until_date: Option<Date>,
}

/// The whole aggregation state at the specification level: summaries and
/// timelines sit at matching positions, one pair per distinct author.
pub struct AggModel {
    pub summaries: Seq<SummaryModel>,
    pub timelines: Seq<(Seq<char>, TimelineModel)>,
    pub processed: u32,
}

pub open spec fn empty_agg() -> AggModel {
    AggModel { summaries: Seq::empty(), timelines: Seq::empty(), processed: 0 }
}

/// Index of the summary carrying `email`, or -1 when there is none.
pub open spec fn summary_find(s: Seq<SummaryModel>, email: Seq<char>) -> int
    decreases s.len(),
{
    if s.len() == 0 {
        -1
    } else if s[0].email == email {
        0
    } else {
        let r = summary_find(s.drop_first(), email);
        if r == -1 {
            -1
        } else {
            r + 1
        }
    }
}

pub proof fn lemma_summary_find(s: Seq<SummaryModel>, email: Seq<char>)
    ensures
        summary_find(s, email) == -1 || 0 <= summary_find(s, email) < s.len(),
        summary_find(s, email) >= 0 ==> s[summary_find(s, email)].email == email,
        forall|i: int|
            0 <= i < s.len() && (#[trigger] s[i]).email == email ==> 0 <= summary_find(s, email)
                <= i,
    decreases s.len(),
{
    if s.len() > 0 && s[0].email != email {
        lemma_summary_find(s.drop_first(), email);
        assert forall|i: int|
            0 <= i < s.len() && (#[trigger] s[i]).email == email implies 0 <= summary_find(
            s,
            email,
        ) <= i by {
            assert(s.drop_first()[i - 1] == s[i]);
        }
    }
}

pub proof fn lemma_summary_find_pin(s: Seq<SummaryModel>, email: Seq<char>, i: int)
    requires
        0 <= i < s.len(),
        s[i].email == email,
        forall|j: int| 0 <= j < i ==> (#[trigger] s[j]).email != email,
    ensures
        summary_find(s, email) == i,
{
    lemma_summary_find(s, email);
    let f = summary_find(s, email);
    assert(0 <= f <= i);
    if f < i {
        assert(s[f].email == email);
        assert(false);
    }
}

pub proof fn lemma_summary_find_none(s: Seq<SummaryModel>, email: Seq<char>)
    requires
        forall|j: int| 0 <= j < s.len() ==> (#[trigger] s[j]).email != email,
    ensures
        summary_find(s, email) == -1,
{
    lemma_summary_find(s, email);
    let f = summary_find(s, email);
    if f >= 0 {
        assert(s[f].email == email);
        assert(false);
    }
}

/// An event's date lies inside the configured window.
pub open spec fn event_passes_filter(d: Date, c: RepositoryConfig) -> bool {
    &&& (c.since_date is Some ==> !date_lt(d, c.since_date->Some_0))
    &&& (c.until_date is Some ==> !date_lt(c.until_date->Some_0, d))
}

/// The event cap, when set, has been reached.
pub open spec fn cap_reached(m: AggModel, c: RepositoryConfig) -> bool {
    c.max_commits is Some && m.processed >= c.max_commits->Some_0
}

/// One summary after absorbing one more event on day `d`.
pub open spec fn summary_bump(s: SummaryModel, d: Date) -> SummaryModel {
    SummaryModel {
        email: s.email,
        commits: (s.commits + 1) as u32,
        first: if date_lt(d, s.first) {
            d
        } else {
            s.first
        },
        last: if date_lt(s.last, d) {
            d
        } else {
            s.last
        },
    }
}

/// One admitted event folded into the state: the author's summary and
/// timeline both absorb it, at the same position.
pub open spec fn agg_absorb(m: AggModel, email: Seq<char>, d: Date) -> AggModel {
    let i = summary_find(m.summaries, email);
    if i >= 0 {
        AggModel {
            summaries: m.summaries.update(i, summary_bump(m.summaries[i], d)),
            timelines: m.timelines.update(
                i,
                (m.timelines[i].0, timeline_add(m.timelines[i].1, d, 1)),
            ),
            processed: (m.processed + 1) as u32,
        }
    } else {
        AggModel {
            summaries: m.summaries.push(SummaryModel { email, commits: 1, first: d, last: d }),
            timelines: m.timelines.push((email, timeline_add(empty_timeline(), d, 1))),
            processed: (m.processed + 1) as u32,
        }
    }
}

/// One raw event examined: dropped without effect once the cap is reached,
/// when a field is unresolved, or when it falls outside the date window;
/// absorbed otherwise.
pub open spec fn agg_step(m: AggModel, e: EventModel, c: RepositoryConfig) -> AggModel {
    if cap_reached(m, c) {
        m
    } else if e.email is None || e.date is None {
        m
    } else if !event_passes_filter(e.date->Some_0, c) {
        m
    } else {
        agg_absorb(m, e.email->Some_0, e.date->Some_0)
    }
}

/// The whole stream folded left to right.
pub open spec fn agg_fold(events: Seq<EventModel>, c: RepositoryConfig) -> AggModel
    decreases events.len(),
{
    if events.len() == 0 {
        empty_agg()
    } else {
        agg_step(agg_fold(events.drop_last(), c), events.last(), c)
    }
}

/// What holds of every reachable aggregation state: summaries and timelines
/// align author by author, identities are unique, every summary counts at
/// least one event inside its range, every timeline is well formed, and the
/// two records of one author agree on the event count.
pub open spec fn agg_inv(m: AggModel) -> bool {
    &&& m.summaries.len() == m.timelines.len()
    &&& forall|i: int|
        0 <= i < m.summaries.len() ==> (#[trigger] m.summaries[i]).email == m.timelines[i].0
    &&& forall|i: int, j: int|
        0 <= i < j < m.summaries.len() ==> (#[trigger] m.summaries[i]).email != (
        #[trigger] m.summaries[j]).email
    &&& forall|i: int|
        0 <= i < m.summaries.len() ==> (#[trigger] m.summaries[i]).commits >= 1 && date_le(
            m.summaries[i].first,
            m.summaries[i].last,
        )
    &&& forall|i: int| 0 <= i < m.timelines.len() ==> timeline_wf((#[trigger] m.timelines[i]).1)
    &&& forall|i: int|
        0 <= i < m.summaries.len() ==> (#[trigger] m.summaries[i]).commits
            == m.timelines[i].1.total
    &&& forall|i: int|
        0 <= i < m.summaries.len() ==> (#[trigger] m.summaries[i]).commits <= m.processed
}

pub proof fn lemma_step_inv(m: AggModel, e: EventModel, c: RepositoryConfig)
    requires
        agg_inv(m),
        m.processed < u32::MAX,
    ensures
        agg_inv(agg_step(m, e, c)),
        m.processed <= agg_step(m, e, c).processed <= m.processed + 1,
{
    let m2 = agg_step(m, e, c);
    if m2 != m {
        let email = e.email->Some_0;
        let d = e.date->Some_0;
        let i = summary_find(m.summaries, email);
        lemma_summary_find(m.summaries, email);
        if i >= 0 {
            lemma_timeline_add_wf(m.timelines[i].1, d, 1);
        } else {
            lemma_timeline_add_wf(empty_timeline(), d, 1);
        }
        assert(agg_inv(m2));
    }
}

pub proof fn lemma_agg_fold_inv(events: Seq<EventModel>, c: RepositoryConfig)
    requires
        events.len() <= u32::MAX,
    ensures
        agg_inv(agg_fold(events, c)),
        agg_fold(events, c).processed <= events.len(),
    decreases events.len(),
{
    if events.len() > 0 {
        lemma_agg_fold_inv(events.drop_last(), c);
        lemma_step_inv(agg_fold(events.drop_last(), c), events.last(), c);
    }
}

/// Position of the summary carrying `email`, scanning in stored order.
#[verifier::loop_isolation(false)]
fn find_summary_index(summaries: &Vec<CommitData>, email: &str) -> (r: Option<usize>)
    ensures
        match r {
            Some(j) => j < summaries@.len() && summary_find(
                summaries@.map_values(|c: CommitData| c@),
                email@,
            ) == j as int,
            None => summary_find(summaries@.map_values(|c: CommitData| c@), email@) == -1,
        },
{
    let ghost sv = summaries@.map_values(|c: CommitData| c@);
    let n = summaries.len();
    let mut j: usize = 0;
    while j < n
        invariant
            0 <= j <= n,
            forall|k: int| 0 <= k < j ==> (#[trigger] sv[k]).email != email@,
        decreases n - j,
    {
        if crate::strutil::str_eq(summaries[j].email.as_str(), email) {
            proof {
                assert(sv[j as int].email == email@);
                lemma_summary_find_pin(sv, email@, j as int);
            }
            return Some(j);
        }
        proof {
            assert(sv[j as int].email == summaries@[j as int].email@);
        }
        j = j + 1;
    }
    proof {
        lemma_summary_find_none(sv, email@);
    }
    None
}

/// One forward pass over the raw event stream under the configured filters:
/// events that lack an identity or date, or fall outside the window, are
/// skipped without counting toward the cap; once the cap is reached nothing
/// more is counted. Produces the summaries, the per-author timelines, and
/// how many events were counted.
#[verifier::loop_isolation(false)]
pub fn collect_commit_info(events: &Vec<CommitEvent>, config: &RepositoryConfig) -> (r: (
    Vec<CommitData>,
    AuthorTimelineMap,
    u32,
))
    requires
        events@.len() <= u32::MAX,
    ensures
        r.0@.map_values(|c: CommitData| c@) == agg_fold(events_view(events@), *config).summaries,
        r.1@ == agg_fold(events_view(events@), *config).timelines,
        r.1.wf(),
        r.2 == agg_fold(events_view(events@), *config).processed,
{
    let ghost evs = events_view(events@);
    let mut summaries: Vec<CommitData> = Vec::new();
    let mut timelines: Vec<(String, TimelineData)> = Vec::new();
    let mut processed: u32 = 0;
    let n = events.len();
    let mut idx: usize = 0;
    while idx < n
        invariant
            0 <= idx <= n,
            summaries@.map_values(|c: CommitData| c@) == agg_fold(
                evs.subrange(0, idx as int),
                *config,
            ).summaries,
            timelines@.map_values(|p: (String, TimelineData)| (p.0@, p.1@)) == agg_fold(
                evs.subrange(0, idx as int),
                *config,
            ).timelines,
            processed == agg_fold(evs.subrange(0, idx as int), *config).processed,
        decreases n - idx,
    {
        let ghost pre = agg_fold(evs.subrange(0, idx as int), *config);
        proof {
            lemma_agg_fold_inv(evs.subrange(0, idx as int), *config);
            assert(evs.subrange(0, idx + 1).drop_last() =~= evs.subrange(0, idx as int));
            assert(evs.subrange(0, idx + 1).last() == evs[idx as int]);
            assert(evs[idx as int] == events@[idx as int]@);
        }
        let e = &events[idx];
        let ghost em_ = e@;
        let mut skip = false;
        if let Some(max) = config.max_commits {
            if processed >= max {
                skip = true;
            }
        }
        proof {
            assert(skip == cap_reached(pre, *config));
        }
        if !skip {
            match (&e.email, &e.date) {
                (Some(em), Some(dt)) => {
                    let d = *dt;
                    proof {
                        assert(em_.email == Some(em@));
                        assert(em_.date == Some(d));
                    }
                    let mut pass = true;
                    if let Some(since) = config.since_date {
                        if d.lt(since) {
                            pass = false;
                        }
                    }
                    if let Some(until) = config.until_date {
                        if until.lt(d) {
                            pass = false;
                        }
                    }
                    proof {
                        assert(pass == event_passes_filter(d, *config));
                    }
                    if pass {
                        match find_summary_index(&summaries, em.as_str()) {
                            Some(j) => {
                                proof {
                                    assert(pre.summaries[j as int]
                                        == summaries@.map_values(|c: CommitData| c@)[j as int]);
                                    assert(pre.summaries[j as int].commits <= pre.processed);
                                    assert(pre.timelines[j as int].1 == timelines@.map_values(
                                        |p: (String, TimelineData)| (p.0@, p.1@),
                                    )[j as int].1);
                                    assert(timeline_wf(timelines@[j as int].1@));
                                    assert(timelines@[j as int].1.total_commits
                                        == pre.summaries[j as int].commits);
                                }
                                let srow = &mut summaries[j];
                                srow.commits = srow.commits + 1;
                                if d.lt(srow.first_commit) {
                                    srow.first_commit = d;
                                }
                                if srow.last_commit.lt(d) {
                                    srow.last_commit = d;
                                }
                                let trow = &mut timelines[j];
                                trow.1.add_commit(d, 1);
                                processed = processed + 1;
                                proof {
                                    let post = agg_absorb(pre, em@, d);
                                    assert(summaries@.map_values(|c: CommitData| c@)
                                        =~= post.summaries);
                                    assert(timelines@.map_values(
                                        |p: (String, TimelineData)| (p.0@, p.1@),
                                    ) =~= post.timelines);
                                }
                            },
                            None => {
                                summaries.push(CommitData::new(em.clone(), 1, d, d));
                                let mut td = TimelineData::default();
                                td.add_commit(d, 1);
                                timelines.push((em.clone(), td));
                                processed = processed + 1;
                                proof {
                                    let post = agg_absorb(pre, em@, d);
                                    assert(summaries@.map_values(|c: CommitData| c@)
                                        =~= post.summaries);
                                    assert(timelines@.map_values(
                                        |p: (String, TimelineData)| (p.0@, p.1@),
                                    ) =~= post.timelines);
                                }
                            },
                        }
                    }
                },
                _ => {
                    proof {
                        assert(em_.email is None || em_.date is None);
                    }
                },
            }
        }
        proof {
            assert(agg_fold(evs.subrange(0, idx + 1), *config) == agg_step(pre, em_, *config));
        }
        idx = idx + 1;
    }
    proof {
        assert(evs.subrange(0, n as int) =~= evs);
        let m = agg_fold(evs, *config);
        lemma_agg_fold_inv(evs, *config);
        let tv = timelines@.map_values(|p: (String, TimelineData)| (p.0@, p.1@));
        assert forall|i: int, j: int|
            0 <= i < j < tv.len() implies (#[trigger] tv[i]).0 != (#[trigger] tv[j]).0 by {
            assert(m.summaries[i].email == tv[i].0);
            assert(m.summaries[j].email == tv[j].0);
        }
    }
    (summaries, AuthorTimelineMap { entries: timelines }, processed)
}

/// Every event that carries a date carries a real calendar day.
pub open spec fn events_dates_valid(events: Seq<EventModel>) -> bool {
    forall|i: int|
        0 <= i < events.len() && (#[trigger] events[i]).date is Some
            ==> events[i].date->Some_0.valid()
}

/// When every event date names a real day, so does every summary bound.
pub proof fn lemma_agg_fold_dates_valid(events: Seq<EventModel>, c: RepositoryConfig)
    requires
        events_dates_valid(events),
    ensures
        forall|i: int|
            0 <= i < agg_fold(events, c).summaries.len() ==> (#[trigger] agg_fold(
                events,
                c,
            ).summaries[i]).first.valid() && agg_fold(events, c).summaries[i].last.valid(),
    decreases events.len(),
{
    if events.len() > 0 {
        assert(events_dates_valid(events.drop_last())) by {
            assert(forall|i: int|
                0 <= i < events.drop_last().len() ==> #[trigger] events.drop_last()[i]
                    == events[i]);
        }
        lemma_agg_fold_dates_valid(events.drop_last(), c);
        let m = agg_fold(events.drop_last(), c);
        let m2 = agg_fold(events, c);
        let e = events.last();
        if m2 != m {
            lemma_summary_find(m.summaries, e.email->Some_0);
        }
    }
}

/// Every stored timeline is well formed.
pub open spec fn timelines_wf(ts: Seq<(Seq<char>, TimelineModel)>) -> bool {
    forall|i: int| 0 <= i < ts.len() ==> timeline_wf((#[trigger] ts[i]).1)
}

/// Folds every author's timeline onto the given reference year, producing
/// the one heat map the whole repository is displayed by.
#[verifier::loop_isolation(false)]
pub fn project_union(timelines: &AuthorTimelineMap, year: i32) -> (r: HeatMapData)
    requires
        timelines_wf(timelines@),
        sum_totals(timelines@) <= u32::MAX,
    ensures
        r@ == spec_project_union(timelines@, year),
        heatmap_wf(r@),
        spec_sum(r@.counts) == sum_totals(timelines@),
{
    let ghost ts = timelines@;
    let mut heatmap = HeatMapData::new();
    let alen = timelines.entries.len();
    let mut a: usize = 0;
    while a < alen
        invariant
            0 <= a <= alen,
            alen == ts.len(),
            heatmap@ == spec_project_union(ts.subrange(0, a as int), year),
            heatmap_wf(heatmap@),
            spec_sum(heatmap@.counts) == sum_totals(ts.subrange(0, a as int)),
        decreases alen - a,
    {
        let ghost base = spec_project_union(ts.subrange(0, a as int), year);
        let ghost counts = ts[a as int].1.counts;
        proof {
            assert(counts == timelines.entries@[a as int].1.commits_by_period@);
            assert(timeline_wf(ts[a as int].1));
            lemma_totals_split(ts, a as int);
            lemma_totals_from_unfold(ts, a as int);
            lemma_totals_from_nonneg(ts, a + 1);
            assert(counts.subrange(0, 0) =~= Seq::<(Date, u32)>::empty());
        }
        let klen = timelines.entries[a].1.commits_by_period.len();
        let mut k: usize = 0;
        while k < klen
            invariant
                0 <= k <= klen,
                klen == counts.len(),
                heatmap@ == spec_project_into(base, counts.subrange(0, k as int), year),
                heatmap_wf(heatmap@),
                spec_sum(heatmap@.counts) == sum_totals(ts.subrange(0, a as int)) + spec_sum(
                    counts.subrange(0, k as int),
                ),
            decreases klen - k,
        {
            let entry = timelines.entries[a].1.commits_by_period.entry_at(k);
            let historical = entry.0;
            let calendar_date = match Date::new(year, historical.month, historical.day) {
                Some(d) => d,
                None => historical,
            };
            proof {
                assert(calendar_date == spec_project_date(historical, year));
                lemma_sum_split(counts, k as int);
                lemma_sum_from_unfold(counts, k as int);
                lemma_sum_from_nonneg(counts, k + 1);
                if spec_get(heatmap@.counts, calendar_date) is Some {
                    lemma_spec_find(heatmap@.counts, calendar_date);
                    lemma_count_le_sum(heatmap@.counts, spec_find(heatmap@.counts, calendar_date));
                }
                crate::datemap::lemma_sum_add(heatmap@.counts, calendar_date, entry.1);
            }
            heatmap.add_commits(calendar_date, entry.1);
            proof {
                assert(counts.subrange(0, k + 1).drop_last() =~= counts.subrange(0, k as int));
                assert(counts.subrange(0, k + 1).last() == counts[k as int]);
            }
            k = k + 1;
        }
        proof {
            assert(counts.subrange(0, klen as int) =~= counts);
            assert(ts.subrange(0, a + 1).drop_last() =~= ts.subrange(0, a as int));
            assert(ts.subrange(0, a + 1).last() == ts[a as int]);
        }
        a = a + 1;
    }
    proof {
        assert(ts.subrange(0, alen as int) =~= ts);
    }
    heatmap
}

/// Projects the union of all authors' timelines onto the calendar of the
/// year the process runs in; which year that is depends on the clock, so
/// only what holds for every year is promised: the shape of the projection,
/// its well-formedness, and that the counts sum to all authors' totals.
pub fn prepare_heatmap_data_from_map(timelines: &AuthorTimelineMap) -> (r: HeatMapData)
    requires
        timelines_wf(timelines@),
        sum_totals(timelines@) <= u32::MAX,
    ensures
        exists|y: i32| r@ == spec_project_union(timelines@, y),
        heatmap_wf(r@),
        spec_sum(r@.counts) == sum_totals(timelines@),
{
    let year = current_year();
    let r = project_union(timelines, year);
    proof {
        assert(r@ == spec_project_union(timelines@, year));
    }
    r
}

/// Every produced summary spans a forward range and counts at least one
/// event, whatever the stream and the filter configuration.
pub proof fn lemma_summary_ranges(events: Seq<EventModel>, c: RepositoryConfig)
    requires
        events.len() <= u32::MAX,
    ensures
        forall|i: int|
            0 <= i < agg_fold(events, c).summaries.len() ==> date_le(
                (#[trigger] agg_fold(events, c).summaries[i]).first,
                agg_fold(events, c).summaries[i].last,
            ) && agg_fold(events, c).summaries[i].commits >= 1,
{
    lemma_agg_fold_inv(events, c);
}

/// Every produced timeline's total equals the sum of its per-day counts,
/// whatever the stream and the filter configuration.
pub proof fn lemma_timeline_totals(events: Seq<EventModel>, c: RepositoryConfig)
    requires
        events.len() <= u32::MAX,
    ensures
        forall|i: int|
            0 <= i < agg_fold(events, c).timelines.len() ==> (#[trigger] agg_fold(
                events,
                c,
            ).timelines[i]).1.total == spec_sum(agg_fold(events, c).timelines[i].1.counts),
{
    lemma_agg_fold_inv(events, c);
}

/// The timeline totals summed over all authors equal the number of events
/// counted: each counted event lands in exactly one author's timeline.
pub proof fn lemma_fold_total_sum(events: Seq<EventModel>, c: RepositoryConfig)
    requires
        events.len() <= u32::MAX,
    ensures
        sum_totals(agg_fold(events, c).timelines) == agg_fold(events, c).processed,
    decreases events.len(),
{
    if events.len() == 0 {
    } else {
        lemma_fold_total_sum(events.drop_last(), c);
        lemma_agg_fold_inv(events.drop_last(), c);
        let m = agg_fold(events.drop_last(), c);
        let m2 = agg_fold(events, c);
        let e = events.last();
        if m2 != m {
            let email = e.email->Some_0;
            let d = e.date->Some_0;
            let i = summary_find(m.summaries, email);
            lemma_summary_find(m.summaries, email);
            if i >= 0 {
                lemma_timeline_add_wf(m.timelines[i].1, d, 1);
                lemma_totals_update(m.timelines, i, (m.timelines[i].0, timeline_add(m.timelines[i].1, d, 1)));
            } else {
                assert(m2.timelines.drop_last() =~= m.timelines);
            }
        }
    }
}

/// Updating one author's entry changes the overall total by the entry's
/// change.
pub proof fn lemma_totals_update(
    ts: Seq<(Seq<char>, TimelineModel)>,
    i: int,
    v: (Seq<char>, TimelineModel),
)
    requires
        0 <= i < ts.len(),
    ensures
        sum_totals(ts.update(i, v)) == sum_totals(ts) - ts[i].1.total + v.1.total,
    decreases ts.len(),
{
    let t = ts.update(i, v);
    if i == ts.len() - 1 {
        assert(t.drop_last() =~= ts.drop_last());
    } else {
        assert(t.drop_last() =~= ts.drop_last().update(i, v));
        lemma_totals_update(ts.drop_last(), i, v);
    }
}

/// What one interactive session works from: the prepared summaries, the
/// repository-wide heat map, the path displayed in the header, and every
/// author's timeline.
#[derive(Debug)]
pub struct RepositoryData {
    pub commit_data: Vec<CommitData>,
    pub heatmap_data: HeatMapData,
    pub repo_path: String,
    pub author_timeline_data: AuthorTimelineMap,
}

impl RepositoryData {
    pub open spec fn wf(self) -> bool {
        &&& crate::sorting::all_dates_valid(self.commit_data@)
        &&& heatmap_wf(self.heatmap_data@)
        &&& self.author_timeline_data.wf()
        &&& timelines_wf(self.author_timeline_data@)
    }
}

/// Puts freshly aggregated summaries into presentation order: earliest first
/// event first, and among authors who started the same day, the one active
/// latest first.
pub fn prepare_commit_data(commits: Vec<CommitData>) -> (r: Vec<CommitData>)
    requires
        crate::sorting::all_dates_valid(commits@),
    ensures
        r@ == crate::sorting::sort_by_rule(crate::sorting::SortRule::ByFirstThenLastDesc, commits@),
        crate::sorting::all_dates_valid(r@),
{
    crate::sorting::sort_commit_data(commits, crate::sorting::SortRule::ByFirstThenLastDesc)
}

/// Aggregates a raw event stream and assembles everything one session needs:
/// summaries in presentation order, the per-author timelines exactly as the
/// fold produced them, and the global heat map projected from their union.
pub fn build_repository_data(
    events: &Vec<CommitEvent>,
    repo_path: String,
    config: &RepositoryConfig,
) -> (r: RepositoryData)
    requires
        events@.len() <= u32::MAX,
        events_dates_valid(events_view(events@)),
    ensures
        exists|cd: Seq<CommitData>|
            cd.map_values(|c: CommitData| c@) == agg_fold(events_view(events@), *config).summaries
                && r.commit_data@ == #[trigger] crate::sorting::sort_by_rule(
                crate::sorting::SortRule::ByFirstThenLastDesc,
                cd,
            ),
        r.author_timeline_data@ == agg_fold(events_view(events@), *config).timelines,
        exists|y: i32|
            r.heatmap_data@ == spec_project_union(
                agg_fold(events_view(events@), *config).timelines,
                y,
            ),
        r.repo_path == repo_path,
        r.wf(),
{
    let (commit_data_vec, author_timeline_data, _total) = collect_commit_info(events, config);
    proof {
        let evs = events_view(events@);
        lemma_agg_fold_inv(evs, *config);
        lemma_agg_fold_dates_valid(evs, *config);
        lemma_fold_total_sum(evs, *config);
        assert forall|i: int|
            0 <= i < commit_data_vec@.len() implies crate::sorting::summary_dates_valid(
            #[trigger] commit_data_vec@[i],
        ) by {
            assert(commit_data_vec@.map_values(|c: CommitData| c@)[i] == commit_data_vec@[i]@);
        }
    }
    let ghost cd = commit_data_vec@;
    let commit_data = prepare_commit_data(commit_data_vec);
    let heatmap_data = prepare_heatmap_data_from_map(&author_timeline_data);
    let r = RepositoryData { commit_data, heatmap_data, repo_path, author_timeline_data };
    proof {
        let evs = events_view(events@);
        assert(cd.map_values(|c: CommitData| c@) == agg_fold(evs, *config).summaries
            && r.commit_data@ == crate::sorting::sort_by_rule(
            crate::sorting::SortRule::ByFirstThenLastDesc,
            cd,
        ));
    }
    r
}

} // verus!
