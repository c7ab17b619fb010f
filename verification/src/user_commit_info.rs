//! Per-author aggregates: the summary record for one author and the daily
//! activity timeline the heat map is derived from.

use crate::date::{date_le, date_lt, spec_day_number, Date};
use crate::datemap::{
    dates_unique, lemma_count_le_sum, lemma_spec_find, lemma_sum_add, lemma_unique_add, spec_add,
    spec_find, spec_sum, DateCountMap,
};
use vstd::prelude::*;

verus! {

/// The timeline's fields at the specification level.
pub struct TimelineModel {
    pub counts: Seq<(Date, u32)>,
    pub total: u32,
    pub first: Date,
    pub last: Date,
}

/// The range sentinels: a far-future lower bound and a far-past upper bound,
/// so that the first insertion always narrows the range to that single day.
pub open spec fn far_future() -> Date {
    Date { year: 2099, month: 1, day: 1 }
}

pub open spec fn far_past() -> Date {
    Date { year: 1900, month: 1, day: 1 }
}

pub open spec fn empty_timeline() -> TimelineModel {
    TimelineModel { counts: Seq::empty(), total: 0, first: far_future(), last: far_past() }
}

/// A timeline is well formed when its keys are unique, its total matches the
/// sum of the per-day counts, and its range bounds enclose every key.
pub open spec fn timeline_wf(t: TimelineModel) -> bool {
    &&& dates_unique(t.counts)
    &&& t.total == spec_sum(t.counts)
    &&& forall|i: int|
        0 <= i < t.counts.len() ==> date_le(t.first, (#[trigger] t.counts[i]).0) && date_le(
            t.counts[i].0,
            t.last,
        )
}

/// One day's worth of events folded into a timeline.
pub open spec fn timeline_add(t: TimelineModel, d: Date, c: u32) -> TimelineModel {
    TimelineModel {
        counts: spec_add(t.counts, d, c),
        total: (t.total + c) as u32,
        first: if date_lt(d, t.first) {
            d
        } else {
            t.first
        },
        last: if date_lt(t.last, d) {
            d
        } else {
            t.last
        },
    }
}

/// Daily activity of one author: how many events fell on each day, their
/// total, and the date range they span.
#[derive(Debug, PartialEq)]
pub struct TimelineData {
    pub commits_by_period: DateCountMap,
    pub total_commits: u32,
    pub first_commit: Date,
    pub last_commit: Date,
}

impl View for TimelineData {
    type V = TimelineModel;

    open spec fn view(&self) -> TimelineModel {
        TimelineModel {
            counts: self.commits_by_period@,
            total: self.total_commits,
            first: self.first_commit,
            last: self.last_commit,
        }
    }
}

impl Clone for TimelineData {
    fn clone(&self) -> (r: Self)
        ensures
            r@ == self@,
    {
        TimelineData {
            commits_by_period: self.commits_by_period.clone(),
            total_commits: self.total_commits,
            first_commit: self.first_commit,
            last_commit: self.last_commit,
        }
    }
}

impl Default for TimelineData {
    /// An empty timeline with the sentinel range bounds.
    fn default() -> (r: Self)
        ensures
            r@ == empty_timeline(),
            timeline_wf(r@),
    {
        TimelineData {
            commits_by_period: DateCountMap::new(),
            total_commits: 0,
            first_commit: Date { year: 2099, month: 1, day: 1 },
            last_commit: Date { year: 1900, month: 1, day: 1 },
        }
    }
}

impl TimelineData {
    /// Folds `commits` events dated `date` into the timeline: the per-day
    /// count and the total grow by `commits`, and the range widens to
    /// include the day.
    pub fn add_commit(&mut self, date: Date, commits: u32)
        requires
            timeline_wf(old(self)@),
            old(self).total_commits + commits <= u32::MAX,
        ensures
            final(self)@ == timeline_add(old(self)@, date, commits),
            timeline_wf(final(self)@),
    {
        proof {
            let s = self.commits_by_period@;
            lemma_spec_find(s, date);
            if spec_find(s, date) >= 0 {
                lemma_count_le_sum(s, spec_find(s, date));
            }
            lemma_sum_add(s, date, commits);
        }
        self.commits_by_period.add(date, commits);
        self.total_commits = self.total_commits + commits;
        if date.lt(self.first_commit) {
            self.first_commit = date;
        }
        if self.last_commit.lt(date) {
            self.last_commit = date;
        }
        proof {
            let old_s = old(self).commits_by_period@;
            let new_s = self.commits_by_period@;
            let f = spec_find(old_s, date);
            assert forall|i: int|
                0 <= i < new_s.len() implies date_le(self.first_commit, (#[trigger] new_s[i]).0)
                && date_le(new_s[i].0, self.last_commit) by {
                if f >= 0 {
                    assert(new_s[i].0 == old_s[i].0);
                } else {
                    if i < new_s.len() - 1 {
                        assert(new_s[i].0 == old_s[i].0);
                    } else {
                        assert(new_s[i].0 == date);
                    }
                }
            }
        }
    }
}

/// Folding a day into a well-formed timeline keeps it well formed, raises
/// the total by exactly the added count, and never narrows the range.
pub proof fn lemma_timeline_add_wf(t: TimelineModel, d: Date, c: u32)
    requires
        timeline_wf(t),
        t.total + c <= u32::MAX,
    ensures
        timeline_wf(timeline_add(t, d, c)),
        timeline_add(t, d, c).total == t.total + c,
{
    let s = t.counts;
    lemma_spec_find(s, d);
    if spec_find(s, d) >= 0 {
        lemma_count_le_sum(s, spec_find(s, d));
    }
    lemma_sum_add(s, d, c);
    lemma_unique_add(s, d, c);
    let t2 = timeline_add(t, d, c);
    assert forall|i: int|
        0 <= i < t2.counts.len() implies date_le(t2.first, (#[trigger] t2.counts[i]).0) && date_le(
        t2.counts[i].0,
        t2.last,
    ) by {
        let f = spec_find(s, d);
        if f >= 0 {
            assert(t2.counts[i].0 == s[i].0);
        } else {
            if i < t2.counts.len() - 1 {
                assert(t2.counts[i].0 == s[i].0);
            } else {
                assert(t2.counts[i].0 == d);
            }
        }
    }
}

/// The summary's fields at the specification level.
pub struct SummaryModel {
    pub email: Seq<char>,
    pub commits: u32,
    pub first: Date,
    pub last: Date,
}

/// The summary record for one author identity.
#[derive(Debug, PartialEq)]
pub struct CommitData {
    pub email: String,
    pub commits: u32,
    pub first_commit: Date,
    pub last_commit: Date,
}

impl View for CommitData {
    type V = SummaryModel;

    open spec fn view(&self) -> SummaryModel {
        SummaryModel {
            email: self.email@,
            commits: self.commits,
            first: self.first_commit,
            last: self.last_commit,
        }
    }
}

impl Clone for CommitData {
    fn clone(&self) -> (r: Self)
        ensures
            r == *self,
    {
        CommitData {
            email: self.email.clone(),
            commits: self.commits,
            first_commit: self.first_commit,
            last_commit: self.last_commit,
        }
    }
}

impl CommitData {
    pub fn new(email: String, commits: u32, first_commit: Date, last_commit: Date) -> (r: Self)
        ensures
            r.email == email,
            r.commits == commits,
            r.first_commit == first_commit,
            r.last_commit == last_commit,
    {
        CommitData { email, commits, first_commit, last_commit }
    }

    /// The summary's span in whole days, negative when the recorded range is
    /// inverted; this is preserved as-is, not corrected.
    pub fn days_between(&self) -> (r: i64)
        requires
            self.first_commit.valid(),
            self.last_commit.valid(),
        ensures
            r == spec_day_number(self.last_commit) - spec_day_number(self.first_commit),
    {
        self.last_commit.day_number() - self.first_commit.day_number()
    }
}

} // verus!
