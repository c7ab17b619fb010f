//! The calendar-overlay heat map: every historical date is projected onto a
//! single reference year, counts accumulate per calendar day, and the
//! largest count drives intensity bucketing for display.

use crate::clock::current_year;
use crate::date::{date_le, date_lt, spec_days_in_month, Date};
use crate::datemap::{
    dates_unique, lemma_count_le_sum, lemma_get_add, lemma_max_push, lemma_max_update_grow,
    lemma_spec_find, lemma_sum_add, spec_add, spec_find, spec_get, spec_max_count, spec_sum,
    DateCountMap,
};
use crate::user_commit_info::{empty_timeline, far_future, far_past, timeline_wf, TimelineData};
use vstd::prelude::*;

verus! {

/// The heat map's fields at the specification level.
pub struct HeatMapModel {
    pub counts: Seq<(Date, u32)>,
    pub start: Date,
    pub end: Date,
    pub max: u32,
}

pub open spec fn empty_heatmap() -> HeatMapModel {
    HeatMapModel { counts: Seq::empty(), start: far_future(), end: far_past(), max: 0 }
}

/// The count recorded for a day, zero when the day has no entry.
pub open spec fn spec_count_at(s: Seq<(Date, u32)>, d: Date) -> u32 {
    match spec_get(s, d) {
        Some(x) => x,
        None => 0u32,
    }
}

/// A heat map is well formed when its keys are unique, `max` is the largest
/// recorded count, and the observed range encloses every key.
pub open spec fn heatmap_wf(h: HeatMapModel) -> bool {
    &&& dates_unique(h.counts)
    &&& h.max == spec_max_count(h.counts)
    &&& forall|i: int|
        0 <= i < h.counts.len() ==> date_le(h.start, (#[trigger] h.counts[i]).0) && date_le(
            h.counts[i].0,
            h.end,
        )
}

/// One day's worth of counts accumulated into the heat map.
pub open spec fn heat_add(h: HeatMapModel, d: Date, c: u32) -> HeatMapModel {
    let nc = (spec_count_at(h.counts, d) + c) as u32;
    HeatMapModel {
        counts: spec_add(h.counts, d, c),
        start: if date_lt(d, h.start) {
            d
        } else {
            h.start
        },
        end: if date_lt(h.end, d) {
            d
        } else {
            h.end
        },
        max: if nc >= h.max {
            nc
        } else {
            h.max
        },
    }
}

/// Where a historical date lands in the reference year: the same month and
/// day when that names a real day of that year, the original date otherwise.
pub open spec fn spec_project_date(d: Date, year: i32) -> Date {
    let cand = Date { year, month: d.month, day: d.day };
    if cand.valid() {
        cand
    } else {
        d
    }
}

/// A timeline's entries folded into a heat map keyed by reference-year days.
pub open spec fn spec_project(counts: Seq<(Date, u32)>, year: i32) -> HeatMapModel
    decreases counts.len(),
{
    if counts.len() == 0 {
        empty_heatmap()
    } else {
        heat_add(
            spec_project(counts.drop_last(), year),
            spec_project_date(counts.last().0, year),
            counts.last().1,
        )
    }
}

/// The intensity bucket for a day count `c` under a map-wide maximum `max`:
/// linear up to four for quiet maps, quartile-bucketed otherwise.
pub open spec fn spec_intensity(max: u32, c: u32) -> u8 {
    if c == 0 {
        0u8
    } else if max <= 4 {
        if c < 4 {
            c as u8
        } else {
            4u8
        }
    } else {
        let q = max / 4;
        if c <= q {
            1u8
        } else if c <= 2 * q {
            2u8
        } else if c <= 3 * q {
            3u8
        } else {
            4u8
        }
    }
}

/// Counts per calendar day of one reference year (with out-of-year fallback
/// days kept verbatim), the range seen, and the largest single-day count.
#[derive(Debug, PartialEq)]
pub struct HeatMapData {
    pub commits_by_date: DateCountMap,
    pub start_date: Date,
    pub end_date: Date,
    pub max_commits: u32,
}

impl View for HeatMapData {
    type V = HeatMapModel;

    open spec fn view(&self) -> HeatMapModel {
        HeatMapModel {
            counts: self.commits_by_date@,
            start: self.start_date,
            end: self.end_date,
            max: self.max_commits,
        }
    }
}

impl Clone for HeatMapData {
    fn clone(&self) -> (r: Self)
        ensures
            r@ == self@,
    {
        HeatMapData {
            commits_by_date: self.commits_by_date.clone(),
            start_date: self.start_date,
            end_date: self.end_date,
            max_commits: self.max_commits,
        }
    }
}

impl Default for HeatMapData {
    /// An empty heat map with the sentinel range bounds.
    fn default() -> (r: Self)
        ensures
            r@ == empty_heatmap(),
            heatmap_wf(r@),
    {
        HeatMapData {
            commits_by_date: DateCountMap::new(),
            start_date: Date { year: 2099, month: 1, day: 1 },
            end_date: Date { year: 1900, month: 1, day: 1 },
            max_commits: 0,
        }
    }
}

impl HeatMapData {
    pub fn new() -> (r: Self)
        ensures
            r@ == empty_heatmap(),
            heatmap_wf(r@),
    {
        Self::default()
    }

    /// Accumulates `count` events onto a calendar day, widening the observed
    /// range and raising `max` when the day's new count tops it.
    pub fn add_commits(&mut self, date: Date, count: u32)
        requires
            heatmap_wf(old(self)@),
            spec_count_at(old(self)@.counts, date) + count <= u32::MAX,
        ensures
            final(self)@ == heat_add(old(self)@, date, count),
            heatmap_wf(final(self)@),
    {
        proof {
            let s = self.commits_by_date@;
            lemma_spec_find(s, date);
            lemma_get_add(s, date, count, date);
            if spec_find(s, date) >= 0 {
                lemma_max_update_grow(
                    s,
                    spec_find(s, date),
                    (date, (s[spec_find(s, date)].1 + count) as u32),
                );
            } else {
                lemma_max_push(s, (date, count));
            }
        }
        self.commits_by_date.add(date, count);
        let nc = match self.commits_by_date.get(date) {
            Some(x) => x,
            None => 0,
        };
        if nc > self.max_commits {
            self.max_commits = nc;
        }
        if date.lt(self.start_date) {
            self.start_date = date;
        }
        if self.end_date.lt(date) {
            self.end_date = date;
        }
        proof {
            let old_s = old(self).commits_by_date@;
            let new_s = self.commits_by_date@;
            let f = spec_find(old_s, date);
            assert forall|i: int|
                0 <= i < new_s.len() implies date_le(self.start_date, (#[trigger] new_s[i]).0)
                && date_le(new_s[i].0, self.end_date) by {
                if f >= 0 {
                    assert(new_s[i].0 == old_s[i].0);
                } else {
                    if i < new_s.len() - 1 {
                        assert(new_s[i].0 == old_s[i].0);
                    } else {
                        assert(new_s[i].0 == date);
                    }
                }
            }
        }
    }

    /// The count recorded for a calendar day, zero for days never seen.
    pub fn get_commits(&self, date: Date) -> (r: u32)
        ensures
            r == spec_count_at(self@.counts, date),
    {
        match self.commits_by_date.get(date) {
            Some(x) => x,
            None => 0,
        }
    }

    /// The intensity bucket of a day count under this map's maximum.
    pub fn get_intensity_level(&self, commits: u32) -> (r: u8)
        ensures
            r == spec_intensity(self.max_commits, commits),
            r <= 4,
    {
        if commits == 0 {
            0
        } else if self.max_commits <= 4 {
            if commits < 4 {
                commits as u8
            } else {
                4
            }
        } else {
            let quartile = self.max_commits / 4;
            if commits <= quartile {
                1
            } else if commits <= quartile * 2 {
                2
            } else if commits <= quartile * 3 {
                3
            } else {
                4
            }
        }
    }

    /// Folds a timeline onto the given reference year, day by day.
    #[verifier::loop_isolation(false)]
    pub fn project(timeline: &TimelineData, year: i32) -> (r: Self)
        requires
            timeline_wf(timeline@),
        ensures
            r@ == spec_project(timeline@.counts, year),
            heatmap_wf(r@),
            spec_sum(r@.counts) == timeline@.total,
    {
        let mut heatmap = Self::new();
        let n = timeline.commits_by_period.len();
        let ghost counts = timeline@.counts;
        let mut i: usize = 0;
        while i < n
            invariant
                0 <= i <= n,
                heatmap@ == spec_project(counts.subrange(0, i as int), year),
                heatmap_wf(heatmap@),
                spec_sum(heatmap@.counts) == spec_sum(counts.subrange(0, i as int)),
            decreases n - i,
        {
            let entry = timeline.commits_by_period.entry_at(i);
            let historical = entry.0;
            let calendar_date = match Date::new(year, historical.month, historical.day) {
                Some(d) => d,
                None => historical,
            };
            proof {
                assert(calendar_date == spec_project_date(historical, year));
                lemma_sum_split(counts, i as int);
                lemma_sum_from_unfold(counts, i as int);
                lemma_sum_from_nonneg(counts, i + 1);
                if spec_get(heatmap@.counts, calendar_date) is Some {
                    lemma_spec_find(heatmap@.counts, calendar_date);
                    lemma_count_le_sum(heatmap@.counts, spec_find(heatmap@.counts, calendar_date));
                }
                lemma_sum_add(heatmap@.counts, calendar_date, entry.1);
            }
            heatmap.add_commits(calendar_date, entry.1);
            proof {
                assert(counts.subrange(0, i + 1).drop_last() =~= counts.subrange(0, i as int));
                assert(counts.subrange(0, i + 1).last() == counts[i as int]);
            }
            i = i + 1;
        }
        proof {
            assert(counts.subrange(0, n as int) =~= counts);
        }
        heatmap
    }

    /// Projects a timeline onto the calendar of the year the process runs
    /// in; which year that is depends on the clock, so only what holds for
    /// every year is promised: the shape of the projection, its well
    ///-formedness, and that no event count is lost.
    pub fn create_from_timeline_data(timeline: &TimelineData) -> (r: Self)
        requires
            timeline_wf(timeline@),
        ensures
            exists|y: i32| r@ == spec_project(timeline@.counts, y),
            heatmap_wf(r@),
            spec_sum(r@.counts) == timeline@.total,
    {
        let year = current_year();
        let r = Self::project(timeline, year);
        proof {
            assert(r@ == spec_project(timeline@.counts, year));
        }
        r
    }
}

/// The sum of the counts from position `i` on.
pub open spec fn spec_sum_from(s: Seq<(Date, u32)>, i: int) -> int
    decreases s.len() - i,
{
    if i < 0 || i >= s.len() {
        0
    } else {
        s[i].1 + spec_sum_from(s, i + 1)
    }
}

pub proof fn lemma_sum_from_nonneg(s: Seq<(Date, u32)>, i: int)
    ensures
        spec_sum_from(s, i) >= 0,
    decreases s.len() - i,
{
    if 0 <= i < s.len() {
        lemma_sum_from_nonneg(s, i + 1);
    }
}

/// The counts split around any position: prefix sum plus tail sum is the
/// whole sum.
pub proof fn lemma_sum_split(s: Seq<(Date, u32)>, i: int)
    requires
        0 <= i <= s.len(),
    ensures
        spec_sum(s.subrange(0, i)) + spec_sum_from(s, i) == spec_sum(s),
    decreases s.len() - i,
{
    if i == s.len() {
        assert(s.subrange(0, i) =~= s);
    } else {
        lemma_sum_split(s, i + 1);
        lemma_sum_from_unfold(s, i);
    }
}

pub proof fn lemma_sum_from_unfold(s: Seq<(Date, u32)>, i: int)
    requires
        0 <= i < s.len(),
    ensures
        spec_sum(s.subrange(0, i + 1)) == spec_sum(s.subrange(0, i)) + s[i].1,
        spec_sum_from(s, i) == s[i].1 + spec_sum_from(s, i + 1),
{
    assert(s.subrange(0, i + 1).drop_last() =~= s.subrange(0, i));
}

/// A timeline's entries folded onto an existing heat map.
pub open spec fn spec_project_into(
    h: HeatMapModel,
    counts: Seq<(Date, u32)>,
    year: i32,
) -> HeatMapModel
    decreases counts.len(),
{
    if counts.len() == 0 {
        h
    } else {
        heat_add(
            spec_project_into(h, counts.drop_last(), year),
            spec_project_date(counts.last().0, year),
            counts.last().1,
        )
    }
}

/// All authors' timelines folded into one heat map, author by author.
pub open spec fn spec_project_union(
    ts: Seq<(Seq<char>, crate::user_commit_info::TimelineModel)>,
    year: i32,
) -> HeatMapModel
    decreases ts.len(),
{
    if ts.len() == 0 {
        empty_heatmap()
    } else {
        spec_project_into(spec_project_union(ts.drop_last(), year), ts.last().1.counts, year)
    }
}

/// The sum of all authors' timeline totals.
pub open spec fn sum_totals(ts: Seq<(Seq<char>, crate::user_commit_info::TimelineModel)>) -> int
    decreases ts.len(),
{
    if ts.len() == 0 {
        0
    } else {
        sum_totals(ts.drop_last()) + ts.last().1.total
    }
}

/// The totals summed from position `i` on.
pub open spec fn sum_totals_from(
    ts: Seq<(Seq<char>, crate::user_commit_info::TimelineModel)>,
    i: int,
) -> int
    decreases ts.len() - i,
{
    if i < 0 || i >= ts.len() {
        0
    } else {
        ts[i].1.total + sum_totals_from(ts, i + 1)
    }
}

pub proof fn lemma_totals_from_nonneg(
    ts: Seq<(Seq<char>, crate::user_commit_info::TimelineModel)>,
    i: int,
)
    ensures
        sum_totals_from(ts, i) >= 0,
    decreases ts.len() - i,
{
    if 0 <= i < ts.len() {
        lemma_totals_from_nonneg(ts, i + 1);
    }
}

pub proof fn lemma_totals_from_unfold(
    ts: Seq<(Seq<char>, crate::user_commit_info::TimelineModel)>,
    i: int,
)
    requires
        0 <= i < ts.len(),
    ensures
        sum_totals(ts.subrange(0, i + 1)) == sum_totals(ts.subrange(0, i)) + ts[i].1.total,
        sum_totals_from(ts, i) == ts[i].1.total + sum_totals_from(ts, i + 1),
{
    assert(ts.subrange(0, i + 1).drop_last() =~= ts.subrange(0, i));
}

/// The totals split around any position: prefix plus tail is the whole sum.
pub proof fn lemma_totals_split(
    ts: Seq<(Seq<char>, crate::user_commit_info::TimelineModel)>,
    i: int,
)
    requires
        0 <= i <= ts.len(),
    ensures
        sum_totals(ts.subrange(0, i)) + sum_totals_from(ts, i) == sum_totals(ts),
    decreases ts.len() - i,
{
    if i == ts.len() {
        assert(ts.subrange(0, i) =~= ts);
    } else {
        lemma_totals_split(ts, i + 1);
        lemma_totals_from_unfold(ts, i);
    }
}

/// Intensity is non-decreasing in the day count, for any fixed heat map.
pub proof fn lemma_intensity_monotonic(h: HeatMapModel, c1: u32, c2: u32)
    requires
        c1 <= c2,
    ensures
        spec_intensity(h.max, c1) <= spec_intensity(h.max, c2),
{
}

/// Accumulating a day into a well-formed heat map keeps it well formed and
/// raises the sum of counts by exactly the added count.
pub proof fn lemma_heat_add_wf(h: HeatMapModel, d: Date, c: u32)
    requires
        heatmap_wf(h),
        spec_count_at(h.counts, d) + c <= u32::MAX,
    ensures
        heatmap_wf(heat_add(h, d, c)),
        spec_sum(heat_add(h, d, c).counts) == spec_sum(h.counts) + c,
{
    let s = h.counts;
    lemma_spec_find(s, d);
    crate::datemap::lemma_get_add(s, d, c, d);
    crate::datemap::lemma_unique_add(s, d, c);
    crate::datemap::lemma_sum_add(s, d, c);
    let f = spec_find(s, d);
    if f >= 0 {
        lemma_max_update_grow(s, f, (d, (s[f].1 + c) as u32));
    } else {
        lemma_max_push(s, (d, c));
    }
    let h2 = heat_add(h, d, c);
    assert forall|i: int|
        0 <= i < h2.counts.len() implies date_le(h2.start, (#[trigger] h2.counts[i]).0) && date_le(
        h2.counts[i].0,
        h2.end,
    ) by {
        if f >= 0 {
            assert(h2.counts[i].0 == s[i].0);
        } else {
            if i < h2.counts.len() - 1 {
                assert(h2.counts[i].0 == s[i].0);
            } else {
                assert(h2.counts[i].0 == d);
            }
        }
    }
}

/// Projection keeps every heat map well formed and never loses an event:
/// the counts sum to exactly the source's.
pub proof fn lemma_project_wf(counts: Seq<(Date, u32)>, year: i32)
    requires
        spec_sum(counts) <= u32::MAX,
    ensures
        heatmap_wf(spec_project(counts, year)),
        spec_sum(spec_project(counts, year).counts) == spec_sum(counts),
    decreases counts.len(),
{
    if counts.len() > 0 {
        let prefix = counts.drop_last();
        crate::datemap::lemma_sum_nonneg(prefix);
        assert(spec_sum(counts) == spec_sum(prefix) + counts.last().1);
        lemma_project_wf(prefix, year);
        let h = spec_project(prefix, year);
        let pd = spec_project_date(counts.last().0, year);
        if spec_get(h.counts, pd) is Some {
            lemma_spec_find(h.counts, pd);
            lemma_count_le_sum(h.counts, spec_find(h.counts, pd));
        }
        lemma_heat_add_wf(h, pd, counts.last().1);
    }
}

/// The remapping a projection applies entry by entry, as a function value.
pub open spec fn remap_pair(year: i32) -> spec_fn((Date, u32)) -> (Date, u32) {
    |p: (Date, u32)| (Date { year, month: p.0.month, day: p.0.day }, p.1)
}

pub open spec fn remap_onto_year(counts: Seq<(Date, u32)>, year: i32) -> Seq<(Date, u32)> {
    counts.map_values(remap_pair(year))
}

/// For a timeline confined to one non-leap year, projection onto any
/// supported reference year is a plain relabeling of the keys: no two
/// source days collide, so every per-day count carries over verbatim.
pub proof fn lemma_project_single_year(counts: Seq<(Date, u32)>, y: i32, year: i32)
    requires
        dates_unique(counts),
        forall|i: int| 0 <= i < counts.len() ==> (#[trigger] counts[i]).0.valid(),
        forall|i: int| 0 <= i < counts.len() ==> (#[trigger] counts[i]).0.year == y,
        !crate::date::spec_is_leap_year(y as int),
        0 <= year <= 9999,
        spec_sum(counts) <= u32::MAX,
    ensures
        spec_project(counts, year).counts == remap_onto_year(counts, year),
        dates_unique(remap_onto_year(counts, year)),
    decreases counts.len(),
{
    let m = remap_onto_year(counts, year);
    assert forall|i: int, j: int|
        0 <= i < j < m.len() implies (#[trigger] m[i]).0 != (#[trigger] m[j]).0 by {
        assert(m[i] == remap_pair(year)(counts[i]));
        assert(m[j] == remap_pair(year)(counts[j]));
        assert(counts[i].0 != counts[j].0);
        assert(counts[i].0.year == counts[j].0.year);
    }
    if counts.len() == 0 {
        assert(spec_project(counts, year).counts =~= m);
    } else {
        let prefix = counts.drop_last();
        crate::datemap::lemma_sum_nonneg(prefix);
        assert forall|i: int| 0 <= i < prefix.len() implies (#[trigger] prefix[i]).0.valid()
            && prefix[i].0.year == y by {
            assert(prefix[i] == counts[i]);
        }
        lemma_project_single_year(prefix, y, year);
        let h = spec_project(prefix, year);
        let last = counts.last();
        let pd = spec_project_date(last.0, year);
        assert(pd == (Date { year, month: last.0.month, day: last.0.day })) by {
            assert(last.0.valid());
            assert(spec_days_in_month(y as int, last.0.month as int) <= spec_days_in_month(
                year as int,
                last.0.month as int,
            ));
        }
        assert forall|k: int|
            0 <= k < h.counts.len() implies (#[trigger] h.counts[k]).0 != pd by {
            assert(h.counts[k] == remap_pair(year)(prefix[k]));
            assert(prefix[k] == counts[k]);
            assert(counts[k].0 != last.0);
            assert(counts[k].0.year == last.0.year);
        }
        crate::datemap::lemma_find_none(h.counts, pd);
        assert(spec_project(counts, year).counts =~= m);
    }
}

/// Relabeling the keys changes neither the sum nor the maximum.
proof fn lemma_remap_sum_max(counts: Seq<(Date, u32)>, year: i32)
    ensures
        spec_sum(remap_onto_year(counts, year)) == spec_sum(counts),
        spec_max_count(remap_onto_year(counts, year)) == spec_max_count(counts),
    decreases counts.len(),
{
    let m = remap_onto_year(counts, year);
    if counts.len() == 0 {
        assert(m =~= Seq::<(Date, u32)>::empty());
    } else {
        lemma_remap_sum_max(counts.drop_last(), year);
        assert(m.drop_last() =~= remap_onto_year(counts.drop_last(), year));
        assert(m.last() == remap_pair(year)(counts.last()));
    }
}

/// The round trip: projecting a timeline whose events all fall in one
/// non-leap year onto any supported reference year reproduces every per-day
/// count exactly, with the same total and the same maximum.
pub proof fn lemma_project_round_trip(t: crate::user_commit_info::TimelineModel, y: i32, year: i32)
    requires
        timeline_wf(t),
        forall|i: int| 0 <= i < t.counts.len() ==> (#[trigger] t.counts[i]).0.valid(),
        forall|i: int| 0 <= i < t.counts.len() ==> (#[trigger] t.counts[i]).0.year == y,
        !crate::date::spec_is_leap_year(y as int),
        0 <= year <= 9999,
    ensures
        spec_sum(spec_project(t.counts, year).counts) == t.total,
        spec_project(t.counts, year).max == spec_max_count(t.counts),
        forall|i: int|
            0 <= i < t.counts.len() ==> spec_get(
                spec_project(t.counts, year).counts,
                (Date {
                    year,
                    month: (#[trigger] t.counts[i]).0.month,
                    day: t.counts[i].0.day,
                }),
            ) == Some(t.counts[i].1),
{
    let counts = t.counts;
    lemma_project_wf(counts, year);
    lemma_project_single_year(counts, y, year);
    lemma_remap_sum_max(counts, year);
    let h = spec_project(counts, year);
    let m = remap_onto_year(counts, year);
    assert forall|i: int|
        0 <= i < counts.len() implies spec_get(
        h.counts,
        (Date { year, month: (#[trigger] counts[i]).0.month, day: counts[i].0.day }),
    ) == Some(counts[i].1) by {
        let key = Date { year, month: counts[i].0.month, day: counts[i].0.day };
        assert(m[i] == remap_pair(year)(counts[i]));
        assert(m[i].0 == key);
        assert forall|k: int| 0 <= k < i implies (#[trigger] m[k]).0 != key by {
            assert(m[k] == remap_pair(year)(counts[k]));
            assert(counts[k].0 != counts[i].0);
            assert(counts[k].0.year == counts[i].0.year);
        }
        crate::datemap::lemma_find_pin(m, key, i);
    }
}

} // verus!
