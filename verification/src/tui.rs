//! The interactive view state: filtered and sorted projections of the
//! summaries, the memoized per-author heat maps, and the keystroke
//! transition function that drives one session.

use crate::clock::current_year;
use crate::heatmap::{empty_heatmap, heatmap_wf, spec_project, HeatMapData};
use crate::repository::RepositoryData;
use crate::sorting::{
    all_dates_valid, reverse_commit_data, sort_by_rule, sort_commit_data, SortColumn,
    SortDirection, SortRule,
};
use crate::strmap::{key_contains, key_get, lemma_key_find, AuthorHeatmapMap};
use crate::strutil::{
    contains_substr, lower_of, lowercase, pop_char, push_char, str_contains, str_eq,
};
use crate::user_commit_info::{timeline_wf, CommitData};
use vstd::prelude::*;

verus! {

/// One keystroke, already freed of terminal details.
#[derive(Debug, Clone, Copy, PartialEq, Eq, Structural)]
pub enum KeyInput {
    Up,
    Down,
    Enter,
    Backspace,
    Esc,
    Char(char),
    Other,
}

/// Everything one interactive session holds: the aggregated data and the
/// live interaction state over it.
#[derive(Debug)]
pub struct AppState {
    pub repository_data: RepositoryData,
    pub selected_row: usize,
    pub sort_column: SortColumn,
    pub sort_direction: SortDirection,
    pub filter_text: String,
    pub show_search: bool,
    pub error_message: Option<String>,
    pub selected_author: Option<String>,
    pub author_heatmap_data: AuthorHeatmapMap,
    pub reference_year: i32,
}

/// A summary passes the identity filter: the filter is empty, or folds into
/// the identity case-insensitively as a substring.
pub open spec fn summary_matches(c: CommitData, f: Seq<char>) -> bool {
    f.len() == 0 || contains_substr(lower_of(c.email@), lower_of(f))
}

/// The filter predicate as a function value, so that every statement about
/// filtering speaks of the same function.
pub open spec fn filter_pred(f: Seq<char>) -> spec_fn(CommitData) -> bool {
    |c: CommitData| summary_matches(c, f)
}

/// The rows the current filter leaves, in stored order.
pub open spec fn spec_filtered(s: AppState) -> Seq<CommitData> {
    s.repository_data.commit_data@.filter(filter_pred(s.filter_text@))
}

/// The rows as displayed: filtered, stably ordered ascending by the current
/// column, and reversed as a whole when the direction is descending — so a
/// descending view shows rows with equal keys in reversed stored order too.
pub open spec fn spec_sorted(s: AppState) -> Seq<CommitData> {
    let ascending = sort_by_rule(SortRule::ByColumn(s.sort_column), spec_filtered(s));
    if s.sort_direction is Descending {
        ascending.reverse()
    } else {
        ascending
    }
}

/// The row index Down stops at: the last row of the current view, or zero
/// when the view is empty.
pub open spec fn spec_max_row(s: AppState) -> int {
    if spec_sorted(s).len() == 0 {
        0
    } else {
        spec_sorted(s).len() - 1
    }
}

/// Both states agree on everything but the heat-map cache.
pub open spec fn same_except_cache(a: AppState, b: AppState) -> bool {
    &&& b.repository_data == a.repository_data
    &&& b.selected_row == a.selected_row
    &&& b.sort_column == a.sort_column
    &&& b.sort_direction == a.sort_direction
    &&& b.filter_text == a.filter_text
    &&& b.show_search == a.show_search
    &&& b.error_message == a.error_message
    &&& b.selected_author == a.selected_author
    &&& b.reference_year == a.reference_year
}

/// Both states agree on everything but the interaction fields a keystroke
/// may touch.
pub open spec fn keeps_fixed_fields(a: AppState, b: AppState) -> bool {
    &&& b.repository_data == a.repository_data
    &&& b.error_message == a.error_message
    &&& b.reference_year == a.reference_year
}

/// What the memoized per-author heat map for `email` must be when it was
/// absent and has just been created: the author's timeline projected onto
/// the state's reference year, or an empty map for an unknown author.
pub open spec fn created_heatmap(s: AppState, email: Seq<char>) -> crate::heatmap::HeatMapModel {
    match key_get(s.repository_data.author_timeline_data@, email) {
        Some(t) => spec_project(t.counts, s.reference_year),
        None => empty_heatmap(),
    }
}

impl AppState {
    pub open spec fn wf(self) -> bool {
        &&& self.repository_data.wf()
        &&& self.author_heatmap_data.wf()
    }

    /// A fresh session over the aggregated data: nothing selected, no
    /// filter, sorted by first event ascending, and an empty heat-map
    /// cache. The reference year is read from the clock once, here.
    pub fn new(repository_data: RepositoryData) -> (r: Self)
        ensures
            r.repository_data == repository_data,
            r.selected_row == 0,
            r.sort_column == SortColumn::FirstCommit,
            r.sort_direction == SortDirection::Ascending,
            r.filter_text@ == Seq::<char>::empty(),
            r.show_search == false,
            r.error_message is None,
            r.selected_author is None,
            r.author_heatmap_data@ == Seq::<(Seq<char>, crate::heatmap::HeatMapModel)>::empty(),
            repository_data.wf() ==> r.wf(),
    {
        AppState {
            repository_data,
            selected_row: 0,
            sort_column: SortColumn::FirstCommit,
            sort_direction: SortDirection::Ascending,
            filter_text: String::new(),
            show_search: false,
            error_message: None,
            selected_author: None,
            author_heatmap_data: AuthorHeatmapMap::new(),
            reference_year: current_year(),
        }
    }

    /// The rows the current filter leaves, in stored order.
    #[verifier::loop_isolation(false)]
    pub fn filtered_data(&self) -> (r: Vec<CommitData>)
        ensures
            r@ == spec_filtered(*self),
            all_dates_valid(self.repository_data.commit_data@) ==> all_dates_valid(r@),
    {
        let ghost pred = filter_pred(self.filter_text@);
        let data = &self.repository_data.commit_data;
        let mut out: Vec<CommitData> = Vec::new();
        let empty_filter = self.filter_text.as_str().unicode_len() == 0;
        let lower_filter = lowercase(self.filter_text.as_str());
        let n = data.len();
        let mut i: usize = 0;
        proof {
            reveal_with_fuel(Seq::filter, 2);
            assert(data@.subrange(0, 0) =~= Seq::<CommitData>::empty());
        }
        while i < n
            invariant
                0 <= i <= n,
                out@ == data@.subrange(0, i as int).filter(pred),
                forall|k: int|
                    0 <= k < out@.len() ==> data@.contains(#[trigger] out@[k]),
            decreases n - i,
        {
            proof {
                reveal_with_fuel(Seq::filter, 2);
            }
            let c = &data[i];
            let keep = if empty_filter {
                true
            } else {
                let lower_email = lowercase(c.email.as_str());
                str_contains(lower_email.as_str(), lower_filter.as_str())
            };
            proof {
                assert(keep == pred(data@[i as int]));
            }
            if keep {
                out.push(c.clone());
            }
            proof {
                let t = data@.subrange(0, i + 1);
                assert(t.drop_last() =~= data@.subrange(0, i as int));
                assert(t.last() == data@[i as int]);
            }
            i = i + 1;
        }
        proof {
            assert(data@.subrange(0, n as int) =~= data@);
        }
        out
    }

    /// The rows as displayed: filtered, stably ordered ascending by the
    /// current column, and reversed as a whole when the direction is
    /// descending.
    pub fn sorted_data(&self) -> (r: Vec<CommitData>)
        requires
            self.wf(),
        ensures
            r@ == spec_sorted(*self),
    {
        let filtered = self.filtered_data();
        let ascending = sort_commit_data(filtered, SortRule::ByColumn(self.sort_column));
        match self.sort_direction {
            SortDirection::Ascending => ascending,
            SortDirection::Descending => reverse_commit_data(ascending),
        }
    }

    /// The heat map the view shows right now: the selected author's cached
    /// map when an author is selected and cached, the global map otherwise.
    pub fn get_filtered_heatmap_data(&self) -> (r: HeatMapData)
        ensures
            (self.selected_author is Some && key_contains(
                self.author_heatmap_data@,
                self.selected_author->Some_0@,
            )) ==> Some(r@) == key_get(self.author_heatmap_data@, self.selected_author->Some_0@),
            (self.selected_author is None || !key_contains(
                self.author_heatmap_data@,
                self.selected_author->Some_0@,
            )) ==> r@ == self.repository_data.heatmap_data@,
    {
        if let Some(selected_email) = &self.selected_author {
            if let Some(author_heatmap) = self.author_heatmap_data.get(selected_email.as_str()) {
                return author_heatmap;
            }
        }
        self.repository_data.heatmap_data.clone()
    }

    /// The single memoization point: the first request for an author
    /// projects the author's timeline and caches the result; every later
    /// request returns the cached map and changes nothing.
    pub fn get_or_create_author_heatmap(&mut self, author_email: &str) -> (r: HeatMapData)
        requires
            old(self).wf(),
        ensures
            final(self).wf(),
            same_except_cache(*old(self), *final(self)),
            key_contains(old(self).author_heatmap_data@, author_email@) ==> final(self).author_heatmap_data == old(self).author_heatmap_data && Some(r@) == key_get(
                old(self).author_heatmap_data@,
                author_email@,
            ),
            !key_contains(old(self).author_heatmap_data@, author_email@) ==> final(self).author_heatmap_data@ == old(self).author_heatmap_data@.push(
                (author_email@, created_heatmap(*old(self), author_email@)),
            ) && r@ == created_heatmap(*old(self), author_email@),
    {
        match self.author_heatmap_data.get(author_email) {
            Some(cached) => cached,
            None => {
                match self.repository_data.author_timeline_data.get(author_email) {
                    Some(author_timeline) => {
                        proof {
                            let ts = self.repository_data.author_timeline_data@;
                            lemma_key_find(ts, author_email@);
                            assert(timeline_wf(ts[crate::strmap::key_find(ts, author_email@)].1));
                        }
                        let author_heatmap = HeatMapData::project(
                            &author_timeline,
                            self.reference_year,
                        );
                        let result = author_heatmap.clone();
                        self.author_heatmap_data.insert(
                            String::from_str(author_email),
                            author_heatmap,
                        );
                        result
                    },
                    None => {
                        let author_heatmap = HeatMapData::new();
                        let result = author_heatmap.clone();
                        self.author_heatmap_data.insert(
                            String::from_str(author_email),
                            author_heatmap,
                        );
                        result
                    },
                }
            },
        }
    }

    /// One keystroke applied to the state; the result says whether the
    /// session goes on. Every branch of the transition is spelled out in
    /// the contract: quitting, row navigation clamped to the current view,
    /// entering and leaving search, editing the filter, toggling the
    /// selected author (with its memoized heat map), choosing the sort
    /// column, and reversing the direction.
    pub fn handle_key_event(&mut self, key: KeyInput) -> (cont: bool)
        requires
            old(self).wf(),
        ensures
            final(self).wf(),
            keeps_fixed_fields(*old(self), *final(self)),
            cont == !(key == KeyInput::Esc || key == KeyInput::Char('q')),
            (key == KeyInput::Esc || key == KeyInput::Char('q')) ==> *final(self) == *old(self),
            key == KeyInput::Up ==> *final(self) == (AppState {
                selected_row: if old(self).selected_row > 0 {
                    (old(self).selected_row - 1) as usize
                } else {
                    0
                },
                ..*old(self)
            }),
            key == KeyInput::Down ==> *final(self) == (AppState {
                selected_row: if old(self).selected_row < spec_max_row(*old(self)) {
                    (old(self).selected_row + 1) as usize
                } else {
                    old(self).selected_row
                },
                ..*old(self)
            }),
            key == KeyInput::Enter && old(self).show_search ==> *final(self) == (AppState {
                show_search: false,
                ..*old(self)
            }),
            key == KeyInput::Enter && !old(self).show_search && old(self).selected_row
                >= spec_sorted(*old(self)).len() ==> *final(self) == *old(self),
            key == KeyInput::Enter && !old(self).show_search && old(self).selected_row
                < spec_sorted(*old(self)).len() ==> {
                let row = spec_sorted(*old(self))[old(self).selected_row as int];
                if old(self).selected_author is Some && old(self).selected_author->Some_0@
                    == row.email@ {
                    *final(self) == (AppState { selected_author: None, ..*old(self) })
                } else {
                    &&& final(self).selected_author == Some(row.email)
                    &&& same_except_cache(
                        (AppState { selected_author: Some(row.email), ..*old(self) }),
                        *final(self),
                    )
                    &&& (key_contains(old(self).author_heatmap_data@, row.email@) ==> final(self).author_heatmap_data == old(self).author_heatmap_data)
                    &&& (!key_contains(old(self).author_heatmap_data@, row.email@) ==> final(self).author_heatmap_data@ == old(self).author_heatmap_data@.push(
                        (row.email@, created_heatmap(*old(self), row.email@)),
                    ))
                }
            },
            key == KeyInput::Backspace && old(self).show_search ==> *final(self) == (AppState {
                filter_text: final(self).filter_text,
                ..*old(self)
            }) && final(self).filter_text@ == (if old(self).filter_text@.len() > 0 {
                old(self).filter_text@.drop_last()
            } else {
                old(self).filter_text@
            }),
            key == KeyInput::Backspace && !old(self).show_search ==> *final(self) == *old(self),
            key is Char && key->0 != 'q' ==> char_transition(*old(self), *final(self), key->0),
            key == KeyInput::Other ==> *final(self) == *old(self),
    {
        match key {
            KeyInput::Esc => {
                return false;
            },
            KeyInput::Up => {
                if self.selected_row > 0 {
                    self.selected_row = self.selected_row - 1;
                }
            },
            KeyInput::Down => {
                let sorted_len = self.sorted_data().len();
                let max_row = if sorted_len == 0 {
                    0
                } else {
                    sorted_len - 1
                };
                if self.selected_row < max_row {
                    self.selected_row = self.selected_row + 1;
                }
            },
            KeyInput::Enter => {
                if self.show_search {
                    self.show_search = false;
                } else {
                    let sorted = self.sorted_data();
                    if self.selected_row < sorted.len() {
                        let selected_email = &sorted[self.selected_row].email;
                        let same = match &self.selected_author {
                            Some(current_email) => str_eq(
                                current_email.as_str(),
                                selected_email.as_str(),
                            ),
                            None => false,
                        };
                        if same {
                            self.selected_author = None;
                        } else {
                            let author_email = selected_email.clone();
                            self.get_or_create_author_heatmap(author_email.as_str());
                            self.selected_author = Some(author_email);
                        }
                    }
                }
            },
            KeyInput::Backspace => {
                if self.show_search {
                    pop_char(&mut self.filter_text);
                }
            },
            KeyInput::Char(c) => {
                if c == 'q' {
                    return false;
                }
                if c == '/' {
                    self.show_search = true;
                    self.filter_text = String::new();
                } else if self.show_search {
                    push_char(&mut self.filter_text, c);
                } else {
                    if c == '1' {
                        self.sort_column = SortColumn::Email;
                        self.selected_row = 0;
                    } else if c == '2' {
                        self.sort_column = SortColumn::Commits;
                        self.selected_row = 0;
                    } else if c == '3' {
                        self.sort_column = SortColumn::FirstCommit;
                        self.selected_row = 0;
                    } else if c == '4' {
                        self.sort_column = SortColumn::LastCommit;
                        self.selected_row = 0;
                    } else if c == '5' {
                        self.sort_column = SortColumn::DaysBetween;
                        self.selected_row = 0;
                    } else if c == 'r' || c == 'R' {
                        self.sort_direction = match self.sort_direction {
                            SortDirection::Ascending => SortDirection::Descending,
                            SortDirection::Descending => SortDirection::Ascending,
                        };
                    }
                }
            },
            KeyInput::Other => {},
        }
        true
    }
}

/// What a printable key other than the quit key does to the state: clearing
/// into search mode on the search key, appending to the filter while
/// searching, picking a sort column or reversing the direction otherwise.
pub open spec fn char_transition(a: AppState, b: AppState, c: char) -> bool {
    if c == '/' {
        b == (AppState { show_search: true, filter_text: b.filter_text, ..a }) && b.filter_text@
            == Seq::<char>::empty()
    } else if a.show_search {
        b == (AppState { filter_text: b.filter_text, ..a }) && b.filter_text@
            == a.filter_text@.push(c)
    } else if c == '1' {
        b == (AppState { sort_column: SortColumn::Email, selected_row: 0, ..a })
    } else if c == '2' {
        b == (AppState { sort_column: SortColumn::Commits, selected_row: 0, ..a })
    } else if c == '3' {
        b == (AppState { sort_column: SortColumn::FirstCommit, selected_row: 0, ..a })
    } else if c == '4' {
        b == (AppState { sort_column: SortColumn::LastCommit, selected_row: 0, ..a })
    } else if c == '5' {
        b == (AppState { sort_column: SortColumn::DaysBetween, selected_row: 0, ..a })
    } else if c == 'r' || c == 'R' {
        b == (AppState {
            sort_direction: if a.sort_direction is Ascending {
                SortDirection::Descending
            } else {
                SortDirection::Ascending
            },
            ..a
        })
    } else {
        b == a
    }
}

} // verus!
