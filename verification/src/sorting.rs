//! Stable ordering of summary rows: the five view sort keys ascending, a
//! whole-list reversal for descending views, and the presentation order
//! used when data is first prepared.

use crate::date::{date_le, date_lt, spec_day_number, Date};
use crate::strutil::{lemma_lex_le_total, lemma_lex_le_trans, lex_le, str_le};
use crate::user_commit_info::CommitData;
use vstd::prelude::*;

verus! {

/// The column a view is ordered by.
#[derive(Debug, Clone, Copy, PartialEq, Eq, Structural)]
pub enum SortColumn {
    Email,
    Commits,
    FirstCommit,
    LastCommit,
    DaysBetween,
}

#[derive(Debug, Clone, Copy, PartialEq, Eq, Structural)]
pub enum SortDirection {
    Ascending,
    Descending,
}

/// A complete ordering rule: one view column ascending, or the presentation
/// order data is prepared in (earliest first event first, later last event
/// first among equals). A descending view is the reverse of the whole
/// ascending order, not a reversed comparator, so that rows with equal keys
/// come out in reversed stored order as well.
#[derive(Debug, Clone, Copy)]
pub enum SortRule {
    ByColumn(SortColumn),
    ByFirstThenLastDesc,
}

/// Both summaries' dates name real calendar days.
pub open spec fn summary_dates_valid(c: CommitData) -> bool {
    c.first_commit.valid() && c.last_commit.valid()
}

pub open spec fn all_dates_valid(s: Seq<CommitData>) -> bool {
    forall|i: int| 0 <= i < s.len() ==> summary_dates_valid(#[trigger] s[i])
}

/// `a` sorts at or before `b` under one column, ascending.
pub open spec fn column_le(col: SortColumn, a: CommitData, b: CommitData) -> bool {
    match col {
        SortColumn::Email => lex_le(a.email@, b.email@),
        SortColumn::Commits => a.commits <= b.commits,
        SortColumn::FirstCommit => date_le(a.first_commit, b.first_commit),
        SortColumn::LastCommit => date_le(a.last_commit, b.last_commit),
        SortColumn::DaysBetween => spec_day_number(a.last_commit) - spec_day_number(a.first_commit)
            <= spec_day_number(b.last_commit) - spec_day_number(b.first_commit),
    }
}

/// `a` sorts at or before `b` under the whole rule.
pub open spec fn rule_le(r: SortRule, a: CommitData, b: CommitData) -> bool {
    match r {
        SortRule::ByColumn(col) => column_le(col, a, b),
        SortRule::ByFirstThenLastDesc => date_lt(a.first_commit, b.first_commit) || (a.first_commit
            == b.first_commit && date_le(b.last_commit, a.last_commit)),
    }
}

/// Every rule orders any two rows one way or the other.
pub proof fn lemma_rule_le_total(r: SortRule, a: CommitData, b: CommitData)
    ensures
        rule_le(r, a, b) || rule_le(r, b, a),
{
    if let SortRule::ByColumn(col) = r {
        if col is Email {
            lemma_lex_le_total(a.email@, b.email@);
        }
    }
}

pub proof fn lemma_rule_le_trans(r: SortRule, a: CommitData, b: CommitData, c: CommitData)
    requires
        rule_le(r, a, b),
        rule_le(r, b, c),
    ensures
        rule_le(r, a, c),
{
    if let SortRule::ByColumn(col) = r {
        if col is Email {
            lemma_lex_le_trans(a.email@, b.email@, c.email@);
        }
    }
}

/// The executable comparator.
fn rule_le_exec(r: SortRule, a: &CommitData, b: &CommitData) -> (res: bool)
    requires
        summary_dates_valid(*a),
        summary_dates_valid(*b),
    ensures
        res == rule_le(r, *a, *b),
{
    match r {
        SortRule::ByColumn(col) => column_le_exec(col, a, b),
        SortRule::ByFirstThenLastDesc => {
            a.first_commit.lt(b.first_commit) || (a.first_commit == b.first_commit
                && b.last_commit.le(a.last_commit))
        },
    }
}

fn column_le_exec(col: SortColumn, a: &CommitData, b: &CommitData) -> (res: bool)
    requires
        summary_dates_valid(*a),
        summary_dates_valid(*b),
    ensures
        res == column_le(col, *a, *b),
{
    match col {
        SortColumn::Email => str_le(a.email.as_str(), b.email.as_str()),
        SortColumn::Commits => a.commits <= b.commits,
        SortColumn::FirstCommit => a.first_commit.le(b.first_commit),
        SortColumn::LastCommit => a.last_commit.le(b.last_commit),
        SortColumn::DaysBetween => a.days_between() <= b.days_between(),
    }
}

/// Where one row lands in an already-sorted run: after every row that sorts
/// at or before it, so rows that compare equal keep their relative order.
pub open spec fn insert_sorted(r: SortRule, s: Seq<CommitData>, x: CommitData) -> Seq<CommitData>
    decreases s.len(),
{
    if s.len() == 0 {
        seq![x]
    } else if rule_le(r, s[0], x) {
        seq![s[0]] + insert_sorted(r, s.drop_first(), x)
    } else {
        seq![x] + s
    }
}

/// The stable sort itself: rows are taken in stored order and each is
/// inserted after its equals.
pub open spec fn sort_by_rule(r: SortRule, s: Seq<CommitData>) -> Seq<CommitData>
    decreases s.len(),
{
    if s.len() == 0 {
        Seq::empty()
    } else {
        insert_sorted(r, sort_by_rule(r, s.drop_last()), s.last())
    }
}

pub open spec fn sorted_by_rule(r: SortRule, s: Seq<CommitData>) -> bool {
    forall|i: int, j: int| 0 <= i <= j < s.len() ==> rule_le(r, #[trigger] s[i], #[trigger] s[j])
}

/// Inserting keeps the run sorted, adds exactly the new row, and introduces
/// no row that was not already there.
pub proof fn lemma_insert_sorted_props(r: SortRule, s: Seq<CommitData>, x: CommitData)
    requires
        sorted_by_rule(r, s),
    ensures
        sorted_by_rule(r, insert_sorted(r, s, x)),
        insert_sorted(r, s, x).to_multiset() == s.to_multiset().insert(x),
        insert_sorted(r, s, x).len() == s.len() + 1,
        forall|k: int|
            0 <= k < insert_sorted(r, s, x).len() ==> #[trigger] insert_sorted(r, s, x)[k] == x
                || s.contains(insert_sorted(r, s, x)[k]),
    decreases s.len(),
{
    broadcast use vstd::seq_lib::group_to_multiset_ensures;
    broadcast use vstd::multiset::group_multiset_axioms;
    broadcast use vstd::multiset::group_multiset_properties;

    let t = insert_sorted(r, s, x);
    lemma_rule_le_total(r, x, x);
    if s.len() == 0 {
        assert(t =~= s.push(x));
        assert(s.push(x).to_multiset() =~= s.to_multiset().insert(x));
    } else if rule_le(r, s[0], x) {
        let df = s.drop_first();
        let rest = insert_sorted(r, df, x);
        assert forall|i: int, j: int|
            0 <= i <= j < df.len() implies rule_le(r, #[trigger] df[i], #[trigger] df[j]) by {
            assert(df[i] == s[i + 1]);
            assert(df[j] == s[j + 1]);
        }
        lemma_insert_sorted_props(r, df, x);
        assert forall|i: int, j: int|
            0 <= i <= j < t.len() implies rule_le(r, #[trigger] t[i], #[trigger] t[j]) by {
            if i == 0 && j > 0 {
                assert(t[j] == rest[j - 1]);
                if rest[j - 1] == x {
                    assert(rule_le(r, s[0], t[j]));
                } else {
                    assert(df.contains(rest[j - 1]));
                    let k = choose|k: int| 0 <= k < df.len() && df[k] == rest[j - 1];
                    assert(df[k] == s[k + 1]);
                    assert(rule_le(r, s[0], s[k + 1]));
                }
            } else if i > 0 {
                assert(t[i] == rest[i - 1]);
                assert(t[j] == rest[j - 1]);
            }
        }
        assert forall|k: int|
            0 <= k < t.len() implies #[trigger] t[k] == x || s.contains(t[k]) by {
            if k == 0 {
                assert(t[0] == s[0]);
                assert(s.contains(s[0]));
            } else {
                assert(t[k] == rest[k - 1]);
                if rest[k - 1] != x {
                    assert(df.contains(rest[k - 1]));
                    let m = choose|m: int| 0 <= m < df.len() && df[m] == rest[k - 1];
                    assert(s[m + 1] == df[m]);
                    assert(s.contains(s[m + 1]));
                }
            }
        }
        assert(t =~= rest.insert(0, s[0]));
        assert(rest.insert(0, s[0]).to_multiset() =~= rest.to_multiset().insert(s[0]));
        assert(s =~= df.insert(0, s[0]));
        assert(df.insert(0, s[0]).to_multiset() =~= df.to_multiset().insert(s[0]));
        assert(t.to_multiset() =~= s.to_multiset().insert(x));
    } else {
        lemma_rule_le_total(r, s[0], x);
        assert forall|i: int, j: int|
            0 <= i <= j < t.len() implies rule_le(r, #[trigger] t[i], #[trigger] t[j]) by {
            if i == 0 && j > 0 {
                assert(t[j] == s[j - 1]);
                assert(rule_le(r, s[0], s[j - 1]));
                lemma_rule_le_trans(r, x, s[0], s[j - 1]);
            } else if i > 0 {
                assert(t[i] == s[i - 1]);
                assert(t[j] == s[j - 1]);
            }
        }
        assert forall|k: int|
            0 <= k < t.len() implies #[trigger] t[k] == x || s.contains(t[k]) by {
            if k > 0 {
                assert(t[k] == s[k - 1]);
                assert(s.contains(s[k - 1]));
            }
        }
        assert(t =~= s.insert(0, x));
        assert(s.insert(0, x).to_multiset() =~= s.to_multiset().insert(x));
    }
}

/// The sort is a permutation and its output is ordered by the rule.
pub proof fn lemma_sort_by_rule_props(r: SortRule, s: Seq<CommitData>)
    ensures
        sorted_by_rule(r, sort_by_rule(r, s)),
        sort_by_rule(r, s).to_multiset() == s.to_multiset(),
        sort_by_rule(r, s).len() == s.len(),
    decreases s.len(),
{
    broadcast use vstd::seq_lib::group_to_multiset_ensures;

    if s.len() > 0 {
        lemma_sort_by_rule_props(r, s.drop_last());
        lemma_insert_sorted_props(r, sort_by_rule(r, s.drop_last()), s.last());
        assert(s =~= s.drop_last().push(s.last()));
        assert(s.drop_last().push(s.last()).to_multiset() =~= s.drop_last().to_multiset().insert(
            s.last(),
        ));
    }
}

/// When the first `j` rows sort at or before `x` and row `j` does not, the
/// insertion lands exactly at position `j`.
proof fn lemma_insert_sorted_at(r: SortRule, s: Seq<CommitData>, x: CommitData, j: int)
    requires
        0 <= j <= s.len(),
        forall|k: int| 0 <= k < j ==> rule_le(r, #[trigger] s[k], x),
        j < s.len() ==> !rule_le(r, s[j], x),
    ensures
        insert_sorted(r, s, x) == s.subrange(0, j) + seq![x] + s.subrange(j, s.len() as int),
    decreases j,
{
    if j == 0 {
        if s.len() == 0 {
            assert(insert_sorted(r, s, x) =~= s.subrange(0, 0) + seq![x] + s.subrange(0, 0));
        } else {
            assert(insert_sorted(r, s, x) =~= s.subrange(0, 0) + seq![x] + s.subrange(
                0,
                s.len() as int,
            ));
        }
    } else {
        let tail = s.drop_first();
        assert forall|k: int| 0 <= k < j - 1 implies rule_le(r, #[trigger] tail[k], x) by {
            assert(tail[k] == s[k + 1]);
        }
        if j - 1 < tail.len() {
            assert(tail[j - 1] == s[j]);
        }
        lemma_insert_sorted_at(r, tail, x, j - 1);
        assert(insert_sorted(r, s, x) =~= s.subrange(0, j) + seq![x] + s.subrange(
            j,
            s.len() as int,
        ));
    }
}

/// Sorts the rows by the rule, stably: rows that compare equal keep the
/// order they arrived in.
#[verifier::loop_isolation(false)]
pub fn sort_commit_data(data: Vec<CommitData>, r: SortRule) -> (res: Vec<CommitData>)
    requires
        all_dates_valid(data@),
    ensures
        res@ == sort_by_rule(r, data@),
        all_dates_valid(res@),
{
    let ghost dv = data@;
    let mut out: Vec<CommitData> = Vec::new();
    let n = data.len();
    let mut i: usize = 0;
    while i < n
        invariant
            0 <= i <= n,
            out@ == sort_by_rule(r, dv.subrange(0, i as int)),
            all_dates_valid(out@),
        decreases n - i,
    {
        let x = data[i].clone();
        proof {
            lemma_sort_by_rule_props(r, dv.subrange(0, i as int));
        }
        let m = out.len();
        let mut j: usize = 0;
        while j < m && rule_le_exec(r, &out[j], &x)
            invariant
                0 <= j <= m,
                forall|k: int| 0 <= k < j ==> rule_le(r, #[trigger] out@[k], x),
            decreases m - j,
        {
            j = j + 1;
        }
        proof {
            lemma_insert_sorted_at(r, out@, x, j as int);
        }
        out.insert(j, x);
        proof {
            assert(dv.subrange(0, i + 1).drop_last() =~= dv.subrange(0, i as int));
            assert(dv.subrange(0, i + 1).last() == dv[i as int]);
            assert(out@ =~= sort_by_rule(r, dv.subrange(0, i as int)).subrange(0, j as int)
                + seq![x] + sort_by_rule(r, dv.subrange(0, i as int)).subrange(
                j as int,
                sort_by_rule(r, dv.subrange(0, i as int)).len() as int,
            ));
        }
        i = i + 1;
    }
    proof {
        assert(dv.subrange(0, n as int) =~= dv);
    }
    out
}

/// The rows in reversed stored order.
#[verifier::loop_isolation(false)]
pub fn reverse_commit_data(data: Vec<CommitData>) -> (res: Vec<CommitData>)
    ensures
        res@ == data@.reverse(),
        all_dates_valid(data@) ==> all_dates_valid(res@),
{
    let ghost dv = data@;
    let n = data.len();
    let mut input = data;
    let mut out: Vec<CommitData> = Vec::new();
    while input.len() > 0
        invariant
            input@ == dv.subrange(0, input@.len() as int),
            out@.len() + input@.len() == dv.len(),
            forall|k: int| 0 <= k < out@.len() ==> #[trigger] out@[k] == dv[dv.len() - 1 - k],
        decreases input.len(),
    {
        let x = input.pop().unwrap();
        proof {
            let j = input@.len() as int;
            assert(x == dv.subrange(0, j + 1)[j]);
            assert(input@ =~= dv.subrange(0, j));
        }
        out.push(x);
    }
    proof {
        assert(out@ =~= dv.reverse());
    }
    out
}

} // verus!
