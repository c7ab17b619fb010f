//! A mapping from dates to event counts, kept as an association list with
//! unique keys, together with the sequence-level facts the rest of the crate
//! proves its aggregation against.

use crate::date::Date;
use vstd::prelude::*;

verus! {

/// Every date occurs at most once among the entries.
pub open spec fn dates_unique(s: Seq<(Date, u32)>) -> bool {
    forall|i: int, j: int| 0 <= i < j < s.len() ==> (#[trigger] s[i]).0 != (#[trigger] s[j]).0
}

/// The sum of all per-date counts.
pub open spec fn spec_sum(s: Seq<(Date, u32)>) -> int
    decreases s.len(),
{
    if s.len() == 0 {
        0
    } else {
        spec_sum(s.drop_last()) + s.last().1
    }
}

/// The largest per-date count, or zero when there are no entries.
pub open spec fn spec_max_count(s: Seq<(Date, u32)>) -> u32
    decreases s.len(),
{
    if s.len() == 0 {
        0u32
    } else if s.last().1 >= spec_max_count(s.drop_last()) {
        s.last().1
    } else {
        spec_max_count(s.drop_last())
    }
}

/// Index of the first entry for `d`, or -1 when there is none.
pub open spec fn spec_find(s: Seq<(Date, u32)>, d: Date) -> int
    decreases s.len(),
{
    if s.len() == 0 {
        -1
    } else if s[0].0 == d {
        0
    } else {
        let r = spec_find(s.drop_first(), d);
        if r == -1 {
            -1
        } else {
            r + 1
        }
    }
}

/// The count stored for `d`, if any.
pub open spec fn spec_get(s: Seq<(Date, u32)>, d: Date) -> Option<u32> {
    if spec_find(s, d) >= 0 {
        Some(s[spec_find(s, d)].1)
    } else {
        None
    }
}

/// The list after accumulating `c` onto the entry for `d`, inserting the
/// entry if the date is new. The addition truncates only when the stored
/// count would leave `u32`; callers rule that out.
pub open spec fn spec_add(s: Seq<(Date, u32)>, d: Date, c: u32) -> Seq<(Date, u32)> {
    let i = spec_find(s, d);
    if i >= 0 {
        s.update(i, (d, (s[i].1 + c) as u32))
    } else {
        s.push((d, c))
    }
}

pub proof fn lemma_spec_find(s: Seq<(Date, u32)>, d: Date)
    ensures
        spec_find(s, d) == -1 || 0 <= spec_find(s, d) < s.len(),
        spec_find(s, d) >= 0 ==> s[spec_find(s, d)].0 == d,
        forall|i: int|
            0 <= i < s.len() && (#[trigger] s[i]).0 == d ==> 0 <= spec_find(s, d) <= i,
    decreases s.len(),
{
    if s.len() > 0 && s[0].0 != d {
        lemma_spec_find(s.drop_first(), d);
        assert forall|i: int|
            0 <= i < s.len() && (#[trigger] s[i]).0 == d implies 0 <= spec_find(s, d) <= i by {
            assert(s.drop_first()[i - 1] == s[i]);
        }
    }
}

/// When `d` sits at position `i` and nowhere earlier, `spec_find` lands on `i`.
pub proof fn lemma_find_pin(s: Seq<(Date, u32)>, d: Date, i: int)
    requires
        0 <= i < s.len(),
        s[i].0 == d,
        forall|k: int| 0 <= k < i ==> (#[trigger] s[k]).0 != d,
    ensures
        spec_find(s, d) == i,
{
    lemma_spec_find(s, d);
    let f = spec_find(s, d);
    assert(0 <= f <= i);
    if f < i {
        assert(s[f].0 == d);
        assert(false);
    }
}

/// When no entry carries `d`, `spec_find` reports -1.
pub proof fn lemma_find_none(s: Seq<(Date, u32)>, d: Date)
    requires
        forall|k: int| 0 <= k < s.len() ==> (#[trigger] s[k]).0 != d,
    ensures
        spec_find(s, d) == -1,
{
    lemma_spec_find(s, d);
    let f = spec_find(s, d);
    if f >= 0 {
        assert(s[f].0 == d);
        assert(false);
    }
}

pub proof fn lemma_sum_nonneg(s: Seq<(Date, u32)>)
    ensures
        spec_sum(s) >= 0,
    decreases s.len(),
{
    if s.len() > 0 {
        lemma_sum_nonneg(s.drop_last());
    }
}

/// Every single count is bounded by the sum of all of them.
pub proof fn lemma_count_le_sum(s: Seq<(Date, u32)>, i: int)
    requires
        0 <= i < s.len(),
    ensures
        s[i].1 <= spec_sum(s),
    decreases s.len(),
{
    lemma_sum_nonneg(s.drop_last());
    if i < s.len() - 1 {
        lemma_count_le_sum(s.drop_last(), i);
    }
}

pub proof fn lemma_sum_update(s: Seq<(Date, u32)>, i: int, v: (Date, u32))
    requires
        0 <= i < s.len(),
    ensures
        spec_sum(s.update(i, v)) == spec_sum(s) - s[i].1 + v.1,
    decreases s.len(),
{
    let t = s.update(i, v);
    if i == s.len() - 1 {
        assert(t.drop_last() =~= s.drop_last());
    } else {
        assert(t.drop_last() =~= s.drop_last().update(i, v));
        lemma_sum_update(s.drop_last(), i, v);
    }
}

pub proof fn lemma_sum_push(s: Seq<(Date, u32)>, v: (Date, u32))
    ensures
        spec_sum(s.push(v)) == spec_sum(s) + v.1,
{
    assert(s.push(v).drop_last() =~= s);
}

/// Accumulating `c` onto the entry for `d` raises the sum by exactly `c`.
pub proof fn lemma_sum_add(s: Seq<(Date, u32)>, d: Date, c: u32)
    requires
        spec_find(s, d) >= 0 ==> s[spec_find(s, d)].1 + c <= u32::MAX,
    ensures
        spec_sum(spec_add(s, d, c)) == spec_sum(s) + c,
{
    let i = spec_find(s, d);
    lemma_spec_find(s, d);
    if i >= 0 {
        lemma_sum_update(s, i, (d, (s[i].1 + c) as u32));
    } else {
        lemma_sum_push(s, (d, c));
    }
}

pub proof fn lemma_max_update_grow(s: Seq<(Date, u32)>, i: int, v: (Date, u32))
    requires
        0 <= i < s.len(),
        v.1 >= s[i].1,
    ensures
        spec_max_count(s.update(i, v)) == if v.1 >= spec_max_count(s) {
            v.1
        } else {
            spec_max_count(s)
        },
    decreases s.len(),
{
    let t = s.update(i, v);
    if i == s.len() - 1 {
        assert(t.drop_last() =~= s.drop_last());
        lemma_count_le_max(s, i);
    } else {
        assert(t.drop_last() =~= s.drop_last().update(i, v));
        lemma_max_update_grow(s.drop_last(), i, v);
    }
}

pub proof fn lemma_max_push(s: Seq<(Date, u32)>, v: (Date, u32))
    ensures
        spec_max_count(s.push(v)) == if v.1 >= spec_max_count(s) {
            v.1
        } else {
            spec_max_count(s)
        },
{
    assert(s.push(v).drop_last() =~= s);
}

/// Every single count is bounded by the largest one.
pub proof fn lemma_count_le_max(s: Seq<(Date, u32)>, i: int)
    requires
        0 <= i < s.len(),
    ensures
        s[i].1 <= spec_max_count(s),
    decreases s.len(),
{
    if i < s.len() - 1 {
        lemma_count_le_max(s.drop_last(), i);
    }
}

/// What `spec_add` does to every lookup: the touched date accumulates, every
/// other date is untouched.
pub proof fn lemma_get_add(s: Seq<(Date, u32)>, d: Date, c: u32, q: Date)
    requires
        dates_unique(s),
        spec_find(s, d) >= 0 ==> s[spec_find(s, d)].1 + c <= u32::MAX,
    ensures
        q == d ==> spec_get(spec_add(s, d, c), q) == Some(
            (match spec_get(s, d) {
                Some(x) => x + c,
                None => c as int,
            }) as u32,
        ),
        q != d ==> spec_get(spec_add(s, d, c), q) == spec_get(s, q),
{
    let t = spec_add(s, d, c);
    let i = spec_find(s, d);
    lemma_spec_find(s, d);
    lemma_spec_find(t, q);
    lemma_spec_find(t, d);
    if i >= 0 {
        assert(t[i].0 == d);
        assert(forall|k: int| 0 <= k < t.len() && k != i ==> t[k] == s[k]);
    } else {
        assert(t[t.len() - 1].0 == d);
        assert(forall|k: int| 0 <= k < t.len() - 1 ==> t[k] == s[k]);
    }
    if q == d {
        if i >= 0 {
            assert(spec_find(t, d) == i);
        } else {
            assert(spec_find(t, d) == t.len() - 1);
        }
    } else {
        let j = spec_find(s, q);
        lemma_spec_find(s, q);
        if j >= 0 {
            assert(t[j] == s[j]);
            assert(spec_find(t, q) == j);
        } else {
            assert(spec_find(t, q) == -1);
        }
    }
}

pub proof fn lemma_unique_add(s: Seq<(Date, u32)>, d: Date, c: u32)
    requires
        dates_unique(s),
    ensures
        dates_unique(spec_add(s, d, c)),
{
    let i = spec_find(s, d);
    lemma_spec_find(s, d);
    if i >= 0 {
        assert(spec_add(s, d, c) =~= s.update(i, (d, (s[i].1 + c) as u32)));
    }
}

/// A date-to-count mapping with unique keys.
#[derive(Debug, PartialEq)]
pub struct DateCountMap {
    pub entries: Vec<(Date, u32)>,
}

impl View for DateCountMap {
    type V = Seq<(Date, u32)>;

    open spec fn view(&self) -> Seq<(Date, u32)> {
        self.entries@
    }
}

impl Clone for DateCountMap {
    #[verifier::loop_isolation(false)]
    fn clone(&self) -> (r: Self)
        ensures
            r@ == self@,
    {
        let mut entries: Vec<(Date, u32)> = Vec::new();
        let mut i: usize = 0;
        while i < self.entries.len()
            invariant
                0 <= i <= self.entries.len(),
                entries@ =~= self.entries@.subrange(0, i as int),
            decreases self.entries.len() - i,
        {
            entries.push(self.entries[i]);
            i = i + 1;
        }
        proof {
            assert(entries@ =~= self.entries@);
        }
        DateCountMap { entries }
    }
}

impl DateCountMap {
    pub open spec fn wf(self) -> bool {
        dates_unique(self@)
    }

    pub fn new() -> (r: Self)
        ensures
            r@ == Seq::<(Date, u32)>::empty(),
            r.wf(),
    {
        DateCountMap { entries: Vec::new() }
    }

    pub fn len(&self) -> (n: usize)
        ensures
            n == self@.len(),
    {
        self.entries.len()
    }

    pub fn is_empty(&self) -> (r: bool)
        ensures
            r == (self@.len() == 0),
    {
        self.entries.len() == 0
    }

    /// The entry at a position, for walking the mapping in entry order.
    pub fn entry_at(&self, i: usize) -> (r: (Date, u32))
        requires
            i < self@.len(),
        ensures
            r == self@[i as int],
    {
        self.entries[i]
    }

    #[verifier::loop_isolation(false)]
    pub fn get(&self, d: Date) -> (r: Option<u32>)
        ensures
            r == spec_get(self@, d),
    {
        proof {
            lemma_spec_find(self.entries@, d);
        }
        let mut i: usize = 0;
        while i < self.entries.len()
            invariant
                0 <= i <= self.entries@.len(),
                forall|k: int| 0 <= k < i ==> (#[trigger] self.entries@[k]).0 != d,
            decreases self.entries@.len() - i,
        {
            let e = self.entries[i];
            if e.0 == d {
                proof {
                    lemma_find_pin(self.entries@, d, i as int);
                }
                return Some(e.1);
            }
            i = i + 1;
        }
        proof {
            lemma_find_none(self.entries@, d);
        }
        None
    }

    /// Accumulates `c` onto the count stored for `d`.
    #[verifier::loop_isolation(false)]
    pub fn add(&mut self, d: Date, c: u32)
        requires
            old(self).wf(),
            spec_find(old(self)@, d) >= 0 ==> old(self)@[spec_find(old(self)@, d)].1 + c
                <= u32::MAX,
        ensures
            final(self)@ == spec_add(old(self)@, d, c),
            final(self).wf(),
    {
        proof {
            lemma_spec_find(self.entries@, d);
            lemma_unique_add(self.entries@, d, c);
        }
        let n = self.entries.len();
        let mut i: usize = 0;
        while i < n
            invariant
                0 <= i <= n,
                n == self.entries@.len(),
                self.entries@ == old(self).entries@,
                forall|k: int| 0 <= k < i ==> (#[trigger] self.entries@[k]).0 != d,
            decreases n - i,
        {
            let e = self.entries[i];
            if e.0 == d {
                proof {
                    lemma_find_pin(self.entries@, d, i as int);
                    assert(spec_find(old(self)@, d) == i);
                }
                self.entries[i] = (d, e.1 + c);
                proof {
                    assert(self@ == spec_add(old(self)@, d, c));
                    assert(dates_unique(self@));
                }
                return ;
            }
            i = i + 1;
        }
        proof {
            lemma_find_none(self.entries@, d);
        }
        self.entries.push((d, c));
    }
}

} // verus!
