//! Identity-keyed mappings: per-author timelines and the per-author heat-map
//! cache, kept as association lists with unique keys compared by characters.

use crate::heatmap::{HeatMapData, HeatMapModel};
use crate::strutil::str_eq;
use crate::user_commit_info::{TimelineData, TimelineModel};
use vstd::prelude::*;

verus! {

/// Every key occurs at most once among the entries.
pub open spec fn keys_unique<V>(s: Seq<(Seq<char>, V)>) -> bool {
    forall|i: int, j: int| 0 <= i < j < s.len() ==> (#[trigger] s[i]).0 != (#[trigger] s[j]).0
}

/// Index of the first entry for `k`, or -1 when there is none.
pub open spec fn key_find<V>(s: Seq<(Seq<char>, V)>, k: Seq<char>) -> int
    decreases s.len(),
{
    if s.len() == 0 {
        -1
    } else if s[0].0 == k {
        0
    } else {
        let r = key_find(s.drop_first(), k);
        if r == -1 {
            -1
        } else {
            r + 1
        }
    }
}

pub open spec fn key_contains<V>(s: Seq<(Seq<char>, V)>, k: Seq<char>) -> bool {
    key_find(s, k) >= 0
}

/// The value stored for `k`, if any.
pub open spec fn key_get<V>(s: Seq<(Seq<char>, V)>, k: Seq<char>) -> Option<V> {
    if key_find(s, k) >= 0 {
        Some(s[key_find(s, k)].1)
    } else {
        None
    }
}

pub proof fn lemma_key_find<V>(s: Seq<(Seq<char>, V)>, k: Seq<char>)
    ensures
        key_find(s, k) == -1 || 0 <= key_find(s, k) < s.len(),
        key_find(s, k) >= 0 ==> s[key_find(s, k)].0 == k,
        forall|i: int| 0 <= i < s.len() && (#[trigger] s[i]).0 == k ==> 0 <= key_find(s, k) <= i,
    decreases s.len(),
{
    if s.len() > 0 && s[0].0 != k {
        lemma_key_find(s.drop_first(), k);
        assert forall|i: int|
            0 <= i < s.len() && (#[trigger] s[i]).0 == k implies 0 <= key_find(s, k) <= i by {
            assert(s.drop_first()[i - 1] == s[i]);
        }
    }
}

/// When `k` sits at position `i` and nowhere earlier, `key_find` lands on `i`.
pub proof fn lemma_key_find_pin<V>(s: Seq<(Seq<char>, V)>, k: Seq<char>, i: int)
    requires
        0 <= i < s.len(),
        s[i].0 == k,
        forall|j: int| 0 <= j < i ==> (#[trigger] s[j]).0 != k,
    ensures
        key_find(s, k) == i,
{
    lemma_key_find(s, k);
    let f = key_find(s, k);
    assert(0 <= f <= i);
    if f < i {
        assert(s[f].0 == k);
        assert(false);
    }
}

/// When no entry carries `k`, `key_find` reports -1.
pub proof fn lemma_key_find_none<V>(s: Seq<(Seq<char>, V)>, k: Seq<char>)
    requires
        forall|j: int| 0 <= j < s.len() ==> (#[trigger] s[j]).0 != k,
    ensures
        key_find(s, k) == -1,
{
    lemma_key_find(s, k);
    let f = key_find(s, k);
    if f >= 0 {
        assert(s[f].0 == k);
        assert(false);
    }
}

/// Pushing a fresh key leaves every other lookup unchanged.
pub proof fn lemma_key_find_push<V>(s: Seq<(Seq<char>, V)>, k: Seq<char>, v: V, q: Seq<char>)
    requires
        key_find(s, k) == -1,
    ensures
        q == k ==> key_find(s.push((k, v)), q) == s.len(),
        q != k ==> key_find(s.push((k, v)), q) == key_find(s, q),
    decreases s.len(),
{
    let t = s.push((k, v));
    lemma_key_find(s, k);
    lemma_key_find(s, q);
    lemma_key_find(t, q);
    if q == k {
        assert forall|j: int| 0 <= j < t.len() - 1 implies (#[trigger] t[j]).0 != k by {
            assert(t[j] == s[j]);
            if s[j].0 == k {
                assert(key_find(s, k) >= 0);
            }
        }
        lemma_key_find_pin(t, k, s.len() as int);
    } else {
        let f = key_find(s, q);
        if f >= 0 {
            assert(t[f] == s[f]);
            assert forall|j: int| 0 <= j < f implies (#[trigger] t[j]).0 != q by {
                assert(t[j] == s[j]);
            }
            lemma_key_find_pin(t, q, f);
        } else {
            assert forall|j: int| 0 <= j < t.len() implies (#[trigger] t[j]).0 != q by {
                if j < t.len() - 1 {
                    assert(t[j] == s[j]);
                    if s[j].0 == q {
                        assert(key_find(s, q) >= 0);
                    }
                }
            }
            lemma_key_find_none(t, q);
        }
    }
}

/// Per-author daily timelines, keyed by author identity.
#[derive(Debug)]
pub struct AuthorTimelineMap {
    pub entries: Vec<(String, TimelineData)>,
}

impl View for AuthorTimelineMap {
    type V = Seq<(Seq<char>, TimelineModel)>;

    open spec fn view(&self) -> Seq<(Seq<char>, TimelineModel)> {
        self.entries@.map_values(|p: (String, TimelineData)| (p.0@, p.1@))
    }
}

impl AuthorTimelineMap {
    pub open spec fn wf(self) -> bool {
        keys_unique(self@)
    }

    pub fn new() -> (r: Self)
        ensures
            r@ =~= Seq::<(Seq<char>, TimelineModel)>::empty(),
            r.wf(),
    {
        AuthorTimelineMap { entries: Vec::new() }
    }

    pub fn len(&self) -> (n: usize)
        ensures
            n == self@.len(),
    {
        self.entries.len()
    }

    pub fn is_empty(&self) -> (r: bool)
        ensures
            r == (self@.len() == 0),
    {
        self.entries.len() == 0
    }

    #[verifier::loop_isolation(false)]
    pub fn contains_key(&self, key: &str) -> (r: bool)
        ensures
            r == key_contains(self@, key@),
    {
        let n = self.entries.len();
        let mut i: usize = 0;
        while i < n
            invariant
                0 <= i <= n,
                forall|j: int| 0 <= j < i ==> (#[trigger] self@[j]).0 != key@,
            decreases n - i,
        {
            if str_eq(self.entries[i].0.as_str(), key) {
                proof {
                    assert(self@[i as int].0 == key@);
                    lemma_key_find_pin(self@, key@, i as int);
                }
                return true;
            }
            proof {
                assert(self@[i as int].0 == self.entries@[i as int].0@);
            }
            i = i + 1;
        }
        proof {
            lemma_key_find_none(self@, key@);
        }
        false
    }

    /// A copy of the timeline stored for `key`, if any.
    #[verifier::loop_isolation(false)]
    pub fn get(&self, key: &str) -> (r: Option<TimelineData>)
        ensures
            r is Some <==> key_contains(self@, key@),
            r is Some ==> key_get(self@, key@) == Some(r->Some_0@),
    {
        let n = self.entries.len();
        let mut i: usize = 0;
        while i < n
            invariant
                0 <= i <= n,
                forall|j: int| 0 <= j < i ==> (#[trigger] self@[j]).0 != key@,
            decreases n - i,
        {
            if str_eq(self.entries[i].0.as_str(), key) {
                proof {
                    assert(self@[i as int].0 == key@);
                    lemma_key_find_pin(self@, key@, i as int);
                }
                return Some(self.entries[i].1.clone());
            }
            proof {
                assert(self@[i as int].0 == self.entries@[i as int].0@);
            }
            i = i + 1;
        }
        proof {
            lemma_key_find_none(self@, key@);
        }
        None
    }

    /// Adds a timeline under a key not present yet; entries are never
    /// overwritten.
    pub fn insert(&mut self, key: String, value: TimelineData)
        requires
            old(self).wf(),
            !key_contains(old(self)@, key@),
        ensures
            final(self)@ == old(self)@.push((key@, value@)),
            final(self).wf(),
            key_get(final(self)@, key@) == Some(value@),
    {
        proof {
            lemma_key_find(self@, key@);
        }
        self.entries.push((key, value));
        proof {
            let ghost k = old(self).entries@.len() as int;
            assert(self@ =~= old(self)@.push((self.entries@[k].0@, self.entries@[k].1@)));
            lemma_key_find_push(old(self)@, self.entries@[k].0@, self.entries@[k].1@, self.entries@[k].0@);
            assert forall|i: int, j: int|
                0 <= i < j < self@.len() implies (#[trigger] self@[i]).0 != (
            #[trigger] self@[j]).0 by {
                if j == self@.len() - 1 {
                    if self@[i].0 == self@[j].0 {
                        lemma_key_find(old(self)@, self@[j].0);
                    }
                }
            }
        }
    }
}

/// Cached per-author heat maps, keyed by author identity.
#[derive(Debug)]
pub struct AuthorHeatmapMap {
    pub entries: Vec<(String, HeatMapData)>,
}

impl View for AuthorHeatmapMap {
    type V = Seq<(Seq<char>, HeatMapModel)>;

    open spec fn view(&self) -> Seq<(Seq<char>, HeatMapModel)> {
        self.entries@.map_values(|p: (String, HeatMapData)| (p.0@, p.1@))
    }
}

impl AuthorHeatmapMap {
    pub open spec fn wf(self) -> bool {
        keys_unique(self@)
    }

    pub fn new() -> (r: Self)
        ensures
            r@ =~= Seq::<(Seq<char>, HeatMapModel)>::empty(),
            r.wf(),
    {
        AuthorHeatmapMap { entries: Vec::new() }
    }

    pub fn len(&self) -> (n: usize)
        ensures
            n == self@.len(),
    {
        self.entries.len()
    }

    pub fn is_empty(&self) -> (r: bool)
        ensures
            r == (self@.len() == 0),
    {
        self.entries.len() == 0
    }

    #[verifier::loop_isolation(false)]
    pub fn contains_key(&self, key: &str) -> (r: bool)
        ensures
            r == key_contains(self@, key@),
    {
        let n = self.entries.len();
        let mut i: usize = 0;
        while i < n
            invariant
                0 <= i <= n,
                forall|j: int| 0 <= j < i ==> (#[trigger] self@[j]).0 != key@,
            decreases n - i,
        {
            if str_eq(self.entries[i].0.as_str(), key) {
                proof {
                    assert(self@[i as int].0 == key@);
                    lemma_key_find_pin(self@, key@, i as int);
                }
                return true;
            }
            proof {
                assert(self@[i as int].0 == self.entries@[i as int].0@);
            }
            i = i + 1;
        }
        proof {
            lemma_key_find_none(self@, key@);
        }
        false
    }

    /// A copy of the heat map stored for `key`, if any.
    #[verifier::loop_isolation(false)]
    pub fn get(&self, key: &str) -> (r: Option<HeatMapData>)
        ensures
            r is Some <==> key_contains(self@, key@),
            r is Some ==> key_get(self@, key@) == Some(r->Some_0@),
    {
        let n = self.entries.len();
        let mut i: usize = 0;
        while i < n
            invariant
                0 <= i <= n,
                forall|j: int| 0 <= j < i ==> (#[trigger] self@[j]).0 != key@,
            decreases n - i,
        {
            if str_eq(self.entries[i].0.as_str(), key) {
                proof {
                    assert(self@[i as int].0 == key@);
                    lemma_key_find_pin(self@, key@, i as int);
                }
                return Some(self.entries[i].1.clone());
            }
            proof {
                assert(self@[i as int].0 == self.entries@[i as int].0@);
            }
            i = i + 1;
        }
        proof {
            lemma_key_find_none(self@, key@);
        }
        None
    }

    /// Adds a heat map under a key not present yet; cached entries are never
    /// overwritten.
    pub fn insert(&mut self, key: String, value: HeatMapData)
        requires
            old(self).wf(),
            !key_contains(old(self)@, key@),
        ensures
            final(self)@ == old(self)@.push((key@, value@)),
            final(self).wf(),
            key_get(final(self)@, key@) == Some(value@),
    {
        proof {
            lemma_key_find(self@, key@);
        }
        self.entries.push((key, value));
        proof {
            let ghost k = old(self).entries@.len() as int;
            assert(self@ =~= old(self)@.push((self.entries@[k].0@, self.entries@[k].1@)));
            lemma_key_find_push(old(self)@, self.entries@[k].0@, self.entries@[k].1@, self.entries@[k].0@);
            assert forall|i: int, j: int|
                0 <= i < j < self@.len() implies (#[trigger] self@[i]).0 != (
            #[trigger] self@[j]).0 by {
                if j == self@.len() - 1 {
                    if self@[i].0 == self@[j].0 {
                        lemma_key_find(old(self)@, self@[j].0);
                    }
                }
            }
        }
    }
}

} // verus!
