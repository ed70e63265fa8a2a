//! The state the planner keeps between breaks and between runs: issue counts
//! and last issue times per activity, the rollover marker and the number of
//! breaks since the window opened.
use vstd::prelude::*;

verus! {

/// The map that a list of entries stands for; a later entry for a key hides
/// an earlier one.
pub open spec fn map_of<V>(s: Seq<(String, V)>) -> Map<Seq<char>, V>
    decreases s.len(),
{
    if s.len() == 0 {
        Map::empty()
    } else {
        map_of(s.drop_last()).insert(s.last().0@, s.last().1)
    }
}

pub open spec fn keys_unique<V>(s: Seq<(String, V)>) -> bool {
    forall|i: int, j: int| 0 <= i < j < s.len() ==> s[i].0@ != s[j].0@
}

proof fn lemma_map_of<V>(s: Seq<(String, V)>)
    requires
        keys_unique(s),
    ensures
        forall|i: int|
            0 <= i < s.len() ==> map_of(s).contains_key(#[trigger] s[i].0@) && map_of(s)[s[i].0@]
                == s[i].1,
        forall|k: Seq<char>| #[trigger]
            map_of(s).contains_key(k) ==> exists|i: int| 0 <= i < s.len() && s[i].0@ == k,
    decreases s.len(),
{
    if s.len() > 0 {
        let p = s.drop_last();
        assert(keys_unique(p));
        lemma_map_of(p);
        assert(map_of(s) == map_of(p).insert(s.last().0@, s.last().1));
        assert(p.len() == s.len() - 1);
        assert forall|i: int| 0 <= i < s.len() implies map_of(s).contains_key(#[trigger] s[i].0@)
            && map_of(s)[s[i].0@] == s[i].1 by {
            if i < s.len() - 1 {
                assert(p[i] == s[i]);
                assert(s[i].0@ != s[s.len() - 1].0@);
            }
        }
        assert forall|k: Seq<char>| #[trigger]
            map_of(s).contains_key(k) implies exists|i: int| 0 <= i < s.len() && s[i].0@ == k by {
            if k != s.last().0@ {
                assert(map_of(p).contains_key(k));
                let i = choose|i: int| 0 <= i < p.len() && p[i].0@ == k;
                assert(s[i] == p[i]);
            } else {
                assert(s[s.len() - 1].0@ == k);
            }
        }
    }
}

proof fn lemma_map_of_update<V>(s: Seq<(String, V)>, i: int, e: (String, V))
    requires
        keys_unique(s),
        0 <= i < s.len(),
        e.0@ == s[i].0@,
    ensures
        keys_unique(s.update(i, e)),
        map_of(s.update(i, e)) == map_of(s).insert(e.0@, e.1),
{
    let t = s.update(i, e);
    assert(keys_unique(t)) by {
        assert forall|a: int, b: int| 0 <= a < b < t.len() implies t[a].0@ != t[b].0@ by {
            assert(t[a].0@ == s[a].0@);
            assert(t[b].0@ == s[b].0@);
        }
    }
    lemma_map_of(s);
    lemma_map_of(t);
    let m = map_of(s).insert(e.0@, e.1);
    assert forall|k: Seq<char>| #[trigger] map_of(t).contains_key(k) <==> m.contains_key(k) by {
        if map_of(t).contains_key(k) {
            let j = choose|j: int| 0 <= j < t.len() && t[j].0@ == k;
            assert(t[j].0@ == s[j].0@);
            assert(map_of(s).contains_key(s[j].0@));
        }
        if m.contains_key(k) && k != e.0@ {
            let j = choose|j: int| 0 <= j < s.len() && s[j].0@ == k;
            assert(t[j].0@ == s[j].0@);
            assert(map_of(t).contains_key(t[j].0@));
        }
        if k == e.0@ {
            assert(map_of(t).contains_key(t[i].0@));
        }
    }
    assert forall|k: Seq<char>| #[trigger] map_of(t).contains_key(k) implies map_of(t)[k] == m[k] by {
        let j = choose|j: int| 0 <= j < t.len() && t[j].0@ == k;
        if j == i {
            assert(map_of(t)[t[i].0@] == t[i].1);
        } else {
            assert(t[j] == s[j]);
            assert(map_of(s)[s[j].0@] == s[j].1);
            assert(map_of(t)[t[j].0@] == t[j].1);
        }
    }
    assert(map_of(t) =~= m);
}

proof fn lemma_map_of_push<V>(s: Seq<(String, V)>, e: (String, V))
    requires
        keys_unique(s),
        !map_of(s).contains_key(e.0@),
    ensures
        keys_unique(s.push(e)),
        map_of(s.push(e)) == map_of(s).insert(e.0@, e.1),
{
    lemma_map_of(s);
    let t = s.push(e);
    assert(t.drop_last() =~= s);
    assert forall|a: int, b: int| 0 <= a < b < t.len() implies t[a].0@ != t[b].0@ by {
        if b == s.len() {
            assert(t[a] == s[a]);
            assert(map_of(s).contains_key(s[a].0@));
        } else {
            assert(t[a] == s[a] && t[b] == s[b]);
        }
    }
}

/// A map from text keys to values, kept as a list with no key twice.
pub struct Table<V> {
    entries: Vec<(String, V)>,
}

impl<V: Copy> Table<V> {
    pub closed spec fn view(&self) -> Map<Seq<char>, V> {
        map_of(self.entries@)
    }

    pub closed spec fn wf(&self) -> bool {
        keys_unique(self.entries@)
    }

    pub fn new() -> (r: Self)
        ensures
            r.wf(),
            r.view() == Map::<Seq<char>, V>::empty(),
    {
        Table { entries: Vec::new() }
    }

    fn find(&self, key: &String) -> (r: Option<usize>)
        requires
            self.wf(),
        ensures
            match r {
                Some(i) => i < self.entries@.len() && self.entries@[i as int].0@ == key@,
                None => !self.view().contains_key(key@),
            },
    {
        proof {
            lemma_map_of(self.entries@);
        }
        let mut i: usize = 0;
        while i < self.entries.len()
            invariant
                i <= self.entries@.len(),
                forall|j: int| 0 <= j < i ==> self.entries@[j].0@ != key@,
            decreases self.entries@.len() - i,
        {
            if self.entries[i].0 == *key {
                return Some(i);
            }
            i = i + 1;
        }
        None
    }

    /// The value under `key`, if any.
    pub fn get(&self, key: &String) -> (r: Option<V>)
        requires
            self.wf(),
        ensures
            r == if self.view().contains_key(key@) {
                Some(self.view()[key@])
            } else {
                None::<V>
            },
    {
        proof {
            lemma_map_of(self.entries@);
        }
        match self.find(key) {
            Some(i) => Some(self.entries[i].1),
            None => None,
        }
    }

    /// Sets the value under `key`, adding the key if it is new.
    pub fn insert(&mut self, key: &String, value: V)
        requires
            old(self).wf(),
        ensures
            final(self).wf(),
            final(self).view() == old(self).view().insert(key@, value),
    {
        let e = (key.clone(), value);
        match self.find(key) {
            Some(i) => {
                proof {
                    lemma_map_of_update(self.entries@, i as int, e);
                }
                self.entries.set(i, e);
            },
            None => {
                proof {
                    lemma_map_of_push(self.entries@, e);
                }
                self.entries.push(e);
            },
        }
    }

    /// Removes every key.
    pub fn clear(&mut self)
        ensures
            final(self).wf(),
            final(self).view() == Map::<Seq<char>, V>::empty(),
    {
        self.entries = Vec::new();
    }

    /// The keys with their values, each key once.
    pub fn entries(&self) -> (r: &Vec<(String, V)>)
        requires
            self.wf(),
        ensures
            map_of(r@) == self.view(),
            keys_unique(r@),
    {
        &self.entries
    }
}


/// What a `Store` holds.
pub struct StoreView {
    /// when each activity was last marked complete
    pub last_at: Map<Seq<char>, i64>,
    /// how often each activity was completed since the window opened
    pub counts: Map<Seq<char>, usize>,
    /// when the rollover check last reset the counters
    pub last_check: i64,
    /// breaks seen since the window opened
    pub breaks: usize,
}

/// The count of `d` as `count_for` reads it: absent reads as 0.
pub open spec fn count_of(v: StoreView, d: Seq<char>) -> usize {
    if v.counts.contains_key(d) {
        v.counts[d]
    } else {
        0
    }
}

/// `v` with a count of 0 written for `d` where it had none.
pub open spec fn materialized(v: StoreView, d: Seq<char>) -> StoreView {
    if v.counts.contains_key(d) {
        v
    } else {
        StoreView { counts: v.counts.insert(d, 0), ..v }
    }
}

/// The planner's state between breaks. A new store is empty, with the
/// rollover marker at reading 0.
pub struct Store {
    reminder_last_at: Table<i64>,
    reminder_counts: Table<usize>,
    last_check: i64,
    breaks: usize,
}

impl Store {
    pub closed spec fn view(&self) -> StoreView {
        StoreView {
            last_at: self.reminder_last_at.view(),
            counts: self.reminder_counts.view(),
            last_check: self.last_check,
            breaks: self.breaks,
        }
    }

    pub closed spec fn wf(&self) -> bool {
        self.reminder_last_at.wf() && self.reminder_counts.wf()
    }

    pub fn new() -> (r: Self)
        ensures
            r.wf(),
            r.view() == (StoreView {
                last_at: Map::empty(),
                counts: Map::empty(),
                last_check: 0,
                breaks: 0,
            }),
    {
        Store {
            reminder_last_at: Table::new(),
            reminder_counts: Table::new(),
            last_check: 0,
            breaks: 0,
        }
    }

    /// The count of `description`, written as 0 first where there is none.
    pub fn count_for(&mut self, description: &String) -> (r: usize)
        requires
            old(self).wf(),
        ensures
            final(self).wf(),
            r == count_of(old(self).view(), description@),
            final(self).view() == materialized(old(self).view(), description@),
    {
        match self.reminder_counts.get(description) {
            Some(n) => n,
            None => {
                self.reminder_counts.insert(description, 0);
                0
            },
        }
    }

    pub fn get_count(&self, description: &String) -> (r: Option<usize>)
        requires
            self.wf(),
        ensures
            r == if self.view().counts.contains_key(description@) {
                Some(self.view().counts[description@])
            } else {
                None::<usize>
            },
    {
        self.reminder_counts.get(description)
    }

    pub fn insert_count(&mut self, description: &String, count: usize)
        requires
            old(self).wf(),
        ensures
            final(self).wf(),
            final(self).view() == (StoreView {
                counts: old(self).view().counts.insert(description@, count),
                ..old(self).view()
            }),
    {
        self.reminder_counts.insert(description, count);
    }

    pub fn clear_counts(&mut self)
        requires
            old(self).wf(),
        ensures
            final(self).wf(),
            final(self).view() == (StoreView { counts: Map::empty(), ..old(self).view() }),
    {
        self.reminder_counts.clear();
    }

    pub fn counts(&self) -> (r: &Vec<(String, usize)>)
        requires
            self.wf(),
        ensures
            map_of(r@) == self.view().counts,
    {
        self.reminder_counts.entries()
    }

    pub fn get_last_at(&self, description: &String) -> (r: Option<i64>)
        requires
            self.wf(),
        ensures
            r == if self.view().last_at.contains_key(description@) {
                Some(self.view().last_at[description@])
            } else {
                None::<i64>
            },
    {
        self.reminder_last_at.get(description)
    }

    pub fn insert_last_at(&mut self, description: &String, at: i64)
        requires
            old(self).wf(),
        ensures
            final(self).wf(),
            final(self).view() == (StoreView {
                last_at: old(self).view().last_at.insert(description@, at),
                ..old(self).view()
            }),
    {
        self.reminder_last_at.insert(description, at);
    }

    pub fn last_ats(&self) -> (r: &Vec<(String, i64)>)
        requires
            self.wf(),
        ensures
            map_of(r@) == self.view().last_at,
    {
        self.reminder_last_at.entries()
    }

    pub fn last_check(&self) -> (r: i64)
        ensures
            r == self.view().last_check,
    {
        self.last_check
    }

    pub fn set_last_check(&mut self, at: i64)
        requires
            old(self).wf(),
        ensures
            final(self).wf(),
            final(self).view() == (StoreView { last_check: at, ..old(self).view() }),
    {
        self.last_check = at;
    }

    pub fn breaks(&self) -> (r: usize)
        ensures
            r == self.view().breaks,
    {
        self.breaks
    }

    pub fn set_breaks(&mut self, breaks: usize)
        requires
            old(self).wf(),
        ensures
            final(self).wf(),
            final(self).view() == (StoreView { breaks, ..old(self).view() }),
    {
        self.breaks = breaks;
    }
}

/// A never-seen description reads as 0 and is then stored as 0, so that
/// reading it again gives 0 again and changes nothing more.
pub proof fn lemma_count_for_idempotent(v: StoreView, d: Seq<char>)
    requires
        !v.counts.contains_key(d),
    ensures
        count_of(v, d) == 0,
        materialized(v, d).counts[d] == 0,
        count_of(materialized(v, d), d) == 0,
        materialized(materialized(v, d), d) == materialized(v, d),
{
}

} // verus!
