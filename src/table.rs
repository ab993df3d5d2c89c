//! The table of stored entries, keyed by stored (namespaced) key.

use vstd::prelude::*;
use crate::entry::{Entry, alive};
use crate::namespace::{has_prefix, starts_with};

verus! {

/// No key occurs twice.
pub open spec fn unique_keys(s: Seq<(Seq<char>, Entry)>) -> bool {
    forall|i: int, j: int|
        #![trigger s[i], s[j]]
        0 <= i < s.len() && 0 <= j < s.len() && s[i].0 == s[j].0 ==> i == j
}

/// Some slot holds key `k`.
pub open spec fn has_key(s: Seq<(Seq<char>, Entry)>, k: Seq<char>) -> bool {
    exists|i: int| 0 <= i < s.len() && s[i].0 == k
}

/// The position of key `k`, when it is present.
pub open spec fn key_index(s: Seq<(Seq<char>, Entry)>, k: Seq<char>) -> int {
    choose|i: int| 0 <= i < s.len() && s[i].0 == k
}

/// The mapping that a sequence of slots stands for.
pub open spec fn table_map(s: Seq<(Seq<char>, Entry)>) -> Map<Seq<char>, Entry> {
    Map::new(|k: Seq<char>| has_key(s, k), |k: Seq<char>| s[key_index(s, k)].1)
}

/// Each slot is what the mapping holds at its key.
pub proof fn lemma_slot_in_map(s: Seq<(Seq<char>, Entry)>, i: int)
    requires
        unique_keys(s),
        0 <= i < s.len(),
    ensures
        table_map(s).contains_key(s[i].0),
        table_map(s)[s[i].0] == s[i].1,
{
    assert(has_key(s, s[i].0));
    let j = key_index(s, s[i].0);
    assert(s[j].0 == s[i].0);
}

/// The mapping of a sequence is that of all but its last slot, with the last
/// slot's key (not otherwise present) added.
pub proof fn lemma_map_drop_last(s: Seq<(Seq<char>, Entry)>)
    requires
        unique_keys(s),
        s.len() > 0,
    ensures
        unique_keys(s.drop_last()),
        !table_map(s.drop_last()).contains_key(s.last().0),
        table_map(s) == table_map(s.drop_last()).insert(s.last().0, s.last().1),
{
    let p = s.drop_last();
    let x = s.last();
    assert(unique_keys(p)) by {
        assert forall|i: int, j: int| 0 <= i < p.len() && 0 <= j < p.len() && p[i].0 == p[j].0 implies i == j by {
            assert(s[i] == p[i] && s[j] == p[j]);
        }
    }
    if has_key(p, x.0) {
        let i = key_index(p, x.0);
        assert(s[i].0 == s[s.len() - 1].0);
    }
    assert forall|k: Seq<char>| #[trigger] has_key(s, k) <==> (has_key(p, k) || k == x.0) by {
        if has_key(s, k) {
            let i = key_index(s, k);
            if i < p.len() {
                assert(p[i].0 == k);
            }
        }
        if has_key(p, k) {
            let i = key_index(p, k);
            assert(s[i].0 == k);
        }
        if k == x.0 {
            assert(s[s.len() - 1].0 == k);
        }
    }
    assert forall|k: Seq<char>| has_key(p, k) implies table_map(s)[k] == table_map(p)[k] by {
        let i = key_index(p, k);
        lemma_slot_in_map(p, i);
        assert(s[i] == p[i]);
        lemma_slot_in_map(s, i);
    }
    lemma_slot_in_map(s, s.len() - 1);
    assert(table_map(s) =~= table_map(p).insert(x.0, x.1));
}

/// Which entries a sweep drops.
pub enum Sweep {
    /// Entries that are not alive at the given time.
    Expired(u64),
    /// Entries whose stored key starts with the given prefix.
    Prefixed(String),
}

/// A sweep drops the slot with key `k` and entry `e`.
pub open spec fn sweeps(w: Sweep, k: Seq<char>, e: Entry) -> bool {
    match w {
        Sweep::Expired(now) => !alive(e, now),
        Sweep::Prefixed(p) => has_prefix(k, p@),
    }
}

/// The keys of `m` that a sweep keeps.
pub open spec fn kept_keys(m: Map<Seq<char>, Entry>, w: Sweep) -> Set<Seq<char>> {
    Set::new(|k: Seq<char>| m.contains_key(k) && !sweeps(w, k, m[k]))
}

/// A mapping from stored keys to entries, kept in insertion order.
pub struct EntryTable {
    slots: Vec<(String, Entry)>,
}

impl View for EntryTable {
    type V = Map<Seq<char>, Entry>;

    open spec fn view(&self) -> Map<Seq<char>, Entry> {
        table_map(self.entries())
    }
}

impl EntryTable {
    /// The slots, in order, as keys and entries.
    pub closed spec fn entries(&self) -> Seq<(Seq<char>, Entry)> {
        self.slots@.map_values(|p: (String, Entry)| (p.0@, p.1))
    }

    /// Keys are unique.
    pub open spec fn wf(&self) -> bool {
        unique_keys(self.entries())
    }

    /// The table holds one slot per key of its mapping.
    pub proof fn lemma_size(&self)
        requires
            self.wf(),
        ensures
            self@.dom().finite(),
            self@.dom().len() == self.entries().len(),
    {
        let s = self.entries();
        let ks = s.map_values(|x: (Seq<char>, Entry)| x.0);
        assert forall|k: Seq<char>| self@.dom().contains(k) <==> ks.to_set().contains(k) by {
            if self@.dom().contains(k) {
                let i = key_index(s, k);
                assert(ks[i] == k);
            }
            if ks.to_set().contains(k) {
                let i = choose|i: int| 0 <= i < ks.len() && ks[i] == k;
                assert(s[i].0 == k);
            }
        }
        assert(self@.dom() =~= ks.to_set());
        assert(ks.no_duplicates()) by {
            assert forall|i: int, j: int|
                0 <= i < ks.len() && 0 <= j < ks.len() && i != j implies ks[i] != ks[j] by {
                assert(s[i].0 == ks[i] && s[j].0 == ks[j]);
            }
        }
        ks.unique_seq_to_set();
    }

    /// An empty table.
    pub fn new() -> (r: EntryTable)
        ensures
            r.wf(),
            r@ == Map::<Seq<char>, Entry>::empty(),
            r.entries().len() == 0,
    {
        let r = EntryTable { slots: Vec::new() };
        assert(r.entries() =~= Seq::<(Seq<char>, Entry)>::empty());
        assert(r@ =~= Map::<Seq<char>, Entry>::empty());
        r
    }

    /// Number of slots.
    pub fn slot_count(&self) -> (r: usize)
        ensures
            r == self.entries().len(),
    {
        self.slots.len()
    }

    /// The key of slot `i`.
    pub fn key_at(&self, i: usize) -> (r: &String)
        requires
            i < self.entries().len(),
        ensures
            r@ == self.entries()[i as int].0,
    {
        &self.slots[i].0
    }

    /// The entry of slot `i`.
    pub fn entry_at(&self, i: usize) -> (r: &Entry)
        requires
            i < self.entries().len(),
        ensures
            *r == self.entries()[i as int].1,
    {
        &self.slots[i].1
    }

    /// Position of `key`, if present.
    fn find(&self, key: &String) -> (r: Option<usize>)
        requires
            self.wf(),
        ensures
            match r {
                Some(i) => i < self.entries().len() && self.entries()[i as int].0 == key@,
                None => !has_key(self.entries(), key@),
            },
    {
        let mut i: usize = 0;
        while i < self.slots.len()
            invariant
                i <= self.slots@.len(),
                forall|j: int| 0 <= j < i ==> self.entries()[j].0 != key@,
            decreases self.slots@.len() - i,
        {
            if self.slots[i].0.eq(key) {
                return Some(i);
            }
            i = i + 1;
        }
        None
    }

    /// The entry stored under `key`.
    pub fn get(&self, key: &String) -> (r: Option<&Entry>)
        requires
            self.wf(),
        ensures
            match r {
                Some(e) => self@.contains_key(key@) && *e == self@[key@],
                None => !self@.contains_key(key@),
            },
    {
        match self.find(key) {
            Some(i) => {
                proof {
                    lemma_slot_in_map(self.entries(), i as int);
                }
                Some(&self.slots[i].1)
            },
            None => None,
        }
    }

    /// Stores `e` under `key`, replacing what was there.
    pub fn insert(&mut self, key: String, e: Entry)
        requires
            old(self).wf(),
        ensures
            final(self).wf(),
            final(self)@ == old(self)@.insert(key@, e),
    {
        let ghost k = key@;
        let ghost before = self.entries();
        match self.find(&key) {
            Some(i) => {
                self.slots.set(i, (key, e));
                proof {
                    let after = self.entries();
                    assert(after =~= before.update(i as int, (k, e)));
                    assert forall|j: int| 0 <= j < after.len() && j != i implies after[j].0 != k by {
                        assert(before[j].0 != before[i as int].0);
                    }
                    assert(unique_keys(after));
                    assert forall|x: Seq<char>| #[trigger] has_key(after, x) <==> has_key(before, x) by {
                        if has_key(after, x) {
                            let j = key_index(after, x);
                            if j != i {
                                assert(before[j].0 == x);
                            } else {
                                assert(before[i as int].0 == x);
                            }
                        }
                        if has_key(before, x) {
                            let j = key_index(before, x);
                            if j != i {
                                assert(after[j].0 == x);
                            } else {
                                assert(after[i as int].0 == x);
                            }
                        }
                    }
                    assert forall|x: Seq<char>| has_key(after, x) && x != k
                        implies table_map(after)[x] == table_map(before)[x] by {
                        let j = key_index(after, x);
                        lemma_slot_in_map(after, j);
                        lemma_slot_in_map(before, j);
                    }
                    lemma_slot_in_map(after, i as int);
                    assert(table_map(after) =~= table_map(before).insert(k, e));
                }
            },
            None => {
                self.slots.push((key, e));
                proof {
                    let after = self.entries();
                    assert(after =~= before.push((k, e)));
                    assert(unique_keys(after));
                    assert forall|x: Seq<char>| #[trigger] has_key(after, x) <==> (has_key(before, x) || x == k) by {
                        if has_key(after, x) {
                            let j = key_index(after, x);
                            if j < before.len() {
                                assert(before[j].0 == x);
                            }
                        }
                        if has_key(before, x) {
                            let j = key_index(before, x);
                            assert(after[j].0 == x);
                        }
                        if x == k {
                            assert(after[before.len() as int].0 == x);
                        }
                    }
                    assert forall|x: Seq<char>| has_key(after, x) && x != k
                        implies table_map(after)[x] == table_map(before)[x] by {
                        let j = key_index(before, x);
                        lemma_slot_in_map(after, j);
                        lemma_slot_in_map(before, j);
                    }
                    lemma_slot_in_map(after, before.len() as int);
                    assert(table_map(after) =~= table_map(before).insert(k, e));
                }
            },
        }
    }

    /// Removes `key`; true iff it was present.
    pub fn remove(&mut self, key: &String) -> (r: bool)
        requires
            old(self).wf(),
        ensures
            final(self).wf(),
            r == old(self)@.contains_key(key@),
            final(self)@ == old(self)@.remove(key@),
    {
        let ghost before = self.entries();
        match self.find(key) {
            Some(i) => {
                self.slots.remove(i);
                proof {
                    let after = self.entries();
                    assert(after =~= before.remove(i as int));
                    assert(unique_keys(after)) by {
                        assert forall|a: int, b: int|
                            0 <= a < after.len() && 0 <= b < after.len() && after[a].0 == after[b].0
                            implies a == b by {
                            let a2 = if a < i { a } else { a + 1 };
                            let b2 = if b < i { b } else { b + 1 };
                            assert(before[a2].0 == before[b2].0);
                        }
                    }
                    assert forall|x: Seq<char>| #[trigger] has_key(after, x) <==> (has_key(before, x) && x != key@) by {
                        if has_key(after, x) {
                            let j = key_index(after, x);
                            let j2 = if j < i { j } else { j + 1 };
                            assert(before[j2].0 == x);
                            assert(j2 != i);
                        }
                        if has_key(before, x) && x != key@ {
                            let j = key_index(before, x);
                            let j2 = if j < i { j } else { j - 1 };
                            assert(after[j2].0 == x);
                        }
                    }
                    assert forall|x: Seq<char>| has_key(after, x)
                        implies table_map(after)[x] == table_map(before)[x] by {
                        let j = key_index(after, x);
                        let j2 = if j < i { j } else { j + 1 };
                        lemma_slot_in_map(after, j);
                        lemma_slot_in_map(before, j2);
                    }
                    assert(table_map(after) =~= table_map(before).remove(key@));
                }
                true
            },
            None => {
                assert(self@ =~= old(self)@.remove(key@));
                false
            },
        }
    }

    /// Removes every entry.
    pub fn clear(&mut self)
        ensures
            final(self).wf(),
            final(self)@ == Map::<Seq<char>, Entry>::empty(),
            final(self).entries().len() == 0,
    {
        self.slots.clear();
        assert(self.entries() =~= Seq::<(Seq<char>, Entry)>::empty());
        assert(self@ =~= Map::<Seq<char>, Entry>::empty());
    }

    /// Whether `w` drops the slot `(key, e)`.
    fn swept(w: &Sweep, key: &String, e: &Entry) -> (r: bool)
        ensures
            r == sweeps(*w, key@, *e),
    {
        match w {
            Sweep::Expired(now) => e.is_expired(*now),
            Sweep::Prefixed(p) => starts_with(key.as_str(), p.as_str()),
        }
    }

    /// Drops every entry that `w` sweeps; returns how many were dropped.
    pub fn sweep(&mut self, w: &Sweep) -> (r: usize)
        requires
            old(self).wf(),
        ensures
            final(self).wf(),
            final(self)@ == old(self)@.restrict(kept_keys(old(self)@, *w)),
            r == old(self)@.dom().len() - final(self)@.dom().len(),
    {
        let ghost before = self.entries();
        let ghost m = self@;
        let old_slots = self.slots.split_off(0);
        assert(old_slots@.map_values(|p: (String, Entry)| (p.0@, p.1)) =~= before);
        let n = old_slots.len();
        let mut i: usize = 0;
        let mut dropped: usize = 0;
        while i < n
            invariant
                n == old_slots@.len(),
                before == old_slots@.map_values(|p: (String, Entry)| (p.0@, p.1)),
                unique_keys(before),
                m == table_map(before),
                i <= n,
                unique_keys(self.entries()),
                dropped + self.entries().len() == i,
                forall|x: (Seq<char>, Entry)| #[trigger] self.entries().contains(x) <==>
                    (exists|j: int| 0 <= j < i && before[j] == x) && !sweeps(*w, x.0, x.1),
            decreases n - i,
        {
            let ghost cur = self.entries();
            let k = &old_slots[i].0;
            let e = &old_slots[i].1;
            assert(before[i as int] == (k@, *e));
            if Self::swept(w, k, e) {
                dropped = dropped + 1;
                assert forall|x: (Seq<char>, Entry)| #[trigger] self.entries().contains(x) <==>
                    (exists|j: int| 0 <= j < i + 1 && before[j] == x) && !sweeps(*w, x.0, x.1) by {
                    if (exists|j: int| 0 <= j < i + 1 && before[j] == x) && !sweeps(*w, x.0, x.1) {
                        let j = choose|j: int| 0 <= j < i + 1 && before[j] == x;
                        assert(j != i);
                    }
                }
            } else {
                self.slots.push((k.clone(), e.duplicate()));
                proof {
                    let after = self.entries();
                    assert(after =~= cur.push((k@, *e)));
                    assert forall|a: int| 0 <= a < cur.len() implies cur[a].0 != k@ by {
                        assert(cur.contains(cur[a]));
                        let j = choose|j: int| 0 <= j < i && before[j] == cur[a];
                        assert(before[j].0 != before[i as int].0);
                    }
                    assert(unique_keys(after));
                    assert forall|x: (Seq<char>, Entry)| #[trigger] after.contains(x) <==>
                        (exists|j: int| 0 <= j < i + 1 && before[j] == x) && !sweeps(*w, x.0, x.1) by {
                        if after.contains(x) {
                            let a = choose|a: int| 0 <= a < after.len() && after[a] == x;
                            if a < cur.len() {
                                assert(cur.contains(x));
                            } else {
                                assert(before[i as int] == x);
                            }
                        }
                        if (exists|j: int| 0 <= j < i + 1 && before[j] == x) && !sweeps(*w, x.0, x.1) {
                            let j = choose|j: int| 0 <= j < i + 1 && before[j] == x;
                            if j < i {
                                assert(cur.contains(x));
                                let a = choose|a: int| 0 <= a < cur.len() && cur[a] == x;
                                assert(after[a] == x);
                            } else {
                                assert(after[cur.len() as int] == x);
                            }
                        }
                    }
                }
            }
            i = i + 1;
        }
        proof {
            let after = self.entries();
            let kk = kept_keys(m, *w);
            assert forall|x: Seq<char>| #[trigger] has_key(after, x) <==> kk.contains(x) by {
                if has_key(after, x) {
                    let a = key_index(after, x);
                    assert(after.contains(after[a]));
                    let j = choose|j: int| 0 <= j < n && before[j] == after[a];
                    lemma_slot_in_map(before, j);
                }
                if kk.contains(x) {
                    let j = key_index(before, x);
                    lemma_slot_in_map(before, j);
                    assert(before[j] == (x, m[x]));
                    assert(after.contains(before[j]));
                    let a = choose|a: int| 0 <= a < after.len() && after[a] == before[j];
                    assert(after[a].0 == x);
                }
            }
            assert forall|x: Seq<char>| has_key(after, x) implies table_map(after)[x] == m[x] by {
                let a = key_index(after, x);
                lemma_slot_in_map(after, a);
                assert(after.contains(after[a]));
                let j = choose|j: int| 0 <= j < n && before[j] == after[a];
                lemma_slot_in_map(before, j);
            }
            assert(table_map(after) =~= m.restrict(kk));
            self.lemma_size();
            let t = EntryTable { slots: old_slots };
            assert(t.entries() == before);
            t.lemma_size();
        }
        dropped
    }
}

} // verus!
