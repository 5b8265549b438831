//! Pane-keyed books: every per-pane table of the bot (status, intents,
//! guards, stall episodes …) is a map from a pane id to a value. Held as
//! an association list with distinct keys, viewed as a `Map`.
use vstd::prelude::*;

verus! {

/// True when some entry of `s` is keyed by `k`.
pub open spec fn has_key<V>(s: Seq<(String, V)>, k: Seq<char>) -> bool {
    exists|i: int| 0 <= i < s.len() && (#[trigger] s[i]).0@ == k
}

/// Keys of an association list are pairwise distinct.
pub open spec fn keys_distinct<V>(s: Seq<(String, V)>) -> bool {
    forall|i: int, j: int|
        0 <= i < s.len() && 0 <= j < s.len() && i != j ==> (#[trigger] s[i]).0@ != (#[trigger] s[j]).0@
}

/// The map an association list stands for.
pub open spec fn entries_map<V>(s: Seq<(String, V)>) -> Map<Seq<char>, V> {
    Map::new(
        |k: Seq<char>| has_key(s, k),
        |k: Seq<char>| s[choose|i: int| 0 <= i < s.len() && (#[trigger] s[i]).0@ == k].1,
    )
}

/// With distinct keys, the entry at `i` is what the map holds for its key.
pub proof fn lemma_entries_map_at<V>(s: Seq<(String, V)>, i: int)
    requires
        keys_distinct(s),
        0 <= i < s.len(),
    ensures
        entries_map(s).contains_key(s[i].0@),
        entries_map(s)[s[i].0@] == s[i].1,
{
    let k = s[i].0@;
    assert(has_key(s, k));
    let j = choose|j: int| 0 <= j < s.len() && (#[trigger] s[j]).0@ == k;
    assert(j == i);
}

/// Pushing an entry with a fresh key inserts it into the map.
pub proof fn lemma_entries_map_push<V>(s: Seq<(String, V)>, e: (String, V))
    requires
        keys_distinct(s),
        !has_key(s, e.0@),
    ensures
        keys_distinct(s.push(e)),
        entries_map(s.push(e)) == entries_map(s).insert(e.0@, e.1),
{
    let t = s.push(e);
    assert(keys_distinct(t)) by {
        assert forall|i: int, j: int|
            0 <= i < t.len() && 0 <= j < t.len() && i != j implies (#[trigger] t[i]).0@ != (
            #[trigger] t[j]).0@ by {
            if i < s.len() && j < s.len() {
                assert(t[i] == s[i] && t[j] == s[j]);
            } else if i < s.len() {
                assert(t[i] == s[i]);
            } else {
                assert(t[j] == s[j]);
            }
        }
    }
    assert forall|k: Seq<char>| #[trigger] has_key(t, k) == (has_key(s, k) || k == e.0@) by {
        if has_key(s, k) {
            let i = choose|i: int| 0 <= i < s.len() && (#[trigger] s[i]).0@ == k;
            assert(t[i] == s[i]);
        }
        if k == e.0@ {
            assert(t[s.len() as int] == e);
        }
        if has_key(t, k) {
            let i = choose|i: int| 0 <= i < t.len() && (#[trigger] t[i]).0@ == k;
            if i < s.len() {
                assert(t[i] == s[i]);
            }
        }
    }
    assert forall|k: Seq<char>| #[trigger]
        entries_map(t).contains_key(k) implies entries_map(t)[k] == entries_map(s).insert(
        e.0@,
        e.1,
    )[k] by {
        if k == e.0@ {
            lemma_entries_map_at(t, s.len() as int);
        } else {
            let i = choose|i: int| 0 <= i < s.len() && (#[trigger] s[i]).0@ == k;
            assert(t[i] == s[i]);
            lemma_entries_map_at(t, i);
            lemma_entries_map_at(s, i);
        }
    }
    assert(entries_map(t) =~= entries_map(s).insert(e.0@, e.1));
}

/// Replacing the value at `i` (same key) updates the map at that key.
pub proof fn lemma_entries_map_update<V>(s: Seq<(String, V)>, i: int, e: (String, V))
    requires
        keys_distinct(s),
        0 <= i < s.len(),
        e.0@ == s[i].0@,
    ensures
        keys_distinct(s.update(i, e)),
        entries_map(s.update(i, e)) == entries_map(s).insert(e.0@, e.1),
{
    let t = s.update(i, e);
    assert(keys_distinct(t)) by {
        assert forall|a: int, b: int|
            0 <= a < t.len() && 0 <= b < t.len() && a != b implies (#[trigger] t[a]).0@ != (
            #[trigger] t[b]).0@ by {
            assert(t[a].0@ == s[a].0@);
            assert(t[b].0@ == s[b].0@);
        }
    }
    assert forall|k: Seq<char>| #[trigger] has_key(t, k) == has_key(s, k) by {
        if has_key(s, k) {
            let j = choose|j: int| 0 <= j < s.len() && (#[trigger] s[j]).0@ == k;
            assert(t[j].0@ == s[j].0@);
        }
        if has_key(t, k) {
            let j = choose|j: int| 0 <= j < t.len() && (#[trigger] t[j]).0@ == k;
            assert(t[j].0@ == s[j].0@);
        }
    }
    lemma_entries_map_at(s, i);
    assert forall|k: Seq<char>| #[trigger]
        entries_map(t).contains_key(k) implies entries_map(t)[k] == entries_map(s).insert(
        e.0@,
        e.1,
    )[k] by {
        let j = choose|j: int| 0 <= j < t.len() && (#[trigger] t[j]).0@ == k;
        lemma_entries_map_at(t, j);
        if j != i {
            assert(t[j] == s[j]);
            lemma_entries_map_at(s, j);
        }
    }
    assert(entries_map(t) =~= entries_map(s).insert(e.0@, e.1));
}

/// Removing the entry at `i` removes its key from the map.
pub proof fn lemma_entries_map_remove<V>(s: Seq<(String, V)>, i: int)
    requires
        keys_distinct(s),
        0 <= i < s.len(),
    ensures
        keys_distinct(s.remove(i)),
        entries_map(s.remove(i)) == entries_map(s).remove(s[i].0@),
{
    let t = s.remove(i);
    let k0 = s[i].0@;
    assert forall|a: int| 0 <= a < t.len() implies #[trigger] t[a] == (if a < i {
        s[a]
    } else {
        s[a + 1]
    }) by {}
    assert(keys_distinct(t)) by {
        assert forall|a: int, b: int|
            0 <= a < t.len() && 0 <= b < t.len() && a != b implies (#[trigger] t[a]).0@ != (
            #[trigger] t[b]).0@ by {
            let sa = if a < i {
                a
            } else {
                a + 1
            };
            let sb = if b < i {
                b
            } else {
                b + 1
            };
            assert(t[a] == s[sa]);
            assert(t[b] == s[sb]);
        }
    }
    assert forall|k: Seq<char>| #[trigger] has_key(t, k) == (has_key(s, k) && k != k0) by {
        if has_key(s, k) && k != k0 {
            let j = choose|j: int| 0 <= j < s.len() && (#[trigger] s[j]).0@ == k;
            if j < i {
                assert(t[j] == s[j]);
            } else {
                assert(j != i);
                assert(t[j - 1] == s[j]);
            }
        }
        if has_key(t, k) {
            let j = choose|j: int| 0 <= j < t.len() && (#[trigger] t[j]).0@ == k;
            let sj = if j < i {
                j
            } else {
                j + 1
            };
            assert(t[j] == s[sj]);
        }
    }
    assert forall|k: Seq<char>| #[trigger]
        entries_map(t).contains_key(k) implies entries_map(t)[k] == entries_map(s)[k] by {
        let j = choose|j: int| 0 <= j < t.len() && (#[trigger] t[j]).0@ == k;
        let sj = if j < i {
            j
        } else {
            j + 1
        };
        assert(t[j] == s[sj]);
        lemma_entries_map_at(t, j);
        lemma_entries_map_at(s, sj);
    }
    assert(entries_map(t) =~= entries_map(s).remove(k0));
}

/// A table keyed by pane id.
pub struct PaneMap<V> {
    entries: Vec<(String, V)>,
}

impl<V> View for PaneMap<V> {
    type V = Map<Seq<char>, V>;

    closed spec fn view(&self) -> Map<Seq<char>, V> {
        entries_map(self.entries@)
    }
}

impl<V> PaneMap<V> {
    #[verifier::type_invariant]
    closed spec fn distinct(&self) -> bool {
        keys_distinct(self.entries@)
    }

    /// Empty table.
    pub fn new() -> (m: Self)
        ensures
            m@ == Map::<Seq<char>, V>::empty(),
    {
        let m = PaneMap { entries: Vec::new() };
        assert(m@ =~= Map::<Seq<char>, V>::empty());
        m
    }

    /// Position of `pane` among the entries.
    fn find(&self, pane: &str) -> (r: Option<usize>)
        ensures
            match r {
                Some(i) => i < self.entries@.len() && self.entries@[i as int].0@ == pane@,
                None => !has_key(self.entries@, pane@),
            },
    {
        let key = pane.to_owned();
        let mut i: usize = 0;
        while i < self.entries.len()
            invariant
                key@ == pane@,
                i <= self.entries@.len(),
                forall|j: int| 0 <= j < i ==> (#[trigger] self.entries@[j]).0@ != pane@,
            decreases self.entries@.len() - i,
        {
            if self.entries[i].0 == key {
                return Some(i);
            }
            i = i + 1;
        }
        None
    }

    /// Number of panes in the table.
    pub fn len(&self) -> (n: usize)
        ensures
            n == self@.dom().len(),
    {
        proof {
            use_type_invariant(self);
            self.lemma_len();
        }
        self.entries.len()
    }

    proof fn lemma_len(&self)
        requires
            keys_distinct(self.entries@),
        ensures
            self@.dom().finite(),
            self@.dom().len() == self.entries@.len(),
    {
        let s = self.entries@;
        let ks = s.map_values(|e: (String, V)| e.0@);
        assert(ks.no_duplicates()) by {
            assert forall|a: int, b: int| 0 <= a < ks.len() && 0 <= b < ks.len() && a != b implies ks[a]
                != ks[b] by {
                assert(ks[a] == s[a].0@ && ks[b] == s[b].0@);
            }
        }
        assert(self@.dom() =~= ks.to_set()) by {
            assert forall|k: Seq<char>| self@.dom().contains(k) == ks.to_set().contains(k) by {
                if has_key(s, k) {
                    let i = choose|i: int| 0 <= i < s.len() && (#[trigger] s[i]).0@ == k;
                    assert(ks[i] == k);
                }
                if ks.to_set().contains(k) {
                    let i = choose|i: int| 0 <= i < ks.len() && ks[i] == k;
                    assert(s[i].0@ == k);
                }
            }
        }
        ks.unique_seq_to_set();
    }

    /// Whether `pane` has an entry.
    pub fn contains_key(&self, pane: &str) -> (b: bool)
        ensures
            b == self@.contains_key(pane@),
    {
        self.find(pane).is_some()
    }

    /// Entry for `pane`, if any.
    pub fn get(&self, pane: &str) -> (r: Option<&V>)
        ensures
            match r {
                Some(v) => self@.contains_key(pane@) && *v == self@[pane@],
                None => !self@.contains_key(pane@),
            },
    {
        proof {
            use_type_invariant(self);
        }
        match self.find(pane) {
            Some(i) => {
                proof {
                    lemma_entries_map_at(self.entries@, i as int);
                }
                Some(&self.entries[i].1)
            },
            None => None,
        }
    }

    /// Set `pane`'s entry, returning the value it replaced.
    pub fn insert(&mut self, pane: &str, v: V) -> (prev: Option<V>)
        ensures
            final(self)@ == old(self)@.insert(pane@, v),
            match prev {
                Some(p) => old(self)@.contains_key(pane@) && p == old(self)@[pane@],
                None => !old(self)@.contains_key(pane@),
            },
    {
        proof {
            use_type_invariant(&*self);
        }
        let key = pane.to_owned();
        let found = self.find(pane);
        let mut es: Vec<(String, V)> = Vec::new();
        std::mem::swap(&mut es, &mut self.entries);
        let ghost s0 = es@;
        match found {
            Some(i) => {
                proof {
                    lemma_entries_map_at(s0, i as int);
                }
                let (_, old_v) = es.remove(i);
                es.insert(i, (key, v));
                proof {
                    assert(es@ =~= s0.update(i as int, es@[i as int]));
                    lemma_entries_map_update(s0, i as int, es@[i as int]);
                }
                self.entries = es;
                Some(old_v)
            },
            None => {
                proof {
                    lemma_entries_map_push(s0, (key, v));
                }
                es.push((key, v));
                self.entries = es;
                None
            },
        }
    }

    /// Drop `pane`'s entry, returning it.
    pub fn remove(&mut self, pane: &str) -> (prev: Option<V>)
        ensures
            final(self)@ == old(self)@.remove(pane@),
            match prev {
                Some(p) => old(self)@.contains_key(pane@) && p == old(self)@[pane@],
                None => !old(self)@.contains_key(pane@),
            },
    {
        proof {
            use_type_invariant(&*self);
        }
        let found = self.find(pane);
        match found {
            Some(i) => {
                let mut es: Vec<(String, V)> = Vec::new();
                std::mem::swap(&mut es, &mut self.entries);
                let ghost s0 = es@;
                proof {
                    lemma_entries_map_at(s0, i as int);
                    lemma_entries_map_remove(s0, i as int);
                }
                let (_, old_v) = es.remove(i);
                self.entries = es;
                Some(old_v)
            },
            None => {
                proof {
                    assert(self@.remove(pane@) =~= self@);
                }
                None
            },
        }
    }

    /// Drop every entry.
    pub fn clear(&mut self)
        ensures
            final(self)@ == Map::<Seq<char>, V>::empty(),
    {
        self.entries = Vec::new();
        assert(self@ =~= Map::<Seq<char>, V>::empty());
    }

    /// The panes of the table, each once.
    pub fn keys(&self) -> (ks: Vec<String>)
        ensures
            ks@.len() == self@.dom().len(),
            forall|i: int| 0 <= i < ks@.len() ==> self@.contains_key(#[trigger] ks@[i]@),
            forall|k: Seq<char>|
                self@.contains_key(k) ==> exists|i: int| 0 <= i < ks@.len() && (#[trigger] ks@[i])@ == k,
            forall|i: int, j: int|
                0 <= i < ks@.len() && 0 <= j < ks@.len() && i != j ==> (#[trigger] ks@[i])@ != (
                #[trigger] ks@[j])@,
    {
        proof {
            use_type_invariant(self);
            self.lemma_len();
        }
        let mut ks: Vec<String> = Vec::new();
        let mut i: usize = 0;
        while i < self.entries.len()
            invariant
                keys_distinct(self.entries@),
                i <= self.entries@.len(),
                ks@.len() == i,
                forall|j: int| 0 <= j < i ==> (#[trigger] ks@[j])@ == self.entries@[j].0@,
            decreases self.entries@.len() - i,
        {
            ks.push(self.entries[i].0.clone());
            i = i + 1;
        }
        proof {
            let s = self.entries@;
            assert forall|j: int| 0 <= j < ks@.len() implies self@.contains_key(#[trigger] ks@[j]@) by {
                assert(s[j].0@ == ks@[j]@);
            }
            assert forall|k: Seq<char>| self@.contains_key(k) implies exists|j: int|
                0 <= j < ks@.len() && (#[trigger] ks@[j])@ == k by {
                let j = choose|j: int| 0 <= j < s.len() && (#[trigger] s[j]).0@ == k;
                assert(ks@[j]@ == k);
            }
            assert forall|a: int, b: int|
                0 <= a < ks@.len() && 0 <= b < ks@.len() && a != b implies (#[trigger] ks@[a])@ != (
                #[trigger] ks@[b])@ by {
                assert(ks@[a]@ == s[a].0@ && ks@[b]@ == s[b].0@);
            }
        }
        ks
    }

    /// Keep only the panes of `keep` (pane-liveness pruning).
    pub fn retain_keys(&mut self, keep: &PaneSet)
        ensures
            final(self)@ == old(self)@.restrict(keep@),
    {
        let ghost m0 = self@;
        let ks = self.keys();
        let mut i: usize = 0;
        while i < ks.len()
            invariant
                i <= ks@.len(),
                ks@.len() == m0.dom().len(),
                forall|j: int| 0 <= j < ks@.len() ==> m0.contains_key(#[trigger] ks@[j]@),
                forall|k: Seq<char>|
                    m0.contains_key(k) ==> exists|j: int| 0 <= j < ks@.len() && (#[trigger] ks@[j])@ == k,
                forall|k: Seq<char>|
                    #[trigger] self@.contains_key(k) == (m0.contains_key(k) && (keep@.contains(k)
                        || !exists|j: int| 0 <= j < i && (#[trigger] ks@[j])@ == k)),
                forall|k: Seq<char>| #[trigger] self@.contains_key(k) ==> self@[k] == m0[k],
            decreases ks@.len() - i,
        {
            let ghost before = self@;
            if !keep.contains(&ks[i]) {
                self.remove(&ks[i]);
            }
            proof {
                assert forall|k: Seq<char>|
                    #[trigger] self@.contains_key(k) == (m0.contains_key(k) && (keep@.contains(k)
                        || !exists|j: int| 0 <= j < i + 1 && (#[trigger] ks@[j])@ == k)) by {
                    if exists|j: int| 0 <= j < i + 1 && (#[trigger] ks@[j])@ == k {
                        let j = choose|j: int| 0 <= j < i + 1 && (#[trigger] ks@[j])@ == k;
                        if j < i {
                            assert(exists|j: int| 0 <= j < i && (#[trigger] ks@[j])@ == k);
                        }
                    } else {
                        assert(!exists|j: int| 0 <= j < i && (#[trigger] ks@[j])@ == k);
                        assert(ks@[i as int]@ != k);
                    }
                }
            }
            i = i + 1;
        }
        proof {
            assert forall|k: Seq<char>| m0.contains_key(k) implies exists|j: int|
                0 <= j < i && (#[trigger] ks@[j])@ == k by {
                let j = choose|j: int| 0 <= j < ks@.len() && (#[trigger] ks@[j])@ == k;
            }
            assert(self@ =~= m0.restrict(keep@));
        }
    }
}

/// A set of pane ids.
pub struct PaneSet {
    panes: PaneMap<()>,
}

impl View for PaneSet {
    type V = Set<Seq<char>>;

    closed spec fn view(&self) -> Set<Seq<char>> {
        self.panes@.dom()
    }
}

impl PaneSet {
    /// Empty set.
    pub fn new() -> (s: Self)
        ensures
            s@ == Set::<Seq<char>>::empty(),
    {
        let s = PaneSet { panes: PaneMap::new() };
        assert(s@ =~= Set::<Seq<char>>::empty());
        s
    }

    /// Membership.
    pub fn contains(&self, pane: &str) -> (b: bool)
        ensures
            b == self@.contains(pane@),
    {
        self.panes.contains_key(pane)
    }

    /// Add `pane`; true when it was not there yet.
    pub fn insert(&mut self, pane: &str) -> (fresh: bool)
        ensures
            final(self)@ == old(self)@.insert(pane@),
            fresh == !old(self)@.contains(pane@),
    {
        let prev = self.panes.insert(pane, ());
        assert(self@ =~= old(self)@.insert(pane@));
        prev.is_none()
    }

    /// Drop `pane`; true when it was there.
    pub fn remove(&mut self, pane: &str) -> (was: bool)
        ensures
            final(self)@ == old(self)@.remove(pane@),
            was == old(self)@.contains(pane@),
    {
        let prev = self.panes.remove(pane);
        assert(self@ =~= old(self)@.remove(pane@));
        prev.is_some()
    }

    /// Number of panes.
    pub fn len(&self) -> (n: usize)
        ensures
            n == self@.len(),
    {
        self.panes.len()
    }

    /// The panes, each once.
    pub fn to_vec(&self) -> (ks: Vec<String>)
        ensures
            ks@.len() == self@.len(),
            forall|i: int| 0 <= i < ks@.len() ==> self@.contains(#[trigger] ks@[i]@),
            forall|k: Seq<char>|
                self@.contains(k) ==> exists|i: int| 0 <= i < ks@.len() && (#[trigger] ks@[i])@ == k,
            forall|i: int, j: int|
                0 <= i < ks@.len() && 0 <= j < ks@.len() && i != j ==> (#[trigger] ks@[i])@ != (
                #[trigger] ks@[j])@,
    {
        self.panes.keys()
    }

    /// Add every pane listed in `ks`.
    pub fn insert_all(&mut self, ks: &Vec<String>)
        ensures
            forall|k: Seq<char>|
                #[trigger] final(self)@.contains(k) == (old(self)@.contains(k) || exists|j: int|
                    0 <= j < ks@.len() && (#[trigger] ks@[j])@ == k),
    {
        let mut i: usize = 0;
        while i < ks.len()
            invariant
                i <= ks@.len(),
                forall|k: Seq<char>|
                    #[trigger] self@.contains(k) == (old(self)@.contains(k) || exists|j: int|
                        0 <= j < i && (#[trigger] ks@[j])@ == k),
            decreases ks@.len() - i,
        {
            self.insert(ks[i].as_str());
            proof {
                assert forall|k: Seq<char>|
                    #[trigger] self@.contains(k) == (old(self)@.contains(k) || exists|j: int|
                        0 <= j < i + 1 && (#[trigger] ks@[j])@ == k) by {
                    if k == ks@[i as int]@ {
                        assert(0 <= i < i + 1 && ks@[i as int]@ == k);
                    }
                    if exists|j: int| 0 <= j < i + 1 && (#[trigger] ks@[j])@ == k {
                        let j = choose|j: int| 0 <= j < i + 1 && (#[trigger] ks@[j])@ == k;
                        if j < i {
                            assert(exists|j: int| 0 <= j < i && (#[trigger] ks@[j])@ == k);
                        }
                    }
                }
            }
            i = i + 1;
        }
    }

    /// Add every pane of `other`.
    pub fn union_with(&mut self, other: &PaneSet)
        ensures
            final(self)@ == old(self)@.union(other@),
    {
        let ks = other.to_vec();
        self.insert_all(&ks);
        assert(self@ =~= old(self)@.union(other@));
    }
}

} // verus!
