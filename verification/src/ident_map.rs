use vstd::prelude::*;

verus! {

/// Compares two strings character by character.
pub fn str_eq(a: &str, b: &str) -> (r: bool)
    ensures
        r == (a@ == b@),
{
    let n = a.unicode_len();
    let m = b.unicode_len();
    if n != m {
        return false;
    }
    let mut i: usize = 0;
    while i < n
        invariant
            n == a@.len(),
            m == b@.len(),
            n == m,
            i <= n,
            forall|j: int| 0 <= j < i ==> a@[j] == b@[j],
        decreases n - i,
    {
        if a.get_char(i) != b.get_char(i) {
            return false;
        }
        i = i + 1;
    }
    assert(a@ =~= b@);
    true
}

/// A finite map from identifiers to values, kept as a list of entries in
/// insertion order. No identifier occurs twice.
#[derive(Debug, PartialEq)]
pub struct IdentMap<V> {
    entries: Vec<(String, V)>,
}

impl<V> IdentMap<V> {
    /// The keys are pairwise distinct.
    #[verifier::type_invariant]
    pub closed spec fn wf(self) -> bool {
        forall|i: int, j: int|
            0 <= i < j < self.entries@.len() ==> #[trigger] self.entries@[i].0@
                != #[trigger] self.entries@[j].0@
    }

    /// The entries, in insertion order, with keys by their characters.
    pub closed spec fn spec_entries(self) -> Seq<(Seq<char>, V)> {
        self.entries@.map_values(|e: (String, V)| (e.0@, e.1))
    }

    pub open spec fn spec_len(self) -> nat {
        self.spec_entries().len()
    }

    pub open spec fn has_key(self, k: Seq<char>) -> bool {
        exists|i: int| 0 <= i < self.spec_len() && #[trigger] self.spec_entries()[i].0 == k
    }

    pub open spec fn key_index(self, k: Seq<char>) -> int {
        choose|i: int| 0 <= i < self.spec_len() && #[trigger] self.spec_entries()[i].0 == k
    }

    /// The value stored under `k`, if any.
    pub open spec fn spec_get(self, k: Seq<char>) -> Option<V> {
        if self.has_key(k) {
            Some(self.spec_entries()[self.key_index(k)].1)
        } else {
            None
        }
    }

    /// Distinct keys (what the type invariant states, in terms of the entries).
    pub open spec fn keys_distinct(self) -> bool {
        forall|i: int, j: int|
            0 <= i < j < self.spec_len() ==> #[trigger] self.spec_entries()[i].0
                != #[trigger] self.spec_entries()[j].0
    }

    /// Brings the distinctness of keys into a caller's proof context.
    pub fn lemma_distinct(&self)
        ensures
            self.keys_distinct(),
    {
        proof {
            use_type_invariant(self);
            assert forall|i: int, j: int|
                0 <= i < j < self.spec_len() implies #[trigger] self.spec_entries()[i].0
                != #[trigger] self.spec_entries()[j].0 by {
                assert(self.entries@[i].0@ != self.entries@[j].0@);
            }
        }
    }

    /// With distinct keys, the entry found for a key is the unique one with it.
    pub proof fn lemma_get_at(self, i: int)
        requires
            self.keys_distinct(),
            0 <= i < self.spec_len(),
        ensures
            self.spec_get(self.spec_entries()[i].0) == Some(self.spec_entries()[i].1),
    {
        let k = self.spec_entries()[i].0;
        assert(self.has_key(k));
        let j = self.key_index(k);
        if j != i {
            if j < i {
                assert(self.spec_entries()[j].0 != self.spec_entries()[i].0);
            } else {
                assert(self.spec_entries()[i].0 != self.spec_entries()[j].0);
            }
        }
    }

    pub fn new() -> (r: Self)
        ensures
            r.spec_len() == 0,
            forall|k: Seq<char>| r.spec_get(k) is None,
    {
        IdentMap { entries: Vec::new() }
    }

    pub fn len(&self) -> (n: usize)
        ensures
            n == self.spec_len(),
    {
        self.entries.len()
    }

    /// The entry at position `i` in insertion order.
    pub fn entry_at(&self, i: usize) -> (r: (&String, &V))
        requires
            i < self.spec_len(),
        ensures
            r.0@ == self.spec_entries()[i as int].0,
            *r.1 == self.spec_entries()[i as int].1,
    {
        let e = &self.entries[i];
        (&e.0, &e.1)
    }

    /// Position of the entry with key `k`.
    pub fn find(&self, k: &str) -> (r: Option<usize>)
        ensures
            r is None <==> !self.has_key(k@),
            r matches Some(i) ==> i < self.spec_len() && self.spec_entries()[i as int].0 == k@,
    {
        let mut i: usize = 0;
        while i < self.entries.len()
            invariant
                i <= self.entries@.len(),
                forall|j: int| 0 <= j < i ==> #[trigger] self.spec_entries()[j].0 != k@,
            decreases self.entries@.len() - i,
        {
            if str_eq(self.entries[i].0.as_str(), k) {
                assert(self.spec_entries()[i as int].0 == k@);
                return Some(i);
            }
            i = i + 1;
        }
        None
    }

    pub fn contains_key(&self, k: &str) -> (r: bool)
        ensures
            r == self.has_key(k@),
    {
        self.find(k).is_some()
    }

    pub fn get(&self, k: &str) -> (r: Option<&V>)
        ensures
            r matches Some(v) ==> self.spec_get(k@) == Some(*v),
            r is None ==> self.spec_get(k@) is None,
    {
        self.lemma_distinct();
        match self.find(k) {
            Some(i) => {
                proof {
                    self.lemma_get_at(i as int);
                }
                Some(&self.entries[i].1)
            },
            None => None,
        }
    }

    /// Sets the value under `k`. Returns the value it replaced, if any.
    pub fn insert(&mut self, k: String, v: V) -> (r: Option<V>)
        ensures
            r matches Some(old_v) ==> old(self).spec_get(k@) == Some(old_v),
            r is None <==> !old(self).has_key(k@),
            final(self).spec_get(k@) == Some(v),
            forall|k2: Seq<char>| k2 != k@ ==> final(self).spec_get(k2) == old(self).spec_get(k2),
            final(self).spec_len() == old(self).spec_len() + (if r is None { 1int } else { 0int }),
    {
        self.lemma_distinct();
        let ghost old_self = *self;
        let ghost kv = k@;
        let pos = self.find(k.as_str());
        let mut entries = Vec::new();
        std::mem::swap(&mut entries, &mut self.entries);
        let ghost old_entries = entries@;
        let r = match pos {
            Some(i) => {
                let old_entry = entries.remove(i);
                entries.insert(i, (k, v));
                proof {
                    assert(entries@ =~= old_entries.update(i as int, entries@[i as int]));
                }
                Some(old_entry.1)
            },
            None => {
                entries.push((k, v));
                None
            },
        };
        proof {
            assert forall|a: int, b: int|
                0 <= a < b < entries@.len() implies #[trigger] entries@[a].0@
                != #[trigger] entries@[b].0@ by {
                if b < old_entries.len() && (pos is None || (a != pos.unwrap() && b != pos.unwrap())) {
                    assert(old_self.spec_entries()[a].0 != old_self.spec_entries()[b].0);
                } else if pos is Some && a == pos.unwrap() {
                    assert(old_self.spec_entries()[a].0 != old_self.spec_entries()[b].0);
                } else if pos is Some && b == pos.unwrap() {
                    assert(old_self.spec_entries()[a].0 != old_self.spec_entries()[b].0);
                } else {
                    assert(old_self.spec_entries()[a].0 != kv);
                }
            }
        }
        self.entries = entries;
        proof {
            let idx: int = match pos {
                Some(i) => i as int,
                None => old_entries.len() as int,
            };
            match pos {
                Some(i) => {
                    assert(self.spec_entries() =~= old_self.spec_entries().update(i as int, (kv, v)));
                    old_self.lemma_get_at(i as int);
                },
                None => {
                    assert(self.spec_entries() =~= old_self.spec_entries().push((kv, v)));
                },
            }
            assert(self.keys_distinct());
            self.lemma_get_at(idx);
            assert forall|k2: Seq<char>| k2 != kv implies self.spec_get(k2) == old_self.spec_get(
                k2,
            ) by {
                if old_self.has_key(k2) {
                    let j = old_self.key_index(k2);
                    old_self.lemma_get_at(j);
                    assert(self.spec_entries()[j].0 == k2);
                    self.lemma_get_at(j);
                } else if self.has_key(k2) {
                    let j = self.key_index(k2);
                    assert(old_self.spec_entries()[j].0 == k2);
                }
            }
        }
        r
    }
}

impl<V: Clone> Clone for IdentMap<V> {
    /// Copies the entries; keys are copied exactly, values by `V::clone`.
    fn clone(&self) -> (r: Self)
        ensures
            r.spec_len() == self.spec_len(),
            forall|i: int|
                0 <= i < self.spec_len() ==> #[trigger] r.spec_entries()[i].0
                    == self.spec_entries()[i].0,
    {
        proof {
            use_type_invariant(self);
        }
        let mut entries: Vec<(String, V)> = Vec::new();
        let mut i: usize = 0;
        while i < self.entries.len()
            invariant
                i <= self.entries@.len(),
                entries@.len() == i,
                forall|j: int| 0 <= j < i ==> #[trigger] entries@[j].0@ == self.entries@[j].0@,
                forall|a: int, b: int|
                    0 <= a < b < self.entries@.len() ==> #[trigger] self.entries@[a].0@
                        != #[trigger] self.entries@[b].0@,
            decreases self.entries@.len() - i,
        {
            let e = &self.entries[i];
            entries.push((e.0.clone(), e.1.clone()));
            i = i + 1;
        }
        proof {
            assert forall|a: int, b: int|
                0 <= a < b < entries@.len() implies #[trigger] entries@[a].0@
                != #[trigger] entries@[b].0@ by {
                assert(self.entries@[a].0@ != self.entries@[b].0@);
            }
        }
        IdentMap { entries }
    }
}

} // verus!
