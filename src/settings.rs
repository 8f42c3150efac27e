use vstd::prelude::*;
use vstd::string::*;

verus! {

/// One `name=value` pair, as characters.
pub type Entry = (Seq<char>, Seq<char>);

/// No name occurs twice among the entries.
pub open spec fn unique_keys(s: Seq<Entry>) -> bool {
    forall|i: int, j: int| 0 <= i < j < s.len() ==> s[i].0 != s[j].0
}

/// Some entry has name `k`.
pub open spec fn has_key(s: Seq<Entry>, k: Seq<char>) -> bool {
    exists|i: int| 0 <= i < s.len() && s[i].0 == k
}

/// The position of the entry named `k` (meaningful when `has_key(s, k)`).
pub open spec fn key_index(s: Seq<Entry>, k: Seq<char>) -> int {
    choose|i: int| 0 <= i < s.len() && s[i].0 == k
}

/// The entries read as a map from name to value.
pub open spec fn to_map(s: Seq<Entry>) -> Map<Seq<char>, Seq<char>> {
    Map::new(|k: Seq<char>| has_key(s, k), |k: Seq<char>| s[key_index(s, k)].1)
}

/// Sets the value of `k`: in place where `k` is present, else appended.
pub open spec fn upsert(s: Seq<Entry>, k: Seq<char>, v: Seq<char>) -> Seq<Entry> {
    if has_key(s, k) {
        s.update(key_index(s, k), (k, v))
    } else {
        s.push((k, v))
    }
}

/// The entries without the one named `k`, order kept.
pub open spec fn without_key(s: Seq<Entry>, k: Seq<char>) -> Seq<Entry> {
    if has_key(s, k) {
        s.remove(key_index(s, k))
    } else {
        s
    }
}

/// In a sequence with unique names, the entry at `i` is the one the map reports.
pub proof fn lemma_entry_in_map(s: Seq<Entry>, i: int)
    requires
        unique_keys(s),
        0 <= i < s.len(),
    ensures
        key_index(s, s[i].0) == i,
        to_map(s).contains_key(s[i].0),
        to_map(s)[s[i].0] == s[i].1,
{
    assert(has_key(s, s[i].0));
}

/// In a sequence with unique names, the map holds `k` with value `v` exactly
/// when the pair `(k, v)` is one of the entries.
pub proof fn lemma_map_entry_equiv(s: Seq<Entry>, k: Seq<char>, v: Seq<char>)
    requires
        unique_keys(s),
    ensures
        (to_map(s).contains_key(k) && to_map(s)[k] == v) <==> exists|i: int|
            0 <= i < s.len() && s[i] == (k, v),
{
    if exists|i: int| 0 <= i < s.len() && s[i] == (k, v) {
        let i = choose|i: int| 0 <= i < s.len() && s[i] == (k, v);
        lemma_entry_in_map(s, i);
    }
    if to_map(s).contains_key(k) && to_map(s)[k] == v {
        let i = key_index(s, k);
        assert(s[i] == (k, v));
    }
}

/// A settings map from parameter name to value that keeps its insertion order.
pub struct Settings {
    entries: Vec<(String, String)>,
}

impl View for Settings {
    type V = Seq<Entry>;

    closed spec fn view(&self) -> Seq<Entry> {
        self.entries@.map_values(|e: (String, String)| (e.0@, e.1@))
    }
}

impl Settings {
    /// Names are unique.
    pub open spec fn wf(&self) -> bool {
        unique_keys(self@)
    }

    /// The settings as a map.
    pub open spec fn map(&self) -> Map<Seq<char>, Seq<char>> {
        to_map(self@)
    }

    /// Empty settings.
    pub fn new() -> (r: Settings)
        ensures
            r.wf(),
            r@ == Seq::<Entry>::empty(),
    {
        Settings { entries: Vec::new() }
    }

    /// Number of entries.
    pub fn len(&self) -> (r: usize)
        ensures
            r == self@.len(),
    {
        self.entries.len()
    }

    /// The name and value at position `i`, in insertion order.
    pub fn entry(&self, i: usize) -> (r: (&String, &String))
        requires
            i < self@.len(),
        ensures
            r.0@ == self@[i as int].0,
            r.1@ == self@[i as int].1,
    {
        let e = &self.entries[i];
        (&e.0, &e.1)
    }

    /// The position of the entry named `key`, if any.
    fn position(&self, key: &String) -> (r: Option<usize>)
        requires
            self.wf(),
        ensures
            r is None <==> !has_key(self@, key@),
            r matches Some(i) ==> i < self@.len() && self@[i as int].0 == key@ && key_index(
                self@,
                key@,
            ) == i,
    {
        let mut i: usize = 0;
        while i < self.entries.len()
            invariant
                self.wf(),
                i <= self@.len(),
                forall|j: int| 0 <= j < i ==> self@[j].0 != key@,
            decreases self@.len() - i,
        {
            if self.entries[i].0 == *key {
                proof {
                    lemma_entry_in_map(self@, i as int);
                }
                return Some(i);
            }
            i = i + 1;
        }
        None
    }

    /// The value recorded for `key`, if any.
    pub fn get(&self, key: &str) -> (r: Option<&String>)
        requires
            self.wf(),
        ensures
            r is Some <==> self.map().contains_key(key@),
            r matches Some(v) ==> v@ == self.map()[key@],
    {
        let k = String::from_str(key);
        match self.position(&k) {
            Some(i) => {
                proof {
                    lemma_entry_in_map(self@, i as int);
                }
                Some(&self.entries[i].1)
            },
            None => None,
        }
    }

    /// Sets `key` to `value`; a later value for a name replaces the earlier one,
    /// which keeps its position.
    pub fn insert(&mut self, key: String, value: String)
        requires
            old(self).wf(),
        ensures
            final(self).wf(),
            final(self)@ == upsert(old(self)@, key@, value@),
            final(self).map() == old(self).map().insert(key@, value@),
    {
        let ghost k = key@;
        let ghost v = value@;
        match self.position(&key) {
            Some(i) => {
                self.entries.set(i, (key, value));
            },
            None => {
                self.entries.push((key, value));
            },
        }
        proof {
            assert(self@ =~= upsert(old(self)@, k, v));
            let s = self@;
            assert forall|a: int, b: int| 0 <= a < b < s.len() implies s[a].0 != s[b].0 by {
                if b == old(self)@.len() {
                    assert(old(self)@[a].0 == s[a].0);
                }
            }
            assert forall|q: Seq<char>| #[trigger]
                self.map().contains_key(q) implies old(self).map().insert(k, v).contains_key(q)
                && self.map()[q] == old(self).map().insert(k, v)[q] by {
                let j = key_index(s, q);
                lemma_entry_in_map(s, j);
                if q != k {
                    assert(old(self)@[j].0 == q);
                    lemma_entry_in_map(old(self)@, j);
                }
            }
            assert forall|q: Seq<char>| #[trigger]
                old(self).map().insert(k, v).contains_key(q) implies self.map().contains_key(
                q,
            ) by {
                if q != k {
                    let j = key_index(old(self)@, q);
                    assert(s[j].0 == q);
                } else if has_key(old(self)@, k) {
                    assert(s[key_index(old(self)@, k)].0 == k);
                } else {
                    assert(s[s.len() - 1].0 == k);
                }
            }
            assert(self.map() =~= old(self).map().insert(k, v));
        }
    }

    /// Removes the entry named `key`, if there is one; the others keep their order.
    pub fn remove(&mut self, key: &str)
        requires
            old(self).wf(),
        ensures
            final(self).wf(),
            final(self)@ == without_key(old(self)@, key@),
            final(self).map() == old(self).map().remove(key@),
    {
        let k = String::from_str(key);
        let ghost kv = k@;
        if let Some(i) = self.position(&k) {
            self.entries.remove(i);
            proof {
                let o = old(self)@;
                let s = self@;
                assert(s =~= o.remove(i as int));
                assert forall|a: int, b: int| 0 <= a < b < s.len() implies s[a].0 != s[b].0 by {
                    let a0 = if a < i { a } else { a + 1 };
                    let b0 = if b < i { b } else { b + 1 };
                    assert(s[a] == o[a0] && s[b] == o[b0]);
                }
                assert forall|q: Seq<char>| #[trigger]
                    self.map().contains_key(q) implies to_map(o).remove(kv).contains_key(q)
                    && self.map()[q] == to_map(o).remove(kv)[q] by {
                    let j = key_index(s, q);
                    lemma_entry_in_map(s, j);
                    let j0 = if j < i { j } else { j + 1 };
                    assert(s[j] == o[j0]);
                    lemma_entry_in_map(o, j0);
                }
                assert forall|q: Seq<char>| #[trigger]
                    to_map(o).remove(kv).contains_key(q) implies self.map().contains_key(q) by {
                    let j = key_index(o, q);
                    assert(j != i);
                    let j1 = if j < i { j } else { j - 1 };
                    assert(s[j1] == o[j]);
                }
                assert(self.map() =~= to_map(o).remove(kv));
            }
        } else {
            proof {
                assert(old(self).map().remove(kv) =~= old(self).map());
            }
        }
    }
}

} // verus!
