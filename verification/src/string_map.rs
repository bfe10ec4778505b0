//! A map from strings to values, kept as a list of entries whose keys are
//! pairwise distinct. It stands for the string-keyed `BTreeMap`/`HashMap`
//! tables of the configuration and translation data.

use vstd::prelude::*;
use crate::text::str_equal;

verus! {

/// The map that a list of entries denotes; later entries win.
pub open spec fn entries_map<V>(e: Seq<(String, V)>) -> Map<Seq<char>, V>
    decreases e.len(),
{
    if e.len() == 0 {
        Map::empty()
    } else {
        entries_map(e.drop_last()).insert(e.last().0@, e.last().1)
    }
}

/// No two entries share a key.
pub open spec fn keys_distinct<V>(e: Seq<(String, V)>) -> bool {
    forall|i: int, j: int| 0 <= i < j < e.len() ==> e[i].0@ != e[j].0@
}

/// In a list with distinct keys, the map holds exactly the listed keys, each
/// with its listed value.
pub proof fn lemma_entries_map<V>(e: Seq<(String, V)>)
    requires
        keys_distinct(e),
    ensures
        forall|k: Seq<char>|
            entries_map(e).contains_key(k) <==> exists|i: int| 0 <= i < e.len() && e[i].0@ == k,
        forall|i: int| 0 <= i < e.len() ==> entries_map(e)[#[trigger] e[i].0@] == e[i].1,
        entries_map(e).dom().finite(),
        entries_map(e).len() == e.len(),
    decreases e.len(),
{
    if e.len() > 0 {
        let p = e.drop_last();
        assert(keys_distinct(p));
        lemma_entries_map(p);
        assert forall|k: Seq<char>|
            entries_map(e).contains_key(k) <==> exists|i: int| 0 <= i < e.len() && e[i].0@ == k by {
            if entries_map(e).contains_key(k) && k != e.last().0@ {
                let i = choose|i: int| 0 <= i < p.len() && p[i].0@ == k;
                assert(e[i].0@ == k);
            }
            if exists|i: int| 0 <= i < e.len() && e[i].0@ == k {
                let i = choose|i: int| 0 <= i < e.len() && e[i].0@ == k;
                if i < e.len() - 1 {
                    assert(p[i].0@ == k);
                }
            }
        }
        assert forall|i: int| 0 <= i < e.len() implies entries_map(e)[#[trigger] e[i].0@] == e[i].1 by {
            if i < e.len() - 1 {
                assert(p[i] == e[i]);
                assert(e[i].0@ != e.last().0@);
            }
        }
        assert(!entries_map(p).contains_key(e.last().0@)) by {
            if entries_map(p).contains_key(e.last().0@) {
                let i = choose|i: int| 0 <= i < p.len() && p[i].0@ == e.last().0@;
                assert(e[i].0@ == e[e.len() - 1].0@);
            }
        }
    }
}

/// A string-keyed map with distinct keys, in insertion order.
#[derive(Debug)]
pub struct StringMap<V> {
    entries: Vec<(String, V)>,
}

impl<V> View for StringMap<V> {
    type V = Map<Seq<char>, V>;

    closed spec fn view(&self) -> Map<Seq<char>, V> {
        entries_map(self.entries@)
    }
}

impl<V> StringMap<V> {
    #[verifier::type_invariant]
    closed spec fn wf(self) -> bool {
        keys_distinct(self.entries@)
    }

    /// The entries in insertion order.
    pub closed spec fn items(self) -> Seq<(String, V)> {
        self.entries@
    }

    /// An empty map.
    pub fn new() -> (m: Self)
        ensures
            m@ == Map::<Seq<char>, V>::empty(),
            m.items().len() == 0,
    {
        StringMap { entries: Vec::new() }
    }

    /// The number of entries.
    pub fn len(&self) -> (n: usize)
        ensures
            n == self.items().len(),
            n == self@.len(),
    {
        proof {
            use_type_invariant(self);
            lemma_entries_map(self.entries@);
        }
        self.entries.len()
    }

    /// The entries in insertion order.
    pub fn entries(&self) -> (e: &[(String, V)])
        ensures
            e@ == self.items(),
            keys_distinct(self.items()),
            self@ == entries_map(self.items()),
    {
        proof {
            use_type_invariant(self);
        }
        self.entries.as_slice()
    }

    /// The entries in insertion order, taken out of the map.
    pub fn into_entries(self) -> (e: Vec<(String, V)>)
        ensures
            e@ == self.items(),
            keys_distinct(e@),
            entries_map(e@) == self@,
    {
        proof {
            use_type_invariant(&self);
        }
        self.entries
    }

    /// The position of `key` among the entries, if it is there.
    fn find(&self, key: &str) -> (pos: Option<usize>)
        ensures
            match pos {
                Some(i) => i < self.entries@.len() && self.entries@[i as int].0@ == key@,
                None => forall|i: int| 0 <= i < self.entries@.len() ==> self.entries@[i].0@ != key@,
            },
    {
        let n = self.entries.len();
        for i in 0..n
            invariant
                n == self.entries@.len(),
                forall|j: int| 0 <= j < i ==> self.entries@[j].0@ != key@,
        {
            if str_equal(self.entries[i].0.as_str(), key) {
                return Some(i);
            }
        }
        None
    }

    /// Looks up `key`.
    pub fn get(&self, key: &str) -> (r: Option<&V>)
        ensures
            match r {
                Some(v) => self@.contains_key(key@) && self@[key@] == *v,
                None => !self@.contains_key(key@),
            },
    {
        proof {
            use_type_invariant(self);
            lemma_entries_map(self.entries@);
        }
        match self.find(key) {
            Some(i) => Some(&self.entries[i].1),
            None => None,
        }
    }

    /// Whether `key` is present.
    pub fn contains_key(&self, key: &str) -> (b: bool)
        ensures
            b == self@.contains_key(key@),
    {
        proof {
            use_type_invariant(self);
            lemma_entries_map(self.entries@);
        }
        self.find(key).is_some()
    }

    /// Sets `key` to `value`, replacing any earlier value in place.
    pub fn insert(&mut self, key: String, value: V)
        ensures
            final(self)@ == old(self)@.insert(key@, value),
    {
        proof {
            use_type_invariant(&*self);
            lemma_entries_map(self.entries@);
        }
        let ghost old_entries = self.entries@;
        let mut entries = Vec::new();
        std::mem::swap(&mut entries, &mut self.entries);
        match self.find_in(&entries, key.as_str()) {
            Some(i) => {
                entries.set(i, (key, value));
                proof {
                    assert forall|a: int, b: int| 0 <= a < b < entries@.len() implies entries@[a].0@
                        != entries@[b].0@ by {
                        assert(old_entries[a].0@ != old_entries[b].0@);
                    }
                    lemma_entries_map(entries@);
                    let nm = entries_map(entries@);
                    let om = entries_map(old_entries).insert(key@, value);
                    assert forall|k: Seq<char>| nm.contains_key(k) <==> om.contains_key(k) by {
                        if nm.contains_key(k) {
                            let j = choose|j: int| 0 <= j < entries@.len() && entries@[j].0@ == k;
                            if j != i {
                                assert(old_entries[j].0@ == k);
                            }
                        }
                        if k == key@ {
                            assert(entries@[i as int].0@ == k);
                        }
                        if om.contains_key(k) && k != key@ {
                            let j = choose|j: int| 0 <= j < old_entries.len() && old_entries[j].0@ == k;
                            assert(entries@[j].0@ == k);
                        }
                    }
                    assert forall|k: Seq<char>| nm.contains_key(k) implies nm[k] == om[k] by {
                        let j = choose|j: int| 0 <= j < entries@.len() && entries@[j].0@ == k;
                        assert(nm[entries@[j].0@] == entries@[j].1);
                        if j != i {
                            assert(old_entries[j] == entries@[j]);
                            assert(entries_map(old_entries)[old_entries[j].0@] == old_entries[j].1);
                        }
                    }
                    assert(nm =~= om);
                }
            },
            None => {
                entries.push((key, value));
                proof {
                    assert(entries@.drop_last() =~= old_entries);
                }
            },
        }
        self.entries = entries;
    }

    fn find_in(&self, entries: &Vec<(String, V)>, key: &str) -> (pos: Option<usize>)
        ensures
            match pos {
                Some(i) => i < entries@.len() && entries@[i as int].0@ == key@,
                None => forall|i: int| 0 <= i < entries@.len() ==> entries@[i].0@ != key@,
            },
    {
        let n = entries.len();
        for i in 0..n
            invariant
                n == entries@.len(),
                forall|j: int| 0 <= j < i ==> entries@[j].0@ != key@,
        {
            if str_equal(entries[i].0.as_str(), key) {
                return Some(i);
            }
        }
        None
    }

    /// Sets `key` to `value` unless `key` is already present
    /// (`entry(key).or_insert(value)`).
    pub fn insert_if_absent(&mut self, key: String, value: V)
        ensures
            old(self)@.contains_key(key@) ==> final(self)@ == old(self)@,
            !old(self)@.contains_key(key@) ==> final(self)@ == old(self)@.insert(key@, value),
    {
        if !self.contains_key(key.as_str()) {
            self.insert(key, value);
        }
    }
}

impl<V: Clone> Clone for StringMap<V> {
    /// Copies the map entry by entry: the same keys in the same order, each
    /// value cloned.
    fn clone(&self) -> (c: Self)
        ensures
            c.items().len() == self.items().len(),
            forall|i: int|
                0 <= i < self.items().len() ==> {
                    &&& (#[trigger] c.items()[i]).0 == self.items()[i].0
                    &&& cloned::<V>(self.items()[i].1, c.items()[i].1)
                },
    {
        proof {
            use_type_invariant(self);
        }
        let mut entries: Vec<(String, V)> = Vec::new();
        let n = self.entries.len();
        for i in 0..n
            invariant
                n == self.entries@.len(),
                keys_distinct(self.entries@),
                entries@.len() == i,
                forall|j: int|
                    0 <= j < i ==> {
                        &&& (#[trigger] entries@[j]).0 == self.entries@[j].0
                        &&& cloned::<V>(self.entries@[j].1, entries@[j].1)
                    },
        {
            let k = self.entries[i].0.clone();
            let v = self.entries[i].1.clone();
            entries.push((k, v));
        }
        assert forall|a: int, b: int| 0 <= a < b < entries@.len() implies entries@[a].0@
            != entries@[b].0@ by {
            assert(entries@[a].0 == self.entries@[a].0);
            assert(entries@[b].0 == self.entries@[b].0);
        }
        StringMap { entries }
    }
}

} // verus!
