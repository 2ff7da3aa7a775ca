//! A map from strings to strings, used for request headers, cookies and the
//! uuid keystore.
//!
//! The entries are kept in a vector with no key twice; the map's view is the
//! mathematical map from each key to its value.
use vstd::prelude::*;

verus! {

/// Whether no two entries share a key.
pub open spec fn keys_unique(e: Seq<(String, String)>) -> bool {
    forall|i: int, j: int| 0 <= i < e.len() && 0 <= j < e.len() && i != j ==> e[i].0@ != e[j].0@
}

/// The mathematical map that a list of entries with distinct keys stands for.
pub open spec fn entries_map(e: Seq<(String, String)>) -> Map<Seq<char>, Seq<char>> {
    Map::new(
        |k: Seq<char>| exists|i: int| 0 <= i < e.len() && e[i].0@ == k,
        |k: Seq<char>| e[choose|i: int| 0 <= i < e.len() && e[i].0@ == k].1@,
    )
}

/// With distinct keys, the entry at `i` gives the map's value for its key.
pub proof fn lemma_entries_map_at(e: Seq<(String, String)>, i: int)
    requires
        keys_unique(e),
        0 <= i < e.len(),
    ensures
        entries_map(e).contains_key(e[i].0@),
        entries_map(e)[e[i].0@] == e[i].1@,
{
    let k = e[i].0@;
    assert(exists|j: int| 0 <= j < e.len() && e[j].0@ == k);
    let j = choose|j: int| 0 <= j < e.len() && e[j].0@ == k;
    assert(j == i);
}

/// Appending an entry with a new key inserts it into the map.
pub proof fn lemma_entries_map_push(e: Seq<(String, String)>, k: String, v: String)
    requires
        keys_unique(e),
        !entries_map(e).contains_key(k@),
    ensures
        keys_unique(e.push((k, v))),
        entries_map(e.push((k, v))) =~= entries_map(e).insert(k@, v@),
{
    let f = e.push((k, v));
    assert forall|i: int, j: int|
        0 <= i < f.len() && 0 <= j < f.len() && i != j implies f[i].0@ != f[j].0@ by {
        if i == e.len() as int {
            assert(e[j].0@ == f[j].0@);
        } else if j == e.len() as int {
            assert(e[i].0@ == f[i].0@);
        }
    }
    assert forall|key: Seq<char>| #[trigger]
        entries_map(f).contains_key(key) implies entries_map(e).insert(k@, v@).contains_key(
        key,
    ) by {
        let i = choose|i: int| 0 <= i < f.len() && f[i].0@ == key;
        if i < e.len() {
            assert(e[i].0@ == key);
        }
    }
    assert forall|key: Seq<char>| #[trigger]
        entries_map(e).insert(k@, v@).contains_key(key) implies entries_map(f).contains_key(key)
        && entries_map(f)[key] == entries_map(e).insert(k@, v@)[key] by {
        if key == k@ {
            lemma_entries_map_at(f, e.len() as int);
        } else {
            let i = choose|i: int| 0 <= i < e.len() && e[i].0@ == key;
            lemma_entries_map_at(e, i);
            assert(f[i] == e[i]);
            lemma_entries_map_at(f, i);
        }
    }
}

/// Replacing the value of the entry at `i` updates that key in the map.
pub proof fn lemma_entries_map_update(e: Seq<(String, String)>, i: int, v: String)
    requires
        keys_unique(e),
        0 <= i < e.len(),
    ensures
        keys_unique(e.update(i, (e[i].0, v))),
        entries_map(e.update(i, (e[i].0, v))) =~= entries_map(e).insert(e[i].0@, v@),
{
    let k = e[i].0;
    let f = e.update(i, (k, v));
    assert forall|a: int, b: int|
        0 <= a < f.len() && 0 <= b < f.len() && a != b implies f[a].0@ != f[b].0@ by {
        assert(f[a].0@ == e[a].0@);
        assert(f[b].0@ == e[b].0@);
    }
    assert forall|key: Seq<char>| #[trigger]
        entries_map(f).contains_key(key) implies entries_map(e).contains_key(key) by {
        let a = choose|a: int| 0 <= a < f.len() && f[a].0@ == key;
        assert(e[a].0@ == key);
    }
    assert forall|key: Seq<char>| #[trigger]
        entries_map(e).insert(k@, v@).contains_key(key) implies entries_map(f).contains_key(key)
        && entries_map(f)[key] == entries_map(e).insert(k@, v@)[key] by {
        if key == k@ {
            lemma_entries_map_at(f, i);
        } else {
            let a = choose|a: int| 0 <= a < e.len() && e[a].0@ == key;
            lemma_entries_map_at(e, a);
            assert(f[a] == e[a]);
            lemma_entries_map_at(f, a);
        }
    }
}

/// A map from strings to strings.
pub struct StringMap {
    entries: Vec<(String, String)>,
}

impl View for StringMap {
    type V = Map<Seq<char>, Seq<char>>;

    closed spec fn view(&self) -> Map<Seq<char>, Seq<char>> {
        entries_map(self.entries@)
    }
}

impl StringMap {
    #[verifier::type_invariant]
    closed spec fn inv(self) -> bool {
        keys_unique(self.entries@)
    }

    /// The entries in the order in which their keys were first inserted.
    pub closed spec fn entry_seq(&self) -> Seq<(String, String)> {
        self.entries@
    }

    /// An empty map.
    pub fn new() -> (r: StringMap)
        ensures
            r@ == Map::<Seq<char>, Seq<char>>::empty(),
            r.entry_seq().len() == 0,
    {
        let r = StringMap { entries: Vec::new() };
        assert(r@ =~= Map::<Seq<char>, Seq<char>>::empty());
        r
    }

    /// The number of keys.
    pub fn len(&self) -> (r: usize)
        ensures
            r == self.entry_seq().len(),
            keys_unique(self.entry_seq()),
            self@ == entries_map(self.entry_seq()),
    {
        proof {
            use_type_invariant(self);
        }
        self.entries.len()
    }

    /// The key and value of the entry at position `i`.
    pub fn entry(&self, i: usize) -> (r: (&String, &String))
        requires
            i < self.entry_seq().len(),
        ensures
            *r.0 == self.entry_seq()[i as int].0,
            *r.1 == self.entry_seq()[i as int].1,
    {
        let e = &self.entries[i];
        (&e.0, &e.1)
    }

    /// The position of `key` among the entries.
    fn position(&self, key: &String) -> (r: Option<usize>)
        ensures
            r matches Some(i) ==> i < self.entries@.len() && self.entries@[i as int].0@ == key@,
            r is None ==> !self@.contains_key(key@),
    {
        let mut i: usize = 0;
        while i < self.entries.len()
            invariant
                i <= self.entries@.len(),
                forall|j: int| 0 <= j < i ==> self.entries@[j].0@ != key@,
            decreases self.entries.len() - i,
        {
            if self.entries[i].0 == *key {
                return Some(i);
            }
            i = i + 1;
        }
        None
    }

    /// The value stored for `key`, if any.
    pub fn get(&self, key: &str) -> (r: Option<&String>)
        ensures
            r is Some <==> self@.contains_key(key@),
            r matches Some(v) ==> v@ == self@[key@],
    {
        proof {
            use_type_invariant(self);
        }
        let k = key.to_owned();
        match self.position(&k) {
            Some(i) => {
                proof {
                    lemma_entries_map_at(self.entries@, i as int);
                }
                Some(&self.entries[i].1)
            },
            None => None,
        }
    }

    /// Whether `key` has a value.
    pub fn contains_key(&self, key: &str) -> (r: bool)
        ensures
            r == self@.contains_key(key@),
    {
        self.get(key).is_some()
    }

    /// Stores `value` for `key`, replacing what was stored for it.
    pub fn insert(&mut self, key: String, value: String)
        ensures
            final(self)@ == old(self)@.insert(key@, value@),
            old(self)@.contains_key(key@) ==> final(self).entry_seq().len() == old(
                self,
            ).entry_seq().len(),
            !old(self)@.contains_key(key@) ==> final(self).entry_seq() == old(
                self,
            ).entry_seq().push((key, value)),
    {
        proof {
            use_type_invariant(&*self);
        }
        match self.position(&key) {
            Some(i) => {
                let ghost e = self.entries@;
                let k = self.entries[i].0.clone();
                proof {
                    lemma_entries_map_update(e, i as int, value);
                    assert(e.update(i as int, (e[i as int].0, value)) == e.update(
                        i as int,
                        (k, value),
                    ));
                }
                let mut e2: Vec<(String, String)> = Vec::new();
                std::mem::swap(&mut e2, &mut self.entries);
                e2.set(i, (k, value));
                self.entries = e2;
            },
            None => {
                proof {
                    lemma_entries_map_push(self.entries@, key, value);
                }
                let mut e2: Vec<(String, String)> = Vec::new();
                std::mem::swap(&mut e2, &mut self.entries);
                e2.push((key, value));
                self.entries = e2;
            },
        }
    }
}

} // verus!
