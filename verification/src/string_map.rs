//! A small map from text to text that remembers insertion order. It holds
//! the headers of requests and responses and the data of a session.

use vstd::prelude::*;
use crate::text::{bytes_eq, text_bytes};
use crate::utf8::string_bytes;

verus! {

/// One entry of a map, as UTF-8 bytes.
pub ghost struct Entry {
    pub key: Seq<u8>,
    pub value: Seq<u8>,
}

/// Index of the first entry at or after `i` whose key is `key`.
pub open spec fn key_index_from(entries: Seq<Entry>, key: Seq<u8>, i: int) -> Option<int>
    decreases entries.len() - i,
{
    if i < 0 || i >= entries.len() {
        None
    } else if entries[i].key == key {
        Some(i)
    } else {
        key_index_from(entries, key, i + 1)
    }
}

/// Index of the entry whose key is `key`.
pub open spec fn key_index(entries: Seq<Entry>, key: Seq<u8>) -> Option<int> {
    key_index_from(entries, key, 0)
}

/// The value stored under `key`.
pub open spec fn lookup(entries: Seq<Entry>, key: Seq<u8>) -> Option<Seq<u8>> {
    match key_index(entries, key) {
        Some(i) => Some(entries[i].value),
        None => None,
    }
}

/// The entries after storing `value` under `key`: the value replaces the
/// one that `key` had, in place, or the entry is added at the end.
pub open spec fn put(entries: Seq<Entry>, key: Seq<u8>, value: Seq<u8>) -> Seq<Entry> {
    match key_index(entries, key) {
        Some(i) => entries.update(i, Entry { key, value }),
        None => entries.push(Entry { key, value }),
    }
}

/// No key occurs twice.
pub open spec fn distinct_keys(entries: Seq<Entry>) -> bool {
    forall|i: int, j: int|
        0 <= i < j < entries.len() ==> (#[trigger] entries[i]).key != (#[trigger] entries[j]).key
}

/// What `key_index_from` finds is an entry with that key, and no earlier
/// entry has it.
pub proof fn lemma_key_index(entries: Seq<Entry>, key: Seq<u8>, i: int)
    requires
        0 <= i,
    ensures
        match key_index_from(entries, key, i) {
            Some(k) => i <= k < entries.len() && entries[k].key == key && forall|j: int|
                i <= j < k ==> (#[trigger] entries[j]).key != key,
            None => forall|j: int| i <= j < entries.len() ==> (#[trigger] entries[j]).key != key,
        },
    decreases entries.len() - i,
{
    if i < entries.len() && entries[i].key != key {
        lemma_key_index(entries, key, i + 1);
    }
}

/// Storing a value keeps the keys distinct, makes the key map to the value
/// and leaves every other key as it was.
pub proof fn lemma_put(entries: Seq<Entry>, key: Seq<u8>, value: Seq<u8>, other: Seq<u8>)
    requires
        distinct_keys(entries),
    ensures
        distinct_keys(put(entries, key, value)),
        lookup(put(entries, key, value), key) == Some(value),
        other != key ==> lookup(put(entries, key, value), other) == lookup(entries, other),
{
    let after = put(entries, key, value);
    lemma_key_index(entries, key, 0);
    lemma_key_index(after, key, 0);
    lemma_key_index(entries, other, 0);
    lemma_key_index(after, other, 0);
    match key_index(entries, key) {
        Some(i) => {
            assert(after[i].key == key);
            assert forall|a: int, b: int| 0 <= a < b < after.len() implies (#[trigger] after[a]).key
                != (#[trigger] after[b]).key by {
                assert(after[a].key == entries[a].key);
                assert(after[b].key == entries[b].key);
            }
            assert(key_index(after, key) == Some(i)) by {
                let k = key_index(after, key)->0;
                if k < i {
                    assert(after[k].key == entries[k].key);
                }
            }
            if other != key {
                match key_index(entries, other) {
                    Some(m) => {
                        assert(after[m] == entries[m]);
                        let k = key_index(after, other)->0;
                        if key_index(after, other) is None || k != m {
                            if key_index(after, other) is Some {
                                assert(after[k].key == entries[k].key);
                            }
                        }
                    },
                    None => {
                        if key_index(after, other) is Some {
                            let k = key_index(after, other)->0;
                            assert(after[k].key == entries[k].key);
                        }
                    },
                }
            }
        },
        None => {
            let n = entries.len() as int;
            assert(after[n].key == key);
            assert forall|a: int, b: int| 0 <= a < b < after.len() implies (#[trigger] after[a]).key
                != (#[trigger] after[b]).key by {
                assert(after[a] == entries[a]);
                if b < n {
                    assert(after[b] == entries[b]);
                }
            }
            assert(key_index(after, key) == Some(n)) by {
                let k = key_index(after, key)->0;
                if k < n {
                    assert(after[k] == entries[k]);
                }
            }
            if other != key {
                match key_index(entries, other) {
                    Some(m) => {
                        assert(after[m] == entries[m]);
                        let k = key_index(after, other)->0;
                        if key_index(after, other) is Some && k < m {
                            assert(after[k] == entries[k]);
                        }
                    },
                    None => {
                        if key_index(after, other) is Some {
                            let k = key_index(after, other)->0;
                            if k < n {
                                assert(after[k] == entries[k]);
                            }
                        }
                    },
                }
            }
        },
    }
}

/// A map from text to text. A key maps to the value stored last under it;
/// the entries keep the order in which their keys were first stored.
#[derive(Debug, Clone)]
pub struct StringMap {
    entries: Vec<(String, String)>,
}

impl View for StringMap {
    type V = Seq<Entry>;

    closed spec fn view(&self) -> Seq<Entry> {
        Seq::new(
            self.entries@.len(),
            |i: int|
                Entry {
                    key: text_bytes(self.entries@[i].0@),
                    value: text_bytes(self.entries@[i].1@),
                },
        )
    }
}

impl StringMap {
    /// The empty map.
    pub fn new() -> (r: StringMap)
        ensures
            r@ == Seq::<Entry>::empty(),
    {
        let r = StringMap { entries: Vec::new() };
        assert(r@ =~= Seq::<Entry>::empty());
        r
    }

    /// Number of entries.
    pub fn len(&self) -> (n: usize)
        ensures
            n == self@.len(),
    {
        self.entries.len()
    }

    /// Key of the entry at `index`.
    pub fn key_at(&self, index: usize) -> (r: &String)
        requires
            index < self@.len(),
        ensures
            text_bytes(r@) == self@[index as int].key,
    {
        &self.entries[index].0
    }

    /// Value of the entry at `index`.
    pub fn value_at(&self, index: usize) -> (r: &String)
        requires
            index < self@.len(),
        ensures
            text_bytes(r@) == self@[index as int].value,
    {
        &self.entries[index].1
    }

    /// Index of the entry whose key is `key`.
    pub fn position(&self, key: &[u8]) -> (r: Option<usize>)
        ensures
            match r {
                Some(i) => key_index(self@, key@) == Some(i as int) && i < self@.len(),
                None => key_index(self@, key@) is None,
            },
    {
        let mut i: usize = 0;
        while i < self.entries.len()
            invariant
                i <= self.entries@.len(),
                key_index(self@, key@) == key_index_from(self@, key@, i as int),
            decreases self.entries@.len() - i,
        {
            if bytes_eq(string_bytes(&self.entries[i].0), key) {
                return Some(i);
            }
            i += 1;
        }
        None
    }

    /// The value stored under `key`.
    pub fn get(&self, key: &str) -> (r: Option<&String>)
        ensures
            match r {
                Some(v) => lookup(self@, text_bytes(key@)) == Some(text_bytes(v@)),
                None => lookup(self@, text_bytes(key@)) is None,
            },
    {
        match self.position(key.as_bytes()) {
            Some(i) => Some(&self.entries[i].1),
            None => None,
        }
    }

    /// Whether a value is stored under `key`.
    pub fn contains_key(&self, key: &str) -> (r: bool)
        ensures
            r == lookup(self@, text_bytes(key@)).is_some(),
    {
        self.position(key.as_bytes()).is_some()
    }

    /// Stores `value` under `key`. A value that `key` already had is
    /// replaced; the entry keeps its place. Keys that were distinct stay
    /// distinct.
    pub fn insert(&mut self, key: String, value: String)
        ensures
            final(self)@ == put(old(self)@, text_bytes(key@), text_bytes(value@)),
            distinct_keys(old(self)@) ==> distinct_keys(final(self)@),
    {
        proof {
            if distinct_keys(self@) {
                lemma_put(self@, text_bytes(key@), text_bytes(value@), text_bytes(key@));
            }
        }
        let ghost before = self@;
        let found = self.position(string_bytes(&key));
        match found {
            Some(i) => {
                self.entries[i] = (key, value);
                assert(self@ =~= before.update(
                    i as int,
                    Entry { key: text_bytes(key@), value: text_bytes(value@) },
                ));
            },
            None => {
                self.entries.push((key, value));
                assert(self@ =~= before.push(
                    Entry { key: text_bytes(key@), value: text_bytes(value@) },
                ));
            },
        }
    }

    /// A copy of the map.
    pub fn duplicate(&self) -> (r: StringMap)
        ensures
            r@ == self@,
    {
        let mut entries: Vec<(String, String)> = Vec::new();
        let mut i: usize = 0;
        while i < self.entries.len()
            invariant
                i <= self.entries@.len(),
                entries@.len() == i,
                forall|k: int|
                    0 <= k < i ==> (#[trigger] entries@[k]).0@ == self.entries@[k].0@
                        && entries@[k].1@ == self.entries@[k].1@,
            decreases self.entries@.len() - i,
        {
            entries.push((self.entries[i].0.clone(), self.entries[i].1.clone()));
            i += 1;
        }
        let ghost want = self@;
        let r = StringMap { entries };
        assert(r@ =~= want);
        r
    }
}

} // verus!
