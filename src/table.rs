//! A table of values keyed by name, in order of first insertion.

use vstd::prelude::*;
use std::collections::HashMap;
use crate::text::{chars_of, same_chars};

verus! {

/// Values keyed by name. Each name occurs once; names keep the order in
/// which they were first inserted.
#[derive(Clone, Debug)]
pub struct NameTable<V> {
    names: Vec<String>,
    name_chars: Vec<Vec<char>>,
    values: Vec<V>,
    /// Where each name stands; consulted as a hint.
    slots: HashMap<String, usize>,
}

impl<V> NameTable<V> {
    /// The names, in order of first insertion.
    pub closed spec fn keys(&self) -> Seq<Seq<char>> {
        self.names@.map_values(|s: String| s@)
    }

    /// The values, in the order of their names.
    pub closed spec fn entries(&self) -> Seq<V> {
        self.values@
    }

    /// Names are unique and each has its value.
    pub closed spec fn wf(&self) -> bool {
        &&& self.name_chars@.len() == self.names@.len()
        &&& self.values@.len() == self.names@.len()
        &&& forall|i: int| 0 <= i < self.names@.len() ==> (#[trigger] self.name_chars@[i])@ == self.names@[i]@
        &&& self.keys().no_duplicates()
    }

    /// Names are unique and each has one value.
    pub proof fn lemma_keys_unique(&self)
        requires
            self.wf(),
        ensures
            self.keys().no_duplicates(),
            self.entries().len() == self.keys().len(),
    {
    }

    /// An empty table.
    pub fn new() -> (r: NameTable<V>)
        ensures
            r.wf(),
            r.keys().len() == 0,
            r.entries().len() == 0,
    {
        let r = NameTable { names: Vec::new(), name_chars: Vec::new(), values: Vec::new(), slots: HashMap::new() };
        assert(r.keys() =~= Seq::empty());
        r
    }

    /// The number of names.
    pub fn len(&self) -> (r: usize)
        requires
            self.wf(),
        ensures
            r == self.keys().len(),
    {
        self.names.len()
    }

    /// Where `key` (with characters `chars`) stands.
    fn position(&self, key: &str, chars: &Vec<char>) -> (r: Option<usize>)
        requires
            self.wf(),
            chars@ == key@,
        ensures
            match r {
                Some(i) => i < self.keys().len() && self.keys()[i as int] == key@,
                None => !self.keys().contains(key@),
            },
    {
        match self.slots.get(key) {
            Some(slot) => {
                let i = *slot;
                if i < self.name_chars.len() && same_chars(&self.name_chars[i], chars) {
                    return Some(i);
                }
            },
            None => {},
        }
        let mut i: usize = 0;
        while i < self.name_chars.len()
            invariant
                self.wf(),
                chars@ == key@,
                i <= self.keys().len(),
                forall|k: int| 0 <= k < i ==> self.keys()[k] != key@,
            decreases self.name_chars.len() - i,
        {
            if same_chars(&self.name_chars[i], chars) {
                return Some(i);
            }
            i += 1;
        }
        None
    }

    /// The name at position `i`.
    pub fn name_at(&self, i: usize) -> (r: &String)
        requires
            self.wf(),
            i < self.keys().len(),
        ensures
            r@ == self.keys()[i as int],
    {
        &self.names[i]
    }

    /// The value at position `i`.
    pub fn value_at(&self, i: usize) -> (r: &V)
        requires
            self.wf(),
            i < self.keys().len(),
        ensures
            *r == self.entries()[i as int],
    {
        &self.values[i]
    }

    /// Whether `key` is in the table.
    pub fn contains_key(&self, key: &str) -> (r: bool)
        requires
            self.wf(),
        ensures
            r == self.keys().contains(key@),
    {
        let chars = chars_of(key);
        self.position(key, &chars).is_some()
    }

    /// The value of `key`, if it is in the table.
    pub fn get(&self, key: &str) -> (r: Option<&V>)
        requires
            self.wf(),
        ensures
            match r {
                Some(v) => exists|i: int|
                    0 <= i < self.keys().len() && self.keys()[i] == key@ && self.entries()[i] == *v,
                None => !self.keys().contains(key@),
            },
    {
        let chars = chars_of(key);
        match self.position(key, &chars) {
            Some(i) => Some(&self.values[i]),
            None => None,
        }
    }

    /// Sets the value of `key`: in place when the name is present, else
    /// appended.
    pub fn insert(&mut self, key: String, value: V)
        requires
            old(self).wf(),
        ensures
            final(self).wf(),
            old(self).keys().contains(key@) ==> exists|i: int|
                0 <= i < old(self).keys().len() && old(self).keys()[i] == key@ && final(self).keys()
                    == old(self).keys() && final(self).entries() == old(self).entries().update(i, value),
            !old(self).keys().contains(key@) ==> final(self).keys() == old(self).keys().push(key@)
                && final(self).entries() == old(self).entries().push(value),
    {
        let chars = chars_of(key.as_str());
        match self.position(key.as_str(), &chars) {
            Some(i) => {
                self.values.set(i, value);
            },
            None => {
                let slot = self.names.len();
                self.slots.insert(key.clone(), slot);
                let ghost k0 = self.keys();
                self.names.push(key);
                self.name_chars.push(chars);
                self.values.push(value);
                assert(self.keys() =~= k0.push(chars@));
                assert(self.keys().no_duplicates()) by {
                    assert forall|a: int, b: int|
                        0 <= a < self.keys().len() && 0 <= b < self.keys().len() && a != b implies self.keys()[a]
                        != self.keys()[b] by {
                        if a < k0.len() && b < k0.len() {
                        } else if a < k0.len() {
                            assert(k0[a] == self.keys()[a]);
                        } else {
                            assert(k0[b] == self.keys()[b]);
                        }
                    }
                }
            },
        }
    }
}

impl NameTable<Vec<usize>> {
    /// Appends `item` to the list of `key`, starting an empty list for a new
    /// name.
    pub fn push_to(&mut self, key: String, item: usize)
        requires
            old(self).wf(),
        ensures
            final(self).wf(),
            old(self).keys().contains(key@) ==> exists|i: int|
                0 <= i < old(self).keys().len() && old(self).keys()[i] == key@ && final(self).keys()
                    == old(self).keys() && final(self).entries() == old(self).entries().update(
                    i,
                    final(self).entries()[i],
                ) && final(self).entries()[i]@ == old(self).entries()[i]@.push(item),
            !old(self).keys().contains(key@) ==> final(self).keys() == old(self).keys().push(key@)
                && final(self).entries().len() == old(self).entries().len() + 1
                && final(self).entries().drop_last() == old(self).entries()
                && final(self).entries().last()@ == seq![item],
    {
        let chars = chars_of(key.as_str());
        match self.position(key.as_str(), &chars) {
            Some(i) => {
                self.values[i].push(item);
                assert(self.values@ =~= old(self).values@.update(i as int, self.values@[i as int]));
            },
            None => {
                let mut list: Vec<usize> = Vec::new();
                list.push(item);
                assert(list@ =~= seq![item]);
                self.insert(key, list);
                assert(self.entries().drop_last() =~= old(self).entries());
            },
        }
    }
}

} // verus!
