//! An insertion-ordered property map keyed by `PropKey`.

use vstd::prelude::*;
use crate::mutation::{PropKey, PropValue};

verus! {

/// No key occurs twice in `entries`.
pub open spec fn keys_distinct(entries: Seq<(PropKey, PropValue)>) -> bool {
    forall|i: int, j: int|
        0 <= i < entries.len() && 0 <= j < entries.len() && i != j ==> entries[i].0
            != entries[j].0
}

/// `key` occurs in `entries`.
pub open spec fn has_key(entries: Seq<(PropKey, PropValue)>, key: PropKey) -> bool {
    exists|i: int| 0 <= i < entries.len() && entries[i].0 == key
}

/// The position of `key` in `entries` (meaningful when the key occurs).
pub open spec fn key_index(entries: Seq<(PropKey, PropValue)>, key: PropKey) -> int {
    choose|i: int| 0 <= i < entries.len() && entries[i].0 == key
}

/// The value stored under `key`, if any.
pub open spec fn lookup(entries: Seq<(PropKey, PropValue)>, key: PropKey) -> Option<PropValue> {
    if has_key(entries, key) {
        Some(entries[key_index(entries, key)].1)
    } else {
        None
    }
}

/// The entries after setting `key` to `value`: an existing entry keeps its position and
/// takes the new value; a new key goes to the end.
pub open spec fn entries_insert(
    entries: Seq<(PropKey, PropValue)>,
    key: PropKey,
    value: PropValue,
) -> Seq<(PropKey, PropValue)> {
    if has_key(entries, key) {
        entries.update(key_index(entries, key), (key, value))
    } else {
        entries.push((key, value))
    }
}

/// The entries after removing `key`; the others keep their order.
pub open spec fn entries_remove(entries: Seq<(PropKey, PropValue)>, key: PropKey) -> Seq<
    (PropKey, PropValue),
> {
    if has_key(entries, key) {
        entries.remove(key_index(entries, key))
    } else {
        entries
    }
}

/// Properties of a node, in the order in which their keys were first set.
#[derive(Clone, Debug, PartialEq)]
pub struct PropMap {
    entries: Vec<(PropKey, PropValue)>,
}

impl View for PropMap {
    type V = Seq<(PropKey, PropValue)>;

    closed spec fn view(&self) -> Seq<(PropKey, PropValue)> {
        self.entries@
    }
}

impl PropMap {
    /// Keys are never repeated.
    pub open spec fn wf(&self) -> bool {
        keys_distinct(self@)
    }

    pub fn new() -> (r: PropMap)
        ensures
            r@ == Seq::<(PropKey, PropValue)>::empty(),
            r.wf(),
    {
        PropMap { entries: Vec::new() }
    }

    pub fn len(&self) -> (r: usize)
        ensures
            r == self@.len(),
    {
        self.entries.len()
    }

    /// The entry at position `i`.
    pub fn entry(&self, i: usize) -> (r: (&PropKey, &PropValue))
        requires
            i < self@.len(),
        ensures
            *r.0 == self@[i as int].0,
            *r.1 == self@[i as int].1,
    {
        (&self.entries[i].0, &self.entries[i].1)
    }

    /// The position of `key`, if it is set.
    pub fn position(&self, key: PropKey) -> (r: Option<usize>)
        requires
            self.wf(),
        ensures
            match r {
                Some(i) => i < self@.len() && self@[i as int].0 == key && has_key(self@, key)
                    && key_index(self@, key) == i,
                None => !has_key(self@, key),
            },
    {
        let mut i: usize = 0;
        while i < self.entries.len()
            invariant
                i <= self.entries@.len(),
                self.wf(),
                forall|j: int| 0 <= j < i ==> self.entries@[j].0 != key,
            decreases self.entries@.len() - i,
        {
            if self.entries[i].0 == key {
                assert(has_key(self@, key));
                let ghost k = key_index(self@, key);
                assert(self@[k].0 == key);
                assert(k == i);
                return Some(i);
            }
            i = i + 1;
        }
        None
    }

    /// Whether no key occurs twice (always so for maps built with `new`, `insert` and
    /// `remove`).
    pub fn keys_are_distinct(&self) -> (r: bool)
        ensures
            r == self.wf(),
    {
        let mut i: usize = 0;
        while i < self.entries.len()
            invariant
                i <= self.entries@.len(),
                forall|a: int, b: int|
                    0 <= a < i && 0 <= b < self.entries@.len() && a != b ==> self.entries@[a].0
                        != self.entries@[b].0,
            decreases self.entries@.len() - i,
        {
            let mut j: usize = 0;
            while j < self.entries.len()
                invariant
                    i < self.entries@.len(),
                    j <= self.entries@.len(),
                    forall|b: int| 0 <= b < j && b != i ==> self.entries@[i as int].0
                        != self.entries@[b].0,
                decreases self.entries@.len() - j,
            {
                if j != i && self.entries[i].0 == self.entries[j].0 {
                    return false;
                }
                j = j + 1;
            }
            i = i + 1;
        }
        true
    }

    /// The value stored under `key`, if any.
    pub fn get(&self, key: PropKey) -> (r: Option<&PropValue>)
        requires
            self.wf(),
        ensures
            match r {
                Some(v) => lookup(self@, key) == Some(*v),
                None => lookup(self@, key) is None,
            },
    {
        match self.position(key) {
            Some(i) => Some(&self.entries[i].1),
            None => None,
        }
    }

    /// Sets `key` to `value`.
    pub fn insert(&mut self, key: PropKey, value: PropValue)
        requires
            old(self).wf(),
        ensures
            final(self).wf(),
            final(self)@ == entries_insert(old(self)@, key, value),
    {
        match self.position(key) {
            Some(i) => {
                self.entries.set(i, (key, value));
            },
            None => {
                self.entries.push((key, value));
            },
        }
        let ghost e = self@;
        assert forall|i: int, j: int|
            0 <= i < e.len() && 0 <= j < e.len() && i != j implies e[i].0 != e[j].0 by {
            if i < old(self)@.len() && j < old(self)@.len() {
            }
        }
    }

    /// Removes `key`, keeping the order of the other entries.
    pub fn remove(&mut self, key: PropKey)
        requires
            old(self).wf(),
        ensures
            final(self).wf(),
            final(self)@ == entries_remove(old(self)@, key),
    {
        match self.position(key) {
            Some(i) => {
                self.entries.remove(i);
                let ghost e = self@;
                let ghost o = old(self)@;
                assert forall|a: int, b: int|
                    0 <= a < e.len() && 0 <= b < e.len() && a != b implies e[a].0 != e[b].0 by {
                    let oa = if a < i { a } else { a + 1 };
                    let ob = if b < i { b } else { b + 1 };
                    assert(e[a] == o[oa]);
                    assert(e[b] == o[ob]);
                }
            },
            None => {},
        }
    }
}

} // verus!
