//! A map from strings to strings that keeps its entries in the order in
//! which their keys first came.

use vstd::prelude::*;
use vstd::string::*;

verus! {

/// A finite map from strings to strings, kept as a list of entries. It is
/// well formed when no key occurs twice among them.
#[derive(Debug)]
pub struct StringMap {
    entries: Vec<(String, String)>,
}

impl StringMap {
    /// No key occurs twice among the entries.
    pub closed spec fn wf(&self) -> bool {
        forall|i: int, j: int|
            0 <= i < j < self.entries@.len() ==> (#[trigger] self.entries@[i]).0@ != (
            #[trigger] self.entries@[j]).0@
    }

    /// The keys, in the order in which they first came.
    pub closed spec fn keys(&self) -> Seq<Seq<char>> {
        Seq::new(self.entries@.len(), |i: int| self.entries@[i].0@)
    }

    /// The values, each at the position of its key.
    pub closed spec fn values(&self) -> Seq<Seq<char>> {
        Seq::new(self.entries@.len(), |i: int| self.entries@[i].1@)
    }

    /// The map that the entries stand for.
    pub open spec fn view(&self) -> Map<Seq<char>, Seq<char>> {
        Map::new(
            |k: Seq<char>| self.keys().contains(k),
            |k: Seq<char>| self.values()[self.keys().index_of(k)],
        )
    }

    /// An empty map.
    pub fn new() -> (res: StringMap)
        ensures
            res.wf(),
            res@ == Map::<Seq<char>, Seq<char>>::empty(),
            res.keys().len() == 0,
    {
        let res = StringMap { entries: Vec::new() };
        assert(res@ =~= Map::<Seq<char>, Seq<char>>::empty());
        res
    }

    /// The number of entries.
    pub fn len(&self) -> (res: usize)
        ensures
            res == self.keys().len(),
            res == self.values().len(),
    {
        self.entries.len()
    }

    /// The key of the entry at position `i`.
    pub fn key_at(&self, i: usize) -> (res: &String)
        requires
            i < self.keys().len(),
        ensures
            res@ == self.keys()[i as int],
    {
        &self.entries[i].0
    }

    /// The value of the entry at position `i`.
    pub fn value_at(&self, i: usize) -> (res: &String)
        requires
            i < self.keys().len(),
        ensures
            res@ == self.values()[i as int],
            self.wf() ==> self@.contains_key(self.keys()[i as int]) && self@[self.keys()[i as int]]
                == res@,
    {
        proof {
            if self.wf() {
                assert(self.keys()[i as int] == self.keys()[i as int]);
                assert(self.keys().contains(self.keys()[i as int]));
                let p = self.keys().index_of(self.keys()[i as int]);
                assert(p == i);
            }
        }
        &self.entries[i].1
    }

    /// The position of `key` among the entries, if it is there.
    fn position(&self, key: &String) -> (res: Option<usize>)
        ensures
            match res {
                Some(i) => i < self.keys().len() && self.keys()[i as int] == key@,
                None => !self.keys().contains(key@),
            },
    {
        let mut i: usize = 0;
        while i < self.entries.len()
            invariant
                i <= self.entries@.len(),
                forall|k: int| 0 <= k < i ==> self.keys()[k] != key@,
            decreases self.entries@.len() - i,
        {
            if self.entries[i].0 == *key {
                return Some(i);
            }
            i += 1;
        }
        None
    }

    /// The value stored under `key`, if there is one.
    pub fn get(&self, key: &str) -> (res: Option<&String>)
        requires
            self.wf(),
        ensures
            match res {
                Some(v) => self@.contains_key(key@) && v@ == self@[key@],
                None => !self@.contains_key(key@),
            },
    {
        let owned = key.to_owned();
        match self.position(&owned) {
            Some(i) => {
                assert(self.keys().index_of(key@) == i);
                Some(&self.entries[i].1)
            },
            None => None,
        }
    }

    /// Stores `value` under `key`, in place of what was stored there before.
    pub fn insert(&mut self, key: String, value: String)
        requires
            old(self).wf(),
        ensures
            final(self).wf(),
            final(self)@ == old(self)@.insert(key@, value@),
    {
        let ghost before = *self;
        match self.position(&key) {
            Some(i) => {
                let ghost k = key@;
                self.entries.set(i, (key, value));
                assert(self.keys() =~= before.keys());
                assert(self.values() =~= before.values().update(i as int, value@));
                assert(before.keys().index_of(k) == i);
                assert forall|q: Seq<char>| self.keys().contains(q) implies #[trigger] self@[q]
                    == before@.insert(k, value@)[q] by {
                    let p = self.keys().index_of(q);
                    if q != k {
                        assert(p != i);
                    }
                }
                assert(self@ =~= before@.insert(k, value@));
                assert forall|a: int, b: int| 0 <= a < b < self.entries@.len() implies (
                #[trigger] self.entries@[a]).0@ != (#[trigger] self.entries@[b]).0@ by {
                    assert(self.keys()[a] == before.keys()[a]);
                    assert(self.keys()[b] == before.keys()[b]);
                    assert(before.entries@[a].0@ != before.entries@[b].0@);
                }
            },
            None => {
                let ghost k = key@;
                self.entries.push((key, value));
                assert(self.keys() =~= before.keys().push(k));
                assert(self.values() =~= before.values().push(value@));
                assert forall|q: Seq<char>| #[trigger] self.keys().contains(q) == (
                before.keys().contains(q) || q == k) by {
                    if before.keys().contains(q) {
                        let p = before.keys().index_of(q);
                        assert(self.keys()[p] == q);
                    }
                    if q == k {
                        assert(self.keys()[before.keys().len() as int] == q);
                    }
                }
                assert forall|q: Seq<char>| self.keys().contains(q) implies #[trigger] self@[q]
                    == before@.insert(k, value@)[q] by {
                    let p = self.keys().index_of(q);
                    if q != k {
                        let earlier = before.keys().index_of(q);
                        assert(self.keys()[earlier] == q);
                        assert(p == earlier);
                    } else {
                        assert(p == before.keys().len());
                    }
                }
                assert(self@ =~= before@.insert(k, value@));
                assert forall|a: int, b: int| 0 <= a < b < self.entries@.len() implies (
                #[trigger] self.entries@[a]).0@ != (#[trigger] self.entries@[b]).0@ by {
                    assert(self.keys()[a] == before.keys()[a]);
                    if b < before.entries@.len() {
                        assert(self.keys()[b] == before.keys()[b]);
                        assert(before.entries@[a].0@ != before.entries@[b].0@);
                    } else {
                        assert(before.keys().contains(before.keys()[a]));
                    }
                }
            },
        }
    }
}

} // verus!
