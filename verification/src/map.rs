//! Maps from names, kept in ascending order of the names.
use vstd::prelude::*;

use crate::names::{ascending, ascending_no_duplicates};
use crate::text::{less, less_irreflexive, less_total, less_transitive, str_eq, str_less};

verus! {

/// A map from names.
#[derive(Debug, PartialEq, Eq)]
pub struct NameMap<V> {
    entries: Vec<(String, V)>,
}

/// The names of entries.
spec fn keys_of<V>(entries: Seq<(String, V)>) -> Seq<Seq<char>> {
    Seq::new(entries.len(), |i: int| entries[i].0@)
}

/// The map that entries stand for.
spec fn map_of<V: View>(entries: Seq<(String, V)>) -> Map<Seq<char>, V::V> {
    Map::new(
        |k: Seq<char>| keys_of(entries).contains(k),
        |k: Seq<char>| entries[keys_of(entries).index_of(k)].1@,
    )
}

/// What the map holds at the name of an entry.
proof fn map_of_entry<V: View>(entries: Seq<(String, V)>, i: int)
    requires
        ascending(keys_of(entries)),
        0 <= i < entries.len(),
    ensures
        map_of(entries).contains_key(entries[i].0@),
        map_of(entries)[entries[i].0@] == entries[i].1@,
{
    let keys = keys_of(entries);
    ascending_no_duplicates(keys);
    assert(keys[i] == entries[i].0@);
    assert(keys.contains(keys[i]));
    let j = keys.index_of(keys[i]);
    assert(keys[j] == keys[i]);
    assert(j == i);
}

impl<V: View> View for NameMap<V> {
    type V = Map<Seq<char>, V::V>;

    closed spec fn view(&self) -> Map<Seq<char>, V::V> {
        map_of(self.entries@)
    }
}

impl<V> NameMap<V> {
    #[verifier::type_invariant]
    spec fn in_order(self) -> bool {
        ascending(keys_of(self.entries@))
    }
}

impl<V: View> NameMap<V> {
    /// The empty map.
    pub fn new() -> (res: NameMap<V>)
        ensures
            res@ == Map::<Seq<char>, V::V>::empty(),
    {
        let res = NameMap { entries: Vec::new() };
        assert(res@ =~= Map::<Seq<char>, V::V>::empty());
        res
    }

    /// The first position whose name is not before `key`.
    fn position(&self, key: &str) -> (res: usize)
        ensures
            res <= self.entries@.len(),
            forall|i: int| 0 <= i < res ==> less((#[trigger] self.entries@[i]).0@, key@),
            forall|i: int|
                res <= i < self.entries@.len() ==> !less((#[trigger] self.entries@[i]).0@, key@),
    {
        proof {
            use_type_invariant(self);
        }
        let mut i: usize = 0;
        while i < self.entries.len() && str_less(self.entries[i].0.as_str(), key)
            invariant
                i <= self.entries@.len(),
                forall|k: int| 0 <= k < i ==> less((#[trigger] self.entries@[k]).0@, key@),
            decreases self.entries@.len() - i,
        {
            i += 1;
        }
        assert forall|k: int| i <= k < self.entries@.len() implies !less(
            (#[trigger] self.entries@[k]).0@,
            key@,
        ) by {
            let keys = keys_of(self.entries@);
            if k > i && less(self.entries@[k].0@, key@) {
                assert(less(keys[i as int], keys[k]));
                less_transitive(keys[i as int], keys[k], key@);
            }
        }
        i
    }

    /// What the map holds at `key`.
    pub fn get(&self, key: &str) -> (res: Option<&V>)
        ensures
            match res {
                Some(value) => self@.contains_key(key@) && self@[key@] == value@,
                None => !self@.contains_key(key@),
            },
    {
        let at = self.position(key);
        proof {
            use_type_invariant(self);
            less_irreflexive(key@);
        }
        if at < self.entries.len() && str_eq(self.entries[at].0.as_str(), key) {
            proof {
                map_of_entry(self.entries@, at as int);
            }
            return Some(&self.entries[at].1);
        }
        proof {
            let keys = keys_of(self.entries@);
            if keys.contains(key@) {
                let k = choose|k: int| 0 <= k < keys.len() && keys[k] == key@;
                assert(self.entries@[k].0@ == key@);
                if k > at {
                    assert(less(keys[at as int], keys[k]));
                    assert(!less(self.entries@[at as int].0@, key@));
                }
            }
        }
        None
    }

    /// Puts `value` at `key`, in place of what was there.
    pub fn insert(&mut self, key: &str, value: V)
        ensures
            final(self)@ == old(self)@.insert(key@, value@),
    {
        proof {
            use_type_invariant(&*self);
        }
        let at = self.position(key);
        let ghost before = self.entries@;
        let ghost keys = keys_of(before);
        let mut entries: Vec<(String, V)> = Vec::new();
        std::mem::swap(&mut entries, &mut self.entries);
        if at < entries.len() && str_eq(entries[at].0.as_str(), key) {
            let _ = entries.remove(at);
            entries.insert(at, (key.to_string(), value));
            proof {
                let after = entries@;
                assert(keys_of(after) =~= keys);
                assert(map_of(after) =~= map_of(before).insert(key@, value@)) by {
                    assert forall|k: Seq<char>| keys.contains(k) implies map_of(after)[k]
                        == map_of(before).insert(key@, value@)[k] by {
                        let i = keys.index_of(k);
                        map_of_entry(after, i);
                        map_of_entry(before, i);
                        map_of_entry(after, at as int);
                        if k == key@ {
                            ascending_no_duplicates(keys);
                            assert(keys[at as int] == k);
                        }
                    }
                    assert(keys.contains(keys[at as int]));
                }
            }
        } else {
            entries.insert(at, (key.to_string(), value));
            proof {
                let after = entries@;
                let now = keys_of(after);
                less_irreflexive(key@);
                assert(now =~= keys.insert(at as int, key@));
                assert forall|i: int, j: int| 0 <= i < j < now.len() implies less(
                    #[trigger] now[i],
                    #[trigger] now[j],
                ) by {
                    let bi = if i < at {
                        i
                    } else {
                        i - 1
                    };
                    let bj = if j < at {
                        j
                    } else {
                        j - 1
                    };
                    if i == at {
                        less_total(keys[bj], key@);
                        assert(!less(before[bj].0@, key@));
                        if keys[bj] == key@ {
                            if bj > at {
                                assert(less(keys[at as int], keys[bj]));
                                assert(!less(before[at as int].0@, key@));
                            }
                        }
                    } else if j != at {
                        assert(less(keys[bi], keys[bj]));
                    } else {
                        assert(less(before[bi].0@, key@));
                    }
                }
                ascending_no_duplicates(now);
                assert(map_of(after) =~= map_of(before).insert(key@, value@)) by {
                    assert forall|k: Seq<char>| now.contains(k) <==> keys.contains(k) || k == key@ by {
                        if keys.contains(k) {
                            let i = keys.index_of(k);
                            if i < at {
                                assert(now[i] == k);
                            } else {
                                assert(now[i + 1] == k);
                            }
                        }
                        if k == key@ {
                            assert(now[at as int] == k);
                        }
                        if now.contains(k) {
                            let i = now.index_of(k);
                            if i < at {
                                assert(keys[i] == k);
                            } else if i > at {
                                assert(keys[i - 1] == k);
                            }
                        }
                    }
                    assert forall|k: Seq<char>| now.contains(k) implies map_of(after)[k] == map_of(
                        before,
                    ).insert(key@, value@)[k] by {
                        let i = now.index_of(k);
                        map_of_entry(after, i);
                        map_of_entry(after, at as int);
                        if i < at {
                            map_of_entry(before, i);
                            assert(after[i] == before[i]);
                        } else if i > at {
                            map_of_entry(before, i - 1);
                            assert(after[i] == before[i - 1]);
                        }
                    }
                }
            }
        }
        self.entries = entries;
    }

    /// How many names there are.
    pub fn len(&self) -> (res: usize)
        ensures
            res == self.keys().len(),
            ascending(self.keys()),
            forall|k: Seq<char>| #[trigger] self.keys().contains(k) <==> self@.contains_key(k),
    {
        proof {
            use_type_invariant(self);
        }
        self.entries.len()
    }

    /// The names, ascending.
    pub closed spec fn keys(&self) -> Seq<Seq<char>> {
        keys_of(self.entries@)
    }

    /// The name and the value at position `i`.
    pub fn entry(&self, i: usize) -> (res: (&str, &V))
        requires
            i < self.keys().len(),
        ensures
            res.0@ == self.keys()[i as int],
            self@.contains_key(res.0@),
            self@[res.0@] == res.1@,
    {
        proof {
            use_type_invariant(self);
            map_of_entry(self.entries@, i as int);
        }
        (self.entries[i].0.as_str(), &self.entries[i].1)
    }
}

/// What can be copied so that the copy stands for the same.
pub trait Copied: View + Sized {
    /// A copy.
    fn copied(&self) -> (res: Self)
        ensures
            res@ == self@,
    ;
}

impl Copied for usize {
    fn copied(&self) -> (res: usize) {
        *self
    }
}

impl<V: Copied> Clone for NameMap<V> {
    fn clone(&self) -> (res: NameMap<V>)
        ensures
            res@ == self@,
    {
        proof {
            use_type_invariant(self);
        }
        let mut entries: Vec<(String, V)> = Vec::new();
        let mut i: usize = 0;
        while i < self.entries.len()
            invariant
                i <= self.entries.len(),
                entries@.len() == i,
                forall|k: int|
                    0 <= k < i ==> (#[trigger] entries@[k]).0@ == self.entries@[k].0@
                        && entries@[k].1@ == self.entries@[k].1@,
            decreases self.entries.len() - i,
        {
            entries.push((self.entries[i].0.clone(), self.entries[i].1.copied()));
            i += 1;
        }
        proof {
            let keys = keys_of(self.entries@);
            assert(keys_of(entries@) =~= keys);
            assert forall|k: Seq<char>| keys.contains(k) implies #[trigger] map_of(entries@)[k]
                == map_of(self.entries@)[k] by {
                let n = keys.index_of(k);
                assert(entries@[n].1@ == self.entries@[n].1@);
            }
            assert(map_of(entries@) =~= map_of(self.entries@));
        }
        NameMap { entries }
    }
}

} // verus!
