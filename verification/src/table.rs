//! A map from names to values that remembers the order of first insertion.
use vstd::prelude::*;

use crate::text;

verus! {

/// A map keyed by text. A name stands in it at most once.
#[derive(Debug)]
pub struct Table<V> {
    entries: Vec<(String, V)>,
}

/// The position of the entry named `key`.
pub open spec fn position<V>(entries: Seq<(Seq<char>, V)>, key: Seq<char>) -> Option<int>
    decreases entries.len(),
{
    if entries.len() == 0 {
        None
    } else if entries.last().0 == key {
        Some(entries.len() - 1)
    } else {
        position(entries.drop_last(), key)
    }
}

/// No name stands twice.
pub open spec fn distinct<V>(entries: Seq<(Seq<char>, V)>) -> bool {
    forall|i: int, j: int|
        0 <= i < j < entries.len() ==> (#[trigger] entries[i]).0 != (#[trigger] entries[j]).0
}

/// The map that a list of entries stands for.
pub open spec fn as_map<V>(entries: Seq<(Seq<char>, V)>) -> Map<Seq<char>, V> {
    Map::new(
        |k: Seq<char>| exists|i: int| 0 <= i < entries.len() && (#[trigger] entries[i]).0 == k,
        |k: Seq<char>|
            entries[choose|i: int| 0 <= i < entries.len() && (#[trigger] entries[i]).0 == k].1,
    )
}

impl<V> Table<V> {
    /// The entries in the order in which their names were first inserted.
    pub closed spec fn order(&self) -> Seq<(Seq<char>, V)> {
        self.entries@.map_values(|e: (String, V)| (e.0@, e.1))
    }

    /// The map that the table stands for.
    pub open spec fn view(&self) -> Map<Seq<char>, V> {
        as_map(self.order())
    }

    #[verifier::type_invariant]
    spec fn inv(&self) -> bool {
        distinct(self.order())
    }

    /// The table without entries.
    pub fn new() -> (t: Table<V>)
        ensures
            t.order().len() == 0,
            t@ == Map::<Seq<char>, V>::empty(),
    {
        let t = Table { entries: Vec::new() };
        assert(t@ =~= Map::<Seq<char>, V>::empty());
        t
    }

    /// The number of entries.
    pub fn len(&self) -> (n: usize)
        ensures
            n == self.order().len(),
            distinct(self.order()),
    {
        proof {
            use_type_invariant(self);
        }
        self.entries.len()
    }

    /// Whether there is no entry.
    pub fn is_empty(&self) -> (r: bool)
        ensures
            r == (self.order().len() == 0),
    {
        self.entries.len() == 0
    }

    /// The entry at position `i`.
    pub fn entry(&self, i: usize) -> (e: (&String, &V))
        requires
            i < self.order().len(),
        ensures
            (e.0@, *e.1) == self.order()[i as int],
    {
        (&self.entries[i].0, &self.entries[i].1)
    }

    /// The position of the entry named `key`.
    fn find(&self, key: &str) -> (r: Option<usize>)
        ensures
            match r {
                Some(i) => i < self.order().len() && self.order()[i as int].0 == key@,
                None => forall|i: int|
                    0 <= i < self.order().len() ==> (#[trigger] self.order()[i]).0 != key@,
            },
    {
        let mut i: usize = 0;
        while i < self.entries.len()
            invariant
                i <= self.entries@.len(),
                forall|j: int| 0 <= j < i ==> (#[trigger] self.order()[j]).0 != key@,
            decreases self.entries@.len() - i,
        {
            if text::str_eq(self.entries[i].0.as_str(), key) {
                return Some(i);
            }
            i = i + 1;
        }
        None
    }

    /// The value under `key`.
    pub fn get(&self, key: &str) -> (r: Option<&V>)
        ensures
            match r {
                Some(v) => self@.contains_key(key@) && self@[key@] == *v,
                None => !self@.contains_key(key@),
            },
    {
        proof {
            use_type_invariant(self);
        }
        match self.find(key) {
            Some(i) => {
                assert(self.order()[i as int].0 == key@);
                Some(&self.entries[i].1)
            },
            None => None,
        }
    }

    /// Puts `value` under `key`, in place of what was there.
    pub fn insert(&mut self, key: String, value: V)
        ensures
            final(self)@ == old(self)@.insert(key@, value),
            match position(old(self).order(), key@) {
                Some(i) => final(self).order() == old(self).order().update(i, (key@, value)),
                None => final(self).order() == old(self).order().push((key@, value)),
            },
    {
        proof {
            use_type_invariant(&*self);
        }
        let ghost before = self.order();
        match self.find(key.as_str()) {
            Some(i) => {
                proof {
                    position_found(before, key@, i as int);
                }
                let ghost k = key@;
                let mut entries: Vec<(String, V)> = Vec::new();
                std::mem::swap(&mut entries, &mut self.entries);
                entries.set(i, (key, value));
                proof {
                    let after = entries@.map_values(|e: (String, V)| (e.0@, e.1));
                    assert(after =~= before.update(i as int, (k, value)));
                    update_is_insert(before, i as int, k, value);
                }
                self.entries = entries;
            },
            None => {
                proof {
                    position_absent(before, key@);
                }
                let ghost k = key@;
                let mut entries: Vec<(String, V)> = Vec::new();
                std::mem::swap(&mut entries, &mut self.entries);
                entries.push((key, value));
                proof {
                    let after = entries@.map_values(|e: (String, V)| (e.0@, e.1));
                    assert(after =~= before.push((k, value)));
                    push_is_insert(before, k, value);
                }
                self.entries = entries;
            },
        }
    }
}

proof fn position_found<V>(entries: Seq<(Seq<char>, V)>, key: Seq<char>, i: int)
    requires
        distinct(entries),
        0 <= i < entries.len(),
        entries[i].0 == key,
    ensures
        position(entries, key) == Some(i),
    decreases entries.len(),
{
    if i < entries.len() - 1 {
        assert(entries.drop_last()[i] == entries[i]);
        assert(distinct(entries.drop_last())) by {
            assert forall|a: int, b: int| 0 <= a < b < entries.drop_last().len() implies (
            #[trigger] entries.drop_last()[a]).0 != (#[trigger] entries.drop_last()[b]).0 by {
                assert(entries[a].0 != entries[b].0);
            }
        }
        position_found(entries.drop_last(), key, i);
    }
}

/// A position is a position of the name.
pub proof fn position_bound<V>(entries: Seq<(Seq<char>, V)>, key: Seq<char>)
    ensures
        position(entries, key) matches Some(i) ==> 0 <= i < entries.len() && entries[i].0 == key,
    decreases entries.len(),
{
    if entries.len() > 0 && entries.last().0 != key {
        position_bound(entries.drop_last(), key);
    }
}

/// A name that stands nowhere has no position.
pub proof fn position_absent<V>(entries: Seq<(Seq<char>, V)>, key: Seq<char>)
    requires
        forall|i: int| 0 <= i < entries.len() ==> (#[trigger] entries[i]).0 != key,
    ensures
        position(entries, key) is None,
    decreases entries.len(),
{
    if entries.len() > 0 {
        assert forall|i: int| 0 <= i < entries.drop_last().len() implies (
        #[trigger] entries.drop_last()[i]).0 != key by {
            assert(entries[i].0 != key);
        }
        position_absent(entries.drop_last(), key);
    }
}

proof fn update_is_insert<V>(entries: Seq<(Seq<char>, V)>, i: int, key: Seq<char>, value: V)
    requires
        distinct(entries),
        0 <= i < entries.len(),
        entries[i].0 == key,
    ensures
        distinct(entries.update(i, (key, value))),
        as_map(entries.update(i, (key, value))) == as_map(entries).insert(key, value),
{
    let after = entries.update(i, (key, value));
    assert(distinct(after)) by {
        assert forall|a: int, b: int| 0 <= a < b < after.len() implies (#[trigger] after[a]).0 != (
        #[trigger] after[b]).0 by {
            assert(entries[a].0 != entries[b].0);
        }
    }
    map_lookup(entries);
    map_lookup(after);
    assert(as_map(after) =~= as_map(entries).insert(key, value)) by {
        assert forall|k: Seq<char>| as_map(after).contains_key(k) <==> as_map(entries).insert(
            key,
            value,
        ).contains_key(k) by {
            if as_map(after).contains_key(k) {
                let a = choose|a: int| 0 <= a < after.len() && (#[trigger] after[a]).0 == k;
                assert(entries[a].0 == k);
            }
            if as_map(entries).contains_key(k) {
                let a = choose|a: int| 0 <= a < entries.len() && (#[trigger] entries[a]).0 == k;
                assert(after[a].0 == k);
            }
            if k == key {
                assert(after[i].0 == k);
            }
        }
        assert forall|k: Seq<char>| as_map(after).contains_key(k) implies as_map(after)[k]
            == as_map(entries).insert(key, value)[k] by {
            let a = choose|a: int| 0 <= a < after.len() && (#[trigger] after[a]).0 == k;
            assert(after[a].0 == k);
            assert(entries[a].0 == k);
            if k == key {
                assert(after[i].0 == k);
            }
        }
    }
}

proof fn push_is_insert<V>(entries: Seq<(Seq<char>, V)>, key: Seq<char>, value: V)
    requires
        distinct(entries),
        forall|i: int| 0 <= i < entries.len() ==> (#[trigger] entries[i]).0 != key,
    ensures
        distinct(entries.push((key, value))),
        as_map(entries.push((key, value))) == as_map(entries).insert(key, value),
{
    let after = entries.push((key, value));
    assert(distinct(after)) by {
        assert forall|a: int, b: int| 0 <= a < b < after.len() implies (#[trigger] after[a]).0 != (
        #[trigger] after[b]).0 by {
            if b < entries.len() {
                assert(entries[a].0 != entries[b].0);
            } else {
                assert(entries[a].0 != key);
            }
        }
    }
    map_lookup(entries);
    map_lookup(after);
    assert(as_map(after) =~= as_map(entries).insert(key, value)) by {
        assert(after[entries.len() as int].0 == key);
        assert forall|k: Seq<char>| as_map(after).contains_key(k) <==> as_map(entries).insert(
            key,
            value,
        ).contains_key(k) by {
            if as_map(after).contains_key(k) {
                let a = choose|a: int| 0 <= a < after.len() && (#[trigger] after[a]).0 == k;
                if a < entries.len() {
                    assert(entries[a].0 == k);
                }
            }
            if as_map(entries).contains_key(k) {
                let a = choose|a: int| 0 <= a < entries.len() && (#[trigger] entries[a]).0 == k;
                assert(after[a].0 == k);
            }
        }
        assert forall|k: Seq<char>| as_map(after).contains_key(k) implies as_map(after)[k]
            == as_map(entries).insert(key, value)[k] by {
            let a = choose|a: int| 0 <= a < after.len() && (#[trigger] after[a]).0 == k;
            assert(after[a].0 == k);
            if a < entries.len() {
                assert(entries[a].0 == k);
            }
        }
    }
}

/// In a list of distinct names, the map holds each entry's value under its name.
pub proof fn map_lookup<V>(entries: Seq<(Seq<char>, V)>)
    requires
        distinct(entries),
    ensures
        forall|i: int|
            0 <= i < entries.len() ==> as_map(entries).contains_key((#[trigger] entries[i]).0)
                && as_map(entries)[entries[i].0] == entries[i].1,
{
    assert forall|i: int| 0 <= i < entries.len() implies as_map(entries).contains_key(
        (#[trigger] entries[i]).0,
    ) && as_map(entries)[entries[i].0] == entries[i].1 by {
        let key = entries[i].0;
        let k = choose|k: int| 0 <= k < entries.len() && (#[trigger] entries[k]).0 == key;
        assert(entries[k].0 == key);
        if k < i {
            assert(entries[k].0 != entries[i].0);
        }
        if i < k {
            assert(entries[i].0 != entries[k].0);
        }
    }
}

} // verus!
