//! Maps and sets with keys made of text.

use crate::text::str_eq;
use vstd::prelude::*;
use vstd::string::*;

verus! {

/// A type whose values can be told apart by their mathematical value.
pub trait Key: View + Sized {
    /// Whether two keys have the same value.
    fn same(&self, other: &Self) -> (r: bool)
        ensures
            r == (self@ == other@),
    ;
}

impl Key for String {
    fn same(&self, other: &Self) -> (r: bool) {
        str_eq(self.as_str(), other.as_str())
    }
}

impl Key for (String, String) {
    fn same(&self, other: &Self) -> (r: bool) {
        str_eq(self.0.as_str(), other.0.as_str()) && str_eq(self.1.as_str(), other.1.as_str())
    }
}

/// The first entry with the key, if any.
pub open spec fn first_entry<K: View, V>(entries: Seq<(K, V)>, key: K::V) -> Option<int>
    decreases entries.len(),
{
    if entries.len() == 0 {
        None
    } else {
        match first_entry(entries.drop_last(), key) {
            Some(i) => Some(i),
            None => if entries.last().0@ == key {
                Some(entries.len() - 1)
            } else {
                None
            },
        }
    }
}

proof fn lemma_first_entry<K: View, V>(entries: Seq<(K, V)>, key: K::V, i: int)
    requires
        0 <= i < entries.len(),
        entries[i].0@ == key,
        forall|j: int| 0 <= j < i ==> (#[trigger] entries[j]).0@ != key,
    ensures
        first_entry(entries, key) == Some(i),
    decreases entries.len(),
{
    let init = entries.drop_last();
    if i < entries.len() - 1 {
        assert(init[i] == entries[i]);
        assert forall|j: int| 0 <= j < i implies (#[trigger] init[j]).0@ != key by {
            assert(init[j] == entries[j]);
        }
        lemma_first_entry(init, key, i);
    } else {
        lemma_no_entry(init, key);
    }
}

proof fn lemma_no_entry<K: View, V>(entries: Seq<(K, V)>, key: K::V)
    requires
        forall|j: int| 0 <= j < entries.len() ==> (#[trigger] entries[j]).0@ != key,
    ensures
        first_entry(entries, key) is None,
    decreases entries.len(),
{
    if entries.len() > 0 {
        let init = entries.drop_last();
        assert forall|j: int| 0 <= j < init.len() implies (#[trigger] init[j]).0@ != key by {
            assert(init[j] == entries[j]);
        }
        lemma_no_entry(init, key);
    }
}

proof fn lemma_entry_at<K: View, V>(entries: Seq<(K, V)>, key: K::V)
    ensures
        match first_entry(entries, key) {
            Some(i) => {
                &&& 0 <= i < entries.len()
                &&& entries[i].0@ == key
                &&& forall|j: int| 0 <= j < i ==> (#[trigger] entries[j]).0@ != key
            },
            None => forall|j: int| 0 <= j < entries.len() ==> (#[trigger] entries[j]).0@ != key,
        },
    decreases entries.len(),
{
    if entries.len() > 0 {
        let init = entries.drop_last();
        lemma_entry_at(init, key);
        assert forall|j: int| 0 <= j < init.len() implies (#[trigger] entries[j]) == init[j] by {}
    }
}

/// The values of keys.
pub open spec fn key_values<K: View>(keys: Seq<&K>) -> Seq<K::V> {
    keys.map_values(|k: &K| (*k)@)
}

/// A map from keys to values.
#[derive(Debug)]
pub struct AssocMap<K, V> {
    entries: Vec<(K, V)>,
}

impl<K: Key, V> View for AssocMap<K, V> {
    type V = Map<K::V, V>;

    closed spec fn view(&self) -> Map<K::V, V> {
        let entries = self.entries@;
        Map::new(
            |k: K::V| first_entry(entries, k) is Some,
            |k: K::V| entries[first_entry(entries, k)->0].1,
        )
    }
}

impl<K: Key, V> AssocMap<K, V> {
    /// The empty map.
    pub fn new() -> (r: Self)
        ensures
            r@ == Map::<K::V, V>::empty(),
    {
        let r = AssocMap { entries: Vec::new() };
        assert(r@ =~= Map::<K::V, V>::empty());
        r
    }

    fn position(&self, key: &K) -> (r: Option<usize>)
        ensures
            match r {
                Some(i) => i < self.entries.len() && first_entry(self.entries@, key@) == Some(
                    i as int,
                ),
                None => first_entry(self.entries@, key@) is None,
            },
    {
        let mut i: usize = 0;
        while i < self.entries.len()
            invariant
                i <= self.entries.len(),
                forall|j: int| 0 <= j < i ==> (#[trigger] self.entries@[j]).0@ != key@,
            decreases self.entries.len() - i,
        {
            if self.entries[i].0.same(key) {
                proof {
                    lemma_first_entry(self.entries@, key@, i as int);
                }
                return Some(i);
            }
            i += 1;
        }
        proof {
            lemma_no_entry(self.entries@, key@);
        }
        None
    }

    /// The value of `key`, if it has one.
    pub fn get(&self, key: &K) -> (r: Option<&V>)
        ensures
            match r {
                Some(v) => self@.contains_key(key@) && self@[key@] == *v,
                None => !self@.contains_key(key@),
            },
    {
        match self.position(key) {
            Some(i) => Some(&self.entries[i].1),
            None => None,
        }
    }

    /// Whether `key` has a value.
    pub fn contains_key(&self, key: &K) -> (r: bool)
        ensures
            r == self@.contains_key(key@),
    {
        self.position(key).is_some()
    }

    /// Gives `key` the value `value`.
    pub fn insert(&mut self, key: K, value: V)
        ensures
            final(self)@ == old(self)@.insert(key@, value),
    {
        let ghost before = self.entries@;
        match self.position(&key) {
            Some(i) => {
                let ghost k = key@;
                self.entries.set(i, (key, value));
                proof {
                    let after = self.entries@;
                    lemma_entry_at(before, k);
                    assert forall|x: K::V|
                        #![trigger first_entry(after, x)]
                        first_entry(after, x) == first_entry(before, x) by {
                        lemma_entry_at(before, x);
                        match first_entry(before, x) {
                            Some(j) => {
                                lemma_first_entry(after, x, j);
                            },
                            None => {
                                lemma_no_entry(after, x);
                            },
                        }
                    }
                    assert(self@ =~= old(self)@.insert(k, value)) by {
                        assert forall|x: K::V| self@.contains_key(x) implies self@[x] == old(
                            self,
                        )@.insert(k, value)[x] by {
                            lemma_entry_at(before, x);
                            if x != k {
                                assert(first_entry(before, x) != Some(i as int));
                            }
                        }
                    }
                }
            },
            None => {
                let ghost k = key@;
                self.entries.push((key, value));
                proof {
                    let after = self.entries@;
                    assert(after.drop_last() =~= before);
                    assert forall|x: K::V|
                        #![trigger first_entry(after, x)]
                        first_entry(after, x) == (if x == k {
                            Some(before.len() as int)
                        } else {
                            first_entry(before, x)
                        }) by {}
                    assert(self@ =~= old(self)@.insert(k, value)) by {
                        assert forall|x: K::V| self@.contains_key(x) implies self@[x] == old(
                            self,
                        )@.insert(k, value)[x] by {
                            lemma_entry_at(before, x);
                        }
                    }
                }
            },
        }
    }

    /// The keys that have a value, each once, in some order.
    pub fn keys(&self) -> (r: Vec<&K>)
        ensures
            key_values(r@).no_duplicates(),
            forall|key: K::V| #[trigger]
                self@.contains_key(key) <==> key_values(r@).contains(key),
    {
        let mut out: Vec<&K> = Vec::new();
        let mut i: usize = 0;
        let ghost entries = self.entries@;
        assert forall|key: K::V| first_entry(entries, key) is Some implies #[trigger] first_entry(
            entries,
            key,
        )->0 >= 0 by {
            lemma_entry_at(entries, key);
        }
        while i < self.entries.len()
            invariant
                i <= self.entries.len(),
                entries == self.entries@,
                key_values(out@).no_duplicates(),
                forall|key: K::V| #[trigger]
                    key_values(out@).contains(key) <==> (first_entry(entries, key) is Some
                        && first_entry(entries, key)->0 < i),
            decreases self.entries.len() - i,
        {
            let ghost before = key_values(out@);
            let ghost this = entries[i as int].0@;
            proof {
                lemma_entry_at(entries, this);
            }
            if self.position(&self.entries[i].0) == Some(i) {
                out.push(&self.entries[i].0);
                proof {
                    let after = key_values(out@);
                    assert(after =~= before.push(this));
                    assert(!before.contains(this));
                    assert forall|key: K::V| #[trigger] after.contains(key) <==> (first_entry(
                        entries,
                        key,
                    ) is Some && first_entry(entries, key)->0 < i + 1) by {
                        lemma_entry_at(entries, key);
                        if before.contains(key) {
                            let k = choose|k: int| 0 <= k < before.len() && before[k] == key;
                            assert(after[k] == key);
                        }
                        if key == this {
                            assert(after[before.len() as int] == key);
                        }
                        if after.contains(key) && key != this {
                            let k = choose|k: int| 0 <= k < after.len() && after[k] == key;
                            assert(before[k] == key);
                        }
                    }
                }
            } else {
                assert forall|key: K::V| first_entry(entries, key) is Some && #[trigger] first_entry(
                    entries,
                    key,
                )->0 < i + 1 implies first_entry(entries, key)->0 < i by {
                    lemma_entry_at(entries, key);
                }
            }
            i += 1;
        }
        assert forall|key: K::V| #[trigger] self@.contains_key(key) <==> key_values(
            out@,
        ).contains(key) by {
            lemma_entry_at(entries, key);
        }
        out
    }

    /// Removes all keys.
    pub fn clear(&mut self)
        ensures
            final(self)@ == Map::<K::V, V>::empty(),
    {
        self.entries.clear();
        assert(self@ =~= Map::<K::V, V>::empty());
    }
}

/// A set of texts.
#[derive(Debug)]
pub struct StringSet {
    items: Vec<String>,
}

impl View for StringSet {
    type V = Set<Seq<char>>;

    closed spec fn view(&self) -> Set<Seq<char>> {
        Set::new(
            |s: Seq<char>|
                exists|i: int| 0 <= i < self.items.len() && (#[trigger] self.items@[i])@ == s,
        )
    }
}

impl StringSet {
    /// The empty set.
    pub fn new() -> (r: Self)
        ensures
            r@ == Set::<Seq<char>>::empty(),
    {
        let r = StringSet { items: Vec::new() };
        assert(r@ =~= Set::<Seq<char>>::empty());
        r
    }

    /// Whether `s` is in the set.
    pub fn contains(&self, s: &str) -> (r: bool)
        ensures
            r == self@.contains(s@),
    {
        let mut i: usize = 0;
        while i < self.items.len()
            invariant
                i <= self.items.len(),
                forall|j: int| 0 <= j < i ==> (#[trigger] self.items@[j])@ != s@,
            decreases self.items.len() - i,
        {
            if str_eq(self.items[i].as_str(), s) {
                return true;
            }
            i += 1;
        }
        false
    }

    /// Adds `s` to the set.
    pub fn insert(&mut self, s: String)
        ensures
            final(self)@ == old(self)@.insert(s@),
    {
        if self.contains(s.as_str()) {
            assert(self@ =~= old(self)@.insert(s@));
            return;
        }
        let ghost before = self.items@;
        let ghost value = s@;
        self.items.push(s);
        proof {
            let after = self.items@;
            assert(after[before.len() as int]@ == value);
            assert forall|x: Seq<char>| self@.contains(x) == old(self)@.insert(value).contains(
                x,
            ) by {
                if old(self)@.contains(x) {
                    let i = choose|i: int| 0 <= i < before.len() && (#[trigger] before[i])@ == x;
                    assert(after[i]@ == x);
                }
                if self@.contains(x) {
                    let i = choose|i: int| 0 <= i < after.len() && (#[trigger] after[i])@ == x;
                    if i < before.len() {
                        assert(before[i]@ == x);
                    }
                }
            }
            assert(self@ =~= old(self)@.insert(value));
        }
    }

    /// Takes `s` out of the set.
    pub fn remove(&mut self, s: &str)
        ensures
            final(self)@ == old(self)@.remove(s@),
    {
        let mut kept: Vec<String> = Vec::new();
        let mut i: usize = 0;
        while i < self.items.len()
            invariant
                i <= self.items.len(),
                *self == *old(self),
                forall|k: int| 0 <= k < kept.len() ==> (#[trigger] kept@[k])@ != s@,
                forall|k: int|
                    0 <= k < kept.len() ==> exists|j: int|
                        0 <= j < i && (#[trigger] self.items@[j])@ == (#[trigger] kept@[k])@,
                forall|j: int|
                    0 <= j < i && (#[trigger] self.items@[j])@ != s@ ==> exists|k: int|
                        0 <= k < kept.len() && (#[trigger] kept@[k])@ == self.items@[j]@,
            decreases self.items.len() - i,
        {
            if !str_eq(self.items[i].as_str(), s) {
                let ghost before = kept@;
                let item = self.items[i].clone();
                kept.push(item);
                proof {
                    assert(kept@[before.len() as int]@ == self.items@[i as int]@);
                    assert forall|j: int| 0 <= j < i + 1 && (#[trigger] self.items@[j])@
                        != s@ implies exists|k: int|
                        0 <= k < kept.len() && (#[trigger] kept@[k])@ == self.items@[j]@ by {
                        if j < i {
                            let k = choose|k: int|
                                0 <= k < before.len() && (#[trigger] before[k])@
                                    == self.items@[j]@;
                            assert(kept@[k]@ == self.items@[j]@);
                        }
                    }
                }
            }
            i += 1;
        }
        let ghost items = self.items@;
        self.items = kept;
        proof {
            assert forall|x: Seq<char>| self@.contains(x) == old(self)@.remove(s@).contains(x) by {
                if self@.contains(x) {
                    let k = choose|k: int| 0 <= k < kept.len() && (#[trigger] kept@[k])@ == x;
                    let j = choose|j: int|
                        0 <= j < items.len() && (#[trigger] items[j])@ == kept@[k]@;
                    assert(items[j]@ == x);
                }
                if old(self)@.remove(s@).contains(x) {
                    let j = choose|j: int| 0 <= j < items.len() && (#[trigger] items[j])@ == x;
                    let k = choose|k: int| 0 <= k < kept.len() && (#[trigger] kept@[k])@ == items[j]@;
                    assert(self.items@[k]@ == x);
                }
            }
            assert(self@ =~= old(self)@.remove(s@));
        }
    }
}

} // verus!
