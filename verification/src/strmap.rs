//! A map with text keys.

use vstd::prelude::*;

use crate::text::str_eq;

verus! {

/// A map from texts to values, kept in the order in which the keys came.
#[derive(Debug)]
pub struct StrMap<V> {
    entries: Vec<(String, V)>,
}

/// The map that a list of entries stands for.
pub open spec fn map_of<V>(entries: Seq<(String, V)>) -> Map<Seq<char>, V>
    decreases entries.len(),
{
    if entries.len() == 0 {
        Map::empty()
    } else {
        let last = entries[entries.len() - 1];
        map_of(entries.subrange(0, entries.len() - 1)).insert(last.0@, last.1)
    }
}

/// No key occurs twice.
pub open spec fn unique_keys<V>(entries: Seq<(String, V)>) -> bool {
    forall|i: int, j: int|
        0 <= i < j < entries.len() ==> (#[trigger] entries[i]).0@ != (#[trigger] entries[j]).0@
}

proof fn lemma_map_of<V>(entries: Seq<(String, V)>)
    requires
        unique_keys(entries),
    ensures
        forall|i: int|
            0 <= i < entries.len() ==> map_of(entries).contains_key(
                (#[trigger] entries[i]).0@,
            ) && map_of(entries)[entries[i].0@] == entries[i].1,
        forall|k: Seq<char>| #[trigger]
            map_of(entries).contains_key(k) ==> exists|i: int|
                0 <= i < entries.len() && (#[trigger] entries[i]).0@ == k,
    decreases entries.len(),
{
    if entries.len() > 0 {
        let init = entries.subrange(0, entries.len() - 1);
        let last = entries[entries.len() - 1];
        assert forall|i: int, j: int| 0 <= i < j < init.len() implies (#[trigger] init[i]).0@ != (
        #[trigger] init[j]).0@ by {
            assert(init[i] == entries[i] && init[j] == entries[j]);
        }
        lemma_map_of(init);
        assert forall|i: int| 0 <= i < entries.len() implies map_of(entries).contains_key(
            (#[trigger] entries[i]).0@,
        ) && map_of(entries)[entries[i].0@] == entries[i].1 by {
            if i < entries.len() - 1 {
                assert(init[i] == entries[i]);
            }
        }
        assert forall|k: Seq<char>| #[trigger] map_of(entries).contains_key(k) implies exists|i: int|
            0 <= i < entries.len() && (#[trigger] entries[i]).0@ == k by {
            if k == last.0@ {
                assert(entries[entries.len() - 1].0@ == k);
            } else {
                assert(map_of(init).contains_key(k));
                let i = choose|i: int| 0 <= i < init.len() && (#[trigger] init[i]).0@ == k;
                assert(entries[i] == init[i]);
            }
        }
    }
}

impl<V> View for StrMap<V> {
    type V = Map<Seq<char>, V>;

    closed spec fn view(&self) -> Map<Seq<char>, V> {
        map_of(self.entries@)
    }
}

impl<V> StrMap<V> {
    #[verifier::type_invariant]
    spec fn wf(self) -> bool {
        unique_keys(self.entries@)
    }

    /// An empty map.
    pub fn new() -> (r: Self)
        ensures
            r@ == Map::<Seq<char>, V>::empty(),
    {
        StrMap { entries: Vec::new() }
    }

    /// Where the entry for a key stands.
    fn position(&self, key: &str) -> (r: Option<usize>)
        ensures
            match r {
                Some(i) => i < self.entries.len() && self.entries@[i as int].0@ == key@
                    && self@.contains_key(key@) && self@[key@] == self.entries@[i as int].1,
                None => !self@.contains_key(key@) && forall|j: int|
                    0 <= j < self.entries.len() ==> (#[trigger] self.entries@[j]).0@ != key@,
            },
    {
        proof {
            use_type_invariant(self);
            lemma_map_of(self.entries@);
        }
        let mut i: usize = 0;
        while i < self.entries.len()
            invariant
                i <= self.entries.len(),
                unique_keys(self.entries@),
                forall|j: int| 0 <= j < i ==> (#[trigger] self.entries@[j]).0@ != key@,
            decreases self.entries.len() - i,
        {
            if str_eq(self.entries[i].0.as_str(), key) {
                proof {
                    lemma_map_of(self.entries@);
                }
                return Some(i);
            }
            i = i + 1;
        }
        None
    }

    /// The value of a key.
    pub fn get(&self, key: &str) -> (r: Option<&V>)
        ensures
            match r {
                Some(v) => self@.contains_key(key@) && *v == self@[key@],
                None => !self@.contains_key(key@),
            },
    {
        match self.position(key) {
            Some(i) => Some(&self.entries[i].1),
            None => None,
        }
    }

    /// Whether a key has a value.
    pub fn contains_key(&self, key: &str) -> (r: bool)
        ensures
            r == self@.contains_key(key@),
    {
        self.position(key).is_some()
    }

    /// Give a key a value, replacing the one it had.
    pub fn insert(&mut self, key: String, value: V)
        ensures
            final(self)@ == old(self)@.insert(key@, value),
    {
        proof {
            use_type_invariant(&*self);
            lemma_map_of(self.entries@);
        }
        let found = self.position(key.as_str());
        let mut entries: Vec<(String, V)> = Vec::new();
        let ghost before = self.entries@;
        std::mem::swap(&mut entries, &mut self.entries);
        let ghost k = key@;
        match found {
            Some(i) => {
                entries.set(i, (key, value));
                proof {
                    assert(unique_keys(entries@)) by {
                        assert forall|a: int, b: int| 0 <= a < b < entries@.len() implies (
                        #[trigger] entries@[a]).0@ != (#[trigger] entries@[b]).0@ by {
                            assert(before[a].0@ == entries@[a].0@);
                            assert(before[b].0@ == entries@[b].0@);
                        }
                    }
                    lemma_map_of(entries@);
                    assert(map_of(entries@) =~= map_of(before).insert(k, value)) by {
                        assert forall|x: Seq<char>| map_of(entries@).contains_key(x) <==> map_of(
                            before,
                        ).insert(k, value).contains_key(x) by {
                            if map_of(entries@).contains_key(x) {
                                let a = choose|a: int|
                                    0 <= a < entries@.len() && (#[trigger] entries@[a]).0@ == x;
                                assert(before[a].0@ == x);
                            }
                            if map_of(before).contains_key(x) {
                                let a = choose|a: int|
                                    0 <= a < before.len() && (#[trigger] before[a]).0@ == x;
                                assert(entries@[a].0@ == x);
                            }
                            if x == k {
                                assert(entries@[i as int].0@ == k);
                            }
                        }
                        assert forall|x: Seq<char>| map_of(entries@).contains_key(x) implies map_of(
                            entries@,
                        )[x] == map_of(before).insert(k, value)[x] by {
                            let a = choose|a: int|
                                0 <= a < entries@.len() && (#[trigger] entries@[a]).0@ == x;
                            assert(before[a].0@ == x);
                            assert(entries@[i as int].0@ == k);
                        }
                    }
                }
            },
            None => {
                entries.push((key, value));
                proof {
                    assert(entries@.subrange(0, entries@.len() - 1) =~= before);
                    assert(unique_keys(entries@)) by {
                        assert forall|a: int, b: int| 0 <= a < b < entries@.len() implies (
                        #[trigger] entries@[a]).0@ != (#[trigger] entries@[b]).0@ by {
                            assert(before[a] == entries@[a]);
                            if b < before.len() {
                                assert(before[b] == entries@[b]);
                            }
                        }
                    }
                }
            },
        }
        self.entries = entries;
    }

    /// Take the value of a key out of the map.
    pub fn remove(&mut self, key: &str) -> (r: Option<V>)
        ensures
            final(self)@ == old(self)@.remove(key@),
            match r {
                Some(v) => old(self)@.contains_key(key@) && v == old(self)@[key@],
                None => !old(self)@.contains_key(key@),
            },
    {
        proof {
            use_type_invariant(&*self);
            lemma_map_of(self.entries@);
        }
        let found = self.position(key);
        let ghost before = self.entries@;
        match found {
            Some(i) => {
                let mut entries: Vec<(String, V)> = Vec::new();
                std::mem::swap(&mut entries, &mut self.entries);
                let (_, value) = entries.remove(i);
                proof {
                    assert(entries@ =~= before.remove(i as int));
                    assert(unique_keys(entries@)) by {
                        assert forall|a: int, b: int| 0 <= a < b < entries@.len() implies (
                        #[trigger] entries@[a]).0@ != (#[trigger] entries@[b]).0@ by {
                            let x = if a < i {
                                a
                            } else {
                                a + 1
                            };
                            let y = if b < i {
                                b
                            } else {
                                b + 1
                            };
                            assert(before[x] == entries@[a]);
                            assert(before[y] == entries@[b]);
                        }
                    }
                    lemma_map_of(entries@);
                    assert(map_of(entries@) =~= map_of(before).remove(key@)) by {
                        assert forall|x: Seq<char>| map_of(entries@).contains_key(x) <==> map_of(
                            before,
                        ).remove(key@).contains_key(x) by {
                            if map_of(entries@).contains_key(x) {
                                let a = choose|a: int|
                                    0 <= a < entries@.len() && (#[trigger] entries@[a]).0@ == x;
                                let b = if a < i {
                                    a
                                } else {
                                    a + 1
                                };
                                assert(before[b].0@ == x);
                                assert(before[i as int].0@ == key@);
                            }
                            if map_of(before).contains_key(x) && x != key@ {
                                let b = choose|b: int|
                                    0 <= b < before.len() && (#[trigger] before[b]).0@ == x;
                                let a = if b < i {
                                    b
                                } else {
                                    b - 1
                                };
                                assert(entries@[a].0@ == x);
                            }
                        }
                        assert forall|x: Seq<char>| map_of(entries@).contains_key(x) implies map_of(
                            entries@,
                        )[x] == map_of(before).remove(key@)[x] by {
                            let a = choose|a: int|
                                0 <= a < entries@.len() && (#[trigger] entries@[a]).0@ == x;
                            let b = if a < i {
                                a
                            } else {
                                a + 1
                            };
                            assert(before[b] == entries@[a]);
                            assert(before[i as int].0@ == key@);
                        }
                    }
                }
                self.entries = entries;
                Some(value)
            },
            None => {
                assert(map_of(before).remove(key@) =~= map_of(before));
                None
            },
        }
    }

    /// Take over all entries of another map, replacing those with the same key.
    pub fn extend(&mut self, other: StrMap<V>)
        ensures
            final(self)@ == old(self)@.union_prefer_right(other@),
    {
        proof {
            use_type_invariant(&other);
        }
        let mut entries: Vec<(String, V)> = other.entries;
        while entries.len() > 0
            invariant
                unique_keys(entries@),
                self@.union_prefer_right(map_of(entries@)) == old(self)@.union_prefer_right(other@),
            decreases entries.len(),
        {
            let ghost before = entries@;
            let ghost mine = self@;
            let (key, value) = entries.pop().unwrap();
            proof {
                assert(entries@ =~= before.subrange(0, before.len() - 1));
                assert forall|i: int, j: int| 0 <= i < j < entries@.len() implies (#[trigger]
                entries@[i]).0@ != (#[trigger] entries@[j]).0@ by {
                    assert(entries@[i] == before[i] && entries@[j] == before[j]);
                }
                lemma_map_of(entries@);
                if map_of(entries@).contains_key(key@) {
                    let i = choose|i: int|
                        0 <= i < entries@.len() && (#[trigger] entries@[i]).0@ == key@;
                    assert(before[i] == entries@[i]);
                    assert(before[before.len() - 1].0@ == key@);
                }
                assert(mine.insert(key@, value).union_prefer_right(map_of(entries@))
                    =~= mine.union_prefer_right(map_of(before)));
            }
            self.insert(key, value);
        }
        assert(map_of(entries@) =~= Map::empty());
        assert(self@.union_prefer_right(map_of(entries@)) =~= self@);
    }

    /// The number of keys.
    pub fn len(&self) -> (r: usize)
        ensures
            r == self@.dom().len(),
            self@.dom().finite(),
    {
        proof {
            use_type_invariant(self);
            lemma_size(self.entries@);
        }
        self.entries.len()
    }
}

proof fn lemma_size<V>(entries: Seq<(String, V)>)
    requires
        unique_keys(entries),
    ensures
        map_of(entries).dom().finite(),
        map_of(entries).dom().len() == entries.len(),
    decreases entries.len(),
{
    if entries.len() > 0 {
        let init = entries.subrange(0, entries.len() - 1);
        let last = entries[entries.len() - 1];
        assert forall|i: int, j: int| 0 <= i < j < init.len() implies (#[trigger] init[i]).0@ != (
        #[trigger] init[j]).0@ by {
            assert(init[i] == entries[i] && init[j] == entries[j]);
        }
        lemma_size(init);
        lemma_map_of(init);
        assert(!map_of(init).contains_key(last.0@)) by {
            if map_of(init).contains_key(last.0@) {
                let i = choose|i: int| 0 <= i < init.len() && (#[trigger] init[i]).0@ == last.0@;
                assert(entries[i] == init[i]);
            }
        }
        assert(map_of(entries).dom() =~= map_of(init).dom().insert(last.0@));
    } else {
        assert(map_of(entries).dom() =~= Set::empty());
    }
}

} // verus!
