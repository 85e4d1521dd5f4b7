//! A map from texts to values.

use vstd::prelude::*;

use crate::text::same;

verus! {

/// The value under a key in a list of entries: that of the first entry with it.
pub open spec fn lookup<V>(entries: Seq<(String, V)>, key: Seq<char>) -> Option<V>
    decreases entries.len(),
{
    if entries.len() == 0 {
        None
    } else if entries[0].0@ == key {
        Some(entries[0].1)
    } else {
        lookup(entries.drop_first(), key)
    }
}

/// A map from texts to values, kept as a list of entries.
#[derive(Debug, Clone)]
pub struct StringMap<V> {
    entries: Vec<(String, V)>,
}

impl<V> View for StringMap<V> {
    type V = Map<Seq<char>, V>;

    closed spec fn view(&self) -> Map<Seq<char>, V> {
        Map::new(
            |k: Seq<char>| lookup(self.entries@, k) is Some,
            |k: Seq<char>| lookup(self.entries@, k)->0,
        )
    }
}

/// What an entry further back does not change.
proof fn lemma_lookup_update<V>(entries: Seq<(String, V)>, i: int, entry: (String, V), k: Seq<char>)
    requires
        0 <= i < entries.len(),
        entry.0@ == entries[i].0@,
        forall|j: int| 0 <= j < i ==> #[trigger] entries[j].0@ != entry.0@,
    ensures
        lookup(entries.update(i, entry), k) == (if k == entry.0@ {
            Some(entry.1)
        } else {
            lookup(entries, k)
        }),
    decreases i,
{
    let updated = entries.update(i, entry);
    if i == 0 {
        assert(updated.drop_first() == entries.drop_first());
    } else {
        assert(entries[0].0@ != entry.0@);
        let rest = entries.drop_first();
        assert forall|j: int| 0 <= j < i - 1 implies #[trigger] rest[j].0@ != entry.0@ by {
            assert(rest[j] == entries[j + 1]);
        }
        lemma_lookup_update(rest, i - 1, entry, k);
        assert(updated.drop_first() == rest.update(i - 1, entry));
    }
}

proof fn lemma_lookup_push<V>(entries: Seq<(String, V)>, entry: (String, V), k: Seq<char>)
    ensures
        lookup(entries.push(entry), k) == (match lookup(entries, k) {
            Some(v) => Some(v),
            None => if k == entry.0@ {
                Some(entry.1)
            } else {
                None
            },
        }),
    decreases entries.len(),
{
    let pushed = entries.push(entry);
    if entries.len() == 0 {
        assert(pushed.drop_first() == Seq::<(String, V)>::empty());
        assert(lookup(pushed.drop_first(), k) is None);
    } else {
        lemma_lookup_push(entries.drop_first(), entry, k);
        assert(pushed.drop_first() == entries.drop_first().push(entry));
    }
}

proof fn lemma_lookup_absent<V>(entries: Seq<(String, V)>, k: Seq<char>)
    requires
        forall|j: int| 0 <= j < entries.len() ==> #[trigger] entries[j].0@ != k,
    ensures
        lookup(entries, k) is None,
    decreases entries.len(),
{
    if entries.len() > 0 {
        assert(entries[0].0@ != k);
        assert forall|j: int| 0 <= j < entries.drop_first().len() implies #[trigger] entries.drop_first()[j].0@
            != k by {
            assert(entries.drop_first()[j] == entries[j + 1]);
        }
        lemma_lookup_absent(entries.drop_first(), k);
    }
}

proof fn lemma_lookup_found<V>(entries: Seq<(String, V)>, i: int)
    requires
        0 <= i < entries.len(),
        forall|j: int| 0 <= j < i ==> #[trigger] entries[j].0@ != entries[i].0@,
    ensures
        lookup(entries, entries[i].0@) == Some(entries[i].1),
    decreases i,
{
    if i > 0 {
        assert(entries[0].0@ != entries[i].0@);
        let rest = entries.drop_first();
        assert(rest[i - 1] == entries[i]);
        assert forall|j: int| 0 <= j < i - 1 implies #[trigger] rest[j].0@ != rest[i - 1].0@ by {
            assert(rest[j] == entries[j + 1]);
        }
        lemma_lookup_found(rest, i - 1);
    }
}

impl<V> StringMap<V> {
    /// A map with nothing in it.
    pub fn new() -> (r: Self)
        ensures
            r@ == Map::<Seq<char>, V>::empty(),
    {
        let r = StringMap { entries: Vec::new() };
        assert(r@ =~= Map::<Seq<char>, V>::empty());
        r
    }

    /// The place of the first entry with the key, or the number of entries.
    fn position(&self, key: &str) -> (r: usize)
        ensures
            r <= self.entries.len(),
            forall|j: int| 0 <= j < r ==> #[trigger] self.entries@[j].0@ != key@,
            r < self.entries.len() ==> self.entries@[r as int].0@ == key@,
    {
        let mut i: usize = 0;
        while i < self.entries.len()
            invariant
                i <= self.entries.len(),
                forall|j: int| 0 <= j < i ==> #[trigger] self.entries@[j].0@ != key@,
            decreases self.entries.len() - i,
        {
            if same(self.entries[i].0.as_str(), key) {
                return i;
            }
            i = i + 1;
        }
        i
    }

    /// The value under a key.
    pub fn get(&self, key: &str) -> (r: Option<&V>)
        ensures
            match r {
                Some(v) => self@.contains_key(key@) && self@[key@] == *v,
                None => !self@.contains_key(key@),
            },
    {
        let i: usize = self.position(key);
        if i < self.entries.len() {
            proof {
                lemma_lookup_found(self.entries@, i as int);
            }
            Some(&self.entries[i].1)
        } else {
            proof {
                lemma_lookup_absent(self.entries@, key@);
            }
            None
        }
    }

    /// Whether the key has a value.
    pub fn contains_key(&self, key: &str) -> (r: bool)
        ensures
            r == self@.contains_key(key@),
    {
        self.get(key).is_some()
    }

    /// Puts a value under a key, in place of the one that was there.
    pub fn insert(&mut self, key: &str, value: V)
        ensures
            final(self)@ == old(self)@.insert(key@, value),
    {
        let i: usize = self.position(key);
        let ghost before = self.entries@;
        let entry: (String, V) = (key.to_owned(), value);
        if i < self.entries.len() {
            proof {
                assert forall|k: Seq<char>| #[trigger]
                    lookup(before.update(i as int, entry), k) == (if k == key@ {
                        Some(value)
                    } else {
                        lookup(before, k)
                    }) by {
                    lemma_lookup_update(before, i as int, entry, k);
                }
            }
            self.entries[i] = entry;
        } else {
            proof {
                lemma_lookup_absent(before, key@);
                assert forall|k: Seq<char>| #[trigger]
                    lookup(before.push(entry), k) == (if k == key@ {
                        Some(value)
                    } else {
                        lookup(before, k)
                    }) by {
                    lemma_lookup_push(before, entry, k);
                }
            }
            self.entries.push(entry);
        }
        assert(self@ =~= old(self)@.insert(key@, value));
    }
}

/// That an entry has another key.
spec fn keyed_otherwise<V>(key: Seq<char>) -> spec_fn((String, V)) -> bool {
    |e: (String, V)| e.0@ != key
}

proof fn lemma_lookup_filter<V>(entries: Seq<(String, V)>, key: Seq<char>, k: Seq<char>)
    ensures
        lookup(entries.filter(keyed_otherwise(key)), k) == (if k == key {
            None
        } else {
            lookup(entries, k)
        }),
    decreases entries.len(),
{
    let p = keyed_otherwise::<V>(key);
    reveal(Seq::filter);
    if entries.len() > 0 {
        let front = entries.drop_last();
        lemma_lookup_filter(front, key, k);
        assert(entries == front.push(entries.last()));
        lemma_lookup_push(front, entries.last(), k);
        if p(entries.last()) {
            lemma_lookup_push(front.filter(p), entries.last(), k);
        }
    }
}

impl<V: Copy> StringMap<V> {
    /// Takes a key out.
    pub fn remove(&mut self, key: &str)
        ensures
            final(self)@ == old(self)@.remove(key@),
    {
        let ghost p = keyed_otherwise::<V>(key@);
        let mut kept: Vec<(String, V)> = Vec::new();
        let mut i: usize = 0;
        proof {
            reveal(Seq::filter);
        }
        while i < self.entries.len()
            invariant
                i <= self.entries.len(),
                self.entries == old(self).entries,
                p == keyed_otherwise::<V>(key@),
                kept@ == self.entries@.take(i as int).filter(p),
            decreases self.entries.len() - i,
        {
            let ghost entry = self.entries@[i as int];
            proof {
                self.entries@.take(i as int).lemma_filter_push(entry, p);
                assert(self.entries@.take(i + 1) == self.entries@.take(i as int).push(entry));
            }
            if !same(self.entries[i].0.as_str(), key) {
                kept.push((self.entries[i].0.clone(), self.entries[i].1));
            }
            i = i + 1;
        }
        proof {
            assert(self.entries@.take(i as int) == self.entries@);
            assert forall|k: Seq<char>| #[trigger]
                lookup(self.entries@.filter(p), k) == (if k == key@ {
                    None
                } else {
                    lookup(self.entries@, k)
                }) by {
                lemma_lookup_filter(self.entries@, key@, k);
            }
        }
        self.entries = kept;
        assert(self@ =~= old(self)@.remove(key@));
    }
}

} // verus!
