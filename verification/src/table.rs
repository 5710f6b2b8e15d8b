//! A small table with texts as keys.
use crate::text::{has_text, same_text, strings};
use vstd::prelude::*;

verus! {

/// A table with texts as keys.
#[derive(Debug)]
pub struct Table<T> {
    pub entries: Vec<(String, T)>,
}

/// What a list of entries holds under a key: the first entry of the key counts.
pub open spec fn lookup<T>(entries: Seq<(String, T)>, key: Seq<char>) -> Option<T>
    decreases entries.len(),
{
    if entries.len() == 0 {
        None
    } else {
        match lookup(entries.drop_last(), key) {
            Some(value) => Some(value),
            None => if entries.last().0@ == key {
                Some(entries.last().1)
            } else {
                None
            },
        }
    }
}

/// The entries with other keys.
pub open spec fn without<T>(entries: Seq<(String, T)>, key: Seq<char>) -> Seq<(String, T)>
    decreases entries.len(),
{
    if entries.len() == 0 {
        entries
    } else if entries.last().0@ == key {
        without(entries.drop_last(), key)
    } else {
        without(entries.drop_last(), key).push(entries.last())
    }
}

/// The entries with the keys `keys`.
pub open spec fn only<T>(entries: Seq<(String, T)>, keys: Seq<Seq<char>>) -> Seq<(String, T)>
    decreases entries.len(),
{
    if entries.len() == 0 {
        entries
    } else if keys.contains(entries.last().0@) {
        only(entries.drop_last(), keys).push(entries.last())
    } else {
        only(entries.drop_last(), keys)
    }
}

impl<T> View for Table<T> {
    type V = Map<Seq<char>, T>;

    open spec fn view(&self) -> Map<Seq<char>, T> {
        Map::new(
            |key: Seq<char>| lookup(self.entries@, key) is Some,
            |key: Seq<char>| lookup(self.entries@, key).unwrap(),
        )
    }
}

proof fn lemma_lookup_without<T>(entries: Seq<(String, T)>, key: Seq<char>, other: Seq<char>)
    ensures
        lookup(without(entries, key), other) == if other == key {
            None
        } else {
            lookup(entries, other)
        },
    decreases entries.len(),
{
    if entries.len() > 0 {
        lemma_lookup_without(entries.drop_last(), key, other);
        let front = without(entries.drop_last(), key);
        assert(front.push(entries.last()).drop_last() =~= front);
    }
}

proof fn lemma_lookup_only<T>(entries: Seq<(String, T)>, keys: Seq<Seq<char>>, other: Seq<char>)
    ensures
        lookup(only(entries, keys), other) == if keys.contains(other) {
            lookup(entries, other)
        } else {
            None
        },
    decreases entries.len(),
{
    if entries.len() > 0 {
        lemma_lookup_only(entries.drop_last(), keys, other);
        let front = only(entries.drop_last(), keys);
        assert(front.push(entries.last()).drop_last() =~= front);
    }
}

impl<T> Table<T> {
    /// An empty table.
    pub fn new() -> (table: Self)
        ensures
            table@ == Map::<Seq<char>, T>::empty(),
    {
        let table = Table { entries: Vec::new() };
        assert(table@ =~= Map::<Seq<char>, T>::empty());
        table
    }

    /// What stands under a key.
    pub fn get(&self, key: &str) -> (value: Option<&T>)
        ensures
            match value {
                Some(value) => self@.contains_key(key@) && self@[key@] == *value,
                None => !self@.contains_key(key@),
            },
    {
        let mut i: usize = 0;
        while i < self.entries.len()
            invariant
                i <= self.entries.len(),
                lookup(self.entries@.take(i as int), key@) is None,
            decreases self.entries.len() - i,
        {
            assert(self.entries@.take(i + 1).drop_last() =~= self.entries@.take(i as int));
            if same_text(self.entries[i].0.as_str(), key) {
                proof {
                    lemma_lookup_stays(self.entries@, key@, i + 1);
                }
                return Some(&self.entries[i].1);
            }
            i += 1;
        }
        assert(self.entries@.take(self.entries@.len() as int) =~= self.entries@);
        None
    }

    /// Takes away what stands under a key.
    pub fn remove(&mut self, key: &str)
        ensures
            final(self)@ == old(self)@.remove(key@),
    {
        let ghost orig = self.entries@;
        let mut left: Vec<(String, T)> = Vec::new();
        let ghost mut i: int = 0;
        assert(orig.skip(0) =~= orig);
        while self.entries.len() > 0
            invariant
                0 <= i <= orig.len(),
                self.entries@ == orig.skip(i),
                left@ == without(orig.take(i), key@),
            decreases self.entries.len(),
        {
            let entry = self.entries.remove(0);
            assert(entry == orig[i]);
            assert(orig.take(i + 1).drop_last() =~= orig.take(i));
            assert(orig.take(i + 1).last() == orig[i]);
            assert(orig.skip(i).remove(0) =~= orig.skip(i + 1));
            if !same_text(entry.0.as_str(), key) {
                left.push(entry);
            }
            proof {
                i = i + 1;
            }
        }
        assert(orig.take(i) =~= orig);
        self.entries = left;
        proof {
            assert forall|k: Seq<char>| lookup(self.entries@, k) == if k == key@ {
                None
            } else {
                lookup(orig, k)
            } by {
                lemma_lookup_without(orig, key@, k);
            }
        }
        assert(self@ =~= old(self)@.remove(key@));
    }

    /// Puts a value under a key.
    pub fn insert(&mut self, key: &str, value: T)
        ensures
            final(self)@ == old(self)@.insert(key@, value),
    {
        self.remove(key);
        let ghost mid = self@;
        let ghost before = self.entries@;
        self.entries.push((String::from_str(key), value));
        assert(self.entries@.drop_last() =~= before);
        assert forall|k: Seq<char>| lookup(self.entries@, k) == if k == key@ {
            Some(value)
        } else {
            lookup(before, k)
        } by {
            assert(!mid.contains_key(key@));
        }
        assert(self@ =~= mid.insert(key@, value));
        assert(mid.insert(key@, value) =~= old(self)@.insert(key@, value));
    }

    /// Keeps only what stands under some keys.
    pub fn retain(&mut self, keys: &[String])
        ensures
            final(self)@ == old(self)@.restrict(strings(keys@).to_set()),
    {
        let ghost orig = self.entries@;
        let mut left: Vec<(String, T)> = Vec::new();
        let ghost mut i: int = 0;
        assert(orig.skip(0) =~= orig);
        while self.entries.len() > 0
            invariant
                0 <= i <= orig.len(),
                self.entries@ == orig.skip(i),
                left@ == only(orig.take(i), strings(keys@)),
            decreases self.entries.len(),
        {
            let entry = self.entries.remove(0);
            assert(entry == orig[i]);
            assert(orig.take(i + 1).drop_last() =~= orig.take(i));
            assert(orig.take(i + 1).last() == orig[i]);
            assert(orig.skip(i).remove(0) =~= orig.skip(i + 1));
            if has_text(keys, entry.0.as_str()) {
                left.push(entry);
            }
            proof {
                i = i + 1;
            }
        }
        assert(orig.take(i) =~= orig);
        self.entries = left;
        proof {
            assert forall|k: Seq<char>| lookup(self.entries@, k) == if strings(keys@).contains(k) {
                lookup(orig, k)
            } else {
                None
            } by {
                lemma_lookup_only(orig, strings(keys@), k);
            }
        }
        assert(self@ =~= old(self)@.restrict(strings(keys@).to_set()));
    }
}

proof fn lemma_lookup_stays<T>(entries: Seq<(String, T)>, key: Seq<char>, n: int)
    requires
        0 <= n <= entries.len(),
        lookup(entries.take(n), key) is Some,
    ensures
        lookup(entries, key) == lookup(entries.take(n), key),
    decreases entries.len() - n,
{
    if n < entries.len() {
        assert(entries.take(n + 1).drop_last() =~= entries.take(n));
        lemma_lookup_stays(entries, key, n + 1);
    } else {
        assert(entries.take(n) =~= entries);
    }
}

} // verus!
