//! A cache of values keyed by a name, a scale and a place.

use vstd::prelude::*;

verus! {

/// A key: a name, a scale and a place.
pub type Key = (Seq<char>, i32, usize);

/// One entry of the cache.
#[derive(Debug)]
pub struct Entry<V> {
    pub name: String,
    pub scale: i32,
    pub place: usize,
    pub value: V,
}

impl<V> Entry<V> {
    pub open spec fn key(&self) -> Key {
        (self.name@, self.scale, self.place)
    }
}

/// A cache that holds no key twice.
#[derive(Debug)]
pub struct KeyedCache<V> {
    pub entries: Vec<Entry<V>>,
}

impl<V> KeyedCache<V> {
    /// No key occurs twice.
    pub open spec fn wf(&self) -> bool {
        forall|i: int, j: int|
            0 <= i < j < self.entries@.len() ==> (#[trigger] self.entries@[i]).key() != (
            #[trigger] self.entries@[j]).key()
    }

    /// The entry with a key is at this place.
    pub open spec fn at(&self, key: Key, i: int) -> bool {
        0 <= i < self.entries@.len() && self.entries@[i].key() == key
    }

    /// What the cache holds.
    pub open spec fn view(&self) -> Map<Key, V> {
        Map::new(
            |key: Key| exists|i: int| #[trigger] self.at(key, i),
            |key: Key| self.entries@[choose|i: int| #[trigger] self.at(key, i)].value,
        )
    }

    proof fn lemma_found(&self, key: Key, i: int)
        requires
            self.wf(),
            self.at(key, i),
        ensures
            self@.contains_key(key),
            self@[key] == self.entries@[i].value,
    {
        let k = choose|k: int| #[trigger] self.at(key, k);
        assert(self.at(key, k));
        if k < i {
            assert(self.entries@[k].key() != self.entries@[i].key());
        } else if i < k {
            assert(self.entries@[i].key() != self.entries@[k].key());
        }
    }

    /// An empty cache.
    pub fn new() -> (cache: Self)
        ensures
            cache.wf(),
            cache@ == Map::<Key, V>::empty(),
    {
        let cache: Self = KeyedCache { entries: Vec::new() };
        assert(cache@ =~= Map::<Key, V>::empty());
        cache
    }

    /// Forget everything.
    pub fn clear(&mut self)
        ensures
            final(self).wf(),
            final(self)@ == Map::<Key, V>::empty(),
    {
        self.entries.clear();
        assert(self@ =~= Map::<Key, V>::empty());
    }

    fn find(&self, name: &String, scale: i32, place: usize) -> (found: Option<usize>)
        ensures
            (match found {
                Some(i) => self.at((name@, scale, place), i as int),
                None => forall|i: int| !#[trigger] self.at((name@, scale, place), i),
            }),
    {
        let mut i: usize = 0;
        while i < self.entries.len()
            invariant
                i <= self.entries@.len(),
                forall|j: int| 0 <= j < i ==> !#[trigger] self.at((name@, scale, place), j),
            decreases self.entries@.len() - i,
        {
            let entry: &Entry<V> = &self.entries[i];
            if entry.scale == scale && entry.place == place && entry.name == *name {
                return Some(i);
            }
            i = i + 1;
        }
        None
    }

    /// The value of a key.
    pub fn get(&self, name: &String, scale: i32, place: usize) -> (value: Option<&V>)
        requires
            self.wf(),
        ensures
            (match value {
                Some(v) => self@.contains_key((name@, scale, place)) && *v == self@[(
                    name@,
                    scale,
                    place,
                )],
                None => !self@.contains_key((name@, scale, place)),
            }),
    {
        match self.find(name, scale, place) {
            Some(i) => {
                proof {
                    self.lemma_found((name@, scale, place), i as int);
                }
                Some(&self.entries[i].value)
            },
            None => None,
        }
    }

    /// Set the value of a key.
    pub fn insert(&mut self, name: &String, scale: i32, place: usize, value: V)
        requires
            old(self).wf(),
        ensures
            final(self).wf(),
            final(self)@ == old(self)@.insert((name@, scale, place), value),
    {
        let ghost key = (name@, scale, place);
        let ghost before = *self;
        let found: Option<usize> = self.find(name, scale, place);
        let entry: Entry<V> = Entry { name: name.clone(), scale, place, value };
        let ghost at: int = match found {
            Some(i) => i as int,
            None => self.entries@.len() as int,
        };
        match found {
            Some(i) => {
                self.entries.set(i, entry);
            },
            None => {
                self.entries.push(entry);
            },
        }
        proof {
            let after = *self;
            assert(after.at(key, at));
            assert(after.entries@[at].value == value);
            assert forall|i: int, j: int| 0 <= i < j < after.entries@.len() implies (
            #[trigger] after.entries@[i]).key() != (#[trigger] after.entries@[j]).key() by {
                if i != at && j != at {
                    assert(before.entries@[i].key() != before.entries@[j].key());
                } else if i == at {
                    if found is Some {
                        assert(before.entries@[i].key() != before.entries@[j].key());
                    }
                } else {
                    if found is Some {
                        assert(before.entries@[i].key() != before.entries@[j].key());
                    } else {
                        assert(!before.at(key, i));
                    }
                }
            }
            assert forall|k: Key| #[trigger] after@.contains_key(k) == before@.insert(
                key,
                value,
            ).contains_key(k) && (after@.contains_key(k) ==> after@[k] == before@.insert(
                key,
                value,
            )[k]) by {
                if k == key {
                    after.lemma_found(key, at);
                } else {
                    if before@.contains_key(k) {
                        let i = choose|i: int| #[trigger] before.at(k, i);
                        before.lemma_found(k, i);
                        assert(i != at);
                        assert(after.at(k, i));
                        after.lemma_found(k, i);
                    }
                    if after@.contains_key(k) {
                        let i = choose|i: int| #[trigger] after.at(k, i);
                        assert(i != at);
                        assert(before.at(k, i));
                    }
                }
            }
            assert(after@ =~= before@.insert(key, value));
        }
    }
}

} // verus!
