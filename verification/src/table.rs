//! A small association table: keys of any comparable type with their values,
//! in the order in which the keys came.

use vstd::prelude::*;

verus! {

/// A key that can be held against another one.
pub trait TableKey: Copy {
    /// Decides whether two keys are the same.
    fn same(&self, other: &Self) -> (same: bool)
        ensures
            same == (*self == *other),
    ;
}

/// Values by key; no key occurs twice.
#[derive(Debug)]
pub struct Table<K, V> {
    keys: Vec<K>,
    values: Vec<V>,
}

/// The position of a key among distinct keys.
pub open spec fn position_of<K>(keys: Seq<K>, key: K) -> int {
    choose|i: int| 0 <= i < keys.len() && keys[i] == key
}

impl<K, V> View for Table<K, V> {
    type V = Map<K, V>;

    closed spec fn view(&self) -> Map<K, V> {
        Map::new(
            |key: K| self.keys@.contains(key),
            |key: K| self.values@[position_of(self.keys@, key)],
        )
    }
}

impl<K: TableKey, V> Table<K, V> {
    /// Every key stands once, with a value.
    pub closed spec fn well_formed(&self) -> bool {
        &&& self.keys@.no_duplicates()
        &&& self.values@.len() == self.keys@.len()
    }

    /// The keys in the order in which they came.
    pub closed spec fn order(&self) -> Seq<K> {
        self.keys@
    }

    /// The order lists each key of the table once.
    pub proof fn lemma_order(&self)
        requires
            self.well_formed(),
        ensures
            self.order().no_duplicates(),
            forall|key: K| #[trigger] self@.contains_key(key) <==> self.order().contains(key),
            forall|i: int|
                0 <= i < self.order().len() ==> self@.contains_key(#[trigger] self.order()[i]),
    {
    }

    proof fn lemma_value(&self, at: int)
        requires
            self.well_formed(),
            0 <= at < self.keys@.len(),
        ensures
            self@.contains_key(self.keys@[at]),
            self@[self.keys@[at]] == self.values@[at],
    {
        let key = self.keys@[at];
        assert(self.keys@.contains(key));
        assert(self.keys@[position_of(self.keys@, key)] == key);
    }

    /// An empty table.
    pub fn new() -> (table: Table<K, V>)
        ensures
            table.well_formed(),
            table@ == Map::<K, V>::empty(),
            table.order() == Seq::<K>::empty(),
    {
        let table = Table { keys: Vec::new(), values: Vec::new() };
        assert(table@ =~= Map::<K, V>::empty());
        table
    }

    /// Number of keys.
    pub fn len(&self) -> (count: usize)
        requires
            self.well_formed(),
        ensures
            count == self.order().len(),
    {
        self.keys.len()
    }

    /// The key at a position.
    pub fn key_at(&self, at: usize) -> (key: K)
        requires
            self.well_formed(),
            at < self.order().len(),
        ensures
            key == self.order()[at as int],
            self@.contains_key(key),
    {
        proof {
            self.lemma_value(at as int);
        }
        self.keys[at]
    }

    /// The value at a position.
    pub fn value_at(&self, at: usize) -> (value: &V)
        requires
            self.well_formed(),
            at < self.order().len(),
        ensures
            *value == self@[self.order()[at as int]],
    {
        proof {
            self.lemma_value(at as int);
        }
        &self.values[at]
    }

    /// Finds the position of a key.
    pub fn find(&self, key: &K) -> (at: Option<usize>)
        requires
            self.well_formed(),
        ensures
            match at {
                Some(at) => at < self.order().len() && self.order()[at as int] == *key
                    && self@.contains_key(*key),
                None => !self@.contains_key(*key),
            },
    {
        let mut i: usize = 0;
        while i < self.keys.len()
            invariant
                i <= self.keys@.len(),
                self.well_formed(),
                forall|j: int| 0 <= j < i ==> self.keys@[j] != *key,
            decreases self.keys@.len() - i,
        {
            if self.keys[i].same(key) {
                proof {
                    self.lemma_value(i as int);
                }
                return Some(i);
            }
            i += 1;
        }
        None
    }

    /// The value of a key.
    pub fn get(&self, key: &K) -> (value: Option<&V>)
        requires
            self.well_formed(),
        ensures
            match value {
                Some(value) => self@.contains_key(*key) && *value == self@[*key],
                None => !self@.contains_key(*key),
            },
    {
        match self.find(key) {
            Some(at) => Some(self.value_at(at)),
            None => None,
        }
    }

    /// Whether a key is there.
    pub fn contains_key(&self, key: &K) -> (found: bool)
        requires
            self.well_formed(),
        ensures
            found == self@.contains_key(*key),
    {
        self.find(key).is_some()
    }

    proof fn lemma_updated(before: Self, after: Self, at: int, value: V)
        requires
            before.well_formed(),
            0 <= at < before.keys@.len(),
            after.keys@ == before.keys@,
            after.values@ == before.values@.update(at, value),
        ensures
            after.well_formed(),
            after@ == before@.insert(before.keys@[at], value),
    {
        before.lemma_value(at);
        after.lemma_value(at);
        let goal = before@.insert(before.keys@[at], value);
        assert forall|other: K| goal.contains_key(other) implies after@[other] == goal[other] by {
            let i = position_of(after.keys@, other);
            assert(after.keys@.contains(other));
            assert(after.keys@[i] == other);
            after.lemma_value(i);
            before.lemma_value(i);
        }
        assert(after@ =~= goal);
    }

    /// The value at a position, to be changed in place.
    pub fn value_mut(&mut self, at: usize) -> (value: &mut V)
        requires
            old(self).well_formed(),
            at < old(self).order().len(),
        ensures
            *value == old(self)@[old(self).order()[at as int]],
            final(self).well_formed(),
            final(self).order() == old(self).order(),
            final(self)@ == old(self)@.insert(old(self).order()[at as int], *final(value)),
    {
        let ghost before = *self;
        proof {
            self.lemma_value(at as int);
        }
        let ghost after = *final(self);
        let value = &mut self.values[at];
        proof {
            Self::lemma_updated(before, after, at as int, *final(value));
        }
        value
    }

    /// Gives a new key a value.
    pub fn insert_new(&mut self, key: K, value: V)
        requires
            old(self).well_formed(),
            !old(self)@.contains_key(key),
        ensures
            final(self).well_formed(),
            final(self).order() == old(self).order().push(key),
            final(self)@ == old(self)@.insert(key, value),
    {
        let ghost before = *self;
        self.keys.push(key);
        self.values.push(value);
        proof {
            let last = before.keys@.len() as int;
            assert(self.keys@[last] == key);
            assert forall|i: int, j: int|
                0 <= i < self.keys@.len() && 0 <= j < self.keys@.len() && i != j implies self.keys@[i]
                != self.keys@[j] by {
                assert(forall|k: int| 0 <= k < last ==> before.keys@.contains(#[trigger] before.keys@[k]));
                assert(i < last ==> self.keys@[i] == before.keys@[i]);
                assert(j < last ==> self.keys@[j] == before.keys@[j]);
            }
            let goal = before@.insert(key, value);
            assert forall|other: K| goal.contains_key(other) == self@.contains_key(other) by {
                if before.keys@.contains(other) {
                    let i = position_of(before.keys@, other);
                    assert(self.keys@[i] == other);
                }
                if self.keys@.contains(other) {
                    let i = position_of(self.keys@, other);
                    if i < last {
                        assert(before.keys@[i] == other);
                    }
                }
            }
            assert forall|other: K| goal.contains_key(other) implies self@[other] == goal[other] by {
                let i = position_of(self.keys@, other);
                assert(self.keys@.contains(other));
                self.lemma_value(i);
                if i < last {
                    assert(before.keys@[i] == other);
                    before.lemma_value(i);
                }
                self.lemma_value(last);
            }
            assert(self@ =~= goal);
        }
    }

    /// Takes the key at a position out and hands its value back.
    pub fn remove_at(&mut self, at: usize) -> (value: V)
        requires
            old(self).well_formed(),
            at < old(self).order().len(),
        ensures
            final(self).well_formed(),
            final(self).order() == old(self).order().remove(at as int),
            final(self)@ == old(self)@.remove(old(self).order()[at as int]),
            value == old(self)@[old(self).order()[at as int]],
    {
        let ghost before = *self;
        proof {
            self.lemma_value(at as int);
        }
        let key = self.keys.remove(at);
        let value = self.values.remove(at);
        proof {
            let goal = before@.remove(key);
            assert forall|i: int|
                0 <= i < self.keys@.len() implies #[trigger] self.keys@[i] == before.keys@[if i < at {
                i
            } else {
                i + 1
            }] by {}
            assert forall|other: K| goal.contains_key(other) == self@.contains_key(other) by {
                if before.keys@.contains(other) && other != key {
                    let i = position_of(before.keys@, other);
                    let k = if i < at {
                        i
                    } else {
                        i - 1
                    };
                    assert(self.keys@[k] == other);
                }
                if self.keys@.contains(other) {
                    let i = position_of(self.keys@, other);
                    let k = if i < at {
                        i
                    } else {
                        i + 1
                    };
                    assert(before.keys@[k] == other);
                }
            }
            assert forall|other: K| goal.contains_key(other) implies self@[other] == goal[other] by {
                let i = position_of(self.keys@, other);
                assert(self.keys@.contains(other));
                let k = if i < at {
                    i
                } else {
                    i + 1
                };
                self.lemma_value(i);
                before.lemma_value(k);
            }
            assert(self@ =~= goal);
        }
        value
    }
}

} // verus!
