//! A keyed table: one value for each key text that it holds.

use crate::text::{same_text, texts};
use vstd::prelude::*;

verus! {

/// A table from key texts to values. Each key occurs once.
pub struct Table<V> {
    keys: Vec<String>,
    values: Vec<V>,
}

impl<V> View for Table<V> {
    type V = Map<Seq<char>, V>;

    /// The table as a map from key text to value.
    closed spec fn view(&self) -> Map<Seq<char>, V> {
        Map::new(
            |k: Seq<char>| texts(self.keys@).contains(k),
            |k: Seq<char>| self.values@[texts(self.keys@).index_of(k)],
        )
    }
}

impl<V> Table<V> {
    /// The table's invariant: one value per key, and no key twice.
    pub closed spec fn wf(&self) -> bool {
        &&& self.keys@.len() == self.values@.len()
        &&& texts(self.keys@).no_duplicates()
    }

    /// The view holds the keys of the key column, each with the value
    /// that stands beside it.
    proof fn lemma_columns(&self)
        requires
            self.wf(),
        ensures
            forall|k: Seq<char>| self@.contains_key(k) <==> texts(self.keys@).contains(k),
            forall|i: int|
                0 <= i < self.keys@.len() ==> self@.contains_key(#[trigger] texts(self.keys@)[i])
                    && self@[texts(self.keys@)[i]] == self.values@[i],
    {
        let keys = texts(self.keys@);
        assert forall|i: int| 0 <= i < keys.len() implies self@.contains_key(#[trigger] keys[i])
            && self@[keys[i]] == self.values@[i] by {
            assert(keys.contains(keys[i]));
            let j = keys.index_of(keys[i]);
            assert(0 <= j < keys.len() && keys[j] == keys[i]);
        }
    }

    /// An empty table.
    pub fn new() -> (table: Self)
        ensures
            table.wf(),
            table@ == Map::<Seq<char>, V>::empty(),
    {
        let table = Table { keys: Vec::new(), values: Vec::new() };
        assert(table@ =~= Map::<Seq<char>, V>::empty());
        table
    }

    /// Where `key` stands in the key column, if it is there.
    fn position(&self, key: &str) -> (at: Option<usize>)
        requires
            self.wf(),
        ensures
            match at {
                Some(i) => i < self.keys@.len() && texts(self.keys@)[i as int] == key@
                    && self@.contains_key(key@) && self@[key@] == self.values@[i as int],
                None => !texts(self.keys@).contains(key@) && !self@.contains_key(key@),
            },
    {
        proof {
            self.lemma_columns();
        }
        let mut i: usize = 0;
        while i < self.keys.len()
            invariant
                self.wf(),
                i <= self.keys@.len(),
                forall|j: int| 0 <= j < i ==> texts(self.keys@)[j] != key@,
                forall|j: int|
                    0 <= j < self.keys@.len() ==> self@.contains_key(
                        #[trigger] texts(self.keys@)[j],
                    ) && self@[texts(self.keys@)[j]] == self.values@[j],
            decreases self.keys.len() - i,
        {
            if same_text(self.keys[i].as_str(), key) {
                assert(texts(self.keys@)[i as int] == key@);
                return Some(i);
            }
            i += 1;
        }
        None
    }

    /// Tests whether the table holds `key`.
    pub fn contains_key(&self, key: &str) -> (held: bool)
        requires
            self.wf(),
        ensures
            held == self@.contains_key(key@),
    {
        self.position(key).is_some()
    }

    /// The value of `key`, if the table holds the key.
    pub fn get(&self, key: &str) -> (value: Option<&V>)
        requires
            self.wf(),
        ensures
            match value {
                Some(v) => self@.contains_key(key@) && *v == self@[key@],
                None => !self@.contains_key(key@),
            },
    {
        match self.position(key) {
            Some(i) => Some(&self.values[i]),
            None => None,
        }
    }

    /// The value of `key`, to be changed in place, if the table holds the key.
    pub fn get_mut(&mut self, key: &str) -> (value: Option<&mut V>)
        requires
            old(self).wf(),
        ensures
            final(self).wf(),
            match value {
                Some(v) => old(self)@.contains_key(key@) && *v == old(self)@[key@] && final(self)@
                    == old(self)@.insert(key@, *final(v)),
                None => !old(self)@.contains_key(key@) && final(self)@ == old(self)@,
            },
    {
        match self.position(key) {
            Some(i) => {
                let value = &mut self.values[i];
                Some(value)
            },
            None => None,
        }
    }

    /// The value of `key`, to be changed in place; a key that the table does
    /// not hold is first given the value `fresh`.
    pub fn get_or_insert(&mut self, key: String, fresh: V) -> (value: &mut V)
        requires
            old(self).wf(),
        ensures
            final(self).wf(),
            *value == if old(self)@.contains_key(key@) {
                old(self)@[key@]
            } else {
                fresh
            },
            final(self)@ == old(self)@.insert(key@, *final(value)),
    {
        proof {
            self.lemma_columns();
        }
        let ghost keys = texts(self.keys@);
        let ghost key_text = key@;
        let at = match self.position(key.as_str()) {
            Some(i) => {
                assert(self@ =~= old(self)@.insert(key_text, self.values@[i as int]));
                i
            },
            None => {
                self.keys.push(key);
                self.values.push(fresh);
                proof {
                    let after = texts(self.keys@);
                    assert(after =~= keys.push(key_text));
                    self.lemma_columns();
                    assert(after[keys.len() as int] == key_text);
                    assert forall|k: Seq<char>| #[trigger]
                        old(self)@.insert(key_text, fresh).contains_key(k) implies self@.contains_key(
                        k,
                    ) && self@[k] == old(self)@.insert(key_text, fresh)[k] by {
                        if k != key_text {
                            let j = keys.index_of(k);
                            assert(after[j] == k);
                        }
                    }
                    assert forall|k: Seq<char>| #[trigger]
                        self@.contains_key(k) implies old(self)@.insert(
                        key_text,
                        fresh,
                    ).contains_key(k) by {
                        let j = after.index_of(k);
                        if j < keys.len() {
                            assert(keys[j] == k);
                        }
                    }
                    assert(self@ =~= old(self)@.insert(key_text, fresh));
                }
                self.values.len() - 1
            },
        };
        proof {
            self.lemma_columns();
            assert(texts(self.keys@)[at as int] == key_text);
        }
        &mut self.values[at]
    }

    /// Gives `key` the value `value`, and returns the value that it had.
    pub fn insert(&mut self, key: String, value: V) -> (before: Option<V>)
        requires
            old(self).wf(),
        ensures
            final(self).wf(),
            final(self)@ == old(self)@.insert(key@, value),
            match before {
                Some(v) => old(self)@.contains_key(key@) && v == old(self)@[key@],
                None => !old(self)@.contains_key(key@),
            },
    {
        proof {
            self.lemma_columns();
        }
        let ghost keys = texts(self.keys@);
        match self.position(key.as_str()) {
            Some(i) => {
                self.values.push(value);
                let before = self.values.swap_remove(i);
                proof {
                    self.lemma_columns();
                    assert forall|k: Seq<char>| #[trigger]
                        old(self)@.insert(key@, value).contains_key(k) implies self@[k] == old(
                        self,
                    )@.insert(key@, value)[k] by {
                        let j = keys.index_of(k);
                        assert(keys[j] == k);
                    }
                    assert(self@ =~= old(self)@.insert(key@, value));
                }
                Some(before)
            },
            None => {
                self.keys.push(key);
                self.values.push(value);
                proof {
                    let after = texts(self.keys@);
                    assert(after =~= keys.push(key@));
                    self.lemma_columns();
                    assert(after[keys.len() as int] == key@);
                    assert forall|k: Seq<char>| #[trigger]
                        old(self)@.insert(key@, value).contains_key(k) implies self@.contains_key(k)
                        && self@[k] == old(self)@.insert(key@, value)[k] by {
                        if k != key@ {
                            let j = keys.index_of(k);
                            assert(after[j] == k);
                        }
                    }
                    assert forall|k: Seq<char>| #[trigger]
                        self@.contains_key(k) implies old(self)@.insert(key@, value).contains_key(
                        k,
                    ) by {
                        let j = after.index_of(k);
                        if j < keys.len() {
                            assert(keys[j] == k);
                        }
                    }
                    assert(self@ =~= old(self)@.insert(key@, value));
                }
                None
            },
        }
    }

    /// Takes `key` out of the table, and returns the value that it had.
    pub fn remove(&mut self, key: &str) -> (before: Option<V>)
        requires
            old(self).wf(),
        ensures
            final(self).wf(),
            final(self)@ == old(self)@.remove(key@),
            match before {
                Some(v) => old(self)@.contains_key(key@) && v == old(self)@[key@],
                None => !old(self)@.contains_key(key@),
            },
    {
        proof {
            self.lemma_columns();
        }
        let ghost keys = texts(self.keys@);
        match self.position(key) {
            Some(i) => {
                self.keys.swap_remove(i);
                let before = self.values.swap_remove(i);
                proof {
                    let after = texts(self.keys@);
                    let last = keys.len() - 1;
                    assert(after =~= keys.update(i as int, keys[last]).drop_last());
                    assert forall|a: int, b: int|
                        0 <= a < after.len() && 0 <= b < after.len() && a != b implies after[a]
                        != after[b] by {
                        let x = if a == i {
                            last
                        } else {
                            a
                        };
                        let y = if b == i {
                            last
                        } else {
                            b
                        };
                        assert(after[a] == keys[x] && after[b] == keys[y]);
                    }
                    self.lemma_columns();
                    assert forall|k: Seq<char>| #[trigger]
                        old(self)@.remove(key@).contains_key(k) implies self@.contains_key(k)
                        && self@[k] == old(self)@.remove(key@)[k] by {
                        let j = keys.index_of(k);
                        assert(keys[j] == k);
                        let x = if j == last {
                            i as int
                        } else {
                            j
                        };
                        assert(after[x] == k);
                    }
                    assert forall|k: Seq<char>| #[trigger]
                        self@.contains_key(k) implies old(self)@.remove(key@).contains_key(k) by {
                        let j = after.index_of(k);
                        let x = if j == i {
                            last
                        } else {
                            j
                        };
                        assert(keys[x] == k);
                    }
                    assert(self@ =~= old(self)@.remove(key@));
                }
                Some(before)
            },
            None => {
                assert(self@ =~= old(self)@.remove(key@));
                None
            },
        }
    }
}

} // verus!
