//! A small association table keyed by characters.
use vstd::prelude::*;

verus! {

/// The value of the first entry of `entries` whose key is `k`, if any.
pub open spec fn first_match<V>(entries: Seq<(char, V)>, k: char) -> Option<V>
    decreases entries.len(),
{
    if entries.len() == 0 {
        None
    } else if entries[0].0 == k {
        Some(entries[0].1)
    } else {
        first_match(entries.drop_first(), k)
    }
}

/// Updating the first entry with key `k` changes what `k` maps to, and nothing else.
proof fn lemma_first_match_update<V>(entries: Seq<(char, V)>, i: int, k: char, v: V, k2: char)
    requires
        0 <= i < entries.len(),
        entries[i].0 == k,
        forall|j: int| 0 <= j < i ==> entries[j].0 != k,
    ensures
        first_match(entries.update(i, (k, v)), k2) == if k2 == k {
            Some(v)
        } else {
            first_match(entries, k2)
        },
    decreases i,
{
    let updated = entries.update(i, (k, v));
    if i > 0 {
        assert(entries[0].0 != k);
        assert forall|j: int| 0 <= j < i - 1 implies entries.drop_first()[j].0 != k by {
            assert(entries.drop_first()[j] == entries[j + 1]);
        }
        lemma_first_match_update(entries.drop_first(), i - 1, k, v, k2);
        assert(updated.drop_first() =~= entries.drop_first().update(i - 1, (k, v)));
        assert(updated[0] == entries[0]);
    } else {
        assert(updated.drop_first() =~= entries.drop_first());
    }
}

/// Appending an entry with a key not yet present maps that key and nothing else.
proof fn lemma_first_match_push<V>(entries: Seq<(char, V)>, k: char, v: V, k2: char)
    requires
        forall|j: int| 0 <= j < entries.len() ==> entries[j].0 != k,
    ensures
        first_match(entries.push((k, v)), k2) == if k2 == k {
            Some(v)
        } else {
            first_match(entries, k2)
        },
    decreases entries.len(),
{
    let pushed = entries.push((k, v));
    if entries.len() > 0 {
        assert forall|j: int| 0 <= j < entries.drop_first().len() implies entries.drop_first()[j].0 != k by {
            assert(entries.drop_first()[j] == entries[j + 1]);
        }
        lemma_first_match_push(entries.drop_first(), k, v, k2);
        assert(pushed.drop_first() =~= entries.drop_first().push((k, v)));
        assert(pushed[0] == entries[0]);
    } else {
        assert(pushed.drop_first() =~= entries);
        assert(pushed[0] == (k, v));
    }
}

/// A finite map from characters to values, kept as a list of entries.
///
/// Lookups take the first entry with a matching key; `insert` replaces an
/// existing entry in place, so each key is stored at most once.
#[derive(Clone, Debug)]
pub struct CharTable<V> {
    entries: Vec<(char, V)>,
}

impl<V> View for CharTable<V> {
    type V = Map<char, V>;

    closed spec fn view(&self) -> Map<char, V> {
        Map::new(
            |k: char| first_match(self.entries@, k) is Some,
            |k: char| first_match(self.entries@, k)->0,
        )
    }
}

impl<V> CharTable<V> {
    /// What `k` maps to, if anything.
    pub open spec fn lookup(&self, k: char) -> Option<V> {
        if self@.contains_key(k) {
            Some(self@[k])
        } else {
            None
        }
    }

    /// An empty table.
    pub fn new() -> (r: Self)
        ensures
            r@ == Map::<char, V>::empty(),
    {
        let r = CharTable { entries: Vec::new() };
        assert(r@ =~= Map::<char, V>::empty());
        r
    }

    /// The position of the first entry whose key is `k`.
    fn position(&self, k: char) -> (r: Option<usize>)
        ensures
            match r {
                Some(i) => {
                    &&& i < self.entries@.len()
                    &&& self.entries@[i as int].0 == k
                    &&& forall|j: int| 0 <= j < i ==> self.entries@[j].0 != k
                },
                None => forall|j: int| 0 <= j < self.entries@.len() ==> self.entries@[j].0 != k,
            },
    {
        let mut i: usize = 0;
        while i < self.entries.len()
            invariant
                i <= self.entries@.len(),
                forall|j: int| 0 <= j < i ==> self.entries@[j].0 != k,
            decreases self.entries@.len() - i,
        {
            if self.entries[i].0 == k {
                return Some(i);
            }
            i = i + 1;
        }
        None
    }

    /// A reference to the value that `k` maps to, if any.
    pub fn get(&self, k: char) -> (r: Option<&V>)
        ensures
            match r {
                Some(v) => self@.contains_key(k) && *v == self@[k],
                None => !self@.contains_key(k),
            },
    {
        proof {
            lemma_first_match_index(self.entries@, k);
        }
        match self.position(k) {
            Some(i) => Some(&self.entries[i].1),
            None => None,
        }
    }

    /// Whether `k` has an entry.
    pub fn contains_key(&self, k: char) -> (r: bool)
        ensures
            r == self@.contains_key(k),
    {
        proof {
            lemma_first_match_index(self.entries@, k);
        }
        self.position(k).is_some()
    }

    /// Maps `k` to `v`, replacing any earlier value of `k`.
    pub fn insert(&mut self, k: char, v: V)
        ensures
            final(self)@ == old(self)@.insert(k, v),
    {
        match self.position(k) {
            Some(i) => {
                proof {
                    assert forall|k2: char|
                        first_match(self.entries@.update(i as int, (k, v)), k2) == if k2 == k {
                            Some(v)
                        } else {
                            first_match(self.entries@, k2)
                        } by {
                        lemma_first_match_update(self.entries@, i as int, k, v, k2);
                    }
                }
                self.entries.set(i, (k, v));
            },
            None => {
                proof {
                    assert forall|k2: char|
                        first_match(self.entries@.push((k, v)), k2) == if k2 == k {
                            Some(v)
                        } else {
                            first_match(self.entries@, k2)
                        } by {
                        lemma_first_match_push(self.entries@, k, v, k2);
                    }
                }
                self.entries.push((k, v));
            },
        }
        assert(self@ =~= old(self)@.insert(k, v));
    }
}

/// `first_match` finds the value of the first entry with the key, and none
/// when no entry has it.
proof fn lemma_first_match_index<V>(entries: Seq<(char, V)>, k: char)
    ensures
        (forall|j: int| 0 <= j < entries.len() ==> entries[j].0 != k) ==> first_match(entries, k)
            is None,
        forall|i: int|
            #![trigger entries[i]]
            0 <= i < entries.len() && entries[i].0 == k && (forall|j: int|
                0 <= j < i ==> entries[j].0 != k) ==> first_match(entries, k) == Some(entries[i].1),
    decreases entries.len(),
{
    if entries.len() > 0 {
        lemma_first_match_index(entries.drop_first(), k);
        assert forall|i: int|
            #![trigger entries[i]]
            0 <= i < entries.len() && entries[i].0 == k && (forall|j: int|
                0 <= j < i ==> entries[j].0 != k) implies first_match(entries, k) == Some(
            entries[i].1,
        ) by {
            if i > 0 {
                assert(entries.drop_first()[i - 1] == entries[i]);
                assert forall|j: int| 0 <= j < i - 1 implies entries.drop_first()[j].0 != k by {
                    assert(entries.drop_first()[j] == entries[j + 1]);
                }
            }
        }
        if forall|j: int| 0 <= j < entries.len() ==> entries[j].0 != k {
            assert forall|j: int| 0 <= j < entries.drop_first().len() implies entries.drop_first()[j].0 != k by {
                assert(entries.drop_first()[j] == entries[j + 1]);
            }
        }
    }
}

} // verus!
