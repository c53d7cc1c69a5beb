//! A finite map keyed by 32-byte values.
//!
//! Both the user registry and the rendezvous table are keyed by 32 bytes.
//! `Table` stores its entries in a vector in which no key occurs twice and
//! is read in contracts through its view, a `Map` from the key's bytes to
//! the stored value.

use vstd::prelude::*;

verus! {

/// A 32-byte key: a user identity or a room secret.
pub type Key = [u8; 32];

/// Decides whether two keys hold the same bytes.
pub fn key_eq(a: &Key, b: &Key) -> (same: bool)
    ensures
        same == (a@ == b@),
{
    let mut i: usize = 0;
    while i < 32
        invariant
            i <= 32,
            forall|j: int| 0 <= j < i ==> a@[j] == b@[j],
        decreases 32 - i,
    {
        if a[i] != b[i] {
            return false;
        }
        i += 1;
    }
    assert(a@ =~= b@);
    true
}

/// Whether `k` is the key of the entry at position `i`.
spec fn holds_at<V>(entries: Seq<(Key, V)>, k: Seq<u8>, i: int) -> bool {
    0 <= i < entries.len() && entries[i].0@ == k
}

/// Whether no key occurs at two positions.
spec fn distinct_keys<V>(entries: Seq<(Key, V)>) -> bool {
    forall|i: int, j: int|
        0 <= i < entries.len() && 0 <= j < entries.len() && i != j
            ==> #[trigger] entries[i].0@ != #[trigger] entries[j].0@
}

/// The map that a sequence of entries stands for.
spec fn entries_map<V>(entries: Seq<(Key, V)>) -> Map<Seq<u8>, V> {
    Map::new(
        |k: Seq<u8>| exists|i: int| holds_at(entries, k, i),
        |k: Seq<u8>| entries[choose|i: int| holds_at(entries, k, i)].1,
    )
}

/// A finite map from 32-byte keys to values of type `V`.
pub struct Table<V> {
    entries: Vec<(Key, V)>,
}

impl<V> View for Table<V> {
    type V = Map<Seq<u8>, V>;

    closed spec fn view(&self) -> Map<Seq<u8>, V> {
        entries_map(self.entries@)
    }
}

/// With distinct keys, the entry at position `i` is what the map holds under its key.
proof fn lemma_entry_in_map<V>(entries: Seq<(Key, V)>, i: int)
    requires
        distinct_keys(entries),
        0 <= i < entries.len(),
    ensures
        entries_map(entries).contains_key(entries[i].0@),
        entries_map(entries)[entries[i].0@] == entries[i].1,
{
    assert(holds_at(entries, entries[i].0@, i));
}

/// A key that sits at no position is not in the map.
proof fn lemma_absent_key<V>(entries: Seq<(Key, V)>, k: Seq<u8>)
    requires
        forall|i: int| 0 <= i < entries.len() ==> (#[trigger] entries[i]).0@ != k,
    ensures
        !entries_map(entries).contains_key(k),
{
    assert forall|i: int| !holds_at(entries, k, i) by {}
}

impl<V> Table<V> {
    #[verifier::type_invariant]
    spec fn well_formed(self) -> bool {
        distinct_keys(self.entries@)
    }

    /// An empty table.
    pub fn new() -> (table: Self)
        ensures
            table@ == Map::<Seq<u8>, V>::empty(),
    {
        Table { entries: Vec::new() }
    }

    /// The number of entries.
    pub fn len(&self) -> (n: usize)
        ensures
            self@.dom().finite(),
            n == self@.len(),
    {
        proof {
            use_type_invariant(self);
            lemma_entries_counted(self.entries@);
        }
        self.entries.len()
    }

    /// The position of `key` among the entries, if it is there.
    fn position(&self, key: &Key) -> (at: Option<usize>)
        ensures
            match at {
                Some(i) => holds_at(self.entries@, key@, i as int),
                None => forall|i: int| 0 <= i < self.entries@.len()
                    ==> (#[trigger] self.entries@[i]).0@ != key@,
            },
    {
        let mut i: usize = 0;
        while i < self.entries.len()
            invariant
                i <= self.entries@.len(),
                forall|j: int| 0 <= j < i ==> (#[trigger] self.entries@[j]).0@ != key@,
            decreases self.entries@.len() - i,
        {
            if key_eq(&self.entries[i].0, key) {
                return Some(i);
            }
            i += 1;
        }
        None
    }

    /// Whether the table holds an entry under `key`.
    pub fn contains_key(&self, key: &Key) -> (found: bool)
        ensures
            found == self@.contains_key(key@),
    {
        proof {
            use_type_invariant(self);
        }
        match self.position(key) {
            Some(i) => {
                proof {
                    lemma_entry_in_map(self.entries@, i as int);
                }
                true
            },
            None => {
                proof {
                    lemma_absent_key(self.entries@, key@);
                }
                false
            },
        }
    }

    /// The value stored under `key`, if there is one.
    pub fn get(&self, key: &Key) -> (value: Option<&V>)
        ensures
            match value {
                Some(v) => self@.contains_key(key@) && *v == self@[key@],
                None => !self@.contains_key(key@),
            },
    {
        proof {
            use_type_invariant(self);
        }
        match self.position(key) {
            Some(i) => {
                proof {
                    lemma_entry_in_map(self.entries@, i as int);
                }
                Some(&self.entries[i].1)
            },
            None => {
                proof {
                    lemma_absent_key(self.entries@, key@);
                }
                None
            },
        }
    }

    /// Stores `value` under `key`, in place of what was stored there before.
    pub fn insert(&mut self, key: Key, value: V)
        ensures
            final(self)@ == old(self)@.insert(key@, value),
    {
        proof {
            use_type_invariant(&*self);
        }
        let at = self.position(&key);
        let mut entries: Vec<(Key, V)> = Vec::new();
        std::mem::swap(&mut entries, &mut self.entries);
        let ghost before = entries@;
        match at {
            Some(i) => {
                entries.set(i, (key, value));
                proof {
                    lemma_update_is_insert(before, i as int, key, value);
                }
            },
            None => {
                entries.push((key, value));
                proof {
                    lemma_push_is_insert(before, key, value);
                }
            },
        }
        self.entries = entries;
    }

    /// Takes the entry under `key` out of the table and returns its value.
    pub fn remove(&mut self, key: &Key) -> (value: Option<V>)
        ensures
            final(self)@ == old(self)@.remove(key@),
            match value {
                Some(v) => old(self)@.contains_key(key@) && v == old(self)@[key@],
                None => !old(self)@.contains_key(key@),
            },
    {
        proof {
            use_type_invariant(&*self);
        }
        let at = self.position(key);
        match at {
            Some(i) => {
                let mut entries: Vec<(Key, V)> = Vec::new();
                std::mem::swap(&mut entries, &mut self.entries);
                let ghost before = entries@;
                let taken = entries.remove(i);
                proof {
                    lemma_entry_in_map(before, i as int);
                    lemma_remove_is_remove(before, i as int);
                }
                self.entries = entries;
                Some(taken.1)
            },
            None => {
                proof {
                    lemma_absent_key(self.entries@, key@);
                }
                None
            },
        }
    }
}

/// With distinct keys, the map holds as many keys as there are entries.
proof fn lemma_entries_counted<V>(entries: Seq<(Key, V)>)
    requires
        distinct_keys(entries),
    ensures
        entries_map(entries).dom().finite(),
        entries_map(entries).dom().len() == entries.len(),
    decreases entries.len(),
{
    if entries.len() == 0 {
        assert(entries_map(entries).dom() =~= Set::<Seq<u8>>::empty());
    } else {
        let front = entries.drop_last();
        let (key, value) = entries.last();
        assert forall|i: int, j: int|
            0 <= i < front.len() && 0 <= j < front.len() && i != j
                implies #[trigger] front[i].0@ != #[trigger] front[j].0@ by {}
        assert forall|i: int| 0 <= i < front.len() implies (#[trigger] front[i]).0@ != key@ by {}
        lemma_entries_counted(front);
        lemma_absent_key(front, key@);
        lemma_push_is_insert(front, key, value);
        assert(front.push((key, value)) =~= entries);
    }
}

/// Replacing the entry at position `i` by one with the same key stores the new value under that key.
proof fn lemma_update_is_insert<V>(entries: Seq<(Key, V)>, i: int, key: Key, value: V)
    requires
        distinct_keys(entries),
        holds_at(entries, key@, i),
    ensures
        distinct_keys(entries.update(i, (key, value))),
        entries_map(entries.update(i, (key, value))) == entries_map(entries).insert(key@, value),
{
    let after = entries.update(i, (key, value));
    assert forall|a: int, b: int|
        0 <= a < after.len() && 0 <= b < after.len() && a != b
            implies #[trigger] after[a].0@ != #[trigger] after[b].0@ by {}
    let m = entries_map(entries).insert(key@, value);
    assert forall|k: Seq<u8>| entries_map(after).contains_key(k) <==> m.contains_key(k) by {
        if entries_map(after).contains_key(k) {
            let j = choose|j: int| holds_at(after, k, j);
            assert(holds_at(entries, k, j));
        }
        if m.contains_key(k) {
            if k == key@ {
                assert(holds_at(after, k, i));
            } else {
                let j = choose|j: int| holds_at(entries, k, j);
                assert(holds_at(after, k, j));
            }
        }
    }
    assert forall|k: Seq<u8>| entries_map(after).contains_key(k)
        implies entries_map(after)[k] == m[k] by {
        let j = choose|j: int| holds_at(after, k, j);
        lemma_entry_in_map(after, j);
        if j != i {
            lemma_entry_in_map(entries, j);
        }
    }
}

/// Appending an entry whose key is new stores its value under that key.
proof fn lemma_push_is_insert<V>(entries: Seq<(Key, V)>, key: Key, value: V)
    requires
        distinct_keys(entries),
        forall|i: int| 0 <= i < entries.len() ==> (#[trigger] entries[i]).0@ != key@,
    ensures
        distinct_keys(entries.push((key, value))),
        entries_map(entries.push((key, value))) == entries_map(entries).insert(key@, value),
{
    let after = entries.push((key, value));
    let last = entries.len() as int;
    assert forall|a: int, b: int|
        0 <= a < after.len() && 0 <= b < after.len() && a != b
            implies #[trigger] after[a].0@ != #[trigger] after[b].0@ by {}
    let m = entries_map(entries).insert(key@, value);
    assert forall|k: Seq<u8>| entries_map(after).contains_key(k) <==> m.contains_key(k) by {
        if entries_map(after).contains_key(k) {
            let j = choose|j: int| holds_at(after, k, j);
            if j < last {
                assert(holds_at(entries, k, j));
            }
        }
        if m.contains_key(k) {
            if k == key@ {
                assert(holds_at(after, k, last));
            } else {
                let j = choose|j: int| holds_at(entries, k, j);
                assert(holds_at(after, k, j));
            }
        }
    }
    assert forall|k: Seq<u8>| entries_map(after).contains_key(k)
        implies entries_map(after)[k] == m[k] by {
        let j = choose|j: int| holds_at(after, k, j);
        lemma_entry_in_map(after, j);
        if j < last {
            lemma_entry_in_map(entries, j);
        }
    }
}

/// Taking out the entry at position `i` removes its key from the map and leaves the rest.
proof fn lemma_remove_is_remove<V>(entries: Seq<(Key, V)>, i: int)
    requires
        distinct_keys(entries),
        0 <= i < entries.len(),
    ensures
        distinct_keys(entries.remove(i)),
        entries_map(entries.remove(i)) == entries_map(entries).remove(entries[i].0@),
{
    let after = entries.remove(i);
    let key = entries[i].0@;
    assert forall|a: int| 0 <= a < after.len()
        implies #[trigger] after[a] == entries[if a < i { a } else { a + 1 }] by {}
    assert forall|a: int, b: int|
        0 <= a < after.len() && 0 <= b < after.len() && a != b
            implies #[trigger] after[a].0@ != #[trigger] after[b].0@ by {}
    let m = entries_map(entries).remove(key);
    assert forall|k: Seq<u8>| entries_map(after).contains_key(k) <==> m.contains_key(k) by {
        if entries_map(after).contains_key(k) {
            let j = choose|j: int| holds_at(after, k, j);
            let j0 = if j < i { j } else { j + 1 };
            assert(holds_at(entries, k, j0));
        }
        if m.contains_key(k) {
            let j0 = choose|j: int| holds_at(entries, k, j);
            let j = if j0 < i { j0 } else { j0 - 1 };
            assert(holds_at(after, k, j));
        }
    }
    assert forall|k: Seq<u8>| entries_map(after).contains_key(k)
        implies entries_map(after)[k] == m[k] by {
        let j = choose|j: int| holds_at(after, k, j);
        let j0 = if j < i { j } else { j + 1 };
        lemma_entry_in_map(after, j);
        lemma_entry_in_map(entries, j0);
    }
}

} // verus!
