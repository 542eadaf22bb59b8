//! A table from keys to values that keeps its keys in the order in which they came.

use vstd::prelude::*;

verus! {

/// What can be the key of a table.
pub trait TableKey: Sized {
    /// A key as contracts speak of it.
    type Key;

    spec fn key(&self) -> Self::Key;

    /// Whether two keys are the same.
    fn same_key(&self, other: &Self) -> (r: bool)
        ensures
            r == (self.key() == other.key()),
    ;
}

impl TableKey for String {
    type Key = Seq<char>;

    open spec fn key(&self) -> Seq<char> {
        self@
    }

    fn same_key(&self, other: &Self) -> (r: bool) {
        *self == *other
    }
}

impl TableKey for (u8, u8) {
    type Key = (u8, u8);

    open spec fn key(&self) -> (u8, u8) {
        *self
    }

    fn same_key(&self, other: &Self) -> (r: bool) {
        self.0 == other.0 && self.1 == other.1
    }
}

/// No key occurs twice. A key keeps its place when it gets a new value.
pub struct Table<K: TableKey, V: View> {
    entries: Vec<(K, V)>,
}

/// `keys` with `key` added at the end, unless it is there already.
pub open spec fn with_key<A>(keys: Seq<A>, key: A) -> Seq<A> {
    if keys.contains(key) {
        keys
    } else {
        keys.push(key)
    }
}

/// What adding a key does: the key is there, at the end if it is new, the others stay where they
/// are, and none occurs twice if none did.
pub proof fn lemma_with_key<A>(keys: Seq<A>, key: A)
    ensures
        forall|k: A| #[trigger]
            with_key(keys, key).contains(k) <==> keys.contains(k) || k == key,
        keys.no_duplicates() ==> with_key(keys, key).no_duplicates(),
        keys.contains(key) ==> with_key(keys, key) == keys,
        !keys.contains(key) ==> with_key(keys, key) == keys.push(key),
{
    let after = with_key(keys, key);
    assert forall|k: A| #[trigger] after.contains(k) <==> keys.contains(k) || k == key by {
        if keys.contains(k) {
            let i = choose|i: int| 0 <= i < keys.len() && keys[i] == k;
            assert(after[i] == k);
        }
        if !keys.contains(key) {
            assert(after[keys.len() as int] == key);
            if after.contains(k) && k != key {
                let i = choose|i: int| 0 <= i < after.len() && after[i] == k;
                assert(keys[i] == k);
            }
        }
    }
}

/// `keys` without `key`.
pub open spec fn without_key<A>(keys: Seq<A>, key: A) -> Seq<A> {
    keys.filter(|k: A| k != key)
}

/// Removing a key from a longer list: the last key stays if it is another one.
pub proof fn lemma_without_push<A>(keys: Seq<A>, last: A, key: A)
    ensures
        without_key(keys.push(last), key) == if last != key {
            without_key(keys, key).push(last)
        } else {
            without_key(keys, key)
        },
{
    keys.lemma_filter_push(last, |k: A| k != key);
}

/// Removing the one place of a key leaves the other keys in their order.
pub proof fn lemma_without_key<A>(keys: Seq<A>, i: int)
    requires
        keys.no_duplicates(),
        0 <= i < keys.len(),
    ensures
        without_key(keys, keys[i]) == keys.remove(i),
    decreases keys.len(),
{
    reveal(Seq::filter);
    assert(keys.last() == keys[keys.len() - 1]);
    if i == keys.len() - 1 {
        lemma_without_absent(keys.drop_last(), keys[i]);
        assert(keys.remove(i) =~= keys.drop_last());
    } else {
        lemma_without_key(keys.drop_last(), i);
        assert(keys.drop_last()[i] == keys[i]);
        assert(keys.remove(i) =~= keys.drop_last().remove(i).push(keys.last()));
    }
}

/// Removing a key that is not there changes nothing.
pub proof fn lemma_without_absent<A>(keys: Seq<A>, key: A)
    requires
        !keys.contains(key),
    ensures
        without_key(keys, key) == keys,
    decreases keys.len(),
{
    reveal(Seq::filter);
    if keys.len() > 0 {
        assert(keys.last() == keys[keys.len() - 1]);
        assert forall|i: int| 0 <= i < keys.drop_last().len() implies keys.drop_last()[i]
            != key by {
            assert(keys.drop_last()[i] == keys[i]);
        }
        lemma_without_absent(keys.drop_last(), key);
        assert(keys.drop_last().push(keys.last()) =~= keys);
    } else {
        assert(without_key(keys, key) =~= keys);
    }
}

/// What is left after a key has been removed: the other keys, each once if each was there once.
pub proof fn lemma_without_key_contains<A>(keys: Seq<A>, key: A)
    ensures
        forall|k: A| #[trigger]
            without_key(keys, key).contains(k) <==> keys.contains(k) && k != key,
        keys.no_duplicates() ==> without_key(keys, key).no_duplicates(),
        without_key(keys, key).len() <= keys.len(),
    decreases keys.len(),
{
    reveal(Seq::filter);
    let rest = without_key(keys, key);
    if keys.len() > 0 {
        let front = keys.drop_last();
        let last = keys.last();
        lemma_without_key_contains(front, key);
        assert(keys =~= front.push(last));
        assert(keys[keys.len() - 1] == last);
        let front_rest = without_key(front, key);
        assert forall|k: A| #[trigger] rest.contains(k) <==> keys.contains(k) && k != key by {
            if keys.contains(k) && k != last {
                let i = choose|i: int| 0 <= i < keys.len() && keys[i] == k;
                assert(front[i] == k);
            }
            if front.contains(k) {
                let i = choose|i: int| 0 <= i < front.len() && front[i] == k;
                assert(keys[i] == k);
            }
            if front_rest.contains(k) {
                let i = choose|i: int| 0 <= i < front_rest.len() && front_rest[i] == k;
                assert(rest[i] == k);
            }
            if rest.contains(k) && last != key && k != last {
                let i = choose|i: int| 0 <= i < rest.len() && rest[i] == k;
                assert(front_rest[i] == k);
            }
            if last != key {
                assert(rest[rest.len() - 1] == last);
            }
        }
        if keys.no_duplicates() {
            assert(front.no_duplicates());
            assert(!front.contains(last));
            if last != key {
                assert(!front_rest.contains(last));
            }
        }
    }
}

/// `keys` without those in `gone`.
pub open spec fn without_keys<A>(keys: Seq<A>, gone: Seq<A>) -> Seq<A> {
    keys.filter(|k: A| !gone.contains(k))
}

/// Removing no keys changes nothing.
pub proof fn lemma_without_none<A>(keys: Seq<A>)
    ensures
        without_keys(keys, Seq::empty()) == keys,
    decreases keys.len(),
{
    reveal(Seq::filter);
    if keys.len() > 0 {
        lemma_without_none(keys.drop_last());
        assert(keys.drop_last().push(keys.last()) =~= keys);
    } else {
        assert(without_keys(keys, Seq::empty()) =~= keys);
    }
}

/// Keys can be removed one after the other.
pub proof fn lemma_without_one_more<A>(keys: Seq<A>, gone: Seq<A>, key: A)
    ensures
        without_keys(keys, gone.push(key)) == without_key(without_keys(keys, gone), key),
    decreases keys.len(),
{
    reveal(Seq::filter);
    assert forall|k: A| #[trigger] gone.push(key).contains(k) <==> gone.contains(k) || k == key by {
        if gone.contains(k) {
            let i = choose|i: int| 0 <= i < gone.len() && gone[i] == k;
            assert(gone.push(key)[i] == k);
        }
        if gone.push(key).contains(k) && k != key {
            let i = choose|i: int| 0 <= i < gone.push(key).len() && gone.push(key)[i] == k;
            assert(gone[i] == k);
        }
        assert(gone.push(key)[gone.len() as int] == key);
    }
    if keys.len() > 0 {
        lemma_without_one_more(keys.drop_last(), gone, key);
        let front = without_keys(keys.drop_last(), gone);
        let last = keys.last();
        if !gone.contains(last) {
            front.lemma_filter_push(last, |k: A| k != key);
        }
    }
    assert(without_keys(keys, gone.push(key)) =~= without_key(without_keys(keys, gone), key));
}

impl<K: TableKey, V: View> Table<K, V> {
    /// The keys, in the order in which they came.
    pub closed spec fn keys(self) -> Seq<K::Key> {
        Seq::new(self.entries@.len(), |i: int| self.entries@[i].0.key())
    }

    /// Which value belongs to which key.
    pub closed spec fn map(self) -> Map<K::Key, V::V> {
        Map::new(
            |k: K::Key| self.keys().contains(k),
            |k: K::Key| self.entries@[choose|i: int| 0 <= i < self.keys().len() && self.keys()[i] == k].1@,
        )
    }

    /// No key occurs twice.
    pub open spec fn valid(self) -> bool {
        self.keys().no_duplicates()
    }

    /// The map has just the keys of the table.
    pub proof fn lemma_domain(self)
        ensures
            forall|k: K::Key| #[trigger] self.map().dom().contains(k) <==> self.keys().contains(k),
    {
    }

    proof fn lemma_at(self, i: int)
        requires
            self.valid(),
            0 <= i < self.entries@.len(),
        ensures
            self.keys()[i] == self.entries@[i].0.key(),
            self.map().dom().contains(self.keys()[i]),
            self.map()[self.keys()[i]] == self.entries@[i].1@,
    {
        let k = self.keys()[i];
        let j = choose|j: int| 0 <= j < self.keys().len() && self.keys()[j] == k;
        assert(0 <= i < self.keys().len() && self.keys()[i] == k);
        assert(j == i);
    }

    /// An empty table.
    pub fn new() -> (r: Self)
        ensures
            r.valid(),
            r.keys() == Seq::<K::Key>::empty(),
            r.map() == Map::<K::Key, V::V>::empty(),
    {
        let r = Table { entries: Vec::new() };
        assert(r.keys() =~= Seq::<K::Key>::empty());
        assert(r.map() =~= Map::<K::Key, V::V>::empty());
        r
    }

    /// How many keys there are.
    pub fn len(&self) -> (r: usize)
        ensures
            r == self.keys().len(),
    {
        self.entries.len()
    }

    /// The key at a place.
    pub fn key_at(&self, i: usize) -> (r: &K)
        requires
            i < self.keys().len(),
        ensures
            r.key() == self.keys()[i as int],
    {
        &self.entries[i].0
    }

    /// The value of the key at a place.
    pub fn value_at(&self, i: usize) -> (r: &V)
        requires
            self.valid(),
            i < self.keys().len(),
        ensures
            self.map().dom().contains(self.keys()[i as int]),
            r@ == self.map()[self.keys()[i as int]],
    {
        proof {
            self.lemma_at(i as int);
        }
        &self.entries[i].1
    }

    fn find(&self, key: &K) -> (r: Option<usize>)
        ensures
            match r {
                Some(i) => i < self.entries@.len() && self.keys()[i as int] == key.key(),
                None => !self.keys().contains(key.key()),
            },
    {
        let mut i: usize = 0;
        while i < self.entries.len()
            invariant
                i <= self.entries@.len(),
                forall|j: int| 0 <= j < i ==> #[trigger] self.keys()[j] != key.key(),
            decreases self.entries@.len() - i,
        {
            if self.entries[i].0.same_key(key) {
                return Some(i);
            }
            i += 1;
        }
        None
    }

    /// The value of a key.
    pub fn get(&self, key: &K) -> (r: Option<&V>)
        requires
            self.valid(),
        ensures
            match r {
                Some(v) => self.map().dom().contains(key.key()) && v@ == self.map()[key.key()],
                None => !self.map().dom().contains(key.key()),
            },
    {
        match self.find(key) {
            Some(i) => {
                proof {
                    self.lemma_at(i as int);
                }
                Some(&self.entries[i].1)
            },
            None => None,
        }
    }

    /// Gives a key a value.
    pub fn insert(&mut self, key: K, value: V)
        requires
            old(self).valid(),
        ensures
            final(self).valid(),
            final(self).map() == old(self).map().insert(key.key(), value@),
            final(self).keys() == with_key(old(self).keys(), key.key()),
    {
        let ghost before = *self;
        let ghost k = key.key();
        let place = self.find(&key);
        match place {
            Some(i) => {
                self.entries.set(i, (key, value));
                assert(self.keys() =~= before.keys());
                assert(self.keys().contains(k));
            },
            None => {
                self.entries.push((key, value));
                assert(self.keys() =~= before.keys().push(k));
                assert(self.keys()[self.keys().len() - 1] == k);
            },
        }
        let ghost expected = before.map().insert(k, value@);
        assert forall|x: K::Key| #[trigger] self.map().dom().contains(x) <==> expected.dom().contains(
            x,
        ) by {
            if before.keys().contains(x) {
                let j = choose|j: int| 0 <= j < before.keys().len() && before.keys()[j] == x;
                assert(self.keys()[j] == x);
            }
            if self.keys().contains(x) && x != k {
                let j = choose|j: int| 0 <= j < self.keys().len() && self.keys()[j] == x;
                assert(before.keys()[j] == x);
            }
        }
        assert forall|x: K::Key| #[trigger] self.map().dom().contains(x) implies self.map()[x]
            == expected[x] by {
            let j = choose|j: int| 0 <= j < self.keys().len() && self.keys()[j] == x;
            self.lemma_at(j);
            if x != k {
                before.lemma_at(j);
            }
        }
        assert(self.map() =~= expected);
    }

    /// Removes a key. Gives its value, if it had one.
    pub fn remove(&mut self, key: &K) -> (r: Option<V>)
        requires
            old(self).valid(),
        ensures
            final(self).valid(),
            final(self).map() == old(self).map().remove(key.key()),
            final(self).keys() == without_key(old(self).keys(), key.key()),
            match r {
                Some(v) => old(self).map().dom().contains(key.key()) && v@ == old(
                    self,
                ).map()[key.key()],
                None => !old(self).map().dom().contains(key.key()),
            },
    {
        let ghost before = *self;
        let ghost k = key.key();
        match self.find(key) {
            Some(i) => {
                let (_, value) = self.entries.remove(i);
                proof {
                    before.lemma_at(i as int);
                    lemma_without_key(before.keys(), i as int);
                    lemma_without_key_contains(before.keys(), k);
                    assert(self.keys() =~= before.keys().remove(i as int));
                    assert forall|x: K::Key| #[trigger] self.map().dom().contains(x) implies self.map()[x]
                        == before.map()[x] by {
                        let j = choose|j: int| 0 <= j < self.keys().len() && self.keys()[j] == x;
                        self.lemma_at(j);
                        if j < i {
                            before.lemma_at(j);
                        } else {
                            before.lemma_at(j + 1);
                        }
                    }
                    assert(self.map() =~= before.map().remove(k));
                }
                Some(value)
            },
            None => {
                proof {
                    lemma_without_absent(before.keys(), k);
                    assert(self.map() =~= before.map().remove(k));
                }
                None
            },
        }
    }
}

} // verus!
