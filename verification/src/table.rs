//! A small table: one value under each key, found by comparing keys.

use vstd::prelude::*;

verus! {

/// What can be a key: values that can be compared.
pub trait TableKey: Sized {
    /// What two keys must agree in to be the same.
    type Key;

    /// What two keys must agree in to be the same.
    spec fn key(&self) -> Self::Key;

    /// Whether the keys are the same.
    fn same(&self, other: &Self) -> (r: bool)
        ensures
            r == (self.key() == other.key()),
    ;
}

impl TableKey for String {
    type Key = Seq<char>;

    open spec fn key(&self) -> Seq<char> {
        self@
    }

    fn same(&self, other: &Self) -> (r: bool) {
        *self == *other
    }
}

impl TableKey for crate::net::SocketAddr {
    type Key = crate::net::SocketAddr;

    open spec fn key(&self) -> crate::net::SocketAddr {
        *self
    }

    fn same(&self, other: &Self) -> (r: bool) {
        *self == *other
    }
}

/// A table with one value under each key.
pub struct Table<K: TableKey, V> {
    entries: Vec<(K, V)>,
}

/// The list has each key of the map once, with its value, and nothing else.
pub open spec fn lists<K: TableKey, V>(entries: Seq<(K, V)>, map: Map<K::Key, V>) -> bool {
    &&& entries.len() == map.dom().len()
    &&& map.dom().finite()
    &&& forall|i: int|
        0 <= i < entries.len() ==> map.dom().contains((#[trigger] entries[i]).0.key())
            && map[entries[i].0.key()] == entries[i].1
    &&& forall|i: int, j: int|
        #![trigger entries[i], entries[j]]
        0 <= i < j < entries.len() ==> entries[i].0.key() != entries[j].0.key()
    &&& forall|k: K::Key| #[trigger]
        map.dom().contains(k) ==> exists|i: int|
            0 <= i < entries.len() && (#[trigger] entries[i]).0.key() == k
}

/// The list without what stands under the key.
pub open spec fn without<A, V>(list: Seq<(A, V)>, key: A) -> Seq<(A, V)>
    decreases list.len(),
{
    if list.len() == 0 {
        list
    } else if list.last().0 == key {
        without(list.drop_last(), key)
    } else {
        without(list.drop_last(), key).push(list.last())
    }
}

/// The entries, each key by what it is compared in.
pub open spec fn keyed<K: TableKey, V>(entries: Seq<(K, V)>) -> Seq<(K::Key, V)> {
    entries.map_values(|e: (K, V)| (e.0.key(), e.1))
}

spec fn at_key<K: TableKey, V>(entries: Seq<(K, V)>, key: K::Key, i: int) -> bool {
    0 <= i < entries.len() && entries[i].0.key() == key
}

spec fn unique<K: TableKey, V>(entries: Seq<(K, V)>) -> bool {
    forall|i: int, j: int|
        #![trigger entries[i], entries[j]]
        0 <= i < j < entries.len() ==> entries[i].0.key() != entries[j].0.key()
}

spec fn as_map<K: TableKey, V>(entries: Seq<(K, V)>) -> Map<K::Key, V>
    decreases entries.len(),
{
    if entries.len() == 0 {
        Map::empty()
    } else {
        as_map(entries.drop_last()).insert(entries.last().0.key(), entries.last().1)
    }
}

proof fn lemma_as_map<K: TableKey, V>(entries: Seq<(K, V)>)
    requires
        unique(entries),
    ensures
        forall|k: K::Key|
            #[trigger] as_map(entries).dom().contains(k) == exists|i: int| at_key(entries, k, i),
        forall|i: int|
            0 <= i < entries.len() ==> as_map(entries).dom().contains(entries[i].0.key())
                && as_map(entries)[entries[i].0.key()] == (#[trigger] entries[i]).1,
        as_map(entries).dom().finite(),
        as_map(entries).dom().len() == entries.len(),
    decreases entries.len(),
{
    if entries.len() > 0 {
        let short = entries.drop_last();
        let last = entries.last();
        assert forall|i: int, j: int|
            #![trigger short[i], short[j]]
            0 <= i < j < short.len() implies short[i].0.key() != short[j].0.key() by {
            assert(entries[i].0.key() != entries[j].0.key());
        }
        lemma_as_map(short);
        assert(entries[entries.len() - 1] == last);
        assert forall|k: K::Key| #[trigger] as_map(entries).dom().contains(k) == exists|i: int|
            at_key(entries, k, i) by {
            if exists|i: int| at_key(short, k, i) {
                let i = choose|i: int| at_key(short, k, i);
                assert(at_key(entries, k, i));
            }
            if exists|i: int| at_key(entries, k, i) {
                let i = choose|i: int| at_key(entries, k, i);
                if i < short.len() {
                    assert(at_key(short, k, i));
                }
            }
            if k == last.0.key() {
                assert(at_key(entries, k, entries.len() - 1));
            }
        }
        assert forall|i: int| 0 <= i < entries.len() implies as_map(entries).dom().contains(
            entries[i].0.key(),
        ) && as_map(entries)[entries[i].0.key()] == (#[trigger] entries[i]).1 by {
            if i < short.len() {
                assert(short[i] == entries[i]);
                assert(entries[i].0.key() != entries[entries.len() - 1].0.key());
            }
        }
        assert(!as_map(short).dom().contains(last.0.key())) by {
            if as_map(short).dom().contains(last.0.key()) {
                let i = choose|i: int| at_key(short, last.0.key(), i);
                assert(entries[i].0.key() != entries[entries.len() - 1].0.key());
            }
        }
    }
}

proof fn lemma_as_map_is<K: TableKey, V>(entries: Seq<(K, V)>, wanted: Map<K::Key, V>)
    requires
        unique(entries),
        forall|i: int|
            0 <= i < entries.len() ==> wanted.dom().contains((#[trigger] entries[i]).0.key())
                && wanted[entries[i].0.key()] == entries[i].1,
        forall|k: K::Key| #[trigger]
            wanted.dom().contains(k) ==> exists|i: int| at_key(entries, k, i),
    ensures
        as_map(entries) == wanted,
{
    lemma_as_map(entries);
    assert forall|k: K::Key| #[trigger] as_map(entries).dom().contains(k) implies wanted.dom().contains(
        k,
    ) && wanted[k] == as_map(entries)[k] by {
        let i = choose|i: int| at_key(entries, k, i);
        assert(entries[i].0.key() == k);
    }
    assert forall|k: K::Key| #[trigger] wanted.dom().contains(k) implies as_map(
        entries,
    ).dom().contains(k) by {
        let i = choose|i: int| at_key(entries, k, i);
        assert(entries[i].0.key() == k);
    }
    assert(as_map(entries) =~= wanted);
}

proof fn lemma_removed<K: TableKey, V>(entries: Seq<(K, V)>, i: int)
    requires
        unique(entries),
        0 <= i < entries.len(),
    ensures
        unique(entries.remove(i)),
        as_map(entries.remove(i)) == as_map(entries).remove(entries[i].0.key()),
{
    let all = entries.remove(i);
    let wanted = as_map(entries).remove(entries[i].0.key());
    lemma_as_map(entries);
    assert forall|a: int, b: int|
        #![trigger all[a], all[b]]
        0 <= a < b < all.len() implies all[a].0.key() != all[b].0.key() by {
        let x = if a < i {
            a
        } else {
            a + 1
        };
        let y = if b < i {
            b
        } else {
            b + 1
        };
        assert(entries[x].0.key() != entries[y].0.key());
    }
    assert forall|a: int| 0 <= a < all.len() implies wanted.dom().contains(
        (#[trigger] all[a]).0.key(),
    ) && wanted[all[a].0.key()] == all[a].1 by {
        let x = if a < i {
            a
        } else {
            a + 1
        };
        assert(all[a] == entries[x]);
        assert(entries[x].0.key() != entries[i].0.key());
    }
    assert forall|k: K::Key| #[trigger] wanted.dom().contains(k) implies exists|a: int|
        at_key(all, k, a) by {
        let b = choose|b: int| at_key(entries, k, b);
        let a = if b < i {
            b
        } else {
            b - 1
        };
        assert(all[a] == entries[b]);
        assert(at_key(all, k, a));
    }
    lemma_as_map_is(all, wanted);
}

proof fn lemma_without_absent<K: TableKey, V>(entries: Seq<(K, V)>, key: K::Key)
    requires
        forall|i: int| 0 <= i < entries.len() ==> !at_key(entries, key, i),
    ensures
        without(keyed(entries), key) == keyed(entries),
    decreases entries.len(),
{
    if entries.len() > 0 {
        let short = entries.drop_last();
        assert forall|i: int| 0 <= i < short.len() implies !at_key(short, key, i) by {
            assert(!at_key(entries, key, i));
        }
        lemma_without_absent(short, key);
        assert(keyed(entries).drop_last() =~= keyed(short));
        assert(!at_key(entries, key, entries.len() - 1));
        assert(keyed(entries) =~= keyed(short).push(keyed(entries).last()));
    }
}

proof fn lemma_without<K: TableKey, V>(entries: Seq<(K, V)>, i: int)
    requires
        unique(entries),
        0 <= i < entries.len(),
    ensures
        without(keyed(entries), entries[i].0.key()) == keyed(entries.remove(i)),
    decreases entries.len(),
{
    let key = entries[i].0.key();
    let short = entries.drop_last();
    assert(keyed(entries).drop_last() =~= keyed(short));
    assert forall|a: int, b: int|
        #![trigger short[a], short[b]]
        0 <= a < b < short.len() implies short[a].0.key() != short[b].0.key() by {
        assert(entries[a].0.key() != entries[b].0.key());
    }
    if i == entries.len() - 1 {
        assert forall|a: int| 0 <= a < short.len() implies !at_key(short, key, a) by {
            assert(entries[a].0.key() != entries[i].0.key());
        }
        lemma_without_absent(short, key);
        assert(entries.remove(i) =~= short);
    } else {
        assert(entries[i].0.key() != entries[entries.len() - 1].0.key());
        assert(short[i] == entries[i]);
        lemma_without(short, i);
        assert(keyed(entries.remove(i)) =~= keyed(short.remove(i)).push(keyed(entries).last()));
    }
}

proof fn lemma_pushed<K: TableKey, V>(entries: Seq<(K, V)>, entry: (K, V))
    requires
        unique(entries),
        !as_map(entries).dom().contains(entry.0.key()),
    ensures
        unique(entries.push(entry)),
        as_map(entries.push(entry)) == as_map(entries).insert(entry.0.key(), entry.1),
{
    lemma_as_map(entries);
    let all = entries.push(entry);
    assert(all.drop_last() =~= entries);
    assert forall|a: int, b: int|
        #![trigger all[a], all[b]]
        0 <= a < b < all.len() implies all[a].0.key() != all[b].0.key() by {
        assert(all[a] == entries[a]);
        if b < entries.len() {
            assert(all[b] == entries[b]);
        } else if all[a].0.key() == entry.0.key() {
            assert(at_key(entries, entry.0.key(), a));
        }
    }
}

impl<K: TableKey, V> View for Table<K, V> {
    type V = Map<K::Key, V>;

    closed spec fn view(&self) -> Map<K::Key, V> {
        as_map(self.entries@)
    }
}

impl<K: TableKey, V> Table<K, V> {
    /// No key stands in the table twice.
    #[verifier::type_invariant]
    spec fn well_formed(self) -> bool {
        unique(self.entries@)
    }

    /// The keys and values in order: a key stands where its value was last put.
    pub closed spec fn listed(self) -> Seq<(K::Key, V)> {
        keyed(self.entries@)
    }

    /// An empty table.
    pub fn new() -> (r: Self)
        ensures
            r@ == Map::<K::Key, V>::empty(),
            r.listed() == Seq::<(K::Key, V)>::empty(),
    {
        let r: Table<K, V> = Table { entries: Vec::new() };
        assert(r.listed() =~= Seq::empty());
        r
    }

    /// How many keys the table has.
    pub fn len(&self) -> (r: usize)
        ensures
            r == self@.dom().len(),
            self@.dom().finite(),
    {
        proof {
            use_type_invariant(self);
            lemma_as_map(self.entries@);
        }
        self.entries.len()
    }

    /// Everything in the table, each key with its value, in order.
    pub fn entries(&self) -> (r: &Vec<(K, V)>)
        ensures
            lists(r@, self@),
            keyed(r@) == self.listed(),
    {
        proof {
            use_type_invariant(self);
            lemma_as_map(self.entries@);
            assert forall|k: K::Key| #[trigger] self@.dom().contains(k) implies exists|i: int|
                0 <= i < self.entries@.len() && (#[trigger] self.entries@[i]).0.key() == k by {
                let i = choose|i: int| at_key(self.entries@, k, i);
                assert(self.entries@[i].0.key() == k);
            }
        }
        &self.entries
    }

    /// Where the key stands.
    fn position(&self, key: &K) -> (r: Option<usize>)
        ensures
            r.is_some() == self@.dom().contains(key.key()),
            r matches Some(i) ==> i < self.entries@.len() && self.entries@[i as int].0.key()
                == key.key() && self@[key.key()] == self.entries@[i as int].1,
    {
        proof {
            use_type_invariant(self);
            lemma_as_map(self.entries@);
        }
        let mut i: usize = 0;
        while i < self.entries.len()
            invariant
                unique(self.entries@),
                i <= self.entries@.len(),
                forall|k: int| 0 <= k < i ==> !at_key(self.entries@, key.key(), k),
            decreases self.entries@.len() - i,
        {
            if self.entries[i].0.same(key) {
                proof {
                    lemma_as_map(self.entries@);
                    assert(at_key(self.entries@, key.key(), i as int));
                }
                return Some(i);
            }
            i = i + 1;
        }
        None
    }

    /// The value under the key.
    pub fn get(&self, key: &K) -> (r: Option<&V>)
        ensures
            r == (if self@.dom().contains(key.key()) {
                Some(&self@[key.key()])
            } else {
                None
            }),
    {
        match self.position(key) {
            Some(i) => Some(&self.entries[i].1),
            None => None,
        }
    }

    /// Puts a value under the key and returns the one that stood there.
    pub fn insert(&mut self, key: K, value: V) -> (r: Option<V>)
        ensures
            final(self)@ == old(self)@.insert(key.key(), value),
            final(self).listed() == without(old(self).listed(), key.key()).push(
                (key.key(), value),
            ),
            r == (if old(self)@.dom().contains(key.key()) {
                Some(old(self)@[key.key()])
            } else {
                None
            }),
    {
        let previous: Option<V> = self.remove(&key);
        proof {
            use_type_invariant(&*self);
            lemma_pushed(self.entries@, (key, value));
            assert(old(self)@.remove(key.key()).insert(key.key(), value) =~= old(self)@.insert(
                key.key(),
                value,
            ));
        }
        let mut entries: Vec<(K, V)> = Vec::new();
        std::mem::swap(&mut entries, &mut self.entries);
        let ghost before = entries@;
        entries.push((key, value));
        assert(keyed(entries@) =~= keyed(before).push((key.key(), value)));
        self.entries = entries;
        previous
    }

    /// Takes the key and its value out of the table.
    pub fn remove(&mut self, key: &K) -> (r: Option<V>)
        ensures
            final(self)@ == old(self)@.remove(key.key()),
            final(self).listed() == without(old(self).listed(), key.key()),
            r == (if old(self)@.dom().contains(key.key()) {
                Some(old(self)@[key.key()])
            } else {
                None
            }),
    {
        proof {
            use_type_invariant(&*self);
        }
        match self.position(key) {
            None => {
                assert(self@ =~= self@.remove(key.key()));
                proof {
                    lemma_as_map(self.entries@);
                    lemma_without_absent(self.entries@, key.key());
                }
                None
            },
            Some(i) => {
                proof {
                    lemma_removed(self.entries@, i as int);
                    lemma_without(self.entries@, i as int);
                }
                let mut entries: Vec<(K, V)> = Vec::new();
                std::mem::swap(&mut entries, &mut self.entries);
                let (_, gone): (K, V) = entries.remove(i);
                self.entries = entries;
                Some(gone)
            },
        }
    }
}

} // verus!
