//! Resource stores: tables of resources by identifier.
use crate::name_map::NameMap;
use vstd::prelude::*;

verus! {

/// A store of resources of one type, each under its identifier.
///
/// A resource set under an identifier that is in use takes the place of the
/// one that was there.
pub struct Assets<T> {
    pub items: NameMap<T>,
}

/// The map `m` after the entries were inserted one after the other. Where
/// two entries have the same key, the later one stays.
pub open spec fn insert_all<K, V>(m: Map<K, V>, entries: Seq<(K, V)>) -> Map<K, V>
    decreases entries.len(),
{
    if entries.len() == 0 {
        m
    } else {
        insert_all(m, entries.drop_last()).insert(entries.last().0, entries.last().1)
    }
}

/// Inserting one entry more is one insert after the others.
pub proof fn lemma_insert_all_push<K, V>(m: Map<K, V>, entries: Seq<(K, V)>, e: (K, V))
    ensures
        insert_all(m, entries.push(e)) == insert_all(m, entries).insert(e.0, e.1),
{
    assert(entries.push(e).drop_last() =~= entries);
}

/// Inserting the first `k + 1` entries is one insert after the first `k`.
pub proof fn lemma_insert_all_take<K, V>(m: Map<K, V>, entries: Seq<(K, V)>, k: int)
    requires
        0 <= k < entries.len(),
    ensures
        insert_all(m, entries.take(k + 1)) == insert_all(m, entries.take(k)).insert(
            entries[k].0,
            entries[k].1,
        ),
{
    assert(entries.take(k + 1).drop_last() =~= entries.take(k));
}

/// After the inserts, a key maps to the value of the last entry that has it;
/// a key that no entry has is as it was.
pub proof fn lemma_insert_all_lookup<K, V>(m: Map<K, V>, entries: Seq<(K, V)>, key: K)
    ensures
        (forall|i: int| 0 <= i < entries.len() ==> (#[trigger] entries[i]).0 != key) ==> (
        insert_all(m, entries).contains_key(key) == m.contains_key(key)) && (m.contains_key(key)
            ==> insert_all(m, entries)[key] == m[key]),
        forall|i: int|
            0 <= i < entries.len() && (#[trigger] entries[i]).0 == key && (forall|j: int|
                i < j < entries.len() ==> (#[trigger] entries[j]).0 != key) ==> insert_all(
                m,
                entries,
            ).contains_key(key) && insert_all(m, entries)[key] == entries[i].1,
    decreases entries.len(),
{
    if entries.len() > 0 {
        let front = entries.drop_last();
        lemma_insert_all_lookup(m, front, key);
        assert forall|i: int|
            0 <= i < entries.len() && (#[trigger] entries[i]).0 == key && (forall|j: int|
                i < j < entries.len() ==> (#[trigger] entries[j]).0 != key) implies insert_all(
            m,
            entries,
        ).contains_key(key) && insert_all(m, entries)[key] == entries[i].1 by {
            if i < entries.len() - 1 {
                assert(entries.last() == entries[entries.len() - 1]);
                assert(entries[entries.len() - 1].0 != key);
                assert(front[i] == entries[i]);
                assert forall|j: int| i < j < front.len() implies (#[trigger] front[j]).0
                    != key by {
                    assert(front[j] == entries[j]);
                }
            }
        }
        if forall|i: int| 0 <= i < entries.len() ==> (#[trigger] entries[i]).0 != key {
            assert(entries[entries.len() - 1].0 != key);
            assert forall|i: int| 0 <= i < front.len() implies (#[trigger] front[i]).0 != key by {
                assert(front[i] == entries[i]);
            }
        }
    }
}

/// The map with each value replaced by its view.
pub open spec fn viewed<K, T: View>(m: Map<K, T>) -> Map<K, T::V> {
    m.map_values(|t: T| t@)
}

/// The view of a map after an insert is the insert of the view.
pub proof fn lemma_viewed_insert<K, T: View>(m: Map<K, T>, k: K, v: T)
    ensures
        viewed(m.insert(k, v)) == viewed(m).insert(k, v@),
{
    assert(viewed(m.insert(k, v)) =~= viewed(m).insert(k, v@));
}

/// Inserts take no key away.
pub proof fn lemma_insert_all_keeps_keys<K, V>(m: Map<K, V>, entries: Seq<(K, V)>, key: K)
    requires
        m.contains_key(key),
    ensures
        insert_all(m, entries).contains_key(key),
    decreases entries.len(),
{
    if entries.len() > 0 {
        lemma_insert_all_keeps_keys(m, entries.drop_last(), key);
    }
}

/// After the inserts, the key of every entry is there, with the value of
/// one of the entries that have that key.
pub proof fn lemma_insert_all_has_key<K, V>(m: Map<K, V>, entries: Seq<(K, V)>, i: int)
    requires
        0 <= i < entries.len(),
    ensures
        insert_all(m, entries).contains_key(entries[i].0),
        exists|j: int|
            0 <= j < entries.len() && (#[trigger] entries[j]).0 == entries[i].0 && insert_all(
                m,
                entries,
            )[entries[i].0] == entries[j].1,
    decreases entries.len(),
{
    let front = entries.drop_last();
    let last = entries.len() - 1;
    assert(entries.last() == entries[last]);
    if entries[last].0 == entries[i].0 {
        assert(insert_all(m, entries)[entries[i].0] == entries[last].1);
    } else {
        assert(front[i] == entries[i]);
        lemma_insert_all_has_key(m, front, i);
        let j = choose|j: int|
            0 <= j < front.len() && (#[trigger] front[j]).0 == front[i].0 && insert_all(m, front)[
            front[i].0] == front[j].1;
        assert(entries[j] == front[j]);
    }
}

/// After the inserts, a key has the value that it had before, or the value
/// of one of the entries that have that key.
pub proof fn lemma_insert_all_value_origin<K, V>(m: Map<K, V>, entries: Seq<(K, V)>, key: K)
    requires
        insert_all(m, entries).contains_key(key),
    ensures
        (m.contains_key(key) && insert_all(m, entries)[key] == m[key]) || exists|j: int|
            0 <= j < entries.len() && (#[trigger] entries[j]).0 == key && insert_all(
                m,
                entries,
            )[key] == entries[j].1,
    decreases entries.len(),
{
    if entries.len() > 0 {
        let front = entries.drop_last();
        let last = entries.len() - 1;
        assert(entries.last() == entries[last]);
        if entries[last].0 == key {
            assert(insert_all(m, entries)[key] == entries[last].1);
        } else {
            lemma_insert_all_value_origin(m, front, key);
            if !(m.contains_key(key) && insert_all(m, front)[key] == m[key]) {
                let j = choose|j: int|
                    0 <= j < front.len() && (#[trigger] front[j]).0 == key && insert_all(
                        m,
                        front,
                    )[key] == front[j].1;
                assert(entries[j] == front[j]);
            }
        }
    }
}

impl<T> Assets<T> {
    /// The store as a map from identifiers to resources.
    pub open spec fn view(&self) -> Map<Seq<char>, T> {
        self.items@
    }

    /// Creates an empty store.
    pub fn new() -> (store: Self)
        ensures
            store@ == Map::<Seq<char>, T>::empty(),
    {
        Assets { items: NameMap::new() }
    }

    /// Number of resources in the store.
    pub fn len(&self) -> (n: usize)
        ensures
            n == self.items.names().len(),
    {
        self.items.len()
    }

    /// Puts the resource into the store under the identifier, in place of
    /// any resource that was there, and returns the identifier as a handle.
    pub fn set(&mut self, id: String, asset: T) -> (handle: String)
        ensures
            final(self)@ == old(self)@.insert(id@, asset),
            handle@ == id@,
    {
        let handle = id.clone();
        self.items.insert(id, asset);
        handle
    }

    /// The resource under the given handle, if the store has one.
    pub fn get(&self, handle: &str) -> (r: Option<&T>)
        ensures
            match r {
                Some(v) => self@.contains_key(handle@) && *v == self@[handle@],
                None => !self@.contains_key(handle@),
            },
    {
        self.items.get(handle)
    }

    /// Takes the store apart into its identifiers and resources, in the
    /// order in which the identifiers were first used.
    pub fn into_pairs(self) -> (pairs: Vec<(String, T)>)
        ensures
            pairs@.len() == self.items.names().len(),
            forall|i: int|
                0 <= i < pairs@.len() ==> (#[trigger] pairs@[i]).0@ == self.items.names()[i]
                    && pairs@[i].1 == self.items.entries()[i],
    {
        self.items.into_pairs()
    }

    /// True if the store has a resource under the given handle.
    pub fn contains(&self, handle: &str) -> (b: bool)
        ensures
            b == self@.contains_key(handle@),
    {
        self.items.contains(handle)
    }
}

} // verus!
