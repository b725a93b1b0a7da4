//! A small map from names to values, kept in insertion order.
//!
//! Names are compared by their characters. A name occurs at most once; an
//! insert under a name that is present replaces the value in place, so the
//! value stored last under a name is the one that lookups return.
use vstd::prelude::*;

verus! {

/// Map from `String` names to values of type `V`.
pub struct NameMap<V> {
    pairs: Vec<(String, V)>,
}

/// The names of a list of pairs.
pub open spec fn names_of<V>(pairs: Seq<(String, V)>) -> Seq<Seq<char>> {
    Seq::new(pairs.len(), |i: int| pairs[i].0@)
}

/// The values of a list of pairs.
pub open spec fn values_of<V>(pairs: Seq<(String, V)>) -> Seq<V> {
    Seq::new(pairs.len(), |i: int| pairs[i].1)
}

/// True if no two pairs have the same name.
pub open spec fn distinct_names<V>(pairs: Seq<(String, V)>) -> bool {
    forall|i: int, j: int|
        0 <= i < j < pairs.len() ==> (#[trigger] pairs[i]).0@ != (#[trigger] pairs[j]).0@
}

/// Pairs with distinct names give a list of names without duplicates.
proof fn lemma_names_distinct<V>(pairs: Seq<(String, V)>)
    requires
        distinct_names(pairs),
    ensures
        names_of(pairs).no_duplicates(),
{
    let names = names_of(pairs);
    assert forall|i: int, j: int|
        0 <= i < names.len() && 0 <= j < names.len() && i != j implies names[i] != names[j] by {
        if i < j {
            assert(pairs[i].0@ != pairs[j].0@);
        } else {
            assert(pairs[j].0@ != pairs[i].0@);
        }
    }
}

impl<V> NameMap<V> {
    /// No name occurs twice.
    #[verifier::type_invariant]
    spec fn inv(&self) -> bool {
        distinct_names(self.pairs@)
    }

    /// The names of the map, in the order of their first insertion.
    pub closed spec fn names(&self) -> Seq<Seq<char>> {
        names_of(self.pairs@)
    }

    /// The values of the map, each at the position of its name in `names`.
    pub closed spec fn entries(&self) -> Seq<V> {
        values_of(self.pairs@)
    }

    /// The map as a mathematical map from names to values.
    pub open spec fn view(&self) -> Map<Seq<char>, V> {
        Map::new(
            |k: Seq<char>| self.names().contains(k),
            |k: Seq<char>| self.entries()[self.names().index_of(k)],
        )
    }

    /// Creates an empty map.
    pub fn new() -> (m: Self)
        ensures
            m@ == Map::<Seq<char>, V>::empty(),
            m.names() == Seq::<Seq<char>>::empty(),
            m.entries() == Seq::<V>::empty(),
    {
        let m = NameMap { pairs: Vec::new() };
        assert(m.names() =~= Seq::<Seq<char>>::empty());
        assert(m.entries() =~= Seq::<V>::empty());
        assert(m@ =~= Map::<Seq<char>, V>::empty());
        m
    }

    /// Number of names in the map.
    pub fn len(&self) -> (n: usize)
        ensures
            n == self.names().len(),
            n == self.entries().len(),
            self.names().no_duplicates(),
    {
        proof {
            use_type_invariant(self);
            lemma_names_distinct(self.pairs@);
        }
        self.pairs.len()
    }

    /// Position of `name` in the map, if it is present.
    pub fn position(&self, name: &str) -> (r: Option<usize>)
        ensures
            match r {
                Some(i) => i < self.names().len() && self.names()[i as int] == name@
                    && self.names().index_of(name@) == i,
                None => !self.names().contains(name@),
            },
            r.is_some() == self@.contains_key(name@),
            self.names().len() == self.entries().len(),
            self.names().no_duplicates(),
    {
        proof {
            use_type_invariant(self);
            lemma_names_distinct(self.pairs@);
        }
        let n = self.pairs.len();
        let mut i: usize = 0;
        while i < n
            invariant
                n == self.pairs@.len(),
                0 <= i <= n,
                self.names().len() == n,
                self.names().no_duplicates(),
                forall|j: int| 0 <= j < i ==> self.names()[j] != name@,
            decreases n - i,
        {
            if str_eq(self.pairs[i].0.as_str(), name) {
                proof {
                    let ghost names = self.names();
                    assert(names[i as int] == name@);
                    assert(names.contains(name@));
                    let j = names.index_of(name@);
                    assert(names[j] == name@);
                    assert(j == i as int);
                }
                return Some(i);
            }
            i = i + 1;
        }
        proof {
            let ghost names = self.names();
            if names.contains(name@) {
                let j = names.index_of(name@);
                assert(names[j] == name@);
                assert(false);
            }
        }
        None
    }

    /// True if the map has a value under `name`.
    pub fn contains(&self, name: &str) -> (b: bool)
        ensures
            b == self@.contains_key(name@),
    {
        self.position(name).is_some()
    }

    /// The value stored under `name`, if there is one.
    pub fn get(&self, name: &str) -> (r: Option<&V>)
        ensures
            match r {
                Some(v) => self@.contains_key(name@) && *v == self@[name@],
                None => !self@.contains_key(name@),
            },
    {
        match self.position(name) {
            Some(i) => Some(&self.pairs[i].1),
            None => None,
        }
    }

    /// The name at position `i`.
    pub fn name_at(&self, i: usize) -> (name: &String)
        requires
            i < self.names().len(),
        ensures
            name@ == self.names()[i as int],
    {
        &self.pairs[i].0
    }

    /// The value at position `i`.
    pub fn value_at(&self, i: usize) -> (v: &V)
        requires
            i < self.entries().len(),
        ensures
            *v == self.entries()[i as int],
    {
        &self.pairs[i].1
    }

    /// Takes the map apart into its names and values, in the order of first
    /// insertion.
    pub fn into_pairs(self) -> (pairs: Vec<(String, V)>)
        ensures
            pairs@.len() == self.names().len(),
            pairs@.len() == self.entries().len(),
            forall|i: int|
                0 <= i < pairs@.len() ==> (#[trigger] pairs@[i]).0@ == self.names()[i]
                    && pairs@[i].1 == self.entries()[i],
    {
        self.pairs
    }

    /// Stores `value` under `name`. A value already stored under that name is
    /// replaced and handed back; the name keeps its position. A new name goes
    /// to the end.
    pub fn insert(&mut self, name: String, value: V) -> (previous: Option<V>)
        ensures
            final(self)@ == old(self)@.insert(name@, value),
            previous == if old(self)@.contains_key(name@) {
                Some(old(self)@[name@])
            } else {
                None::<V>
            },
            old(self)@.contains_key(name@) ==> final(self).names() == old(self).names()
                && final(self).entries() == old(self).entries().update(
                old(self).names().index_of(name@),
                value,
            ),
            !old(self)@.contains_key(name@) ==> final(self).names() == old(self).names().push(
                name@,
            ) && final(self).entries() == old(self).entries().push(value),
    {
        proof {
            use_type_invariant(&*self);
            lemma_names_distinct(self.pairs@);
        }
        let ghost before = *self;
        let ghost key = name@;
        let ghost prior = self.pairs@;
        match self.position(name.as_str()) {
            Some(i) => {
                proof {
                    assert forall|a: int, b: int|
                        0 <= a < b < self.pairs@.len() implies (#[trigger] self.pairs@.update(
                        i as int,
                        (name, value),
                    )[a]).0@ != (#[trigger] self.pairs@.update(i as int, (name, value))[b]).0@ by {
                        assert(self.pairs@[a].0@ != self.pairs@[b].0@);
                        assert(before.names()[i as int] == self.pairs@[i as int].0@);
                    }
                }
                let mut pairs: Vec<(String, V)> = Vec::new();
                std::mem::swap(&mut pairs, &mut self.pairs);
                pairs.push((name, value));
                let stored = pairs.swap_remove(i);
                assert(pairs@ =~= prior.update(i as int, (name, value)));
                self.pairs = pairs;
                proof {
                    assert(self.names() =~= before.names());
                    assert(self.entries() =~= before.entries().update(i as int, value));
                    assert forall|k: Seq<char>| self@.contains_key(k) implies #[trigger] self@[k]
                        == before@.insert(key, value)[k] by {
                        let j = self.names().index_of(k);
                        assert(self.names()[j] == k);
                    }
                    assert(self@ =~= before@.insert(key, value));
                    assert(stored.1 == before.entries()[i as int]);
                }
                Some(stored.1)
            },
            None => {
                proof {
                    assert forall|a: int, b: int|
                        0 <= a < b < self.pairs@.len() + 1 implies (#[trigger] self.pairs@.push(
                        (name, value),
                    )[a]).0@ != (#[trigger] self.pairs@.push((name, value))[b]).0@ by {
                        if b == self.pairs@.len() {
                            assert(before.names()[a] == self.pairs@[a].0@);
                            assert(before.names().contains(self.pairs@[a].0@));
                        } else {
                            assert(self.pairs@[a].0@ != self.pairs@[b].0@);
                        }
                    }
                }
                let mut pairs: Vec<(String, V)> = Vec::new();
                std::mem::swap(&mut pairs, &mut self.pairs);
                pairs.push((name, value));
                self.pairs = pairs;
                proof {
                    assert(self.names() =~= before.names().push(key));
                    assert(self.entries() =~= before.entries().push(value));
                    let ghost names = self.names();
                    lemma_names_distinct(self.pairs@);
                    assert forall|k: Seq<char>|
                        self@.contains_key(k) <==> before@.insert(key, value).contains_key(
                            k,
                        ) by {
                        if names.contains(k) {
                            let j = names.index_of(k);
                            assert(names[j] == k);
                            if j < before.names().len() {
                                assert(before.names()[j] == k);
                            }
                        }
                        if before.names().contains(k) {
                            let j = before.names().index_of(k);
                            assert(before.names()[j] == k);
                            assert(names[j] == k);
                        }
                        if k == key {
                            assert(names[names.len() - 1] == k);
                        }
                    }
                    assert forall|k: Seq<char>| self@.contains_key(k) implies #[trigger] self@[k]
                        == before@.insert(key, value)[k] by {
                        let j = names.index_of(k);
                        assert(names[j] == k);
                        if k != key {
                            assert(j < before.names().len());
                            assert(before.names()[j] == k);
                            let j2 = before.names().index_of(k);
                            assert(before.names()[j2] == k);
                            assert(names[j2] == k);
                            assert(j2 == j);
                        } else {
                            assert(names[names.len() - 1] == k);
                            assert(j == names.len() - 1);
                        }
                    }
                    assert(self@ =~= before@.insert(key, value));
                }
                None
            },
        }
    }
}

/// Compares two strings by their characters.
pub fn str_eq(a: &str, b: &str) -> (r: bool)
    ensures
        r == (a@ == b@),
{
    let x = a.to_owned();
    let y = b.to_owned();
    x == y
}

} // verus!
