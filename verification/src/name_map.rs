//! A map from names to values that keeps its entries in the order of the
//! names, so that walking it always gives the same sequence.

use crate::text::{
    compare, lemma_precedes_asymmetric, lemma_precedes_irreflexive, lemma_precedes_transitive,
    precedes, Relation,
};
use vstd::prelude::*;

verus! {

/// Each name precedes all that come after it.
pub open spec fn ascending(keys: Seq<Seq<char>>) -> bool {
    forall|i: int, j: int|
        0 <= i < j < keys.len() ==> precedes(#[trigger] keys[i], #[trigger] keys[j])
}

/// The map that pairs `keys[i]` with `values[i]`.
pub open spec fn paired<T>(keys: Seq<Seq<char>>, values: Seq<T>) -> Map<Seq<char>, T> {
    Map::new(|k: Seq<char>| keys.contains(k), |k: Seq<char>| values[keys.index_of(k)])
}

/// In an ascending sequence a name stands at one place only, and `paired`
/// finds the value at that place.
pub proof fn lemma_paired_at<T>(keys: Seq<Seq<char>>, values: Seq<T>, i: int)
    requires
        ascending(keys),
        0 <= i < keys.len(),
    ensures
        keys.index_of(keys[i]) == i,
        paired(keys, values).contains_key(keys[i]),
        paired(keys, values)[keys[i]] == values[i],
{
    let j = keys.index_of(keys[i]);
    assert(keys.contains(keys[i]));
    lemma_precedes_irreflexive(keys[i]);
    assert(0 <= j < keys.len() && keys[j] == keys[i]);
    if j < i {
        assert(precedes(keys[j], keys[i]));
    } else if i < j {
        assert(precedes(keys[i], keys[j]));
    }
}

/// The names of a sequence of entries.
spec fn entry_keys<T>(entries: Seq<(String, T)>) -> Seq<Seq<char>> {
    Seq::new(entries.len(), |i: int| entries[i].0@)
}

/// The values of a sequence of entries.
spec fn entry_values<T>(entries: Seq<(String, T)>) -> Seq<T> {
    Seq::new(entries.len(), |i: int| entries[i].1)
}

/// A map from names to values of type `T`, held in the order of the names.
#[derive(Debug)]
pub struct NameMap<T> {
    entries: Vec<(String, T)>,
}

impl<T> View for NameMap<T> {
    type V = Map<Seq<char>, T>;

    /// The map itself: which names it holds and what each stands for.
    open spec fn view(&self) -> Map<Seq<char>, T> {
        paired(self.keys(), self.values())
    }
}

impl<T> NameMap<T> {
    /// The names, in the order in which the map is walked.
    pub closed spec fn keys(&self) -> Seq<Seq<char>> {
        entry_keys(self.entries@)
    }

    /// The values, each at the place of its name in `keys`.
    pub closed spec fn values(&self) -> Seq<T> {
        entry_values(self.entries@)
    }

    /// The names ascend, so none occurs twice.
    #[verifier::type_invariant]
    pub closed spec fn ordered(&self) -> bool {
        ascending(self.keys())
    }

    /// What `ordered` means for the names and the values: the names ascend,
    /// and the map pairs each with the value at its place.
    pub proof fn lemma_ordered(&self)
        requires
            self.ordered(),
        ensures
            ascending(self.keys()),
            self.keys().len() == self.values().len(),
            self@.dom() == self.keys().to_set(),
            forall|i: int|
                0 <= i < self.keys().len() ==> self@.contains_key(#[trigger] self.keys()[i])
                    && self@[self.keys()[i]] == self.values()[i],
    {
        assert(self@.dom() =~= self.keys().to_set());
        assert forall|i: int| 0 <= i < self.keys().len() implies self@.contains_key(
            #[trigger] self.keys()[i],
        ) && self@[self.keys()[i]] == self.values()[i] by {
            lemma_paired_at(self.keys(), self.values(), i);
        }
    }

    /// An empty map.
    pub fn new() -> (m: Self)
        ensures
            m@ == Map::<Seq<char>, T>::empty(),
            m.keys() == Seq::<Seq<char>>::empty(),
            m.values() == Seq::<T>::empty(),
    {
        let m = NameMap { entries: Vec::new() };
        proof {
            assert(m.keys() =~= Seq::<Seq<char>>::empty());
            assert(m.values() =~= Seq::<T>::empty());
            assert(m@ =~= Map::<Seq<char>, T>::empty());
        }
        m
    }

    /// The number of entries.
    pub fn len(&self) -> (n: usize)
        ensures
            n == self.keys().len(),
            n == self.values().len(),
    {
        self.entries.len()
    }

    /// The name of the entry at place `i`.
    pub fn key(&self, i: usize) -> (name: &String)
        requires
            i < self.keys().len(),
        ensures
            name@ == self.keys()[i as int],
    {
        &self.entries[i].0
    }

    /// The value of the entry at place `i`.
    pub fn value(&self, i: usize) -> (value: &T)
        requires
            i < self.keys().len(),
        ensures
            *value == self.values()[i as int],
            self@.contains_key(self.keys()[i as int]),
            *value == self@[self.keys()[i as int]],
    {
        proof {
            use_type_invariant(self);
            lemma_paired_at(self.keys(), self.values(), i as int);
        }
        &self.entries[i].1
    }

    /// The place of `name` among the names, if the map holds it.
    pub fn position(&self, name: &str) -> (place: Option<usize>)
        ensures
            match place {
                Some(i) => i < self.keys().len() && self.keys()[i as int] == name@
                    && self@.contains_key(name@) && self@[name@] == self.values()[i as int],
                None => !self@.contains_key(name@),
            },
    {
        proof {
            use_type_invariant(self);
        }
        let mut i: usize = 0;
        while i < self.entries.len()
            invariant
                i <= self.entries.len(),
                ascending(self.keys()),
                forall|j: int| 0 <= j < i ==> precedes(#[trigger] self.keys()[j], name@),
            decreases self.entries.len() - i,
        {
            match compare(self.entries[i].0.as_str(), name) {
                Relation::Before => {},
                Relation::Same => {
                    proof {
                        lemma_paired_at(self.keys(), self.values(), i as int);
                    }
                    return Some(i);
                },
                Relation::After => {
                    proof {
                        lemma_absent(self.keys(), self.values(), name@, i as int);
                    }
                    return None;
                },
            }
            i = i + 1;
        }
        proof {
            lemma_absent(self.keys(), self.values(), name@, i as int);
        }
        None
    }

    /// Whether the map holds `name`.
    pub fn contains_key(&self, name: &str) -> (held: bool)
        ensures
            held == self@.contains_key(name@),
    {
        self.position(name).is_some()
    }

    /// The value that `name` stands for, if the map holds it.
    pub fn get(&self, name: &str) -> (found: Option<&T>)
        ensures
            match found {
                Some(value) => self@.contains_key(name@) && *value == self@[name@],
                None => !self@.contains_key(name@),
            },
    {
        match self.position(name) {
            Some(i) => Some(&self.entries[i].1),
            None => None,
        }
    }

    /// Makes `name` stand for `value`, and gives back what it stood for
    /// before.
    pub fn insert(&mut self, name: String, value: T) -> (previous: Option<T>)
        ensures
            final(self)@ == old(self)@.insert(name@, value),
            previous == if old(self)@.contains_key(name@) {
                Some(old(self)@[name@])
            } else {
                None::<T>
            },
    {
        proof {
            use_type_invariant(&*self);
        }
        let ghost keys0 = self.keys();
        let ghost values0 = self.values();
        let mut i: usize = 0;
        let mut hit = false;
        while i < self.entries.len()
            invariant_except_break
                i <= self.entries.len(),
                !hit,
            invariant
                self.keys() == keys0,
                self.values() == values0,
                ascending(keys0),
                i <= self.entries.len(),
                forall|j: int| 0 <= j < i ==> precedes(#[trigger] keys0[j], name@),
            ensures
                hit ==> i < keys0.len() && keys0[i as int] == name@,
                !hit ==> (i < keys0.len() ==> precedes(name@, keys0[i as int])),
            decreases self.entries.len() - i,
        {
            match compare(self.entries[i].0.as_str(), name.as_str()) {
                Relation::Before => {},
                Relation::Same => {
                    hit = true;
                    break ;
                },
                Relation::After => {
                    break ;
                },
            }
            i = i + 1;
        }
        let mut entries: Vec<(String, T)> = Vec::new();
        std::mem::swap(&mut entries, &mut self.entries);
        if hit {
            let (_, before) = entries.remove(i);
            entries.insert(i, (name, value));
            proof {
                assert(entry_keys(entries@) =~= keys0);
                assert(entry_values(entries@) =~= values0.update(i as int, value));
            }
            self.entries = entries;
            proof {
                lemma_paired_update(keys0, values0, i as int, value);
                lemma_paired_at(keys0, values0, i as int);
            }
            Some(before)
        } else {
            proof {
                lemma_absent(keys0, values0, name@, i as int);
                lemma_ascending_insert(keys0, i as int, name@);
                lemma_paired_insert(keys0, values0, i as int, name@, value);
            }
            entries.insert(i, (name, value));
            proof {
                assert(entry_keys(entries@) =~= keys0.insert(i as int, name@));
                assert(entry_values(entries@) =~= values0.insert(i as int, value));
            }
            self.entries = entries;
            None
        }
    }

    /// Takes `name` out of the map, and gives back what it stood for.
    pub fn remove(&mut self, name: &str) -> (taken: Option<T>)
        ensures
            final(self)@ == old(self)@.remove(name@),
            taken == if old(self)@.contains_key(name@) {
                Some(old(self)@[name@])
            } else {
                None::<T>
            },
    {
        proof {
            use_type_invariant(&*self);
        }
        let ghost keys0 = self.keys();
        let ghost values0 = self.values();
        match self.position(name) {
            Some(i) => {
                let mut entries: Vec<(String, T)> = Vec::new();
                std::mem::swap(&mut entries, &mut self.entries);
                let (_, value) = entries.remove(i);
                proof {
                    lemma_ascending_remove(keys0, i as int);
                    assert(entry_keys(entries@) =~= keys0.remove(i as int));
                    assert(entry_values(entries@) =~= values0.remove(i as int));
                    lemma_paired_remove(keys0, values0, i as int);
                }
                self.entries = entries;
                Some(value)
            },
            None => {
                proof {
                    assert(self@ =~= self@.remove(name@));
                }
                None
            },
        }
    }
}

/// A name that lies after the first `i` names and before the rest is not
/// among them.
pub proof fn lemma_absent<T>(keys: Seq<Seq<char>>, values: Seq<T>, name: Seq<char>, i: int)
    requires
        ascending(keys),
        0 <= i <= keys.len(),
        forall|j: int| 0 <= j < i ==> precedes(#[trigger] keys[j], name),
        i < keys.len() ==> precedes(name, keys[i]),
    ensures
        !keys.contains(name),
        !paired(keys, values).contains_key(name),
{
    lemma_precedes_irreflexive(name);
    assert forall|j: int| 0 <= j < keys.len() implies keys[j] != name by {
        if j < i {
            assert(precedes(keys[j], name));
        } else if j == i {
        } else {
            assert(precedes(keys[i], keys[j]));
            lemma_precedes_transitive(name, keys[i], keys[j]);
        }
    }
}

/// Taking a name out of an ascending sequence leaves it ascending.
pub proof fn lemma_ascending_remove(keys: Seq<Seq<char>>, i: int)
    requires
        ascending(keys),
        0 <= i < keys.len(),
    ensures
        ascending(keys.remove(i)),
{
    let rest = keys.remove(i);
    assert forall|a: int, b: int| 0 <= a < b < rest.len() implies precedes(
        #[trigger] rest[a],
        #[trigger] rest[b],
    ) by {
        let a0 = if a < i { a } else { a + 1 };
        let b0 = if b < i { b } else { b + 1 };
        assert(rest[a] == keys[a0]);
        assert(rest[b] == keys[b0]);
    }
}

/// A name put between those that precede it and those that it precedes
/// leaves the sequence ascending.
pub proof fn lemma_ascending_insert(keys: Seq<Seq<char>>, i: int, name: Seq<char>)
    requires
        ascending(keys),
        0 <= i <= keys.len(),
        forall|j: int| 0 <= j < i ==> precedes(#[trigger] keys[j], name),
        i < keys.len() ==> precedes(name, keys[i]),
    ensures
        ascending(keys.insert(i, name)),
{
    let all = keys.insert(i, name);
    assert forall|a: int, b: int| 0 <= a < b < all.len() implies precedes(
        #[trigger] all[a],
        #[trigger] all[b],
    ) by {
        if b == i {
            assert(all[a] == keys[a]);
        } else if a == i {
            assert(all[b] == keys[b - 1]);
            if b - 1 > i {
                assert(precedes(keys[i], keys[b - 1]));
                lemma_precedes_transitive(name, keys[i], keys[b - 1]);
            }
        } else {
            let a0 = if a < i { a } else { a - 1 };
            let b0 = if b < i { b } else { b - 1 };
            assert(all[a] == keys[a0]);
            assert(all[b] == keys[b0]);
        }
    }
}

/// A new value at the place of a name makes the name stand for it.
pub proof fn lemma_paired_update<T>(keys: Seq<Seq<char>>, values: Seq<T>, i: int, value: T)
    requires
        ascending(keys),
        keys.len() == values.len(),
        0 <= i < keys.len(),
    ensures
        paired(keys, values.update(i, value)) == paired(keys, values).insert(keys[i], value),
{
    let after = paired(keys, values.update(i, value));
    let wanted = paired(keys, values).insert(keys[i], value);
    assert(keys.contains(keys[i]));
    assert forall|k: Seq<char>| #[trigger] after.contains_key(k) implies after[k] == wanted[k] by {
        let j = keys.index_of(k);
        lemma_paired_at(keys, values, j);
        lemma_paired_at(keys, values, i);
    }
    assert(after =~= wanted);
}

/// A new name with its value, put at a place of their own, adds that entry
/// to the map and leaves the others.
pub proof fn lemma_paired_insert<T>(
    keys: Seq<Seq<char>>,
    values: Seq<T>,
    i: int,
    name: Seq<char>,
    value: T,
)
    requires
        ascending(keys.insert(i, name)),
        ascending(keys),
        keys.len() == values.len(),
        0 <= i <= keys.len(),
    ensures
        paired(keys.insert(i, name), values.insert(i, value)) == paired(keys, values).insert(
            name,
            value,
        ),
{
    let keys1 = keys.insert(i, name);
    let values1 = values.insert(i, value);
    let after = paired(keys1, values1);
    let wanted = paired(keys, values).insert(name, value);
    assert(keys1[i] == name);
    assert forall|k: Seq<char>| after.contains_key(k) <==> wanted.contains_key(k) by {
        if keys1.contains(k) {
            let j = keys1.index_of(k);
            if j < i {
                assert(keys[j] == k);
            } else if j > i {
                assert(keys[j - 1] == k);
            }
        }
        if keys.contains(k) {
            let j = keys.index_of(k);
            if j < i {
                assert(keys1[j] == k);
            } else {
                assert(keys1[j + 1] == k);
            }
        }
    }
    assert forall|k: Seq<char>| #[trigger] after.contains_key(k) implies after[k] == wanted[k] by {
        let j = keys1.index_of(k);
        lemma_paired_at(keys1, values1, j);
        if j < i {
            assert(keys[j] == k);
            lemma_paired_at(keys, values, j);
        } else if j > i {
            assert(keys[j - 1] == k);
            lemma_paired_at(keys, values, j - 1);
            lemma_paired_at(keys1, values1, i);
        }
    }
    assert(after =~= wanted);
}

/// Taking out the entry at a place takes its name out of the map and leaves
/// the others.
pub proof fn lemma_paired_remove<T>(keys: Seq<Seq<char>>, values: Seq<T>, i: int)
    requires
        ascending(keys),
        keys.len() == values.len(),
        0 <= i < keys.len(),
    ensures
        paired(keys.remove(i), values.remove(i)) == paired(keys, values).remove(keys[i]),
{
    let keys1 = keys.remove(i);
    let values1 = values.remove(i);
    let after = paired(keys1, values1);
    let wanted = paired(keys, values).remove(keys[i]);
    lemma_ascending_remove(keys, i);
    assert forall|k: Seq<char>| after.contains_key(k) <==> wanted.contains_key(k) by {
        if keys1.contains(k) {
            let j = keys1.index_of(k);
            let j0 = if j < i { j } else { j + 1 };
            assert(keys[j0] == k);
            lemma_paired_at(keys, values, j0);
            lemma_paired_at(keys, values, i);
        }
        if keys.contains(k) && k != keys[i] {
            let j = keys.index_of(k);
            if j < i {
                assert(keys1[j] == k);
            } else {
                assert(keys1[j - 1] == k);
            }
        }
    }
    assert forall|k: Seq<char>| #[trigger] after.contains_key(k) implies after[k] == wanted[k] by {
        let j = keys1.index_of(k);
        let j0 = if j < i { j } else { j + 1 };
        lemma_paired_at(keys1, values1, j);
        assert(keys[j0] == k);
        lemma_paired_at(keys, values, j0);
    }
    assert(after =~= wanted);
}

/// Names that ascend are set apart by the places they stand at.
pub proof fn lemma_ascending_distinct(keys: Seq<Seq<char>>, i: int, j: int)
    requires
        ascending(keys),
        0 <= i < keys.len(),
        0 <= j < keys.len(),
        keys[i] == keys[j],
    ensures
        i == j,
{
    lemma_precedes_irreflexive(keys[i]);
    if i < j {
        assert(precedes(keys[i], keys[j]));
    } else if j < i {
        assert(precedes(keys[j], keys[i]));
    }
}

/// There is one way only to put a set of names in ascending order: two
/// ascending sequences of the same names are the same sequence.
pub proof fn lemma_ascending_unique(a: Seq<Seq<char>>, b: Seq<Seq<char>>)
    requires
        ascending(a),
        ascending(b),
        a.to_set() == b.to_set(),
    ensures
        a == b,
    decreases a.len(),
{
    if a.len() == 0 {
        if b.len() > 0 {
            assert(b.to_set().contains(b[0]));
            assert(a.contains(b[0]));
        }
        assert(a =~= b);
    } else {
        assert(a.to_set().contains(a.last()));
        assert(b.contains(a.last()));
        let j = choose|j: int| 0 <= j < b.len() && b[j] == a.last();
        assert(b.to_set().contains(b.last()));
        assert(a.contains(b.last()));
        let i = choose|i: int| 0 <= i < a.len() && a[i] == b.last();
        if j < b.len() - 1 {
            assert(precedes(b[j], b.last()));
            lemma_precedes_irreflexive(a.last());
            if i < a.len() - 1 {
                assert(precedes(a[i], a.last()));
                lemma_precedes_asymmetric(a[i], a.last());
            }
        }
        assert(a.last() == b.last());
        let a0 = a.drop_last();
        let b0 = b.drop_last();
        assert forall|x: Seq<char>| a0.to_set().contains(x) <==> b0.to_set().contains(x) by {
            if a0.contains(x) {
                let p = choose|p: int| 0 <= p < a0.len() && a0[p] == x;
                assert(a[p] == x);
                assert(a.to_set().contains(x));
                assert(b.contains(x));
                let q = choose|q: int| 0 <= q < b.len() && b[q] == x;
                if q == b.len() - 1 {
                    lemma_ascending_distinct(a, p, a.len() - 1);
                }
                assert(b0[q] == x);
            }
            if b0.contains(x) {
                let q = choose|q: int| 0 <= q < b0.len() && b0[q] == x;
                assert(b[q] == x);
                assert(b.to_set().contains(x));
                assert(a.contains(x));
                let p = choose|p: int| 0 <= p < a.len() && a[p] == x;
                if p == a.len() - 1 {
                    lemma_ascending_distinct(b, q, b.len() - 1);
                }
                assert(a0[p] == x);
            }
        }
        assert(a0.to_set() =~= b0.to_set());
        assert forall|p: int, q: int| 0 <= p < q < a0.len() implies precedes(
            #[trigger] a0[p],
            #[trigger] a0[q],
        ) by {
            assert(a0[p] == a[p] && a0[q] == a[q]);
        }
        assert forall|p: int, q: int| 0 <= p < q < b0.len() implies precedes(
            #[trigger] b0[p],
            #[trigger] b0[q],
        ) by {
            assert(b0[p] == b[p] && b0[q] == b[q]);
        }
        lemma_ascending_unique(a0, b0);
        assert(a =~= a0.push(a.last()));
        assert(b =~= b0.push(b.last()));
    }
}

/// The first names of an ascending sequence ascend.
pub proof fn lemma_ascending_take(keys: Seq<Seq<char>>, k: int)
    requires
        ascending(keys),
        0 <= k <= keys.len(),
    ensures
        ascending(keys.take(k)),
{
    let first = keys.take(k);
    assert forall|i: int, j: int| 0 <= i < j < first.len() implies precedes(
        #[trigger] first[i],
        #[trigger] first[j],
    ) by {
        assert(first[i] == keys[i] && first[j] == keys[j]);
    }
}

/// A new name with its value, put behind names that ascend up to it, adds
/// that entry to the map and leaves the others.
pub proof fn lemma_paired_push<T>(keys: Seq<Seq<char>>, values: Seq<T>, name: Seq<char>, value: T)
    requires
        ascending(keys.push(name)),
        keys.len() == values.len(),
    ensures
        paired(keys.push(name), values.push(value)) == paired(keys, values).insert(name, value),
{
    let n = keys.len() as int;
    lemma_ascending_take(keys.push(name), n);
    assert(keys.push(name).take(n) =~= keys);
    assert(keys.insert(n, name) =~= keys.push(name));
    assert(values.insert(n, value) =~= values.push(value));
    lemma_paired_insert(keys, values, n, name, value);
}

} // verus!
