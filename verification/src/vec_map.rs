//! A small map kept as two vectors.
//!
//! The tables of this crate hold a handful of entries each (banks, zones,
//! pending addresses), so a linear search serves, and walking a table visits
//! its entries in the order in which their keys first came in.

use vstd::prelude::*;

verus! {

/// What can be a key of a [`VecMap`]: a value with a mathematical identity
/// and a test for it.
pub trait MapKey: Sized {
    type Id;

    spec fn id(&self) -> Self::Id;

    fn same(&self, other: &Self) -> (r: bool)
        ensures
            r == (self.id() == other.id()),
    ;
}

impl MapKey for String {
    type Id = Seq<char>;

    open spec fn id(&self) -> Seq<char> {
        self@
    }

    fn same(&self, other: &Self) -> (r: bool) {
        *self == *other
    }
}

impl MapKey for u8 {
    type Id = u8;

    open spec fn id(&self) -> u8 {
        *self
    }

    fn same(&self, other: &Self) -> (r: bool) {
        *self == *other
    }
}

impl MapKey for [u8; 6] {
    type Id = [u8; 6];

    open spec fn id(&self) -> [u8; 6] {
        *self
    }

    fn same(&self, other: &Self) -> (r: bool) {
        let r = self[0] == other[0] && self[1] == other[1] && self[2] == other[2] && self[3]
            == other[3] && self[4] == other[4] && self[5] == other[5];
        proof {
            if r {
                assert(*self =~= *other);
            }
        }
        r
    }
}

/// A map from the identities of `K` to values of `V`.
pub struct VecMap<K, V> {
    keys: Vec<K>,
    values: Vec<V>,
}

impl<K: MapKey, V> VecMap<K, V> {
    /// The keys, in the order in which a walk visits them.
    pub closed spec fn ids(&self) -> Seq<K::Id> {
        self.keys@.map_values(|k: K| k.id())
    }

    /// The values, in the same order.
    pub closed spec fn vals(&self) -> Seq<V> {
        self.values@
    }

    /// Every key has one value, and no key occurs twice.
    pub open spec fn wf(&self) -> bool {
        &&& self.ids().len() == self.vals().len()
        &&& self.ids().no_duplicates()
    }
}

/// The map that pairs `ids[i]` with `vals[i]`.
pub open spec fn zip_map<I, V>(ids: Seq<I>, vals: Seq<V>) -> Map<I, V> {
    Map::new(|k: I| ids.contains(k), |k: I| vals[ids.index_of(k)])
}

impl<K: MapKey, V> View for VecMap<K, V> {
    type V = Map<K::Id, V>;

    open spec fn view(&self) -> Map<K::Id, V> {
        zip_map(self.ids(), self.vals())
    }
}

/// In a pairing without repeated keys, the value at a key is found at the
/// key's own place.
pub proof fn lemma_zip_at<I, V>(ids: Seq<I>, vals: Seq<V>, i: int)
    requires
        ids.no_duplicates(),
        0 <= i < ids.len(),
    ensures
        zip_map(ids, vals).contains_key(ids[i]),
        zip_map(ids, vals)[ids[i]] == vals[i],
        ids.index_of(ids[i]) == i,
{
    assert(ids.contains(ids[i]));
    let j = ids.index_of(ids[i]);
    assert(0 <= j < ids.len() && ids[j] == ids[i]);
}

proof fn lemma_zip_update<I, V>(ids: Seq<I>, vals: Seq<V>, i: int, v: V)
    requires
        ids.no_duplicates(),
        ids.len() == vals.len(),
        0 <= i < ids.len(),
    ensures
        zip_map(ids, vals.update(i, v)) =~= zip_map(ids, vals).insert(ids[i], v),
{
    let a = zip_map(ids, vals.update(i, v));
    let b = zip_map(ids, vals).insert(ids[i], v);
    assert forall|k: I| #[trigger] a.contains_key(k) <==> b.contains_key(k) by {
        assert(ids.contains(ids[i]));
    }
    assert forall|k: I| #[trigger] a.contains_key(k) implies a[k] == b[k] by {
        let j = ids.index_of(k);
        assert(0 <= j < ids.len() && ids[j] == k);
        lemma_zip_at(ids, vals, j);
        lemma_zip_at(ids, vals.update(i, v), j);
    }
}

proof fn lemma_zip_push<I, V>(ids: Seq<I>, vals: Seq<V>, k: I, v: V)
    requires
        ids.no_duplicates(),
        ids.len() == vals.len(),
        !ids.contains(k),
    ensures
        ids.push(k).no_duplicates(),
        zip_map(ids.push(k), vals.push(v)) =~= zip_map(ids, vals).insert(k, v),
{
    let nids = ids.push(k);
    let nvals = vals.push(v);
    assert forall|i: int, j: int| 0 <= i < nids.len() && 0 <= j < nids.len() && i != j implies nids[i]
        != nids[j] by {
        if i < ids.len() && j == ids.len() {
            assert(ids.contains(ids[i]));
        }
        if j < ids.len() && i == ids.len() {
            assert(ids.contains(ids[j]));
        }
    }
    let a = zip_map(nids, nvals);
    let b = zip_map(ids, vals).insert(k, v);
    assert forall|q: I| #[trigger] a.contains_key(q) <==> b.contains_key(q) by {
        if nids.contains(q) {
            let j = choose|j: int| 0 <= j < nids.len() && nids[j] == q;
            if j < ids.len() {
                assert(ids[j] == q);
            }
        }
        if ids.contains(q) {
            let j = choose|j: int| 0 <= j < ids.len() && ids[j] == q;
            assert(nids[j] == q);
        }
        assert(nids[ids.len() as int] == k);
    }
    assert forall|q: I| #[trigger] a.contains_key(q) implies a[q] == b[q] by {
        let j = nids.index_of(q);
        assert(0 <= j < nids.len() && nids[j] == q);
        lemma_zip_at(nids, nvals, j);
        if j < ids.len() {
            lemma_zip_at(ids, vals, j);
            assert(ids.contains(q));
        }
    }
}

proof fn lemma_zip_remove<I, V>(ids: Seq<I>, vals: Seq<V>, i: int)
    requires
        ids.no_duplicates(),
        ids.len() == vals.len(),
        0 <= i < ids.len(),
    ensures
        ids.remove(i).no_duplicates(),
        zip_map(ids.remove(i), vals.remove(i)) =~= zip_map(ids, vals).remove(ids[i]),
{
    let nids = ids.remove(i);
    let nvals = vals.remove(i);
    assert(nids.no_duplicates());
    let a = zip_map(nids, nvals);
    let b = zip_map(ids, vals).remove(ids[i]);
    assert forall|q: I| #[trigger] a.contains_key(q) <==> b.contains_key(q) by {
        if nids.contains(q) {
            let j = choose|j: int| 0 <= j < nids.len() && nids[j] == q;
            if j < i {
                assert(ids[j] == q);
            } else {
                assert(ids[j + 1] == q);
            }
        }
        if ids.contains(q) && q != ids[i] {
            let j = choose|j: int| 0 <= j < ids.len() && ids[j] == q;
            if j < i {
                assert(nids[j] == q);
            } else {
                assert(nids[j - 1] == q);
            }
        }
    }
    assert forall|q: I| #[trigger] a.contains_key(q) implies a[q] == b[q] by {
        let j = nids.index_of(q);
        assert(0 <= j < nids.len() && nids[j] == q);
        lemma_zip_at(nids, nvals, j);
        if j < i {
            lemma_zip_at(ids, vals, j);
        } else {
            lemma_zip_at(ids, vals, j + 1);
        }
    }
}

impl<K: MapKey, V> VecMap<K, V> {
    pub fn new() -> (r: Self)
        ensures
            r.wf(),
            r.ids() == Seq::<K::Id>::empty(),
            r.vals() == Seq::<V>::empty(),
            r@ == Map::<K::Id, V>::empty(),
    {
        let r = VecMap { keys: Vec::new(), values: Vec::new() };
        proof {
            assert(r.ids() =~= Seq::<K::Id>::empty());
            assert(r@ =~= Map::<K::Id, V>::empty());
        }
        r
    }

    pub fn len(&self) -> (n: usize)
        requires
            self.wf(),
        ensures
            n == self.ids().len(),
            n == self.vals().len(),
    {
        self.keys.len()
    }

    /// The place of `key` in a walk, if the map holds it.
    pub fn position(&self, key: &K) -> (r: Option<usize>)
        requires
            self.wf(),
        ensures
            match r {
                Some(i) => i < self.ids().len() && self.ids()[i as int] == key.id(),
                None => !self.ids().contains(key.id()),
            },
            r is Some <==> self@.contains_key(key.id()),
            r is Some ==> self@[key.id()] == self.vals()[r->0 as int],
    {
        let mut i: usize = 0;
        while i < self.keys.len()
            invariant
                self.wf(),
                i <= self.keys@.len(),
                forall|j: int| 0 <= j < i ==> self.ids()[j] != key.id(),
            decreases self.keys@.len() - i,
        {
            if self.keys[i].same(key) {
                proof {
                    assert(self.ids()[i as int] == key.id());
                    lemma_zip_at(self.ids(), self.vals(), i as int);
                }
                return Some(i);
            }
            i += 1;
        }
        None
    }

    pub fn contains_key(&self, key: &K) -> (r: bool)
        requires
            self.wf(),
        ensures
            r == self@.contains_key(key.id()),
    {
        self.position(key).is_some()
    }

    pub fn get(&self, key: &K) -> (r: Option<&V>)
        requires
            self.wf(),
        ensures
            match r {
                Some(v) => self@.contains_key(key.id()) && *v == self@[key.id()],
                None => !self@.contains_key(key.id()),
            },
    {
        match self.position(key) {
            Some(i) => Some(&self.values[i]),
            None => None,
        }
    }

    pub fn key_at(&self, i: usize) -> (k: &K)
        requires
            self.wf(),
            i < self.ids().len(),
        ensures
            k.id() == self.ids()[i as int],
    {
        &self.keys[i]
    }

    pub fn value_at(&self, i: usize) -> (v: &V)
        requires
            self.wf(),
            i < self.ids().len(),
        ensures
            *v == self.vals()[i as int],
            self@.contains_key(self.ids()[i as int]),
            *v == self@[self.ids()[i as int]],
    {
        proof {
            lemma_zip_at(self.ids(), self.vals(), i as int);
        }
        &self.values[i]
    }

    /// The `i`th value, to be changed in place.
    pub fn value_mut(&mut self, i: usize) -> (v: &mut V)
        requires
            old(self).wf(),
            i < old(self).ids().len(),
        ensures
            *v == old(self).vals()[i as int],
            old(self)@.contains_key(old(self).ids()[i as int]),
            *v == old(self)@[old(self).ids()[i as int]],
            final(self).wf(),
            final(self).ids() == old(self).ids(),
            final(self).vals() == old(self).vals().update(i as int, *final(v)),
            final(self)@ == old(self)@.insert(old(self).ids()[i as int], *final(v)),
    {
        proof {
            lemma_zip_at(self.ids(), self.vals(), i as int);
            assert forall|x: V|
                zip_map(self.ids(), #[trigger] self.vals().update(i as int, x)) == zip_map(
                    self.ids(),
                    self.vals(),
                ).insert(self.ids()[i as int], x) by {
                lemma_zip_update(self.ids(), self.vals(), i as int, x);
            }
        }
        &mut self.values[i]
    }

    /// Puts `value` in the place of the `i`th value.
    pub fn set_at(&mut self, i: usize, value: V)
        requires
            old(self).wf(),
            i < old(self).ids().len(),
        ensures
            final(self).wf(),
            final(self).ids() == old(self).ids(),
            final(self).vals() == old(self).vals().update(i as int, value),
            final(self)@ == old(self)@.insert(old(self).ids()[i as int], value),
    {
        proof {
            lemma_zip_update(self.ids(), self.vals(), i as int, value);
        }
        self.values[i] = value;
    }

    /// Maps `key` to `value`, in the place of what it was mapped to before.
    pub fn insert(&mut self, key: K, value: V)
        requires
            old(self).wf(),
        ensures
            final(self).wf(),
            final(self)@ == old(self)@.insert(key.id(), value),
            final(self).ids() == if old(self)@.contains_key(key.id()) {
                old(self).ids()
            } else {
                old(self).ids().push(key.id())
            },
    {
        match self.position(&key) {
            Some(i) => self.set_at(i, value),
            None => {
                proof {
                    lemma_zip_push(self.ids(), self.vals(), key.id(), value);
                }
                let ghost before = self.ids();
                let ghost kid = key.id();
                self.keys.push(key);
                self.values.push(value);
                proof {
                    assert(self.ids() =~= before.push(kid));
                }
            },
        }
    }

    /// Drops `key` and what it was mapped to.
    pub fn remove(&mut self, key: &K) -> (removed: bool)
        requires
            old(self).wf(),
        ensures
            final(self).wf(),
            final(self)@ == old(self)@.remove(key.id()),
            removed == old(self)@.contains_key(key.id()),
    {
        match self.position(key) {
            Some(i) => {
                proof {
                    lemma_zip_remove(self.ids(), self.vals(), i as int);
                }
                let ghost before = self.ids();
                self.keys.remove(i);
                self.values.remove(i);
                proof {
                    assert(self.ids() =~= before.remove(i as int));
                }
                true
            },
            None => {
                proof {
                    assert(self@.remove(key.id()) =~= self@);
                }
                false
            },
        }
    }
}

} // verus!
