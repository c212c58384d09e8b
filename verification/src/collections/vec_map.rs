//! [`VecMap`], an insertion-order-preserving map backed by a `Vec`.
//!
//! A map is modelled by its entries in insertion order. Lookups go to the
//! first entry whose key equals the key asked for (by the key type's `==`);
//! the laws at the end hold where `==` is an equivalence, as `Eq` promises.

use vstd::prelude::*;
use vstd::std_specs::cmp::PartialEqSpec;

verus! {

// The model: entries in insertion order, and first matches.

/// Whether `i` is the first position of `entries` whose key equals `key`.
pub open spec fn is_first_match<K: PartialEq, V>(entries: Seq<(K, V)>, key: K, i: int) -> bool {
    &&& 0 <= i < entries.len()
    &&& entries[i].0.eq_spec(&key)
    &&& forall|j: int| 0 <= j < i ==> !(#[trigger] entries[j].0.eq_spec(&key))
}

/// The first position of `entries` whose key equals `key`, if any.
pub open spec fn index_of<K: PartialEq, V>(entries: Seq<(K, V)>, key: K) -> Option<int> {
    if exists|i: int| is_first_match(entries, key, i) {
        Some(choose|i: int| is_first_match(entries, key, i))
    } else {
        None
    }
}

/// The value that `key` maps to in `entries`: that of its first match.
pub open spec fn lookup<K: PartialEq, V>(entries: Seq<(K, V)>, key: K) -> Option<V> {
    match index_of(entries, key) {
        Some(i) => Some(entries[i].1),
        None => None,
    }
}

/// `entries` after inserting `key => value`: the first matching entry keeps
/// its key and position and takes the new value; without a match the pair
/// goes to the end.
pub open spec fn inserted<K: PartialEq, V>(entries: Seq<(K, V)>, key: K, value: V) -> Seq<(K, V)> {
    match index_of(entries, key) {
        Some(i) => entries.update(i, (entries[i].0, value)),
        None => entries.push((key, value)),
    }
}

/// The keys of `entries`, in insertion order.
pub open spec fn keys<K, V>(entries: Seq<(K, V)>) -> Seq<K> {
    entries.map_values(|e: (K, V)| e.0)
}

/// Whether `==` on `K` is an equivalence, as `Eq` promises: reflexive,
/// symmetric and transitive.
pub open spec fn eq_is_equivalence<K: PartialEq>() -> bool {
    &&& forall|x: K| #[trigger] x.eq_spec(&x)
    &&& forall|x: K, y: K| #[trigger] x.eq_spec(&y) ==> y.eq_spec(&x)
    &&& forall|x: K, y: K, z: K| #[trigger] x.eq_spec(&y) && #[trigger] y.eq_spec(&z) ==> x.eq_spec(&z)
}

/// Whether no two entries have keys that are equal by `==`.
pub open spec fn keys_distinct<K: PartialEq, V>(entries: Seq<(K, V)>) -> bool {
    forall|a: int, b: int|
        0 <= a < entries.len() && 0 <= b < entries.len() && a != b ==> !(#[trigger] entries[a].0.eq_spec(
            &(#[trigger] entries[b]).0,
        ))
}

// The map and its entries.

/// Insertion-order-preserving map backed by `Vec`.
pub struct VecMap<K, V>(Vec<(K, V)>);

impl<K, V> View for VecMap<K, V> {
    /// The entries, in insertion order.
    type V = Seq<(K, V)>;

    closed spec fn view(&self) -> Seq<(K, V)> {
        self.0@
    }
}

impl<K, V> VecMap<K, V> {
    /// Creates an empty map.
    pub fn new() -> (m: Self)
        ensures
            m@ == Seq::<(K, V)>::empty(),
    {
        VecMap(Vec::new())
    }

    /// The number of entries.
    pub fn len(&self) -> (n: usize)
        ensures
            n == self@.len(),
    {
        self.0.len()
    }

    /// The entry at position `i` in insertion order, with its key shared and
    /// its value mutable: what is written through the value becomes that
    /// entry's value, and the key stays as it is.
    pub fn get_index_mut(&mut self, i: usize) -> (r: (&K, &mut V))
        requires
            i < old(self)@.len(),
        ensures
            *r.0 == old(self)@[i as int].0,
            *r.1 == old(self)@[i as int].1,
            final(self)@ == old(self)@.update(i as int, (old(self)@[i as int].0, *final(r.1))),
    {
        let entry = &mut self.0[i];
        (&entry.0, &mut entry.1)
    }

    /// Gets the entry for `key`, for in-place manipulation: occupied at the
    /// first position whose key equals `key`, vacant when there is none.
    pub fn entry(&mut self, key: K) -> (e: VecMapEntry<'_, K, V>)
        where K: Eq
        ensures
            K::obeys_eq_spec() ==> match e {
                VecMapEntry::Occupied(o) => index_of(old(self)@, key) == Some(o.pos()),
                VecMapEntry::Vacant(v) => index_of(old(self)@, key) is None,
            },
            match e {
                VecMapEntry::Occupied(o) => {
                    &&& 0 <= o.pos() < old(self)@.len()
                    &&& *o.map() == *old(self)
                    &&& *final(o.map()) == *final(self)
                },
                VecMapEntry::Vacant(v) => {
                    &&& v.key() == key
                    &&& *v.map() == *old(self)
                    &&& *final(v.map()) == *final(self)
                },
            },
    {
        match self.position(&key) {
            Some(pos) => {
                proof {
                    if K::obeys_eq_spec() {
                        lemma_index_of_first_match(self@, key, pos as int);
                    }
                }
                VecMapEntry::Occupied(OccupiedEntry { map: self, pos })
            },
            None => VecMapEntry::Vacant(VacantEntry { map: self, key }),
        }
    }

    /// The entries, in insertion order.
    pub fn into_vec(self) -> (v: Vec<(K, V)>)
        ensures
            v@ == self@,
    {
        self.0
    }

    /// Finds the first position whose key equals `key`.
    fn position(&self, key: &K) -> (r: Option<usize>)
        where K: Eq
        ensures
            r matches Some(i) ==> i < self@.len(),
            K::obeys_eq_spec() ==> match r {
                Some(i) => is_first_match(self@, *key, i as int),
                None => forall|j: int| 0 <= j < self@.len() ==> !(#[trigger] self@[j].0.eq_spec(key)),
            },
    {
        let mut i: usize = 0;
        while i < self.0.len()
            invariant
                i <= self@.len(),
                K::obeys_eq_spec() ==> forall|j: int| 0 <= j < i ==> !(#[trigger] self@[j].0.eq_spec(key)),
            decreases self@.len() - i,
        {
            if self.0[i].0 == *key {
                return Some(i);
            }
            i = i + 1;
        }
        None
    }

    /// Returns the value that `key` maps to.
    pub fn get(&self, key: &K) -> (r: Option<&V>)
        where K: Eq
        ensures
            K::obeys_eq_spec() ==> match r {
                Some(v) => lookup(self@, *key) == Some(*v),
                None => lookup(self@, *key) is None,
            },
            r matches Some(v) ==> exists|i: int| 0 <= i < self@.len() && *v == #[trigger] self@[i].1,
    {
        match self.position(key) {
            Some(i) => {
                proof {
                    if K::obeys_eq_spec() {
                        lemma_index_of_first_match(self@, *key, i as int);
                    }
                }
                Some(&self.0[i].1)
            },
            None => None,
        }
    }

    /// Returns a mutable reference to the value that `key` maps to; what is
    /// written through it becomes that entry's value.
    pub fn get_mut(&mut self, key: &K) -> (r: Option<&mut V>)
        where K: Eq
        ensures
            K::obeys_eq_spec() ==> match r {
                Some(v) => {
                    &&& lookup(old(self)@, *key) == Some(*v)
                    &&& final(self)@ == old(self)@.update(
                        index_of(old(self)@, *key)->0,
                        (old(self)@[index_of(old(self)@, *key)->0].0, *final(v)),
                    )
                },
                None => lookup(old(self)@, *key) is None,
            },
            r is None ==> final(self)@ == old(self)@,
            r matches Some(v) ==> exists|i: int|
                #![trigger old(self)@[i]]
                0 <= i < old(self)@.len() && *v == old(self)@[i].1 && final(self)@
                    == old(self)@.update(i, (old(self)@[i].0, *final(v))),
    {
        match self.position(key) {
            Some(i) => {
                proof {
                    if K::obeys_eq_spec() {
                        lemma_index_of_first_match(self@, *key, i as int);
                    }
                }
                Some(&mut self.0[i].1)
            },
            None => None,
        }
    }

    /// Inserts `key => value`. A key that is already present keeps its
    /// position and takes the new value; a new key goes to the end.
    pub fn insert(&mut self, key: K, value: V)
        where K: Eq
        ensures
            K::obeys_eq_spec() ==> final(self)@ == inserted(old(self)@, key, value),
            final(self)@ == old(self)@.push((key, value)) || exists|i: int|
                0 <= i < old(self)@.len() && final(self)@ == #[trigger] old(self)@.update(
                    i,
                    (old(self)@[i].0, value),
                ),
    {
        match self.position(&key) {
            Some(i) => {
                proof {
                    if K::obeys_eq_spec() {
                        lemma_index_of_first_match(self@, key, i as int);
                    }
                }
                self.0[i].1 = value;
            },
            None => {
                self.0.push((key, value));
            },
        }
    }
}

impl<K, V> Default for VecMap<K, V> {
    /// The empty map.
    fn default() -> (m: Self)
        ensures
            m@ == Seq::<(K, V)>::empty(),
    {
        VecMap(Vec::new())
    }
}

/// A view into a single position of a [`VecMap`], which may be occupied or
/// vacant.
pub enum VecMapEntry<'a, K, V> {
    /// The key is present, at a known position.
    Occupied(OccupiedEntry<'a, K, V>),
    /// The key is absent.
    Vacant(VacantEntry<'a, K, V>),
}

/// An entry whose key is present in the map.
pub struct OccupiedEntry<'a, K, V> {
    map: &'a mut VecMap<K, V>,
    pos: usize,
}

impl<'a, K, V> OccupiedEntry<'a, K, V> {
    /// The borrow of the map that this entry holds.
    pub closed spec fn map(self) -> &'a mut VecMap<K, V> {
        self.map
    }

    /// The position of the entry's key in the map.
    pub closed spec fn pos(self) -> int {
        self.pos as int
    }
}

/// An entry whose key is absent from the map.
pub struct VacantEntry<'a, K, V> {
    map: &'a mut VecMap<K, V>,
    key: K,
}

impl<'a, K, V> VacantEntry<'a, K, V> {
    /// The borrow of the map that this entry holds.
    pub closed spec fn map(self) -> &'a mut VecMap<K, V> {
        self.map
    }

    /// The key that would be inserted.
    pub closed spec fn key(self) -> K {
        self.key
    }
}

impl<'a, K, V> VecMapEntry<'a, K, V> {
    /// Ensures a value is in the entry, inserting the result of `f` at the
    /// end of the map when it is vacant, and returns a mutable reference to
    /// the value.
    pub fn or_insert_with<F: FnOnce() -> V>(self, f: F) -> (r: &'a mut V)
        requires
            self matches VecMapEntry::Occupied(o) ==> 0 <= o.pos() < o.map()@.len(),
            self is Vacant ==> f.requires(()),
        ensures
            match self {
                VecMapEntry::Occupied(o) => {
                    &&& *r == o.map()@[o.pos()].1
                    &&& final(o.map())@ == o.map()@.update(o.pos(), (o.map()@[o.pos()].0, *final(r)))
                },
                VecMapEntry::Vacant(v) => {
                    &&& f.ensures((), *r)
                    &&& final(v.map())@ == v.map()@.push((v.key(), *final(r)))
                },
            },
    {
        match self {
            VecMapEntry::Occupied(e) => &mut e.map.0[e.pos].1,
            VecMapEntry::Vacant(e) => {
                let value = f();
                e.map.0.push((e.key, value));
                let last = e.map.0.len() - 1;
                &mut e.map.0[last].1
            },
        }
    }
}

/// An entry that is dropped without use leaves the map as it was: once the
/// entry is resolved, the map that it borrowed ends as it was borrowed.
pub proof fn lemma_unused_entry<'a, K, V>(e: VecMapEntry<'a, K, V>)
    requires
        has_resolved(e),
    ensures
        match e {
            VecMapEntry::Occupied(o) => *final(o.map()) == *o.map(),
            VecMapEntry::Vacant(v) => *final(v.map()) == *v.map(),
        },
{
    match e {
        VecMapEntry::Occupied(o) => {
            assert(has_resolved(o));
            assert(has_resolved(o.map));
        },
        VecMapEntry::Vacant(v) => {
            assert(has_resolved(v));
            assert(has_resolved(v.map));
        },
    }
}

// Facts about first matches.

/// A first match is the first match.
pub proof fn lemma_index_of_first_match<K: PartialEq, V>(entries: Seq<(K, V)>, key: K, i: int)
    requires
        is_first_match(entries, key, i),
    ensures
        index_of(entries, key) == Some(i),
{
    let c = choose|c: int| is_first_match(entries, key, c);
    if c < i {
        assert(!entries[c].0.eq_spec(&key));
    } else if i < c {
        assert(!entries[i].0.eq_spec(&key));
    }
}

/// Without any matching key there is no first match.
pub proof fn lemma_index_of_none<K: PartialEq, V>(entries: Seq<(K, V)>, key: K)
    requires
        forall|j: int| 0 <= j < entries.len() ==> !(#[trigger] entries[j].0.eq_spec(&key)),
    ensures
        index_of(entries, key) == None::<int>,
{
}

/// A key that matches somewhere has a first match.
pub proof fn lemma_some_match_has_first<K: PartialEq, V>(entries: Seq<(K, V)>, key: K, i: int)
    requires
        0 <= i < entries.len(),
        entries[i].0.eq_spec(&key),
    ensures
        index_of(entries, key) is Some,
    decreases i,
{
    if exists|j: int| 0 <= j < i && #[trigger] entries[j].0.eq_spec(&key) {
        let j = choose|j: int| 0 <= j < i && #[trigger] entries[j].0.eq_spec(&key);
        lemma_some_match_has_first(entries, key, j);
    } else {
        assert(is_first_match(entries, key, i));
    }
}

/// Two entry sequences with the same keys at the same positions have the
/// same first match for every key.
pub proof fn lemma_index_of_same_keys<K: PartialEq, V>(e1: Seq<(K, V)>, e2: Seq<(K, V)>, key: K)
    requires
        e1.len() == e2.len(),
        forall|j: int| 0 <= j < e1.len() ==> #[trigger] e1[j].0 == e2[j].0,
    ensures
        index_of(e1, key) == index_of(e2, key),
{
    if index_of(e1, key) is Some {
        let i = index_of(e1, key)->0;
        assert(is_first_match(e1, key, i));
        assert forall|j: int| 0 <= j < i implies !(#[trigger] e2[j].0.eq_spec(&key)) by {
            assert(!e1[j].0.eq_spec(&key));
        }
        lemma_index_of_first_match(e2, key, i);
    } else if index_of(e2, key) is Some {
        let i = index_of(e2, key)->0;
        assert(is_first_match(e2, key, i));
        assert forall|j: int| 0 <= j < i implies !(#[trigger] e1[j].0.eq_spec(&key)) by {
            assert(!e2[j].0.eq_spec(&key));
        }
        lemma_index_of_first_match(e1, key, i);
    }
}

/// Appending an entry whose key does not match leaves the first match as
/// it was.
pub proof fn lemma_index_of_push_other<K: PartialEq, V>(entries: Seq<(K, V)>, entry: (K, V), key: K)
    requires
        !entry.0.eq_spec(&key),
    ensures
        index_of(entries.push(entry), key) == index_of(entries, key),
{
    let r = entries.push(entry);
    if index_of(entries, key) is Some {
        let i = index_of(entries, key)->0;
        assert(is_first_match(entries, key, i));
        assert forall|j: int| 0 <= j < i implies !(#[trigger] r[j].0.eq_spec(&key)) by {
            assert(!entries[j].0.eq_spec(&key));
        }
        lemma_index_of_first_match(r, key, i);
    } else if index_of(r, key) is Some {
        let i = index_of(r, key)->0;
        assert(is_first_match(r, key, i));
        assert(i < entries.len());
        assert forall|j: int| 0 <= j < i implies !(#[trigger] entries[j].0.eq_spec(&key)) by {
            assert(!r[j].0.eq_spec(&key));
        }
        lemma_index_of_first_match(entries, key, i);
    }
}

// Laws.

/// Insertion keeps the order of the keys: a key already present stays
/// where it is, and a new key goes to the end.
pub proof fn lemma_insert_keeps_key_order<K: PartialEq, V>(entries: Seq<(K, V)>, key: K, value: V)
    ensures
        keys(inserted(entries, key, value)) == if index_of(entries, key) is Some {
            keys(entries)
        } else {
            keys(entries).push(key)
        },
{
    let r = inserted(entries, key, value);
    if index_of(entries, key) is Some {
        assert(keys(r) =~= keys(entries));
    } else {
        assert(keys(r) =~= keys(entries).push(key));
    }
}

/// After inserting `key => value`, looking up `key` gives `value`.
pub proof fn lemma_lookup_after_insert<K: PartialEq, V>(entries: Seq<(K, V)>, key: K, value: V)
    requires
        eq_is_equivalence::<K>(),
    ensures
        lookup(inserted(entries, key, value), key) == Some(value),
{
    let r = inserted(entries, key, value);
    match index_of(entries, key) {
        Some(i) => {
            assert(is_first_match(entries, key, i));
            assert forall|j: int| 0 <= j < i implies !(#[trigger] r[j].0.eq_spec(&key)) by {
                assert(!entries[j].0.eq_spec(&key));
            }
            lemma_index_of_first_match(r, key, i);
        },
        None => {
            assert forall|j: int| 0 <= j < entries.len() implies !(#[trigger] r[j].0.eq_spec(&key)) by {
                if entries[j].0.eq_spec(&key) {
                    lemma_some_match_has_first(entries, key, j);
                }
            }
            assert(key.eq_spec(&key));
            lemma_index_of_first_match(r, key, entries.len() as int);
        },
    }
}

/// Inserting `key` leaves what every key not equal to it maps to as it was.
pub proof fn lemma_lookup_other_after_insert<K: PartialEq, V>(
    entries: Seq<(K, V)>,
    key: K,
    value: V,
    other: K,
)
    requires
        eq_is_equivalence::<K>(),
        !key.eq_spec(&other),
    ensures
        lookup(inserted(entries, key, value), other) == lookup(entries, other),
{
    let r = inserted(entries, key, value);
    match index_of(entries, key) {
        Some(i) => {
            assert(is_first_match(entries, key, i));
            lemma_index_of_same_keys(entries, r, other);
            if index_of(entries, other) == Some(i) {
                assert(is_first_match(entries, other, i));
                assert(entries[i].0.eq_spec(&other));
                assert(entries[i].0.eq_spec(&key));
                assert(key.eq_spec(&entries[i].0));
            }
        },
        None => {
            lemma_index_of_push_other(entries, (key, value), other);
            if index_of(entries, other) is Some {
                assert(is_first_match(entries, other, index_of(entries, other)->0));
            }
        },
    }
}

/// Inserting a key twice has the effect of inserting it once with the
/// second value: the last write wins, and the key keeps its first position.
pub proof fn lemma_insert_twice<K: PartialEq, V>(entries: Seq<(K, V)>, key: K, v1: V, v2: V)
    requires
        eq_is_equivalence::<K>(),
    ensures
        inserted(inserted(entries, key, v1), key, v2) == inserted(entries, key, v2),
{
    let r1 = inserted(entries, key, v1);
    match index_of(entries, key) {
        Some(i) => {
            assert(is_first_match(entries, key, i));
            lemma_index_of_same_keys(entries, r1, key);
            assert(inserted(r1, key, v2) =~= inserted(entries, key, v2));
        },
        None => {
            assert forall|j: int| 0 <= j < entries.len() implies !(#[trigger] r1[j].0.eq_spec(&key)) by {
                if entries[j].0.eq_spec(&key) {
                    lemma_some_match_has_first(entries, key, j);
                }
            }
            assert(key.eq_spec(&key));
            lemma_index_of_first_match(r1, key, entries.len() as int);
            assert(inserted(r1, key, v2) =~= inserted(entries, key, v2));
        },
    }
}

/// Insertion never makes two keys equal.
pub proof fn lemma_insert_keeps_keys_distinct<K: PartialEq, V>(entries: Seq<(K, V)>, key: K, value: V)
    requires
        eq_is_equivalence::<K>(),
        keys_distinct(entries),
    ensures
        keys_distinct(inserted(entries, key, value)),
{
    let r = inserted(entries, key, value);
    match index_of(entries, key) {
        Some(i) => {
            assert forall|a: int, b: int|
                0 <= a < r.len() && 0 <= b < r.len() && a != b implies !(#[trigger] r[a].0.eq_spec(
                &(#[trigger] r[b]).0,
            )) by {
                assert(r[a].0 == entries[a].0);
                assert(r[b].0 == entries[b].0);
                assert(!entries[a].0.eq_spec(&entries[b].0));
            }
        },
        None => {
            assert forall|j: int| 0 <= j < entries.len() implies !(#[trigger] entries[j].0.eq_spec(&key)) by {
                if entries[j].0.eq_spec(&key) {
                    lemma_some_match_has_first(entries, key, j);
                }
            }
            assert forall|a: int, b: int|
                0 <= a < r.len() && 0 <= b < r.len() && a != b implies !(#[trigger] r[a].0.eq_spec(
                &(#[trigger] r[b]).0,
            )) by {
                if a < entries.len() && b < entries.len() {
                    assert(!entries[a].0.eq_spec(&entries[b].0));
                } else if a < entries.len() {
                    assert(!entries[a].0.eq_spec(&key));
                } else {
                    assert(!entries[b].0.eq_spec(&key));
                    if key.eq_spec(&entries[b].0) {
                        assert(entries[b].0.eq_spec(&key));
                    }
                }
            }
        },
    }
}

/// What is written through the reference that `get_mut` or `get_index_mut`
/// hands out at a key's first match is what looking up that key gives.
pub proof fn lemma_lookup_after_write_through<K: PartialEq, V>(entries: Seq<(K, V)>, key: K, w: V)
    requires
        index_of(entries, key) is Some,
    ensures
        lookup(
            entries.update(index_of(entries, key)->0, (entries[index_of(entries, key)->0].0, w)),
            key,
        ) == Some(w),
{
    let i = index_of(entries, key)->0;
    assert(is_first_match(entries, key, i));
    lemma_index_of_same_keys(entries, entries.update(i, (entries[i].0, w)), key);
}

/// `entry(key).or_insert_with(f)`, with `w` the value finally left behind
/// the reference it returns, has the effect of `insert(key, w)`: an
/// occupied entry takes `w` in place, and a vacant one puts the pair at the
/// end. So what `get` gives afterwards, and that keys stay distinct, follow
/// from the laws of insertion.
pub proof fn lemma_or_insert_with_is_insert<K: PartialEq, V>(entries: Seq<(K, V)>, key: K, w: V)
    ensures
        index_of(entries, key) matches Some(i) ==> entries.update(i, (entries[i].0, w))
            == inserted(entries, key, w),
        index_of(entries, key) is None ==> entries.push((key, w)) == inserted(entries, key, w),
{
}

/// After `entry(key).or_insert_with(..)` left `w` for `key`, the entry for
/// `key` is occupied and holds `w`: a second `or_insert_with` does not call
/// its closure, returns a reference to `w`, and, when nothing is written
/// through it, leaves the map as it was.
pub proof fn lemma_entry_again_is_occupied<K: PartialEq, V>(entries: Seq<(K, V)>, key: K, w: V)
    requires
        eq_is_equivalence::<K>(),
    ensures
        index_of(inserted(entries, key, w), key) matches Some(i) && inserted(entries, key, w)[i].1 == w
            && inserted(entries, key, w).update(i, (inserted(entries, key, w)[i].0, w))
            == inserted(entries, key, w),
{
    let r = inserted(entries, key, w);
    lemma_lookup_after_insert(entries, key, w);
    let i = index_of(r, key)->0;
    assert(r.update(i, (r[i].0, w)) =~= r);
}

} // verus!
