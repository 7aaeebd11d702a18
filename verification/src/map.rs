//! A hash map that never grows: its capacity is fixed when it is made, and an insertion
//! into a full map is refused in place of reallocating.
use vstd::prelude::*;
use std::collections::HashMap;
use std::hash::Hash;
use vstd::std_specs::hash::obeys_key_model;
use crate::common::{block_granted, block_refused, copy_refused, AllocError, Allocator, ContainerError, Layout, SafeClone};
use vstd::std_specs::iter::IteratorSpec;
use vstd::std_specs::cmp::{PartialEqSpec, PartialEqSpecImpl};

verus! {

broadcast use vstd::std_specs::hash::group_hash_axioms;

/// `HashMap::try_reserve`: makes room for `additional` more entries, or reports that it
/// could not; the entries are unchanged either way. std's error tells an overflow of the
/// capacity from a refused allocation only through an unstable method, so both are
/// reported alike.
#[verifier::external_body]
fn reserve_room<K: Eq + Hash, V>(m: &mut HashMap<K, V>, additional: usize) -> (r: Result<(), ()>)
    ensures
        final(m)@ == old(m)@,
{
    match m.try_reserve(additional) {
        Ok(()) => Ok(()),
        Err(_) => Err(()),
    }
}

/// `HashMap::capacity`: how many entries the map holds without reallocating, which its
/// current entries do.
#[verifier::external_body]
fn room_of<K, V>(m: &HashMap<K, V>) -> (n: usize)
    ensures
        obeys_key_model::<K>() ==> n >= m@.len(),
{
    m.capacity()
}

/// `HashMap::get_mut`: the value of key `k`, to be changed in place.
#[verifier::external_body]
fn value_mut<'a, K: Eq + Hash, V>(m: &'a mut HashMap<K, V>, k: &K) -> (r: Option<&'a mut V>)
    ensures
        obeys_key_model::<K>() ==> match r {
            Some(v) => old(m)@.contains_key(*k) && *v == old(m)@[*k] && final(m)@ == old(m)@.insert(
                *k,
                *final(v),
            ),
            None => !old(m)@.contains_key(*k) && final(m)@ == old(m)@,
        },
{
    m.get_mut(k)
}

/// The layout of a table of `capacity` entries.
pub open spec fn table_layout<K, V>(capacity: usize) -> Layout {
    Layout {
        size: (capacity * vstd::layout::size_of::<(K, V)>()) as usize,
        align: vstd::layout::align_of::<(K, V)>() as usize,
    }
}

/// `HashMap::values_mut`, collected: a reference to the value of each key, each key once,
/// in the order of the table; what is written through a reference becomes the value of its
/// key, and the keys stay.
#[verifier::external_body]
fn values_mut_of<'a, K, V>(m: &'a mut HashMap<K, V>) -> (r: Vec<&'a mut V>)
    ensures
        obeys_key_model::<K>() ==> {
            &&& r@.len() == old(m)@.len()
            &&& final(m)@.dom() == old(m)@.dom()
            &&& exists|ks: Seq<K>|
                #![trigger ks.len()]
                ks.len() == r@.len() && ks.no_duplicates() && forall|i: int|
                    0 <= i < ks.len() ==> old(m)@.contains_key(#[trigger] ks[i]) && *r@[i]
                        == old(m)@[ks[i]] && final(m)@[ks[i]] == *final(r@[i])
        },
{
    m.values_mut().collect()
}

/// `HashMap::iter_mut`, collected: each key, once, with a reference to its value, in the
/// order of the table; what is written through a reference becomes the value of its key,
/// and the keys stay.
#[verifier::external_body]
fn iter_mut_of<'a, K, V>(m: &'a mut HashMap<K, V>) -> (r: Vec<(&'a K, &'a mut V)>)
    ensures
        obeys_key_model::<K>() ==> {
            &&& r@.len() == old(m)@.len()
            &&& final(m)@.dom() == old(m)@.dom()
            &&& forall|i: int, j: int| 0 <= i < j < r@.len() ==> *r@[i].0 != *r@[j].0
            &&& forall|i: int|
                0 <= i < r@.len() ==> old(m)@.contains_key(*r@[i].0) && *r@[i].1 == old(m)@[*r@[i].0]
                    && final(m)@[*r@[i].0] == *final(r@[i].1)
        },
{
    m.iter_mut().collect()
}

/// A key of the maps: hashed and compared by its value alone.
pub trait MapKey: Hash + Eq + Sized + SafeClone {
    /// Equal keys hash alike, and the map of std finds a key by its value.
    proof fn hashed_by_value()
        ensures
            obeys_key_model::<Self>(),
    ;

    /// A copy of a key is the key itself.
    proof fn copy_is_same(a: &Self, b: &Self)
        requires
            a.copy_of(b),
        ensures
            *a == *b,
    ;
}

impl MapKey for bool {
    proof fn hashed_by_value() {
    }

    proof fn copy_is_same(a: &Self, b: &Self) {
    }
}

impl MapKey for u8 {
    proof fn hashed_by_value() {
    }

    proof fn copy_is_same(a: &Self, b: &Self) {
    }
}

impl MapKey for u16 {
    proof fn hashed_by_value() {
    }

    proof fn copy_is_same(a: &Self, b: &Self) {
    }
}

impl MapKey for u32 {
    proof fn hashed_by_value() {
    }

    proof fn copy_is_same(a: &Self, b: &Self) {
    }
}

impl MapKey for u64 {
    proof fn hashed_by_value() {
    }

    proof fn copy_is_same(a: &Self, b: &Self) {
    }
}

impl MapKey for u128 {
    proof fn hashed_by_value() {
    }

    proof fn copy_is_same(a: &Self, b: &Self) {
    }
}

impl MapKey for usize {
    proof fn hashed_by_value() {
    }

    proof fn copy_is_same(a: &Self, b: &Self) {
    }
}

impl MapKey for i8 {
    proof fn hashed_by_value() {
    }

    proof fn copy_is_same(a: &Self, b: &Self) {
    }
}

impl MapKey for i16 {
    proof fn hashed_by_value() {
    }

    proof fn copy_is_same(a: &Self, b: &Self) {
    }
}

impl MapKey for i32 {
    proof fn hashed_by_value() {
    }

    proof fn copy_is_same(a: &Self, b: &Self) {
    }
}

impl MapKey for i64 {
    proof fn hashed_by_value() {
    }

    proof fn copy_is_same(a: &Self, b: &Self) {
    }
}

impl MapKey for i128 {
    proof fn hashed_by_value() {
    }

    proof fn copy_is_same(a: &Self, b: &Self) {
    }
}

impl MapKey for isize {
    proof fn hashed_by_value() {
    }

    proof fn copy_is_same(a: &Self, b: &Self) {
    }
}

/// A hash map with a fixed capacity, whose table is granted by an allocator.
#[derive(Debug)]
pub struct FixedCapMap<K, V, A: Allocator + Clone> {
    table: HashMap<K, V>,
    limit: usize,
    block: usize,
    alloc: A,
}

impl<K, V, A: Allocator + Clone> View for FixedCapMap<K, V, A> {
    type V = Map<K, V>;

    /// The entries of the map.
    closed spec fn view(&self) -> Map<K, V> {
        self.table@
    }
}

impl<K: MapKey, V, A: Allocator + Clone> FixedCapMap<K, V, A> {
    /// The map holds no more entries than its capacity.
    pub open spec fn wf(&self) -> bool {
        self@.len() <= self.limit_spec()
    }

    /// The capacity that the map was made with.
    pub closed spec fn limit_spec(&self) -> usize {
        self.limit
    }

    /// The size of the block that the allocator granted for the table.
    pub closed spec fn block_spec(&self) -> usize {
        self.block
    }

    /// The allocator of the map.
    pub closed spec fn alloc_spec(&self) -> A {
        self.alloc
    }

    /// The allocator of the map.
    pub fn allocator(&self) -> (r: &A)
        ensures
            *r == self.alloc_spec(),
    {
        &self.alloc
    }

    /// Removes every entry; the capacity stays.
    pub fn clear(&mut self)
        ensures
            final(self).wf(),
            final(self)@ == Map::<K, V>::empty(),
            final(self).limit_spec() == old(self).limit_spec(),
            final(self).alloc_spec() == old(self).alloc_spec(),
    {
        proof {
            K::hashed_by_value();
        }
        self.table.clear();
    }

    /// The number of entries.
    pub fn len(&self) -> (n: usize)
        ensures
            n == self@.len(),
    {
        proof {
            K::hashed_by_value();
        }
        self.table.len()
    }

    /// How many entries the table has room for without reallocating.
    pub fn bucket_num(&self) -> (n: usize)
        ensures
            n >= self@.len(),
    {
        proof {
            K::hashed_by_value();
        }
        room_of(&self.table)
    }

    /// The capacity that the map was made with.
    pub fn capacity(&self) -> (n: usize)
        ensures
            n == self.limit_spec(),
    {
        proof {
            K::hashed_by_value();
        }
        self.limit
    }

    /// The size of the block that the allocator granted for the table; zero where it was
    /// not asked.
    pub fn table_size_allocated(&self) -> (n: usize)
        ensures
            n == self.block_spec(),
    {
        proof {
            K::hashed_by_value();
        }
        self.block
    }

    /// Whether the map has no entry.
    pub fn is_empty(&self) -> (b: bool)
        ensures
            b == self@.is_empty(),
    {
        proof {
            K::hashed_by_value();
        }
        self.table.is_empty()
    }

    /// Whether the map holds as many entries as its capacity.
    pub fn is_full(&self) -> (b: bool)
        ensures
            b == (self@.len() >= self.limit_spec()),
    {
        proof {
            K::hashed_by_value();
        }
        self.table.len() >= self.limit
    }

    /// The entries, each once, in the order of the table.
    pub fn iter(&self) -> (r: Vec<(&K, &V)>)
        ensures
            ({
                &&& r@.len() == self@.len()
                &&& forall|i: int|
                    0 <= i < r@.len() ==> self@.contains_key(*r@[i].0) && self@[*r@[i].0]
                        == *r@[i].1
                &&& forall|k: K| #[trigger]
                    self@.contains_key(k) ==> exists|i: int|
                        0 <= i < r@.len() && *r@[i].0 == k
            }),
    {
        proof {
            K::hashed_by_value();
        }
        let mut out: Vec<(&K, &V)> = Vec::new();
        let ghost m = self.table@;
        for pair in it: self.table.iter()
            invariant
                m == self.table@,
                it.seq() == self.table.iter().remaining(),
                out@ == it.seq().take(it.index() as int),
        {
            assert(it.seq().take(it.index() + 1) =~= it.seq().take(it.index() as int).push(pair));
            out.push(pair);
        }
        proof {
            let v = self.table.iter().remaining();
            assert(out@ =~= v);
            assert forall|k: K| #[trigger] m.contains_key(k) implies exists|i: int|
                0 <= i < out@.len() && *out@[i].0 == k by {
                assert(v.contains((&k, &m[k])));
                let i = choose|i: int| 0 <= i < v.len() && v[i] == (&k, &m[k]);
                assert(*out@[i].0 == k);
            }
        }
        out
    }
}

impl<K: MapKey, V, A: Allocator + Clone> FixedCapMap<K, V, A> {
    /// Makes an empty map that holds up to `capacity` entries. A capacity of zero takes no
    /// memory and the allocator is not asked. Otherwise the table of `capacity` entries is
    /// laid out, which fails with `CapacityOverflow` where its size does not fit; the
    /// allocator is asked for it, and a refusal is reported with its layout; last, room is
    /// made for the entries, and a failure there is reported as `CapacityOverflow`.
    pub fn new(capacity: usize, allocator: A) -> (r: Result<Self, ContainerError>)
        ensures
            match r {
                Ok(m) => m@ == Map::<K, V>::empty() && m.limit_spec() == capacity && m.wf()
                    && m.alloc_spec() == allocator && (capacity > 0 ==> block_granted(
                    allocator,
                    table_layout::<K, V>(capacity),
                )),
                Err(e) => capacity > 0 && ((e == ContainerError::CapacityOverflow && (capacity
                    * vstd::layout::size_of::<(K, V)>() > isize::MAX || block_granted(
                    allocator,
                    table_layout::<K, V>(capacity),
                ))) || (e == ContainerError::AllocFailure(table_layout::<K, V>(capacity))
                    && block_refused(allocator, table_layout::<K, V>(capacity)))),
            },
            capacity == 0 ==> r is Ok,
            capacity * vstd::layout::size_of::<(K, V)>() > isize::MAX ==> r == Err::<
                Self,
                ContainerError,
            >(ContainerError::CapacityOverflow),
    {
        proof {
            K::hashed_by_value();
        }
        let mut table: HashMap<K, V> = HashMap::new();
        if capacity == 0 {
            return Ok(FixedCapMap { table, limit: 0, block: 0, alloc: allocator });
        }
        let layout = match Layout::array::<(K, V)>(capacity) {
            Some(l) => l,
            None => {
                return Err(ContainerError::CapacityOverflow);
            },
        };
        let grant = allocator.allocate(layout);
        match grant {
            Ok(u) => {
                assert(u == () && layout == table_layout::<K, V>(capacity));
                assert(grant == Ok::<(), AllocError>(()));
            },
            Err(x) => {
                assert(x == AllocError && layout == table_layout::<K, V>(capacity));
                return Err(ContainerError::AllocFailure(layout));
            },
        }
        match reserve_room(&mut table, capacity) {
            Ok(()) => {},
            Err(()) => {
                return Err(ContainerError::CapacityOverflow);
            },
        }
        Ok(FixedCapMap { table, limit: capacity, block: layout.size, alloc: allocator })
    }

    /// The value of key `k`.
    pub fn get(&self, k: &K) -> (r: Option<&V>)
        ensures
            match r {
                Some(v) => self@.contains_key(*k) && *v == self@[*k],
                None => !self@.contains_key(*k),
            },
    {
        proof {
            K::hashed_by_value();
        }
        self.table.get(k)
    }

    /// The value of key `k`, to be changed in place.
    pub fn get_mut(&mut self, k: &K) -> (r: Option<&mut V>)
        requires
            old(self).wf(),
        ensures
            final(self).wf(),
            final(self).limit_spec() == old(self).limit_spec(),
            final(self).alloc_spec() == old(self).alloc_spec(),
            match r {
                Some(v) => old(self)@.contains_key(*k) && *v == old(self)@[*k] && final(self)@
                    == old(self)@.insert(*k, *final(v)),
                None => !old(self)@.contains_key(*k) && final(self)@ == old(self)@,
            },
    {
        proof {
            K::hashed_by_value();
        }
        value_mut(&mut self.table, k)
    }

    /// Whether the map has key `k`.
    pub fn contains_key(&self, k: &K) -> (b: bool)
        ensures
            b == self@.contains_key(*k),
    {
        proof {
            K::hashed_by_value();
        }
        self.table.contains_key(k)
    }

    /// Maps `k` to `v` and returns the value it replaced. A full map refuses every
    /// insertion, even of a key that it has, with `Full`, and is left unchanged.
    pub fn insert(&mut self, k: K, v: V) -> (r: Result<Option<V>, ContainerError>)
        requires
            old(self).wf(),
        ensures
            final(self).wf(),
            final(self).limit_spec() == old(self).limit_spec(),
            final(self).alloc_spec() == old(self).alloc_spec(),
            match r {
                Ok(prev) => old(self)@.len() < old(self).limit_spec() && final(self)@ == old(
                    self,
                )@.insert(k, v) && match prev {
                    Some(p) => old(self)@.contains_key(k) && p == old(self)@[k],
                    None => !old(self)@.contains_key(k),
                },
                Err(e) => old(self)@.len() >= old(self).limit_spec() && e is Full && final(self)@
                    == old(self)@,
            },
    {
        proof {
            K::hashed_by_value();
        }
        if self.table.len() >= self.limit {
            return Err(ContainerError::Full);
        }
        let prev = self.table.insert(k, v);
        Ok(prev)
    }

    /// Removes key `k` and returns its value.
    pub fn remove(&mut self, k: &K) -> (r: Option<V>)
        requires
            old(self).wf(),
        ensures
            final(self).wf(),
            final(self).limit_spec() == old(self).limit_spec(),
            final(self).alloc_spec() == old(self).alloc_spec(),
            final(self)@ == old(self)@.remove(*k) && match r {
                Some(v) => old(self)@.contains_key(*k) && v == old(self)@[*k],
                None => !old(self)@.contains_key(*k),
            },
    {
        proof {
            K::hashed_by_value();
        }
        self.table.remove(k)
    }

    /// The keys, each once, in the order of the table.
    pub fn keys(&self) -> (r: Vec<&K>)
        ensures
            ({
                &&& r@.len() == self@.len()
                &&& forall|i: int| 0 <= i < r@.len() ==> self@.contains_key(*r@[i])
                &&& forall|k: K| #[trigger]
                    self@.contains_key(k) ==> exists|i: int| 0 <= i < r@.len() && *r@[i] == k
            }),
    {
        proof {
            K::hashed_by_value();
        }
        let pairs = self.iter();
        let mut out: Vec<&K> = Vec::new();
        for i in 0..pairs.len()
            invariant
                out@.len() == i,
                forall|j: int| 0 <= j < i ==> out@[j] == pairs@[j].0,
        {
            out.push(pairs[i].0);
        }
        proof {
            assert forall|k: K| #[trigger] self@.contains_key(k) implies exists|i: int|
                0 <= i < out@.len() && *out@[i] == k by {
                let i = choose|i: int| 0 <= i < pairs@.len() && *pairs@[i].0 == k;
                assert(*out@[i] == k);
            }
        }
        out
    }

    /// The values, one for each key, in the order of the table, to be changed in place:
    /// what is written through a reference becomes the value of its key.
    pub fn values_mut(&mut self) -> (r: Vec<&mut V>)
        ensures
            r@.len() == old(self)@.len(),
            final(self)@.dom() == old(self)@.dom(),
            final(self).limit_spec() == old(self).limit_spec(),
            final(self).alloc_spec() == old(self).alloc_spec(),
            exists|ks: Seq<K>|
                #![trigger ks.len()]
                ks.len() == r@.len() && ks.no_duplicates() && forall|i: int|
                    0 <= i < ks.len() ==> old(self)@.contains_key(#[trigger] ks[i]) && *r@[i]
                        == old(self)@[ks[i]] && final(self)@[ks[i]] == *final(r@[i]),
    {
        proof {
            K::hashed_by_value();
        }
        values_mut_of(&mut self.table)
    }

    /// The entries, each key once with its value to be changed in place, in the order of the
    /// table: what is written through a reference becomes the value of its key.
    pub fn iter_mut(&mut self) -> (r: Vec<(&K, &mut V)>)
        ensures
            r@.len() == old(self)@.len(),
            final(self)@.dom() == old(self)@.dom(),
            final(self).limit_spec() == old(self).limit_spec(),
            final(self).alloc_spec() == old(self).alloc_spec(),
            forall|i: int, j: int| 0 <= i < j < r@.len() ==> *r@[i].0 != *r@[j].0,
            forall|i: int|
                0 <= i < r@.len() ==> old(self)@.contains_key(*r@[i].0) && *r@[i].1 == old(
                    self,
                )@[*r@[i].0] && final(self)@[*r@[i].0] == *final(r@[i].1),
    {
        proof {
            K::hashed_by_value();
        }
        iter_mut_of(&mut self.table)
    }

    /// The values, one for each key, in the order of the table.
    pub fn values(&self) -> (r: Vec<&V>)
        ensures
            ({
                &&& r@.len() == self@.len()
                &&& forall|i: int| 0 <= i < r@.len() ==> self@.values().contains(*r@[i])
                &&& forall|k: K| #[trigger]
                    self@.contains_key(k) ==> exists|i: int|
                        0 <= i < r@.len() && *r@[i] == self@[k]
            }),
    {
        proof {
            K::hashed_by_value();
        }
        let pairs = self.iter();
        let mut out: Vec<&V> = Vec::new();
        for i in 0..pairs.len()
            invariant
                out@.len() == i,
                forall|j: int| 0 <= j < i ==> out@[j] == pairs@[j].1,
        {
            out.push(pairs[i].1);
        }
        proof {
            assert forall|i: int| 0 <= i < out@.len() implies self@.values().contains(
                *out@[i],
            ) by {
                assert(self@.contains_key(*pairs@[i].0));
            }
            assert forall|k: K| #[trigger] self@.contains_key(k) implies exists|i: int|
                0 <= i < out@.len() && *out@[i] == self@[k] by {
                let i = choose|i: int| 0 <= i < pairs@.len() && *pairs@[i].0 == k;
                assert(*out@[i] == self@[k]);
            }
        }
        out
    }
}

impl<K: MapKey + SafeClone, V: Default, A: Allocator + Clone> FixedCapMap<K, V, A> {
    /// The value of key `k`, to be changed in place; where the map lacks `k`, a copy of
    /// `k` is first inserted with the default value, which a full map refuses with `Full`.
    pub fn get_mut_default(&mut self, k: &K) -> (r: Result<&mut V, ContainerError>)
        requires
            old(self).wf(),
        ensures
            final(self).wf(),
            final(self).limit_spec() == old(self).limit_spec(),
            old(self)@.contains_key(*k) ==> (r matches Ok(v) && *v == old(self)@[*k]
                && final(self)@ == old(self)@.insert(*k, *final(v))),
            !old(self)@.contains_key(*k) && old(self)@.len() >= old(self).limit_spec() ==> (r
                matches Err(e) && e is Full && final(self)@ == old(self)@),
            !old(self)@.contains_key(*k) && old(self)@.len() < old(self).limit_spec() ==> match r {
                Ok(v) => call_ensures(V::default, (), *v) && final(self)@ == old(self)@.insert(
                    *k,
                    *final(v),
                ),
                Err(e) => copy_refused(*k, e) && final(self)@ == old(self)@,
            },
            final(self).alloc_spec() == old(self).alloc_spec(),
    {
        proof {
            K::hashed_by_value();
        }
        if !self.table.contains_key(k) {
            if self.table.len() >= self.limit {
                return Err(ContainerError::Full);
            }
            let key = match k.safe_clone() {
                Ok(key) => key,
                Err(e) => {
                    return Err(e);
                },
            };
            proof {
                K::copy_is_same(k, &key);
            }
            let d = V::default();
            let _ = self.table.insert(key, d);
            assert(self.table@.contains_key(*k) && self.table@[*k] == d);
        }
        match value_mut(&mut self.table, k) {
            Some(v) => Ok(v),
            None => Err(ContainerError::Unlikely),
        }
    }
}

impl<K: SafeClone + MapKey, V: SafeClone, A: Allocator + Clone> SafeClone for FixedCapMap<
    K,
    V,
    A,
> {
    /// A map of the same capacity, with a copy of the allocator, the same keys, and a copy
    /// of the value of each.
    open spec fn copy_of(&self, c: &Self) -> bool {
        &&& c.limit_spec() == self.limit_spec()
        &&& self.alloc_spec().copy_of(&c.alloc_spec())
        &&& c@.dom() == self@.dom()
        &&& forall|k: K| #[trigger] self@.contains_key(k) ==> self@[k].copy_of(&c@[k])
    }

    /// A copy of `other`; where making the copy fails, `self` unchanged.
    open spec fn refilled(&self, before: &Self, other: &Self, r: Result<(), ContainerError>) -> bool {
        match r {
            Ok(()) => other.copy_of(self),
            Err(e) => *self == *before && other.clone_failure(e),
        }
    }

    /// A map of the same capacity with a copy of the allocator, into which a copy of each
    /// entry is inserted; the first failure is returned.
    fn safe_clone(&self) -> (r: Result<Self, ContainerError>)
        ensures
            r matches Err(e) ==> self.clone_failure(e),
    {
        proof {
            K::hashed_by_value();
        }
        let alloc = match self.alloc.safe_clone() {
            Ok(a) => a,
            Err(e) => {
                return Err(e);
            },
        };
        let mut ret = match FixedCapMap::new(self.limit, alloc) {
            Ok(m) => m,
            Err(e) => {
                return Err(e);
            },
        };
        let pairs = self.iter();
        let mut i: usize = 0;
        while i < pairs.len()
            invariant
                i <= pairs@.len(),
                pairs@.len() == self@.len(),
                forall|j: int|
                    0 <= j < pairs@.len() ==> self@.contains_key(*pairs@[j].0) && self@[*pairs@[j].0]
                        == *pairs@[j].1,
                ret.wf(),
                ret@.len() <= i,
                ret.limit_spec() == self.limit_spec(),
                self.alloc_spec().copy_of(&ret.alloc_spec()),
                forall|j: int| 0 <= j < i ==> ret@.contains_key(#[trigger] *pairs@[j].0),
                forall|k: K| #[trigger]
                    ret@.contains_key(k) ==> self@.contains_key(k) && self@[k].copy_of(&ret@[k]),
            decreases pairs.len() - i,
        {
            let k = match pairs[i].0.safe_clone() {
                Ok(k) => k,
                Err(e) => {
                    assert(self@.contains_key(*pairs@[i as int].0));
                    return Err(e);
                },
            };
            proof {
                K::copy_is_same(pairs@[i as int].0, &k);
            }
            let v = match pairs[i].1.safe_clone() {
                Ok(v) => v,
                Err(e) => {
                    assert(self@.contains_key(*pairs@[i as int].0));
                    return Err(e);
                },
            };
            match ret.insert(k, v) {
                Ok(_) => {},
                Err(e) => {
                    return Err(e);
                },
            }
            i = i + 1;
        }
        proof {
            assert(ret@.dom() =~= self@.dom()) by {
                assert forall|k: K| #[trigger] self@.contains_key(k) implies ret@.contains_key(k) by {
                    let j = choose|j: int| 0 <= j < pairs@.len() && *pairs@[j].0 == k;
                    assert(ret@.contains_key(*pairs@[j].0));
                }
            }
        }
        Ok(ret)
    }

    /// Makes `self` a copy of `source`; on a failure `self` is unchanged.
    fn safe_clone_from(&mut self, source: &Self) -> (r: Result<(), ContainerError>) {
        match source.safe_clone() {
            Ok(c) => {
                *self = c;
                Ok(())
            },
            Err(e) => Err(e),
        }
    }
}

impl<K: SafeClone + MapKey, V: SafeClone, A: Allocator + Clone> FixedCapMap<K, V, A> {
    /// The failures of `safe_clone`: the copy of the allocator fails; a map of this
    /// capacity cannot be made, its table being too large or refused by the copy of the
    /// allocator; the copy of a key or of a value fails; or the map holds more entries than
    /// its capacity.
    pub open spec fn clone_failure(&self, e: ContainerError) -> bool {
        ||| copy_refused(self.alloc_spec(), e)
        ||| self.limit_spec() > 0 && e == ContainerError::CapacityOverflow
        ||| self.limit_spec() > 0 && e == ContainerError::AllocFailure(
            table_layout::<K, V>(self.limit_spec()),
        ) && exists|a: A|
            self.alloc_spec().copy_of(&a) && #[trigger] block_refused(
                a,
                table_layout::<K, V>(self.limit_spec()),
            )
        ||| exists|k: K|
            #![trigger self@.contains_key(k)]
            self@.contains_key(k) && (copy_refused(k, e) || copy_refused(self@[k], e))
        ||| e == ContainerError::Full && self@.len() > self.limit_spec()
    }
}

impl<K: MapKey, V: PartialEq, A: Allocator + Clone> PartialEq for FixedCapMap<K, V, A> {
    /// Two maps are equal where they were made with the same capacity, hold the same keys,
    /// and the values of each key are equal.
    fn eq(&self, other: &Self) -> (r: bool) {
        proof {
            K::hashed_by_value();
        }
        if self.limit != other.limit || self.len() != other.len() {
            return false;
        }
        let items = self.iter();
        let mut i: usize = 0;
        while i < items.len()
            invariant
                0 <= i <= items@.len(),
                items@.len() == self@.len(),
                forall|j: int|
                    0 <= j < items@.len() ==> self@.contains_key(*items@[j].0) && self@[*items@[j].0]
                        == *items@[j].1,
                forall|k: K| #[trigger]
                    self@.contains_key(k) ==> exists|j: int| 0 <= j < items@.len() && *items@[j].0 == k,
                forall|j: int|
                    0 <= j < i ==> other@.contains_key(*items@[j].0) && (V::obeys_eq_spec()
                        ==> items@[j].1.eq_spec(&other@[*items@[j].0])),
            decreases items@.len() - i,
        {
            let (k, v) = items[i];
            match other.get(k) {
                None => {
                    return false;
                },
                Some(w) => {
                    if !v.eq(w) {
                        return false;
                    }
                },
            }
            i += 1;
        }
        proof {
            assert forall|k: K| #[trigger] self@.contains_key(k) implies other@.contains_key(k) && (
            V::obeys_eq_spec() ==> self@[k].eq_spec(&other@[k])) by {
                let j = choose|j: int| 0 <= j < items@.len() && *items@[j].0 == k;
                assert(other@.contains_key(*items@[j].0));
            }
        }
        true
    }
}

impl<K: MapKey, V: PartialEq, A: Allocator + Clone> PartialEqSpecImpl for FixedCapMap<K, V, A> {
    open spec fn obeys_eq_spec() -> bool {
        V::obeys_eq_spec()
    }

    open spec fn eq_spec(&self, other: &Self) -> bool {
        &&& self.limit_spec() == other.limit_spec()
        &&& self@.len() == other@.len()
        &&& forall|k: K| #[trigger]
            self@.contains_key(k) ==> other@.contains_key(k) && self@[k].eq_spec(&other@[k])
    }
}

/// A map never holds more entries than its capacity, and holds none exactly when it is
/// empty. A map from `new` is `wf`, and every change to it (`insert`, `remove`, `get_mut`,
/// `get_mut_default`, `values_mut`, `iter_mut`, `clear`) keeps it `wf` with the same
/// capacity, so this holds after any sequence of them.
pub proof fn law_len_within_capacity<K: MapKey, V, A: Allocator + Clone>(m: &FixedCapMap<K, V, A>)
    requires
        m.wf(),
    ensures
        m@.len() <= m.limit_spec(),
        (m@.len() == 0) == (m@ == Map::<K, V>::empty()),
{
    assert(m.table@.dom().finite());
    if m@.len() == 0 {
        assert(m@ =~= Map::<K, V>::empty());
    }
}

/// A copy of a map has its capacity and its entries, where the values copy to themselves.
pub proof fn law_copy_same_entries<K: MapKey, V: SafeClone, A: Allocator + Clone>(
    m: &FixedCapMap<K, V, A>,
    c: &FixedCapMap<K, V, A>,
)
    requires
        m.copy_of(c),
        forall|a: V, b: V| #[trigger] a.copy_of(&b) ==> a == b,
    ensures
        c.limit_spec() == m.limit_spec(),
        c@ == m@,
{
    assert(c@ =~= m@) by {
        assert forall|k: K| #[trigger] m@.contains_key(k) implies c@[k] == m@[k] by {
            assert(m@[k].copy_of(&c@[k]));
        }
    }
}

/// What an insertion wrote, a lookup reads back: after `insert(k, v)` succeeded the map
/// has `k`, with `v`, and every other key as before.
pub proof fn law_insert_then_get<K, V>(before: Map<K, V>, after: Map<K, V>, k: K, v: V, other: K)
    requires
        after == before.insert(k, v),
        other != k,
    ensures
        after.contains_key(k),
        after[k] == v,
        after.contains_key(other) == before.contains_key(other),
        before.contains_key(other) ==> after[other] == before[other],
{
}

/// After `remove(k)` the map lacks `k`, and every other key is as before.
pub proof fn law_remove_then_absent<K, V>(before: Map<K, V>, after: Map<K, V>, k: K, other: K)
    requires
        after == before.remove(k),
        other != k,
    ensures
        !after.contains_key(k),
        after.contains_key(other) == before.contains_key(other),
        before.contains_key(other) ==> after[other] == before[other],
{
}

} // verus!
