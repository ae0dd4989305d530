//! The 64-bit FNV-1a hash, and the hash map and hash set that are built on it.
//!
//! The collections hold few and short keys (process ids and package names), for which the
//! hash is cheap to compute. Their views are a `Map` and a `Set`.
use std::hash::Hasher;

use vstd::prelude::*;

use crate::text;

verus! {

/// The state of an empty FNV-1a hash.
pub const FNV_OFFSET_BASIS_64: u64 = 0xcbf29ce484222325;

/// The factor that FNV-1a multiplies by.
pub const FNV_PRIME_64: u64 = 0x100000001b3;

/// A 64-bit FNV-1a hasher.
#[derive(Debug, Clone)]
pub struct FnvHasher(u64);

/// The state `h` after one step on `x`.
pub open spec fn fnv_step(h: u64, x: u64) -> u64 {
    (h ^ x).wrapping_mul(FNV_PRIME_64)
}

/// The state `h` after a step on each of the `bytes`.
pub open spec fn fnv_bytes(h: u64, bytes: Seq<u8>) -> u64
    decreases bytes.len(),
{
    if bytes.len() == 0 {
        h
    } else {
        fnv_step(fnv_bytes(h, bytes.drop_last()), bytes.last() as u64)
    }
}

impl View for FnvHasher {
    type V = u64;

    closed spec fn view(&self) -> u64 {
        self.0
    }
}

impl Default for FnvHasher {
    fn default() -> (h: Self)
        ensures
            h@ == FNV_OFFSET_BASIS_64,
    {
        FnvHasher(FNV_OFFSET_BASIS_64)
    }
}

impl Hasher for FnvHasher {
    /// The hash of what was written.
    fn finish(&self) -> (h: u64)
        ensures
            h == self@,
    {
        self.0
    }

    /// Hashes the bytes, one step each.
    fn write(&mut self, bytes: &[u8])
        ensures
            final(self)@ == fnv_bytes(old(self)@, bytes@),
    {
        let mut h: u64 = self.0;
        let mut i: usize = 0;
        assert(bytes@.take(0) =~= Seq::<u8>::empty());
        while i < bytes.len()
            invariant
                i <= bytes@.len(),
                h == fnv_bytes(self@, bytes@.take(i as int)),
            decreases bytes@.len() - i,
        {
            assert(bytes@.take(i + 1).drop_last() =~= bytes@.take(i as int));
            h = (h ^ (bytes[i] as u64)).wrapping_mul(FNV_PRIME_64);
            i = i + 1;
        }
        assert(bytes@.take(bytes@.len() as int) =~= bytes@);
        self.0 = h;
    }

    /// Hashes the number in one step.
    fn write_u32(&mut self, i: u32)
        ensures
            final(self)@ == fnv_step(old(self)@, i as u64),
    {
        self.0 = (self.0 ^ (i as u64)).wrapping_mul(FNV_PRIME_64);
    }

    /// Hashes the number in one step.
    fn write_u64(&mut self, i: u64)
        ensures
            final(self)@ == fnv_step(old(self)@, i),
    {
        self.0 = (self.0 ^ i).wrapping_mul(FNV_PRIME_64);
    }

    /// Hashes the number in one step.
    fn write_usize(&mut self, i: usize)
        ensures
            final(self)@ == fnv_step(old(self)@, i as u64),
    {
        self.0 = (self.0 ^ (i as u64)).wrapping_mul(FNV_PRIME_64);
    }
}

/// To write two strings of bytes one behind the other is to write them as one.
pub proof fn law_write_in_pieces(h: u64, a: Seq<u8>, b: Seq<u8>)
    ensures
        fnv_bytes(fnv_bytes(h, a), b) == fnv_bytes(h, a + b),
    decreases b.len(),
{
    if b.len() == 0 {
        assert(a + b =~= a);
    } else {
        assert((a + b).drop_last() =~= a + b.drop_last());
        law_write_in_pieces(h, a, b.drop_last());
    }
}

/// A key of the hash collections: it is looked up by a borrowed form of itself, hashed with
/// [`FnvHasher`], and told apart by its model.
pub trait FastKey: Sized {
    /// The borrowed form.
    type Query: ?Sized;

    /// What the key stands for.
    type Model;

    spec fn model(&self) -> Self::Model;

    spec fn query_model(query: &Self::Query) -> Self::Model;

    spec fn hash_of(model: Self::Model) -> u64;

    fn hash_query(query: &Self::Query) -> (h: u64)
        ensures
            h == Self::hash_of(Self::query_model(query)),
    ;

    fn query(&self) -> (q: &Self::Query)
        ensures
            Self::query_model(q) == self.model(),
    ;

    fn is_key(&self, query: &Self::Query) -> (yes: bool)
        ensures
            yes == (self.model() == Self::query_model(query)),
    ;
}

impl FastKey for u32 {
    type Query = u32;

    type Model = u32;

    open spec fn model(&self) -> u32 {
        *self
    }

    open spec fn query_model(query: &u32) -> u32 {
        *query
    }

    open spec fn hash_of(model: u32) -> u64 {
        fnv_step(FNV_OFFSET_BASIS_64, model as u64)
    }

    fn hash_query(query: &u32) -> (h: u64) {
        let mut hasher = FnvHasher::default();
        hasher.write_u32(*query);
        hasher.finish()
    }

    fn query(&self) -> (q: &u32) {
        self
    }

    fn is_key(&self, query: &u32) -> (yes: bool) {
        *self == *query
    }
}

impl FastKey for String {
    type Query = str;

    type Model = Seq<char>;

    open spec fn model(&self) -> Seq<char> {
        self@
    }

    open spec fn query_model(query: &str) -> Seq<char> {
        query@
    }

    open spec fn hash_of(model: Seq<char>) -> u64 {
        fnv_bytes(FNV_OFFSET_BASIS_64, vstd::utf8::encode_utf8(model))
    }

    fn hash_query(query: &str) -> (h: u64) {
        let mut hasher = FnvHasher::default();
        hasher.write(query.as_bytes());
        hasher.finish()
    }

    fn query(&self) -> (q: &str) {
        self.as_str()
    }

    fn is_key(&self, query: &str) -> (yes: bool) {
        text::same(self.as_str(), query)
    }
}

/// The bucket of `model` among `n`.
spec fn home<K: FastKey>(model: K::Model, n: nat) -> int {
    K::hash_of(model) as int % n as int
}

/// The slots in the buckets point to the keys that belong there, each key has a slot, and no
/// bucket holds a slot twice.
spec fn indexed<K: FastKey>(keys: Seq<K::Model>, buckets: Seq<Vec<usize>>) -> bool {
    &&& forall|b: int, t: int|
        #![trigger buckets[b]@[t]]
        0 <= b < buckets.len() && 0 <= t < buckets[b]@.len() ==> {
            &&& buckets[b]@[t] < keys.len()
            &&& home::<K>(keys[buckets[b]@[t] as int], buckets.len()) == b
        }
    &&& forall|b: int| 0 <= b < buckets.len() ==> (#[trigger] buckets[b])@.no_duplicates()
    &&& forall|i: int|
        0 <= i < keys.len() ==> {
            &&& buckets.len() > 0
            &&& buckets[home::<K>(#[trigger] keys[i], buckets.len())]@.contains(i as usize)
        }
    &&& keys.len() <= usize::MAX
}

/// A hash map. Its view is the `Map` from the models of the keys to the values.
///
/// The entries stand in one vector, in an order that [`FastMap::keys`] names; the buckets hold
/// their indices.
pub struct FastMap<K: FastKey, V> {
    entries: Vec<(K, V)>,
    buckets: Vec<Vec<usize>>,
}

impl<K: FastKey, V> FastMap<K, V> {
    /// The models of the keys, in the order of the entries.
    pub closed spec fn keys(&self) -> Seq<K::Model> {
        Seq::new(self.entries@.len(), |i: int| self.entries@[i].0.model())
    }

    /// No key occurs twice, and the buckets lead to every entry.
    pub closed spec fn wf(&self) -> bool {
        &&& self.keys().no_duplicates()
        &&& indexed::<K>(self.keys(), self.buckets@)
    }

    spec fn index_of(&self, model: K::Model) -> int {
        choose|i: int| 0 <= i < self.keys().len() && self.keys()[i] == model
    }
}

impl<K: FastKey, V> View for FastMap<K, V> {
    type V = Map<K::Model, V>;

    closed spec fn view(&self) -> Map<K::Model, V> {
        Map::new(
            |model: K::Model| self.keys().contains(model),
            |model: K::Model| self.entries@[self.index_of(model)].1,
        )
    }
}

impl<K: FastKey, V> FastMap<K, V> {
    /// The keys are listed without repetition, and they are the domain of the view.
    pub proof fn lemma_keys(&self)
        requires
            self.wf(),
        ensures
            self.keys().no_duplicates(),
            forall|m: K::Model| self.keys().contains(m) <==> #[trigger] self@.dom().contains(m),
            forall|i: int|
                0 <= i < self.keys().len() ==> self@.dom().contains(#[trigger] self.keys()[i]),
            self@.dom().finite(),
            self@.dom().len() == self.keys().len(),
    {
        assert(self@.dom() =~= self.keys().to_set());
        self.keys().unique_seq_to_set();
        vstd::seq_lib::seq_to_set_is_finite(self.keys());
    }

    proof fn lemma_entry(&self, i: int)
        requires
            self.wf(),
            0 <= i < self.keys().len(),
        ensures
            self@.dom().contains(self.keys()[i]),
            self@[self.keys()[i]] == self.entries@[i].1,
    {
        let m = self.keys()[i];
        assert(self.keys().contains(m));
        let j = self.index_of(m);
        assert(0 <= j < self.keys().len() && self.keys()[j] == m);
        assert(i == j);
    }

    /// An empty map.
    pub fn new() -> (map: Self)
        ensures
            map.wf(),
            map@ == Map::<K::Model, V>::empty(),
            map.keys().len() == 0,
    {
        let map = FastMap { entries: Vec::new(), buckets: Vec::new() };
        assert(map@ =~= Map::<K::Model, V>::empty());
        map
    }

    /// Number of entries.
    pub fn len(&self) -> (n: usize)
        requires
            self.wf(),
        ensures
            n == self@.dom().len(),
            n == self.keys().len(),
    {
        proof {
            self.lemma_keys();
        }
        self.entries.len()
    }

    /// Whether there is no entry.
    pub fn is_empty(&self) -> (yes: bool)
        requires
            self.wf(),
        ensures
            yes == (self@.dom().len() == 0),
            yes == (self@ == Map::<K::Model, V>::empty()),
    {
        proof {
            self.lemma_keys();
            if self.keys().len() == 0 {
                assert(self@ =~= Map::<K::Model, V>::empty());
            } else {
                assert(self@.dom().contains(self.keys()[0]));
            }
        }
        self.entries.len() == 0
    }

    /// Index of the entry with this key.
    fn find(&self, query: &K::Query) -> (at: Option<usize>)
        requires
            self.wf(),
        ensures
            match at {
                Some(i) => {
                    &&& i < self.keys().len()
                    &&& self.keys()[i as int] == K::query_model(query)
                    &&& self@.dom().contains(K::query_model(query))
                    &&& self@[K::query_model(query)] == self.entries@[i as int].1
                },
                None => !self@.dom().contains(K::query_model(query)),
            },
    {
        let ghost m = K::query_model(query);
        if self.buckets.len() == 0 {
            return None;
        }
        let b: usize = (K::hash_query(query) % (self.buckets.len() as u64)) as usize;
        let mut t: usize = 0;
        while t < self.buckets[b].len()
            invariant
                self.wf(),
                m == K::query_model(query),
                b < self.buckets@.len(),
                b == home::<K>(m, self.buckets@.len()),
                t <= self.buckets@[b as int]@.len(),
                forall|u: int|
                    0 <= u < t ==> self.keys()[#[trigger] self.buckets@[b as int]@[u] as int] != m,
            decreases self.buckets@[b as int]@.len() - t,
        {
            let i: usize = self.buckets[b][t];
            assert(self.buckets@[b as int]@[t as int] == i);
            if self.entries[i].0.is_key(query) {
                proof {
                    self.lemma_entry(i as int);
                }
                return Some(i);
            }
            t = t + 1;
        }
        proof {
            if self.keys().contains(m) {
                let i = self.index_of(m);
                assert(self.keys()[i] == m);
                assert(self.buckets@[b as int]@.contains(i as usize));
                let u = choose|u: int|
                    0 <= u < self.buckets@[b as int]@.len() && self.buckets@[b as int]@[u]
                        == i as usize;
                assert(self.keys()[self.buckets@[b as int]@[u] as int] != m);
            }
        }
        None
    }

    /// Whether the key is there.
    pub fn contains_key(&self, query: &K::Query) -> (yes: bool)
        requires
            self.wf(),
        ensures
            yes == self@.dom().contains(K::query_model(query)),
    {
        self.find(query).is_some()
    }

    /// The value of the key.
    pub fn get(&self, query: &K::Query) -> (r: Option<&V>)
        requires
            self.wf(),
        ensures
            match r {
                Some(v) => self@.dom().contains(K::query_model(query)) && *v
                    == self@[K::query_model(query)],
                None => !self@.dom().contains(K::query_model(query)),
            },
    {
        match self.find(query) {
            Some(i) => Some(&self.entries[i].1),
            None => None,
        }
    }

    /// The key at an index of the order of the entries.
    pub fn key_at(&self, i: usize) -> (key: &K)
        requires
            self.wf(),
            i < self.keys().len(),
        ensures
            key.model() == self.keys()[i as int],
            self@.dom().contains(key.model()),
    {
        proof {
            self.lemma_entry(i as int);
        }
        &self.entries[i].0
    }

    /// The value at an index of the order of the entries.
    pub fn value_at(&self, i: usize) -> (value: &V)
        requires
            self.wf(),
            i < self.keys().len(),
        ensures
            *value == self@[self.keys()[i as int]],
    {
        proof {
            self.lemma_entry(i as int);
        }
        &self.entries[i].1
    }
}

/// A new key at the end of the keys, with a slot at the end of its bucket.
proof fn lemma_indexed_push<K: FastKey>(
    keys: Seq<K::Model>,
    before: Seq<Vec<usize>>,
    after: Seq<Vec<usize>>,
    m: K::Model,
)
    requires
        indexed::<K>(keys, before),
        keys.len() < usize::MAX,
        before.len() > 0,
        after.len() == before.len(),
        forall|b: int|
            0 <= b < before.len() && b != home::<K>(m, before.len()) ==> #[trigger] after[b]
                == before[b],
        after[home::<K>(m, before.len())]@ == before[home::<K>(m, before.len())]@.push(
            keys.len() as usize,
        ),
    ensures
        indexed::<K>(keys.push(m), after),
{
    let h = home::<K>(m, before.len());
    let more = keys.push(m);
    assert forall|b: int, t: int|
        #![trigger after[b]@[t]]
        0 <= b < after.len() && 0 <= t < after[b]@.len() implies {
        &&& after[b]@[t] < more.len()
        &&& home::<K>(more[after[b]@[t] as int], after.len()) == b
    } by {
        if b != h || t < before[b]@.len() {
            assert(after[b]@[t] == before[b]@[t]);
        }
    }
    assert forall|b: int| 0 <= b < after.len() implies (#[trigger] after[b])@.no_duplicates() by {
        if b == h {
            let old_slots = before[b]@;
            assert(old_slots.no_duplicates());
            assert forall|t: int, u: int|
                0 <= t < u < after[b]@.len() implies after[b]@[t] != after[b]@[u] by {
                assert(before[b]@[t] < keys.len());
            }
        }
    }
    assert forall|i: int| 0 <= i < more.len() implies {
        &&& after.len() > 0
        &&& after[home::<K>(#[trigger] more[i], after.len())]@.contains(i as usize)
    } by {
        let b = home::<K>(more[i], after.len());
        if i == keys.len() {
            assert(after[h]@[after[h]@.len() - 1] == i as usize);
        } else {
            assert(more[i] == keys[i]);
            assert(before[b]@.contains(i as usize));
            let t = choose|t: int| 0 <= t < before[b]@.len() && before[b]@[t] == i as usize;
            assert(after[b]@[t] == i as usize);
        }
    }
}

impl<K: FastKey, V> FastMap<K, V> {
    proof fn lemma_updated(&self, before: &Self, i: int, value: V)
        requires
            before.wf(),
            self.wf(),
            0 <= i < before.keys().len(),
            self.keys() == before.keys(),
            self.entries@[i].1 == value,
            forall|j: int|
                0 <= j < before.keys().len() && j != i ==> (#[trigger] self.entries@[j]).1
                    == before.entries@[j].1,
        ensures
            self@ == before@.insert(before.keys()[i], value),
    {
        let m = before.keys()[i];
        assert forall|k: K::Model| self@.dom().contains(k) == before@.insert(m, value).dom().contains(
            k,
        ) by {
            before.lemma_entry(i);
        }
        assert forall|k: K::Model| self@.dom().contains(k) implies self@[k] == before@.insert(
            m,
            value,
        )[k] by {
            let j = before.index_of(k);
            assert(self.keys().contains(k));
            assert(before.keys()[j] == k);
            self.lemma_entry(j);
            before.lemma_entry(j);
        }
        assert(self@ =~= before@.insert(m, value));
    }

    /// Replaces the value at an index of the order of the entries, which stays as it is.
    pub fn set_at(&mut self, i: usize, value: V)
        requires
            old(self).wf(),
            i < old(self).keys().len(),
        ensures
            final(self).wf(),
            final(self).keys() == old(self).keys(),
            final(self)@ == old(self)@.insert(old(self).keys()[i as int], value),
    {
        self.entries[i].1 = value;
        proof {
            assert(self.keys() =~= old(self).keys());
            self.lemma_updated(old(self), i as int, value);
        }
    }

    /// The value of the key, to be changed in place.
    pub fn get_mut(&mut self, query: &K::Query) -> (r: Option<&mut V>)
        requires
            old(self).wf(),
        ensures
            match r {
                Some(v) => {
                    &&& old(self)@.dom().contains(K::query_model(query))
                    &&& *v == old(self)@[K::query_model(query)]
                    &&& final(self).wf()
                    &&& final(self).keys() == old(self).keys()
                    &&& final(self)@ == old(self)@.insert(K::query_model(query), *final(v))
                },
                None => !old(self)@.dom().contains(K::query_model(query)) && *final(self) == *old(
                    self,
                ),
            },
    {
        match self.find(query) {
            Some(i) => {
                let value = &mut self.entries[i].1;
                proof {
                    let after = *after_borrow(self);
                    assert(after.keys() =~= old(self).keys());
                    after.lemma_updated(old(self), i as int, *final(value));
                }
                Some(value)
            },
            None => None,
        }
    }

    /// Spreads the entries over more buckets.
    fn grow(&mut self)
        requires
            old(self).wf(),
        ensures
            final(self).wf(),
            final(self).entries == old(self).entries,
            final(self).buckets@.len() > 0,
    {
        let n: usize = self.buckets.len();
        let wanted: usize = if n == 0 {
            8
        } else if n <= usize::MAX / 2 {
            n * 2
        } else {
            n
        };
        let mut buckets: Vec<Vec<usize>> = Vec::new();
        while buckets.len() < wanted
            invariant
                buckets@.len() <= wanted,
                forall|b: int| 0 <= b < buckets@.len() ==> (#[trigger] buckets@[b])@.len() == 0,
            decreases wanted - buckets@.len(),
        {
            buckets.push(Vec::new());
        }
        let mut i: usize = 0;
        let ghost keys = self.keys();
        while i < self.entries.len()
            invariant
                i <= self.entries@.len(),
                keys == self.keys(),
                keys.len() == self.entries@.len(),
                buckets@.len() == wanted,
                wanted > 0,
                indexed::<K>(keys.take(i as int), buckets@),
            decreases self.entries@.len() - i,
        {
            let ghost before = buckets@;
            let ghost m = keys[i as int];
            let b: usize = (K::hash_query(self.entries[i].0.query()) % (wanted as u64)) as usize;
            assert(b == home::<K>(m, before.len()));
            buckets[b].push(i);
            proof {
                lemma_indexed_push::<K>(keys.take(i as int), before, buckets@, m);
                assert(keys.take(i as int).push(m) =~= keys.take(i + 1));
            }
            i = i + 1;
        }
        assert(keys.take(keys.len() as int) =~= keys);
        self.buckets = buckets;
        assert(self.keys() =~= keys);
    }

    /// Sets the value of the key. Returns the value that it replaces.
    pub fn insert(&mut self, key: K, value: V) -> (replaced: Option<V>)
        requires
            old(self).wf(),
        ensures
            final(self).wf(),
            final(self)@ == old(self)@.insert(key.model(), value),
            replaced == if old(self)@.dom().contains(key.model()) {
                Some(old(self)@[key.model()])
            } else {
                None
            },
            final(self).keys() == if old(self)@.dom().contains(key.model()) {
                old(self).keys()
            } else {
                old(self).keys().push(key.model())
            },
    {
        match self.find(key.query()) {
            Some(i) => {
                let mut value = value;
                std::mem::swap(&mut self.entries[i].1, &mut value);
                proof {
                    assert(self.keys() =~= old(self).keys());
                    self.lemma_updated(old(self), i as int, self.entries@[i as int].1);
                }
                Some(value)
            },
            None => {
                let ghost m = key.model();
                if self.entries.len() >= self.buckets.len() {
                    self.grow();
                }
                let ghost mid = *self;
                assert(mid.keys() =~= old(self).keys());
                let b: usize = (K::hash_query(key.query()) % (self.buckets.len() as u64)) as usize;
                let slot: usize = self.entries.len();
                self.entries.push((key, value));
                self.buckets[b].push(slot);
                let total: usize = self.entries.len();
                proof {
                    assert(total == slot + 1);
                    assert(self.keys() =~= mid.keys().push(m));
                    assert(!mid.keys().contains(m)) by {
                        old(self).lemma_keys();
                    }
                    lemma_indexed_push::<K>(mid.keys(), mid.buckets@, self.buckets@, m);
                    assert(self.keys().no_duplicates());
                    assert forall|k: K::Model| self@.dom().contains(k) implies self@[k] == old(
                        self,
                    )@.insert(m, value)[k] by {
                        let j = self.index_of(k);
                        assert(self.keys().contains(k));
                        assert(self.keys()[j] == k);
                        self.lemma_entry(j);
                        if j < mid.keys().len() {
                            assert(old(self).keys()[j] == k);
                            old(self).lemma_entry(j);
                        }
                    }
                    assert forall|k: K::Model| old(self)@.insert(m, value).dom().contains(k)
                        == self@.dom().contains(k) by {
                        if old(self).keys().contains(k) {
                            let j = old(self).index_of(k);
                            assert(old(self).keys()[j] == k);
                            assert(self.keys()[j] == k);
                        }
                        if k == m {
                            assert(self.keys()[mid.keys().len() as int] == m);
                        }
                        if self.keys().contains(k) {
                            let j = self.index_of(k);
                            assert(self.keys()[j] == k);
                            if j < mid.keys().len() {
                                assert(old(self).keys()[j] == k);
                            }
                        }
                    }
                    assert(self@ =~= old(self)@.insert(m, value));
                }
                None
            },
        }
    }
}

/// As [`indexed`], but the key at `gone` has no slot.
spec fn indexed_without<K: FastKey>(
    keys: Seq<K::Model>,
    buckets: Seq<Vec<usize>>,
    gone: int,
) -> bool {
    &&& forall|b: int, t: int|
        #![trigger buckets[b]@[t]]
        0 <= b < buckets.len() && 0 <= t < buckets[b]@.len() ==> {
            &&& buckets[b]@[t] < keys.len()
            &&& buckets[b]@[t] != gone
            &&& home::<K>(keys[buckets[b]@[t] as int], buckets.len()) == b
        }
    &&& forall|b: int| 0 <= b < buckets.len() ==> (#[trigger] buckets[b])@.no_duplicates()
    &&& forall|i: int|
        0 <= i < keys.len() && i != gone ==> {
            &&& buckets.len() > 0
            &&& buckets[home::<K>(#[trigger] keys[i], buckets.len())]@.contains(i as usize)
        }
    &&& keys.len() <= usize::MAX
}

/// The slot of `gone` leaves its bucket; the last slot of the bucket takes its place.
proof fn lemma_slot_dropped<K: FastKey>(
    keys: Seq<K::Model>,
    before: Seq<Vec<usize>>,
    after: Seq<Vec<usize>>,
    gone: int,
    at: int,
)
    requires
        indexed::<K>(keys, before),
        0 <= gone < keys.len(),
        after.len() == before.len(),
        ({
            let h = home::<K>(keys[gone], before.len());
            &&& 0 <= at < before[h]@.len()
            &&& before[h]@[at] == gone
            &&& after[h]@ == before[h]@.update(at, before[h]@.last()).drop_last()
            &&& forall|b: int| 0 <= b < before.len() && b != h ==> #[trigger] after[b] == before[b]
        }),
    ensures
        indexed_without::<K>(keys, after, gone),
{
    let h = home::<K>(keys[gone], before.len());
    let old_slots = before[h]@;
    assert(old_slots.no_duplicates());
    assert forall|b: int, t: int|
        #![trigger after[b]@[t]]
        0 <= b < after.len() && 0 <= t < after[b]@.len() implies {
        &&& after[b]@[t] < keys.len()
        &&& after[b]@[t] != gone
        &&& home::<K>(keys[after[b]@[t] as int], after.len()) == b
    } by {
        let u = if b == h && t == at {
            old_slots.len() - 1
        } else {
            t
        };
        assert(after[b]@[t] == before[b]@[u]);
        if b == h {
            assert(u != at);
        }
    }
    assert forall|b: int| 0 <= b < after.len() implies (#[trigger] after[b])@.no_duplicates() by {
        assert(before[b]@.no_duplicates());
        if b == h {
            assert forall|t: int, u: int|
                0 <= t < u < after[b]@.len() implies after[b]@[t] != after[b]@[u] by {
                assert(old_slots[t] != old_slots[u]);
                assert(old_slots[t] != old_slots.last());
                assert(old_slots[u] != old_slots.last());
            }
        }
    }
    assert forall|i: int| 0 <= i < keys.len() && i != gone implies {
        &&& after.len() > 0
        &&& after[home::<K>(#[trigger] keys[i], after.len())]@.contains(i as usize)
    } by {
        let b = home::<K>(keys[i], after.len());
        assert(before[b]@.contains(i as usize));
        let t = choose|t: int| 0 <= t < before[b]@.len() && before[b]@[t] == i as usize;
        if b == h && t == old_slots.len() - 1 {
            assert(after[b]@[at] == i as usize);
        } else {
            assert(after[b]@[t] == i as usize);
        }
    }
}

/// The last key moves to the place of the one without a slot, and its slot follows.
proof fn lemma_slot_moved<K: FastKey>(
    keys: Seq<K::Model>,
    before: Seq<Vec<usize>>,
    after: Seq<Vec<usize>>,
    gone: int,
    at: int,
)
    requires
        indexed_without::<K>(keys, before, gone),
        0 <= gone < keys.len(),
        after.len() == before.len(),
        gone == keys.len() - 1 ==> after == before,
        gone < keys.len() - 1 ==> {
            let h = home::<K>(keys.last(), before.len());
            &&& 0 <= at < before[h]@.len()
            &&& before[h]@[at] == keys.len() - 1
            &&& after[h]@ == before[h]@.update(at, gone as usize)
            &&& forall|b: int| 0 <= b < before.len() && b != h ==> #[trigger] after[b] == before[b]
        },
    ensures
        indexed::<K>(keys.update(gone, keys.last()).drop_last(), after),
{
    let fewer = keys.update(gone, keys.last()).drop_last();
    let last = keys.len() - 1;
    let h = home::<K>(keys.last(), before.len());
    assert(fewer.len() > 0 ==> after.len() > 0) by {
        if fewer.len() > 0 {
            let other: int = if gone == 0 {
                1
            } else {
                0
            };
            assert(before[home::<K>(keys[other], before.len())]@.contains(other as usize));
        }
    }
    assert forall|b: int, t: int|
        #![trigger after[b]@[t]]
        0 <= b < after.len() && 0 <= t < after[b]@.len() implies {
        &&& after[b]@[t] < fewer.len()
        &&& home::<K>(fewer[after[b]@[t] as int], after.len()) == b
    } by {
        if gone < last && b == h && t == at {
            assert(after[b]@[t] == gone);
        } else {
            assert(after[b]@[t] == before[b]@[t]);
            let i = before[b]@[t] as int;
            if i == last {
                assert(gone < last);
                assert(b == h);
                assert(before[h]@.no_duplicates());
                assert(before[h]@[t] == before[h]@[at]);
            }
        }
    }
    assert forall|b: int| 0 <= b < after.len() implies (#[trigger] after[b])@.no_duplicates() by {
        assert(before[b]@.no_duplicates());
        if gone < last && b == h {
            assert forall|t: int, u: int|
                0 <= t < u < after[b]@.len() implies after[b]@[t] != after[b]@[u] by {
                assert(before[b]@[t] != before[b]@[u]);
                assert(before[b]@[t] != gone);
                assert(before[b]@[u] != gone);
            }
        }
    }
    assert forall|i: int| 0 <= i < fewer.len() implies {
        &&& after.len() > 0
        &&& after[home::<K>(#[trigger] fewer[i], after.len())]@.contains(i as usize)
    } by {
        if i == gone {
            assert(fewer[i] == keys[last]);
            assert(after[h]@[at] == gone as usize);
        } else {
            assert(fewer[i] == keys[i]);
            let b = home::<K>(keys[i], before.len());
            assert(before[b]@.contains(i as usize));
            let t = choose|t: int| 0 <= t < before[b]@.len() && before[b]@[t] == i as usize;
            assert(after[b]@[t] == i as usize);
        }
    }
}

/// Index of `slot` in `bucket`.
fn slot_position(bucket: &Vec<usize>, slot: usize) -> (at: usize)
    requires
        bucket@.contains(slot),
    ensures
        at < bucket@.len(),
        bucket@[at as int] == slot,
{
    let mut t: usize = 0;
    while t < bucket.len()
        invariant
            t <= bucket@.len(),
            bucket@.contains(slot),
            forall|u: int| 0 <= u < t ==> bucket@[u] != slot,
        decreases bucket@.len() - t,
    {
        if bucket[t] == slot {
            return t;
        }
        t = t + 1;
    }
    t
}

impl<K: FastKey, V> FastMap<K, V> {
    /// Takes the entry at an index of the order of the entries out. The last entry moves to its
    /// place.
    pub fn remove_at(&mut self, i: usize) -> (removed: (K, V))
        requires
            old(self).wf(),
            i < old(self).keys().len(),
        ensures
            final(self).wf(),
            removed.0.model() == old(self).keys()[i as int],
            removed.1 == old(self)@[old(self).keys()[i as int]],
            final(self)@ == old(self)@.remove(old(self).keys()[i as int]),
            final(self).keys() == old(self).keys().update(
                i as int,
                old(self).keys().last(),
            ).drop_last(),
    {
        let ghost keys = self.keys();
        let n: usize = self.buckets.len();
        let last: usize = self.entries.len() - 1;
        assert(self.buckets@[home::<K>(keys[i as int], n as nat)]@.contains(i));
        let b: usize = (K::hash_query(self.entries[i].0.query()) % (n as u64)) as usize;
        let at: usize = slot_position(&self.buckets[b], i);
        self.buckets[b].swap_remove(at);
        let ghost mid = self.buckets@;
        proof {
            lemma_slot_dropped::<K>(keys, old(self).buckets@, mid, i as int, at as int);
        }
        let mut moved_from: usize = 0;
        if i != last {
            assert(mid[home::<K>(keys[last as int], n as nat)]@.contains(last));
            let c: usize = (K::hash_query(self.entries[last].0.query()) % (n as u64)) as usize;
            moved_from = slot_position(&self.buckets[c], last);
            self.buckets[c][moved_from] = i;
        }
        proof {
            lemma_slot_moved::<K>(keys, mid, self.buckets@, i as int, moved_from as int);
            old(self).lemma_entry(i as int);
        }
        let removed = self.entries.swap_remove(i);
        proof {
            let fewer = keys.update(i as int, keys.last()).drop_last();
            assert(self.keys() =~= fewer);
            assert(self.keys().no_duplicates());
            let m = keys[i as int];
            assert forall|k: K::Model| self@.dom().contains(k) == old(self)@.remove(
                m,
            ).dom().contains(k) by {
                if self.keys().contains(k) {
                    let j = self.index_of(k);
                    assert(fewer[j] == k);
                    let j0 = if j == i {
                        last as int
                    } else {
                        j
                    };
                    assert(keys[j0] == k);
                }
                if keys.contains(k) && k != m {
                    let j = old(self).index_of(k);
                    assert(keys[j] == k);
                    let j1 = if j == last {
                        i as int
                    } else {
                        j
                    };
                    assert(fewer[j1] == k);
                }
            }
            assert forall|k: K::Model| self@.dom().contains(k) implies self@[k] == old(
                self,
            )@.remove(m)[k] by {
                let j = self.index_of(k);
                assert(self.keys().contains(k));
                assert(fewer[j] == k);
                self.lemma_entry(j);
                let j0 = if j == i {
                    last as int
                } else {
                    j
                };
                old(self).lemma_entry(j0);
            }
            assert(self@ =~= old(self)@.remove(m));
        }
        removed
    }

    /// Takes the entry of the key out. Returns its value.
    pub fn remove(&mut self, query: &K::Query) -> (removed: Option<V>)
        requires
            old(self).wf(),
        ensures
            final(self).wf(),
            final(self)@ == old(self)@.remove(K::query_model(query)),
            removed == if old(self)@.dom().contains(K::query_model(query)) {
                Some(old(self)@[K::query_model(query)])
            } else {
                None
            },
    {
        match self.find(query) {
            Some(i) => Some(self.remove_at(i).1),
            None => {
                assert(self@ =~= self@.remove(K::query_model(query)));
                None
            },
        }
    }

    /// Takes every entry out.
    pub fn clear(&mut self)
        ensures
            final(self).wf(),
            final(self)@ == Map::<K::Model, V>::empty(),
            final(self).keys().len() == 0,
    {
        self.entries.clear();
        self.buckets.clear();
        assert(self@ =~= Map::<K::Model, V>::empty());
    }
}

impl<K: FastKey, V> Default for FastMap<K, V> {
    fn default() -> (map: Self)
        ensures
            map.wf(),
            map@ == Map::<K::Model, V>::empty(),
    {
        FastMap::new()
    }
}

/// A hash set. Its view is the `Set` of the models of its members.
pub struct FastSet<T: FastKey> {
    members: FastMap<T, ()>,
}

impl<T: FastKey> View for FastSet<T> {
    type V = Set<T::Model>;

    closed spec fn view(&self) -> Set<T::Model> {
        self.members@.dom()
    }
}

impl<T: FastKey> FastSet<T> {
    /// The models of the members, in the order in which the set lists them.
    pub closed spec fn listed(&self) -> Seq<T::Model> {
        self.members.keys()
    }

    /// No member occurs twice, and the buckets lead to every member.
    pub closed spec fn wf(&self) -> bool {
        self.members.wf()
    }

    /// The members are listed without repetition.
    pub proof fn lemma_listed(&self)
        requires
            self.wf(),
        ensures
            self.listed().no_duplicates(),
            forall|m: T::Model| self.listed().contains(m) <==> #[trigger] self@.contains(m),
            forall|i: int|
                0 <= i < self.listed().len() ==> self@.contains(#[trigger] self.listed()[i]),
            self@.finite(),
            self@.len() == self.listed().len(),
    {
        self.members.lemma_keys();
    }

    /// An empty set.
    pub fn new() -> (set: Self)
        ensures
            set.wf(),
            set@ == Set::<T::Model>::empty(),
    {
        let set = FastSet { members: FastMap::new() };
        assert(set@ =~= Set::<T::Model>::empty());
        set
    }

    /// Number of members.
    pub fn len(&self) -> (n: usize)
        requires
            self.wf(),
        ensures
            n == self@.len(),
            n == self.listed().len(),
    {
        self.members.len()
    }

    /// Whether there is no member.
    pub fn is_empty(&self) -> (yes: bool)
        requires
            self.wf(),
        ensures
            yes == (self@ == Set::<T::Model>::empty()),
            yes == (self@.len() == 0),
    {
        proof {
            self.lemma_listed();
            if self.listed().len() > 0 {
                assert(self@.contains(self.listed()[0]));
            } else {
                assert(self@ =~= Set::<T::Model>::empty());
            }
        }
        self.members.is_empty()
    }

    /// Whether this is a member.
    pub fn contains(&self, query: &T::Query) -> (yes: bool)
        requires
            self.wf(),
        ensures
            yes == self@.contains(T::query_model(query)),
    {
        self.members.contains_key(query)
    }

    /// The member at an index of the order in which the set lists them.
    pub fn member_at(&self, i: usize) -> (member: &T)
        requires
            self.wf(),
            i < self.listed().len(),
        ensures
            member.model() == self.listed()[i as int],
            self@.contains(member.model()),
    {
        self.members.key_at(i)
    }

    /// Adds a member. Returns whether it is new.
    pub fn insert(&mut self, member: T) -> (new: bool)
        requires
            old(self).wf(),
        ensures
            final(self).wf(),
            final(self)@ == old(self)@.insert(member.model()),
            new == !old(self)@.contains(member.model()),
    {
        let ghost m = member.model();
        let new = self.members.insert(member, ()).is_none();
        assert(self@ =~= old(self)@.insert(m));
        new
    }

    /// Takes a member out. Returns whether it was there.
    pub fn remove(&mut self, query: &T::Query) -> (found: bool)
        requires
            old(self).wf(),
        ensures
            final(self).wf(),
            final(self)@ == old(self)@.remove(T::query_model(query)),
            found == old(self)@.contains(T::query_model(query)),
    {
        let found = self.members.remove(query).is_some();
        assert(self@ =~= old(self)@.remove(T::query_model(query)));
        found
    }

    /// Takes every member out.
    pub fn clear(&mut self)
        ensures
            final(self).wf(),
            final(self)@ == Set::<T::Model>::empty(),
    {
        self.members.clear();
        assert(self@ =~= Set::<T::Model>::empty());
    }
}

impl<T: FastKey> Default for FastSet<T> {
    fn default() -> (set: Self)
        ensures
            set.wf(),
            set@ == Set::<T::Model>::empty(),
    {
        FastSet::new()
    }
}

/// Each byte is taken into the state with an exclusive or, which is then multiplied by the prime of FNV-1a,
/// modulo 2^64. An empty text has the offset basis.
pub proof fn law_bytes_are_hashed_one_by_one(h: u64, bytes: Seq<u8>, b: u8)
    ensures
        fnv_bytes(h, bytes.push(b)) == (fnv_bytes(h, bytes) ^ (b as u64)) as int * 0x100000001b3
            % 0x1_0000_0000_0000_0000,
        fnv_bytes(h, Seq::empty()) == h,
        FNV_OFFSET_BASIS_64 == 0xcbf29ce484222325,
{
    assert(bytes.push(b).drop_last() =~= bytes);
    let x = fnv_bytes(h, bytes) ^ (b as u64);
    assert(x.wrapping_mul(FNV_PRIME_64) == (x * FNV_PRIME_64) % 0x1_0000_0000_0000_0000);
}

} // verus!
