//! A lazily filled memoization map: each key's value is computed by an owned
//! producer on the first lookup of that key and served from the cache afterwards.
use std::collections::HashMap;
use std::hash::Hash;
use vstd::prelude::*;
use vstd::std_specs::hash::obeys_key_model;
use vstd::std_specs::iter::IteratorSpec;

verus! {

broadcast use {
    vstd::std_specs::hash::group_hash_axioms,
    vstd::function::group_function_axioms,
    vstd::seq_lib::lemma_seq_contains_after_push,
};

/// Relies on `HashMap::get_mut`: a handle to the value stored under `k`, or `None`
/// when `k` has no entry; writes through the handle land in that entry.
#[verifier::external_body]
fn map_get_mut<'a, 'b, K: Hash + Eq, V>(m: &'b mut HashMap<&'a K, V>, k: &'a K) -> (r: Option<
    &'b mut V,
>)
    requires
        obeys_key_model::<&'a K>(),
    ensures
        match r {
            Some(v) => old(m)@.contains_key(k) && *v == old(m)@[k] && final(m)@ == old(m)@.insert(
                k,
                *final(v),
            ),
            None => !old(m)@.contains_key(k) && final(m)@ == old(m)@,
        },
{
    m.get_mut(&k)
}

/// Relies on `HashMap::capacity`: the number of entries the table can hold
/// without reallocating. It depends on the allocator, so nothing is stated.
#[verifier::external_body]
fn map_capacity<'a, K, V>(m: &HashMap<&'a K, V>) -> (r: usize) {
    m.capacity()
}

/// Relies on `HashMap::shrink_to_fit`: it releases spare capacity and keeps every entry.
#[verifier::external_body]
fn map_shrink_to_fit<'a, K: Hash + Eq, V>(m: &mut HashMap<&'a K, V>)
    ensures
        final(m)@ == old(m)@,
{
    m.shrink_to_fit()
}

/// A map from borrowed keys to values that fills itself on demand.
///
/// The first `get` or `get_mut` of a key calls the producer once with that key
/// and stores the result; later lookups of the key return the stored value and
/// never call the producer again, until `clear` empties the cache.
#[verifier::reject_recursive_types(K)]
#[verifier::reject_recursive_types(V)]
#[verifier::reject_recursive_types(F)]
pub struct MemoMap<'a, K, V, F> where K: Ord + Hash + 'a, F: FnMut(&'a K) -> V {
    values: HashMap<&'a K, V>,
    func: F,
    /// Keys passed to `get` / `get_mut` since construction or the last `clear`.
    requested: Ghost<Seq<&'a K>>,
    /// Keys with which the producer has been called, in order, since construction.
    produced: Ghost<Seq<&'a K>>,
}

impl<'a, K, V, F> MemoMap<'a, K, V, F> where K: Ord + Hash + 'a, F: FnMut(&'a K) -> V {
    /// The cached entries.
    pub closed spec fn view(&self) -> Map<&'a K, V> {
        self.values@
    }

    /// The producer owned by the map.
    pub closed spec fn producer(&self) -> F {
        self.func
    }

    /// Keys passed to `get` / `get_mut` since construction or the last `clear`.
    pub closed spec fn requested(&self) -> Seq<&'a K> {
        self.requested@
    }

    /// Every key the producer has been called with, in call order.
    pub closed spec fn calls(&self) -> Seq<&'a K> {
        self.produced@
    }

    /// The cache holds exactly the keys requested since the last reset.
    pub closed spec fn cache_matches_requests(&self) -> bool {
        forall|k: &'a K| #[trigger] self.values@.contains_key(k) <==> self.requested@.contains(k)
    }

    /// `f` may be called with any key.
    pub open spec fn accepts_every_key(f: F) -> bool {
        forall|k: &'a K| call_requires(f, (k,))
    }

    /// Well-formedness: keys hash and compare consistently, the producer accepts
    /// every key, and the cache holds exactly the requested keys.
    pub open spec fn wf(&self) -> bool {
        &&& obeys_key_model::<&'a K>()
        &&& Self::accepts_every_key(self.producer())
        &&& self.cache_matches_requests()
    }

    /// An empty map that owns `func`.
    pub fn new(func: F) -> (r: Self)
        requires
            obeys_key_model::<&'a K>(),
            Self::accepts_every_key(func),
        ensures
            r.wf(),
            r@ == Map::<&'a K, V>::empty(),
            r.producer() == func,
            r.requested() == Seq::<&'a K>::empty(),
            r.calls() == Seq::<&'a K>::empty(),
    {
        MemoMap {
            values: HashMap::new(),
            func,
            requested: Ghost(Seq::empty()),
            produced: Ghost(Seq::empty()),
        }
    }

    /// An empty map that owns `func`, with room for `capacity` entries.
    pub fn with_capacity(capacity: usize, func: F) -> (r: Self)
        requires
            obeys_key_model::<&'a K>(),
            Self::accepts_every_key(func),
        ensures
            r.wf(),
            r@ == Map::<&'a K, V>::empty(),
            r.producer() == func,
            r.requested() == Seq::<&'a K>::empty(),
            r.calls() == Seq::<&'a K>::empty(),
    {
        MemoMap {
            values: HashMap::with_capacity(capacity),
            func,
            requested: Ghost(Seq::empty()),
            produced: Ghost(Seq::empty()),
        }
    }

    /// Stores the producer's value for `key` unless `key` is already cached.
    fn fill(&mut self, key: &'a K)
        requires
            old(self).wf(),
        ensures
            final(self).wf(),
            final(self).producer() == old(self).producer(),
            final(self)@.contains_key(key),
            final(self)@ == old(self)@.insert(key, final(self)@[key]),
            final(self).requested() == old(self).requested().push(key),
            old(self)@.contains_key(key) ==> final(self)@ == old(self)@ && final(self).calls()
                == old(self).calls(),
            !old(self)@.contains_key(key) ==> call_ensures(
                old(self).producer(),
                (key,),
                final(self)@[key],
            ) && final(self).calls() == old(self).calls().push(key),
    {
        if !self.values.contains_key(&key) {
            assert(call_requires(self.producer(), (key,)));
            let value = (self.func)(key);
            self.values.insert(key, value);
            self.produced = Ghost(self.produced@.push(key));
        }
        self.requested = Ghost(self.requested@.push(key));
        assert(self.values@ =~= old(self).values@.insert(key, self.values@[key]));
    }

    /// What one `get` of `key` does: from `pre` it reaches `post` and yields `v`.
    /// A cached key yields its stored value and leaves everything but the
    /// request log alone; an uncached key calls the producer once and caches
    /// what it returned.
    pub open spec fn lookup(pre: Self, key: &'a K, post: Self, v: V) -> bool {
        &&& post.wf()
        &&& post.producer() == pre.producer()
        &&& post.requested() == pre.requested().push(key)
        &&& post@ == pre@.insert(key, v)
        &&& pre@.contains_key(key) ==> v == pre@[key] && post.calls() == pre.calls()
        &&& !pre@.contains_key(key) ==> call_ensures(pre.producer(), (key,), v) && post.calls()
            == pre.calls().push(key)
    }

    /// What `clear` does: `post` is `pre` with nothing cached and the request
    /// log reset.
    pub open spec fn cleared(pre: Self, post: Self) -> bool {
        &&& post.wf()
        &&& post@ == Map::<&'a K, V>::empty()
        &&& post.producer() == pre.producer()
        &&& post.requested() == Seq::<&'a K>::empty()
        &&& post.calls() == pre.calls()
    }

    /// The value cached for `key`, computed by the producer first when `key` is
    /// not cached yet.
    pub fn get(&mut self, key: &'a K) -> (r: &V)
        requires
            old(self).wf(),
        ensures
            Self::lookup(*old(self), key, *final(self), *r),
    {
        self.fill(key);
        self.values.get(&key).unwrap()
    }

    /// Like `get`, but hands out a mutable handle to the cached value.
    pub fn get_mut(&mut self, key: &'a K) -> (r: &mut V)
        requires
            old(self).wf(),
        ensures
            final(self).wf(),
            final(self).producer() == old(self).producer(),
            final(self).requested() == old(self).requested().push(key),
            final(self)@ == old(self)@.insert(key, *final(r)),
            old(self)@.contains_key(key) ==> *r == old(self)@[key] && final(self).calls()
                == old(self).calls(),
            !old(self)@.contains_key(key) ==> call_ensures(old(self).producer(), (key,), *r)
                && final(self).calls() == old(self).calls().push(key),
    {
        self.fill(key);
        map_get_mut(&mut self.values, key).unwrap()
    }

    /// The cached value for `key`, if any; never calls the producer.
    pub fn try_get(&self, key: &'a K) -> (r: Option<&V>)
        requires
            self.wf(),
        ensures
            match r {
                Some(v) => self@.contains_key(key) && *v == self@[key],
                None => !self@.contains_key(key),
            },
    {
        self.values.get(&key)
    }

    /// A mutable handle to the cached value for `key`, if any; never calls the producer.
    pub fn try_get_mut(&mut self, key: &'a K) -> (r: Option<&mut V>)
        requires
            old(self).wf(),
        ensures
            final(self).wf(),
            final(self).producer() == old(self).producer(),
            final(self).requested() == old(self).requested(),
            final(self).calls() == old(self).calls(),
            match r {
                Some(v) => old(self)@.contains_key(key) && *v == old(self)@[key] && final(self)@
                    == old(self)@.insert(key, *final(v)),
                None => !old(self)@.contains_key(key) && final(self)@ == old(self)@,
            },
    {
        map_get_mut(&mut self.values, key)
    }

    /// Whether `key` has a cached value; never calls the producer.
    pub fn contains_key(&mut self, key: &'a K) -> (r: bool)
        requires
            old(self).wf(),
        ensures
            *final(self) == *old(self),
            r == old(self)@.contains_key(key),
    {
        self.values.contains_key(&key)
    }

    /// The number of cached entries.
    pub fn len(&self) -> (r: usize)
        requires
            self.wf(),
        ensures
            r == self@.len(),
            r == self.requested().to_set().len(),
    {
        proof {
            assert(self.requested@.to_set() =~= self.values@.dom());
        }
        self.values.len()
    }

    /// Whether nothing is cached.
    pub fn is_empty(&self) -> (r: bool)
        requires
            self.wf(),
        ensures
            r == (self@.len() == 0),
    {
        self.values.is_empty()
    }

    /// Drops every cached entry; the producer stays and serves later misses.
    pub fn clear(&mut self)
        requires
            old(self).wf(),
        ensures
            Self::cleared(*old(self), *final(self)),
    {
        self.values.clear();
        self.requested = Ghost(Seq::empty());
    }

    /// How many entries the backing table holds without reallocating.
    pub fn capacity(&self) -> (r: usize) {
        map_capacity(&self.values)
    }

    /// Makes room for at least `additional` more entries; the cached entries stay.
    pub fn reserve(&mut self, additional: usize)
        requires
            old(self).wf(),
        ensures
            final(self).wf(),
            final(self)@ == old(self)@,
            final(self).producer() == old(self).producer(),
            final(self).requested() == old(self).requested(),
            final(self).calls() == old(self).calls(),
    {
        self.values.reserve(additional);
    }

    /// Releases spare capacity of the backing table; the cached entries stay.
    pub fn shrink_to_fit(&mut self)
        requires
            old(self).wf(),
        ensures
            final(self).wf(),
            final(self)@ == old(self)@,
            final(self).producer() == old(self).producer(),
            final(self).requested() == old(self).requested(),
            final(self).calls() == old(self).calls(),
    {
        map_shrink_to_fit(&mut self.values);
    }

    /// Every cached entry as a `(key, value)` pair, each key once, in no
    /// particular order.
    pub fn iter(&self) -> (r: Vec<(&'a K, &V)>)
        requires
            self.wf(),
        ensures
            r@.len() == self@.len(),
            forall|i: int|
                0 <= i < r@.len() ==> self@.contains_key(#[trigger] r@[i].0) && self@[r@[i].0]
                    == *r@[i].1,
            forall|k: &'a K| #[trigger]
                self@.contains_key(k) ==> exists|i: int| 0 <= i < r@.len() && r@[i].0 == k,
            forall|i: int, j: int| 0 <= i < j < r@.len() ==> r@[i].0 != r@[j].0,
    {
        let mut r: Vec<(&'a K, &V)> = Vec::new();
        for kv in it: self.values.iter()
            invariant
                it.seq() == self.values.iter().remaining(),
                r@.len() == it.index(),
                forall|i: int|
                    0 <= i < it.index() ==> (#[trigger] r@[i]).0 == *it.seq()[i].0 && r@[i].1
                        == it.seq()[i].1,
        {
            r.push((*kv.0, kv.1));
        }
        proof {
            let entries = self.values.iter().remaining();
            assert forall|k: &'a K| #[trigger] self@.contains_key(k) implies exists|i: int|
                0 <= i < r@.len() && r@[i].0 == k by {
                assert(entries.contains((&k, &self.values@[k])));
                let i = choose|i: int|
                    0 <= i < entries.len() && entries[i] == (&k, &self.values@[k]);
                assert(r@[i].0 == k);
            }
            assert forall|i: int, j: int| 0 <= i < j < r@.len() implies r@[i].0 != r@[j].0 by {
                if r@[i].0 == r@[j].0 {
                    assert(self.values@[*entries[i].0] == *entries[i].1);
                    assert(self.values@[*entries[j].0] == *entries[j].1);
                    assert(entries[i] == entries[j]);
                }
            }
        }
        r
    }

    /// Every cached key once, in no particular order.
    pub fn keys(&self) -> (r: Vec<&'a K>)
        requires
            self.wf(),
        ensures
            r@.len() == self@.len(),
            r@.no_duplicates(),
            forall|k: &'a K| self@.contains_key(k) <==> #[trigger] r@.contains(k),
    {
        let mut r: Vec<&'a K> = Vec::new();
        for k in it: self.values.keys()
            invariant
                it.seq() == self.values.keys().remaining(),
                r@.len() == it.index(),
                forall|i: int| 0 <= i < it.index() ==> #[trigger] r@[i] == *it.seq()[i],
        {
            r.push(*k);
        }
        proof {
            let ks = self.values.keys().remaining();
            assert(r@ =~= ks.unref());
            assert forall|k: &'a K| self@.contains_key(k) <==> #[trigger] r@.contains(k) by {
                assert(ks.unref().to_set().contains(k) <==> self.values@.dom().contains(k));
            }
        }
        r
    }

    /// Every cached value once per entry, in no particular order: there is a
    /// listing of the cached keys, each once, whose values these are.
    pub fn values(&self) -> (r: Vec<&V>)
        requires
            self.wf(),
        ensures
            r@.len() == self@.len(),
            exists|ks: Seq<&'a K>|
                {
                    &&& ks.len() == r@.len()
                    &&& ks.no_duplicates()
                    &&& forall|k: &'a K| self@.contains_key(k) <==> #[trigger] ks.contains(k)
                    &&& forall|i: int| 0 <= i < ks.len() ==> self@[ks[i]] == *r@[i]
                },
    {
        let entries = self.iter();
        let mut r: Vec<&V> = Vec::new();
        let mut n: usize = 0;
        while n < entries.len()
            invariant
                n <= entries@.len(),
                r@.len() == n,
                forall|i: int| 0 <= i < n ==> #[trigger] r@[i] == entries@[i].1,
            decreases entries@.len() - n,
        {
            r.push(entries[n].1);
            n = n + 1;
        }
        proof {
            let ks = entries@.map_values(|e: (&'a K, &V)| e.0);
            assert forall|k: &'a K| self@.contains_key(k) <==> #[trigger] ks.contains(k) by {
                if self@.contains_key(k) {
                    let i = choose|i: int| 0 <= i < entries@.len() && entries@[i].0 == k;
                    assert(ks[i] == k);
                }
            }
            assert forall|i: int| 0 <= i < ks.len() implies self@[ks[i]] == *r@[i] by {
                assert(self@.contains_key(entries@[i].0));
            }
        }
        r
    }
}

/// A key is cached exactly when it was passed to `get` or `get_mut` since the
/// map was built or last cleared; so a key never looked up is not cached and
/// `try_get` finds nothing for it.
pub proof fn lemma_cached_iff_requested<'a, K, V, F>(m: MemoMap<'a, K, V, F>, k: &'a K)
    where K: Ord + Hash + 'a, F: FnMut(&'a K) -> V
    requires
        m.wf(),
    ensures
        m@.contains_key(k) <==> m.requested().contains(k),
{
    assert(m.cache_matches_requests());
}

/// After a lookup of `k` the key is cached, under the value the lookup gave.
pub proof fn lemma_lookup_caches<'a, K, V, F>(
    a: MemoMap<'a, K, V, F>,
    k: &'a K,
    b: MemoMap<'a, K, V, F>,
    v: V,
)
    where K: Ord + Hash + 'a, F: FnMut(&'a K) -> V
    requires
        MemoMap::lookup(a, k, b, v),
    ensures
        b@.contains_key(k),
        b@[k] == v,
{
}

/// Looking up the same key twice gives the same value, and the second lookup
/// neither calls the producer nor changes what is cached.
pub proof fn lemma_lookup_twice<'a, K, V, F>(
    a: MemoMap<'a, K, V, F>,
    k: &'a K,
    b: MemoMap<'a, K, V, F>,
    v: V,
    c: MemoMap<'a, K, V, F>,
    w: V,
)
    where K: Ord + Hash + 'a, F: FnMut(&'a K) -> V
    requires
        MemoMap::lookup(a, k, b, v),
        MemoMap::lookup(b, k, c, w),
    ensures
        w == v,
        c@ == b@,
        c.calls() == b.calls(),
{
}

/// After `clear` nothing is cached, and a lookup of a key that was cached
/// before calls the producer again with that key.
pub proof fn lemma_clear_then_lookup<'a, K, V, F>(
    a: MemoMap<'a, K, V, F>,
    b: MemoMap<'a, K, V, F>,
    k: &'a K,
    c: MemoMap<'a, K, V, F>,
    v: V,
)
    where K: Ord + Hash + 'a, F: FnMut(&'a K) -> V
    requires
        a@.contains_key(k),
        MemoMap::cleared(a, b),
        MemoMap::lookup(b, k, c, v),
    ensures
        b@.len() == 0,
        !b@.contains_key(k),
        c.calls() == a.calls().push(k),
        call_ensures(a.producer(), (k,), v),
{
}

} // verus!
