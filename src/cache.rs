use vstd::prelude::*;

verus! {

pub struct CacheEntry<V> {
    pub key: String,
    pub value: V,
    /// Insertion time, in the caller's clock units.
    pub inserted_at: u64,
}

/// The latest entry of `s` under key `k`.
pub open spec fn found<V>(s: Seq<CacheEntry<V>>, k: Seq<char>) -> Option<CacheEntry<V>>
    decreases s.len(),
{
    if s.len() == 0 {
        None
    } else if s.last().key@ == k {
        Some(s.last())
    } else {
        found(s.drop_last(), k)
    }
}

/// An entry inserted at `t` is still fresh at `now` when less than `ttl` has passed.
pub open spec fn is_live(t: u64, now: u64, ttl: u64) -> bool {
    now < t + ttl
}

/// What a lookup of `k` at `now` returns: the entry's value if it is fresh.
pub open spec fn live_value<V>(s: Seq<CacheEntry<V>>, k: Seq<char>, now: u64, ttl: u64) -> Option<V> {
    match found(s, k) {
        Some(e) => if is_live(e.inserted_at, now, ttl) {
            Some(e.value)
        } else {
            None
        },
        None => None,
    }
}

proof fn lemma_found_remove_other<V>(s: Seq<CacheEntry<V>>, i: int, k: Seq<char>)
    requires
        0 <= i < s.len(),
        s[i].key@ != k,
    ensures
        found(s.remove(i), k) == found(s, k),
    decreases s.len(),
{
    if i == s.len() - 1 {
        assert(s.remove(i) =~= s.drop_last());
    } else {
        let r = s.remove(i);
        assert(r.last() == s.last());
        assert(r.drop_last() =~= s.drop_last().remove(i));
        lemma_found_remove_other(s.drop_last(), i, k);
    }
}

proof fn lemma_found_remove_first<V>(s: Seq<CacheEntry<V>>, k: Seq<char>)
    requires
        s.len() > 0,
    ensures
        found(s.remove(0), k) is None || found(s.remove(0), k) == found(s, k),
    decreases s.len(),
{
    if s.len() == 1 {
        assert(s.remove(0) =~= Seq::<CacheEntry<V>>::empty());
    } else {
        let r = s.remove(0);
        assert(r.last() == s.last());
        assert(r.drop_last() =~= s.drop_last().remove(0));
        lemma_found_remove_first(s.drop_last(), k);
    }
}

/// A map from string keys to values with a time-to-live and a capacity.
/// Entries are kept in insertion order; when the cache is full the oldest
/// insertion is evicted.
pub struct TtlCache<V> {
    entries: Vec<CacheEntry<V>>,
    ttl: u64,
    capacity: usize,
}

impl<V> TtlCache<V> {
    pub closed spec fn items(&self) -> Seq<CacheEntry<V>> {
        self.entries@
    }

    pub closed spec fn ttl_spec(&self) -> u64 {
        self.ttl
    }

    pub closed spec fn capacity_spec(&self) -> usize {
        self.capacity
    }

    pub open spec fn wf(&self) -> bool {
        0 < self.capacity_spec() && self.items().len() <= self.capacity_spec()
    }

    /// What `get(k, now)` returns.
    pub open spec fn lookup(&self, k: Seq<char>, now: u64) -> Option<V> {
        live_value(self.items(), k, now, self.ttl_spec())
    }

    pub fn new(ttl: u64, capacity: usize) -> (r: TtlCache<V>)
        requires
            capacity > 0,
        ensures
            r.wf(),
            r.items().len() == 0,
            r.ttl_spec() == ttl,
            r.capacity_spec() == capacity,
    {
        TtlCache { entries: Vec::new(), ttl, capacity }
    }

    pub fn len(&self) -> (r: usize)
        ensures
            r == self.items().len(),
    {
        self.entries.len()
    }

    pub fn capacity(&self) -> (r: usize)
        ensures
            r == self.capacity_spec(),
    {
        self.capacity
    }

    pub fn ttl(&self) -> (r: u64)
        ensures
            r == self.ttl_spec(),
    {
        self.ttl
    }

    /// Index of the latest entry under `key`.
    fn position(&self, key: &String) -> (r: Option<usize>)
        ensures
            match r {
                Some(i) => i < self.items().len() && self.items()[i as int].key@ == key@ && found(
                    self.items(),
                    key@,
                ) == Some(self.items()[i as int]),
                None => found(self.items(), key@) is None,
            },
    {
        let ghost s = self.entries@;
        let mut i: usize = self.entries.len();
        assert(s.take(i as int) =~= s);
        while i > 0
            invariant
                i <= s.len(),
                s == self.entries@,
                found(s, key@) == found(s.take(i as int), key@),
            decreases i,
        {
            assert(s.take(i as int).drop_last() =~= s.take(i - 1));
            if self.entries[i - 1].key == *key {
                return Some(i - 1);
            }
            i = i - 1;
        }
        None
    }

    /// The fresh value under `key` at time `now`, if any.
    pub fn get(&self, key: &String, now: u64) -> (r: Option<&V>)
        ensures
            r is Some == self.lookup(key@, now) is Some,
            r is Some ==> *r->0 == self.lookup(key@, now)->0,
    {
        match self.position(key) {
            Some(i) => {
                let e = &self.entries[i];
                if (now as u128) < (e.inserted_at as u128) + (self.ttl as u128) {
                    Some(&e.value)
                } else {
                    None
                }
            },
            None => None,
        }
    }

    /// Inserts `value` under `key` at time `now`, replacing an older entry
    /// under that key and evicting the oldest insertion when full. Other
    /// keys keep their entries, unless evicted.
    pub fn put(&mut self, key: String, value: V, now: u64)
        requires
            old(self).wf(),
        ensures
            final(self).wf(),
            final(self).ttl_spec() == old(self).ttl_spec(),
            final(self).capacity_spec() == old(self).capacity_spec(),
            found(final(self).items(), key@) == Some(CacheEntry { key, value, inserted_at: now }),
            forall|k: Seq<char>|
                k != key@ ==> found(final(self).items(), k) is None || found(final(self).items(), k)
                    == found(old(self).items(), k),
    {
        let ghost s0 = self.entries@;
        match self.position(&key) {
            Some(i) => {
                proof {
                    assert forall|k: Seq<char>| k != key@ implies found(s0.remove(i as int), k) == found(s0, k) by {
                        lemma_found_remove_other(s0, i as int, k);
                    }
                }
                self.entries.remove(i);
            },
            None => {},
        }
        let ghost s1 = self.entries@;
        if self.entries.len() >= self.capacity {
            proof {
                assert forall|k: Seq<char>| found(s1.remove(0), k) is None || found(s1.remove(0), k) == found(s1, k) by {
                    lemma_found_remove_first(s1, k);
                }
            }
            self.entries.remove(0);
        }
        let ghost s2 = self.entries@;
        let e = CacheEntry { key, value, inserted_at: now };
        self.entries.push(e);
        proof {
            assert(self.entries@.drop_last() =~= s2);
        }
    }
}

} // verus!
