//! The TTL-bounded response cache.
//!
//! A cache maps a normalized query key to the serialized winning answer and
//! the time it was recorded. The time-to-live is one process-wide bound: an
//! entry is served while `now - inserted < ttl` and is lazily dropped the
//! first time it is looked up at or past that bound. The cache never reads a
//! clock of its own: every call is handed the current time as a plain value,
//! so the expiry rule is part of the contracts.

use vstd::prelude::*;

use crate::msg::{copy_bytes, key_eq, QueryKey};

verus! {

/// A stored answer: key, winning bytes, and the time they were recorded.
pub struct CacheEntry {
    pub key: QueryKey,
    pub bytes: Vec<u8>,
    pub inserted_at: u64,
}

/// Whether an entry recorded at `t` is still alive at `now` under `ttl`.
pub open spec fn fresh_at(t: u64, now: u64, ttl: u64) -> bool {
    t <= now && now - t < ttl
}

/// The map held by a sequence of entries; a later entry wins a repeated key,
/// though a well-formed cache never holds one.
pub open spec fn entries_model(s: Seq<CacheEntry>) -> Map<(Seq<u8>, u16, u16), (Seq<u8>, u64)>
    decreases s.len(),
{
    if s.len() == 0 {
        Map::empty()
    } else {
        entries_model(s.drop_last()).insert(
            s.last().key@,
            (s.last().bytes@, s.last().inserted_at),
        )
    }
}

/// No key occurs twice.
pub open spec fn distinct_keys(s: Seq<CacheEntry>) -> bool {
    forall|i: int, j: int| 0 <= i < j < s.len() ==> s[i].key@ != s[j].key@
}

/// A key held by some entry is in the model, with that entry's value.
proof fn lemma_model_index(s: Seq<CacheEntry>, i: int)
    requires
        distinct_keys(s),
        0 <= i < s.len(),
    ensures
        entries_model(s).contains_key(s[i].key@),
        entries_model(s)[s[i].key@] == (s[i].bytes@, s[i].inserted_at),
    decreases s.len(),
{
    if i == s.len() - 1 {
    } else {
        assert(distinct_keys(s.drop_last()));
        lemma_model_index(s.drop_last(), i);
        assert(s[i].key@ != s.last().key@);
    }
}

/// A key held by no entry is not in the model.
proof fn lemma_model_absent(s: Seq<CacheEntry>, k: (Seq<u8>, u16, u16))
    requires
        forall|i: int| 0 <= i < s.len() ==> s[i].key@ != k,
    ensures
        !entries_model(s).contains_key(k),
    decreases s.len(),
{
    if s.len() > 0 {
        lemma_model_absent(s.drop_last(), k);
    }
}

/// Removing the entry at `i` removes exactly its key from the model.
proof fn lemma_model_remove(s: Seq<CacheEntry>, i: int)
    requires
        distinct_keys(s),
        0 <= i < s.len(),
    ensures
        entries_model(s.remove(i)) == entries_model(s).remove(s[i].key@),
    decreases s.len(),
{
    if i == s.len() - 1 {
        assert(s.remove(i) =~= s.drop_last());
        assert(forall|j: int| 0 <= j < s.drop_last().len() ==> s.drop_last()[j].key@ != s[i].key@);
        lemma_model_absent(s.drop_last(), s[i].key@);
        assert(entries_model(s).remove(s[i].key@) =~= entries_model(s.drop_last()));
    } else {
        assert(distinct_keys(s.drop_last()));
        lemma_model_remove(s.drop_last(), i);
        assert(s.remove(i).drop_last() =~= s.drop_last().remove(i));
        assert(s.remove(i).last() == s.last());
        assert(s[i].key@ != s.last().key@);
        assert(entries_model(s.remove(i)) == entries_model(s.drop_last().remove(i)).insert(
            s.last().key@,
            (s.last().bytes@, s.last().inserted_at),
        ));
        assert(entries_model(s).remove(s[i].key@) =~= entries_model(s.drop_last()).remove(
            s[i].key@,
        ).insert(s.last().key@, (s.last().bytes@, s.last().inserted_at)));
    }
}

/// Overwriting the entry at `i` with one of the same key updates exactly
/// that key's value in the model.
proof fn lemma_model_update(s: Seq<CacheEntry>, i: int, e: CacheEntry)
    requires
        distinct_keys(s),
        0 <= i < s.len(),
        e.key@ == s[i].key@,
    ensures
        entries_model(s.update(i, e)) == entries_model(s).insert(e.key@, (e.bytes@, e.inserted_at)),
    decreases s.len(),
{
    if i == s.len() - 1 {
        assert(s.update(i, e).drop_last() =~= s.drop_last());
        assert(s.update(i, e).last() == e);
        assert(entries_model(s.update(i, e)) =~= entries_model(s).insert(
            e.key@,
            (e.bytes@, e.inserted_at),
        ));
    } else {
        assert(distinct_keys(s.drop_last()));
        lemma_model_update(s.drop_last(), i, e);
        assert(s.update(i, e).drop_last() =~= s.drop_last().update(i, e));
        assert(s.update(i, e).last() == s.last());
        assert(e.key@ != s.last().key@);
        assert(entries_model(s.update(i, e)) == entries_model(s.drop_last().update(i, e)).insert(
            s.last().key@,
            (s.last().bytes@, s.last().inserted_at),
        ));
        assert(entries_model(s).insert(e.key@, (e.bytes@, e.inserted_at)) =~= entries_model(
            s.drop_last(),
        ).insert(e.key@, (e.bytes@, e.inserted_at)).insert(
            s.last().key@,
            (s.last().bytes@, s.last().inserted_at),
        ));
    }
}

/// The response cache: the last winning answer per key, each valid for one
/// process-wide time-to-live.
pub struct ResponseCache {
    entries: Vec<CacheEntry>,
    ttl: u64,
}

impl ResponseCache {
    /// The time-to-live the cache was created with.
    pub closed spec fn ttl(self) -> u64 {
        self.ttl
    }

    /// The abstract content: key to (bytes, insertion time).
    pub closed spec fn model(self) -> Map<(Seq<u8>, u16, u16), (Seq<u8>, u64)> {
        entries_model(self.entries@)
    }

    /// Well-formed: no key is held twice.
    pub closed spec fn wf(self) -> bool {
        distinct_keys(self.entries@)
    }

    /// What a lookup at `now` serves for key `k`: the stored bytes while the
    /// entry is alive, nothing otherwise.
    pub open spec fn served(self, k: (Seq<u8>, u16, u16), now: u64) -> Option<Seq<u8>> {
        if self.model().contains_key(k) && fresh_at(self.model()[k].1, now, self.ttl()) {
            Some(self.model()[k].0)
        } else {
            None
        }
    }

    /// An empty cache with the given time-to-live.
    pub fn new(ttl: u64) -> (c: ResponseCache)
        ensures
            c.wf(),
            c.ttl() == ttl,
            c.model() == Map::<(Seq<u8>, u16, u16), (Seq<u8>, u64)>::empty(),
    {
        ResponseCache { entries: Vec::new(), ttl }
    }

    /// The index of the entry holding `k`, if any.
    fn find(&self, k: &QueryKey) -> (r: Option<usize>)
        ensures
            match r {
                Option::Some(i) => i < self.entries@.len() && self.entries@[i as int].key@ == k@,
                Option::None => forall|i: int| 0 <= i < self.entries@.len()
                    ==> self.entries@[i].key@ != k@,
            },
    {
        let n = self.entries.len();
        let mut i: usize = 0;
        while i < n
            invariant
                0 <= i <= n == self.entries@.len(),
                forall|j: int| 0 <= j < i ==> self.entries@[j].key@ != k@,
            decreases n - i,
        {
            if key_eq(&self.entries[i].key, k) {
                return Some(i);
            }
            i = i + 1;
        }
        None
    }

    /// Looks `k` up at time `now`: returns the stored bytes while the entry
    /// is alive, and drops the entry on the way out once it has expired.
    pub fn get(&mut self, k: &QueryKey, now: u64) -> (r: Option<Vec<u8>>)
        requires
            old(self).wf(),
        ensures
            final(self).wf(),
            final(self).ttl() == old(self).ttl(),
            match r {
                Option::Some(b) => old(self).served(k@, now) == Some(b@),
                Option::None => old(self).served(k@, now) is None,
            },
            final(self).model() == if old(self).model().contains_key(k@) && !fresh_at(
                old(self).model()[k@].1,
                now,
                old(self).ttl(),
            ) {
                old(self).model().remove(k@)
            } else {
                old(self).model()
            },
    {
        match self.find(k) {
            Option::None => {
                proof {
                    lemma_model_absent(self.entries@, k@);
                }
                None
            },
            Option::Some(i) => {
                proof {
                    lemma_model_index(self.entries@, i as int);
                }
                let t = self.entries[i].inserted_at;
                if t <= now && now - t < self.ttl {
                    let b = copy_bytes(&self.entries[i].bytes);
                    Some(b)
                } else {
                    proof {
                        lemma_model_remove(self.entries@, i as int);
                    }
                    let _ = self.entries.remove(i);
                    None
                }
            },
        }
    }

    /// Records `bytes` as the answer for `k` at time `now`, overwriting any
    /// earlier entry for the key.
    pub fn insert(&mut self, k: QueryKey, bytes: Vec<u8>, now: u64)
        requires
            old(self).wf(),
        ensures
            final(self).wf(),
            final(self).ttl() == old(self).ttl(),
            final(self).model() == old(self).model().insert(k@, (bytes@, now)),
    {
        let e = CacheEntry { key: k, bytes, inserted_at: now };
        match self.find(&e.key) {
            Option::Some(i) => {
                proof {
                    lemma_model_update(self.entries@, i as int, e);
                }
                self.entries.set(i, e);
            },
            Option::None => {
                proof {
                    lemma_model_absent(self.entries@, e.key@);
                    assert(self.entries@.push(e).drop_last() =~= self.entries@);
                }
                self.entries.push(e);
            },
        }
    }
}

/// An entry recorded at `t` is served unchanged at any time strictly inside
/// the TTL window, and is treated as absent at or past its end.
pub proof fn lemma_ttl_window(c: ResponseCache, k: (Seq<u8>, u16, u16), b: Seq<u8>, t: u64, now: u64)
    requires
        c.model().contains_key(k),
        c.model()[k] == (b, t),
    ensures
        t <= now && now - t < c.ttl() ==> c.served(k, now) == Some(b),
        t <= now && now - t >= c.ttl() ==> c.served(k, now) is None,
        now < t ==> c.served(k, now) is None,
{
}

} // verus!
