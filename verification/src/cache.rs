//! The passcode / TTL cache store: a key-value store whose entries expire.
//! Time is handed in explicitly, so every operation is a pure function of
//! the store and the clock; an expired key stops being served, exactly as a
//! cache entry with a time-to-live does.
use vstd::prelude::*;

verus! {

/// One cached entry: key, value, and the instant it stops being served.
pub struct CacheEntry {
    pub key: String,
    pub value: String,
    pub expires_at: u64,
}

/// The cache: a sequence of entries with pairwise distinct keys.
pub struct TtlCache {
    entries: Vec<CacheEntry>,
}

impl TtlCache {
    /// Keys are pairwise distinct.
    pub closed spec fn wf(self) -> bool {
        forall|i: int, j: int|
            0 <= i < j < self.entries@.len() ==> (#[trigger] self.entries@[i]).key@
                != (#[trigger] self.entries@[j]).key@
    }

    /// Whether some entry holds this key, expired or not.
    pub closed spec fn has(self, key: Seq<char>) -> bool {
        exists|i: int|
            0 <= i < self.entries@.len() && (#[trigger] self.entries@[i]).key@ == key
    }

    /// The index of the entry holding this key.
    pub closed spec fn key_idx(self, key: Seq<char>) -> int {
        choose|i: int|
            0 <= i < self.entries@.len() && (#[trigger] self.entries@[i]).key@ == key
    }

    /// The value stored under this key.
    pub closed spec fn val(self, key: Seq<char>) -> Seq<char> {
        self.entries@[self.key_idx(key)].value@
    }

    /// The instant the entry under this key expires.
    pub closed spec fn exp_of(self, key: Seq<char>) -> u64 {
        self.entries@[self.key_idx(key)].expires_at
    }

    /// A key is live when it is present and its expiry is still ahead.
    pub open spec fn live(self, key: Seq<char>, now: u64) -> bool {
        self.has(key) && now < self.exp_of(key)
    }

    /// In a well-formed cache, the entry at any index with a given key is
    /// the one the accessors speak of.
    proof fn lemma_entry_at(self, key: Seq<char>, i: int)
        requires
            self.wf(),
            0 <= i < self.entries@.len(),
            self.entries@[i].key@ == key,
        ensures
            self.has(key),
            self.key_idx(key) == i,
            self.val(key) == self.entries@[i].value@,
            self.exp_of(key) == self.entries@[i].expires_at,
    {
        assert(self.has(key));
        let j = self.key_idx(key);
        assert(0 <= j < self.entries@.len() && self.entries@[j].key@ == key);
        if i < j {
            assert(self.entries@[i].key@ != self.entries@[j].key@);
        } else if j < i {
            assert(self.entries@[j].key@ != self.entries@[i].key@);
        }
    }

    /// Removing the one entry with `key` keeps every other key, with its
    /// value and expiry.
    proof fn lemma_remove_preserves(pre: Self, post: Self, i: int, key: Seq<char>)
        requires
            pre.wf(),
            0 <= i < pre.entries@.len(),
            pre.entries@[i].key@ == key,
            post.entries@ == pre.entries@.remove(i),
        ensures
            post.wf(),
            !post.has(key),
            forall|k: Seq<char>| k != key ==> (#[trigger] post.has(k)) == pre.has(k),
            forall|k: Seq<char>|
                k != key && pre.has(k) ==> (#[trigger] post.val(k)) == pre.val(k)
                    && post.exp_of(k) == pre.exp_of(k),
    {
        let n = pre.entries@.len();
        assert(post.entries@.len() == n - 1);
        assert(forall|j: int|
            0 <= j < n - 1 ==> #[trigger] post.entries@[j] == (if j < i {
                pre.entries@[j]
            } else {
                pre.entries@[j + 1]
            }));
        assert forall|a: int, b: int| 0 <= a < b < n - 1 implies (#[trigger] post.entries@[a]).key@
            != (#[trigger] post.entries@[b]).key@ by {
            let a0 = if a < i { a } else { a + 1 };
            let b0 = if b < i { b } else { b + 1 };
            assert(pre.entries@[a0].key@ != pre.entries@[b0].key@);
        }
        assert forall|j: int| 0 <= j < n - 1 implies (#[trigger] post.entries@[j]).key@ != key by {
            let j0 = if j < i { j } else { j + 1 };
            if j0 != i {
                assert(pre.entries@[j0].key@ != pre.entries@[i].key@);
            }
        }
        assert(!post.has(key));
        assert forall|k: Seq<char>| k != key implies (#[trigger] post.has(k)) == pre.has(k) by {
            if pre.has(k) {
                let j = pre.key_idx(k);
                assert(0 <= j < n && pre.entries@[j].key@ == k);
                let j2 = if j < i {
                    j
                } else {
                    j - 1
                };
                assert(post.entries@[j2] == pre.entries@[j]);
                post.lemma_entry_at(k, j2);
            } else {
                if post.has(k) {
                    let j2 = post.key_idx(k);
                    assert(0 <= j2 < n - 1 && post.entries@[j2].key@ == k);
                    let j0 = if j2 < i { j2 } else { j2 + 1 };
                    assert(pre.entries@[j0].key@ == k);
                    assert(pre.has(k));
                }
            }
        }
        assert forall|k: Seq<char>| k != key && pre.has(k) implies (#[trigger] post.val(k))
            == pre.val(k) && post.exp_of(k) == pre.exp_of(k) by {
            let j = pre.key_idx(k);
            assert(0 <= j < n && pre.entries@[j].key@ == k);
            pre.lemma_entry_at(k, j);
            let j2 = if j < i {
                j
            } else {
                j - 1
            };
            assert(post.entries@[j2] == pre.entries@[j]);
            post.lemma_entry_at(k, j2);
        }
    }

    /// Appending an entry with a fresh key serves that key and keeps every
    /// other one, with its value and expiry.
    proof fn lemma_push_preserves(pre: Self, post: Self, e: CacheEntry)
        requires
            pre.wf(),
            !pre.has(e.key@),
            post.entries@ == pre.entries@.push(e),
        ensures
            post.wf(),
            post.has(e.key@),
            post.val(e.key@) == e.value@,
            post.exp_of(e.key@) == e.expires_at,
            forall|k: Seq<char>| k != e.key@ ==> (#[trigger] post.has(k)) == pre.has(k),
            forall|k: Seq<char>|
                k != e.key@ && pre.has(k) ==> (#[trigger] post.val(k)) == pre.val(k)
                    && post.exp_of(k) == pre.exp_of(k),
    {
        let n = pre.entries@.len();
        assert(post.entries@.len() == n + 1);
        assert(post.entries@[n as int] == e);
        assert(forall|j: int| 0 <= j < n ==> #[trigger] post.entries@[j] == pre.entries@[j]);
        assert forall|a: int, b: int| 0 <= a < b < n + 1 implies (#[trigger] post.entries@[a]).key@
            != (#[trigger] post.entries@[b]).key@ by {
            if b < n {
                assert(pre.entries@[a].key@ != pre.entries@[b].key@);
            } else {
                if post.entries@[a].key@ == e.key@ {
                    assert(pre.entries@[a].key@ == e.key@);
                    assert(pre.has(e.key@));
                }
            }
        }
        post.lemma_entry_at(e.key@, n as int);
        assert forall|k: Seq<char>| k != e.key@ implies (#[trigger] post.has(k)) == pre.has(k) by {
            if pre.has(k) {
                let j = pre.key_idx(k);
                pre.lemma_entry_at(k, j);
                assert(post.entries@[j] == pre.entries@[j]);
                post.lemma_entry_at(k, j);
            } else {
                if post.has(k) {
                    let j2 = post.key_idx(k);
                    assert(0 <= j2 < n + 1 && post.entries@[j2].key@ == k);
                    if j2 < n {
                        assert(pre.entries@[j2].key@ == k);
                        assert(pre.has(k));
                    }
                }
            }
        }
        assert forall|k: Seq<char>| k != e.key@ && pre.has(k) implies (#[trigger] post.val(k))
            == pre.val(k) && post.exp_of(k) == pre.exp_of(k) by {
            let j = pre.key_idx(k);
            pre.lemma_entry_at(k, j);
            assert(post.entries@[j] == pre.entries@[j]);
            post.lemma_entry_at(k, j);
        }
    }

    /// An empty cache.
    pub fn new() -> (r: Self)
        ensures
            r.wf(),
            forall|k: Seq<char>| !r.has(k),
    {
        TtlCache { entries: Vec::new() }
    }

    /// The index of the entry with this key, if one is present.
    fn find(&self, key: &String) -> (r: Option<usize>)
        ensures
            match r {
                Some(i) => i < self.entries@.len() && self.entries@[i as int].key@ == key@,
                None => !self.has(key@),
            },
    {
        let n = self.entries.len();
        let mut i: usize = 0;
        while i < n
            invariant
                n == self.entries@.len(),
                0 <= i <= n,
                forall|j: int| 0 <= j < i ==> (#[trigger] self.entries@[j]).key@ != key@,
            decreases n - i,
        {
            if self.entries[i].key == *key {
                return Some(i);
            }
            i = i + 1;
        }
        None
    }

    /// Stores `value` under `key` for `ttl_seconds` from `now`, replacing
    /// any previous entry under that key; no other key is touched.
    pub fn set_with_ttl(&mut self, key: String, value: String, ttl_seconds: u64, now: u64)
        requires
            old(self).wf(),
            now + ttl_seconds <= u64::MAX,
        ensures
            final(self).wf(),
            final(self).has(key@),
            final(self).val(key@) == value@,
            final(self).exp_of(key@) == now + ttl_seconds,
            forall|k: Seq<char>|
                k != key@ ==> (#[trigger] final(self).has(k)) == old(self).has(k),
            forall|k: Seq<char>|
                k != key@ && old(self).has(k) ==> (#[trigger] final(self).val(k)) == old(
                    self,
                ).val(k) && final(self).exp_of(k) == old(self).exp_of(k),
    {
        let ghost pre = *self;
        let found = self.find(&key);
        match found {
            Some(i) => {
                self.entries.remove(i);
                proof {
                    Self::lemma_remove_preserves(pre, *self, i as int, key@);
                }
            },
            None => {},
        }
        let ghost mid = *self;
        let expires_at = now + ttl_seconds;
        let ghost e_key = key@;
        let entry = CacheEntry { key, value, expires_at };
        self.entries.push(entry);
        proof {
            assert(!mid.has(e_key));
            Self::lemma_push_preserves(mid, *self, self.entries@.last());
        }
    }

    /// Serves the value under `key` when it is present and not expired;
    /// an absent or expired key reads as nothing.
    pub fn get(&self, key: &String, now: u64) -> (r: Option<String>)
        requires
            self.wf(),
        ensures
            match r {
                Some(v) => self.live(key@, now) && v@ == self.val(key@),
                None => !self.live(key@, now),
            },
    {
        match self.find(key) {
            Some(i) => {
                proof {
                    self.lemma_entry_at(key@, i as int);
                }
                if now < self.entries[i].expires_at {
                    Some(self.entries[i].value.clone())
                } else {
                    None
                }
            },
            None => None,
        }
    }

    /// Drops the entry under `key` and reports how many entries went: one
    /// when the key was present, none otherwise. No other key is touched.
    pub fn delete(&mut self, key: &String) -> (r: u64)
        requires
            old(self).wf(),
        ensures
            final(self).wf(),
            !final(self).has(key@),
            r == if old(self).has(key@) {
                1u64
            } else {
                0u64
            },
            forall|k: Seq<char>|
                k != key@ ==> (#[trigger] final(self).has(k)) == old(self).has(k),
            forall|k: Seq<char>|
                k != key@ && old(self).has(k) ==> (#[trigger] final(self).val(k)) == old(
                    self,
                ).val(k) && final(self).exp_of(k) == old(self).exp_of(k),
    {
        let ghost pre = *self;
        match self.find(key) {
            Some(i) => {
                proof {
                    pre.lemma_entry_at(key@, i as int);
                }
                self.entries.remove(i);
                proof {
                    Self::lemma_remove_preserves(pre, *self, i as int, key@);
                }
                1
            },
            None => 0,
        }
    }
}

} // verus!
