//! The sharded map in its concurrent form: one reader/writer lock per
//! shard, so that readers of a shard never block each other and operations
//! on different shards are independent. Each lock's invariant ties its
//! shard to the hash routing: a shard only ever holds keys whose hash
//! routes them to its index.

use vstd::prelude::*;
use vstd::hash_map::StringHashMap;
use vstd::rwlock::{RwLock, RwLockPredicate};
use crate::hash::{shard_of, shard_index};
use crate::smap::ShardedMap;

verus! {

/// Lock invariant of one shard: every key it holds hashes to this shard's
/// index.
pub struct ShardPred {
    pub idx: int,
    pub nshards: int,
}

impl RwLockPredicate<StringHashMap<String>> for ShardPred {
    open spec fn inv(self, shard: StringHashMap<String>) -> bool {
        forall|k: Seq<char>|
            #[trigger] shard@.contains_key(k) ==> shard_of(k, self.nshards) == self.idx
    }
}

/// Sharded map shared between workers: a fixed array of shards, each
/// guarded by its own reader/writer lock. A `get` takes a read lock and a
/// `set` a write lock on the key's home shard only, so operations on
/// different shards never contend.
pub struct ConcurrentMap {
    shards: Vec<RwLock<StringHashMap<String>, ShardPred>>,
}

impl ConcurrentMap {
    /// The configured shard count.
    pub closed spec fn num_shards(&self) -> int {
        self.shards@.len() as int
    }

    /// There is at least one shard and each lock carries the invariant for
    /// its own index.
    pub closed spec fn wf(&self) -> bool {
        &&& self.shards@.len() >= 1
        &&& forall|i: int|
            0 <= i < self.shards@.len() ==> (#[trigger] self.shards@[i].pred()) == (ShardPred {
                idx: i,
                nshards: self.shards@.len() as int,
            })
    }

    /// Wraps a loaded sharded map, shard by shard, in per-shard locks.
    pub fn new(m: ShardedMap) -> (c: ConcurrentMap)
        requires
            m.wf(),
        ensures
            c.wf(),
            c.num_shards() == m.num_shards(),
    {
        let plain = m.into_shards();
        let n = plain.len();
        let mut rest = plain;
        let mut shards: Vec<RwLock<StringHashMap<String>, ShardPred>> = Vec::new();
        let mut i: usize = 0;
        while i < n
            invariant
                i <= n,
                shards@.len() == i,
                rest@.len() == n - i,
                forall|j: int, k: Seq<char>|
                    0 <= j < rest@.len() && #[trigger] rest@[j]@.contains_key(k) ==> shard_of(
                        k,
                        n as int,
                    ) == j + i,
                forall|j: int|
                    0 <= j < i ==> (#[trigger] shards@[j].pred()) == (ShardPred {
                        idx: j,
                        nshards: n as int,
                    }),
            decreases n - i,
        {
            let ghost old_rest = rest@;
            let shard = rest.remove(0);
            proof {
                assert(shard == old_rest[0]);
                assert(forall|j: int| 0 <= j < rest@.len() ==> rest@[j] == old_rest[j + 1]);
                assert((ShardPred { idx: i as int, nshards: n as int }).inv(shard));
            }
            let lock = RwLock::new(
                shard,
                Ghost(ShardPred { idx: i as int, nshards: n as int }),
            );
            shards.push(lock);
            i = i + 1;
        }
        ConcurrentMap { shards }
    }

    /// Number of shards, as configured at construction.
    pub fn shard_count(&self) -> (n: usize)
        requires
            self.wf(),
        ensures
            n == self.num_shards(),
            n >= 1,
    {
        self.shards.len()
    }

    /// Looks a key up under a shared (read) lock on its home shard only.
    /// Concurrent writers may change the map between calls, so the result
    /// reflects the shard's contents at some instant while the read lock
    /// was held; the functional behaviour of a lookup against fixed
    /// contents is specified on [`ShardedMap::get`].
    pub fn get(&self, key: &str) -> (r: Option<String>)
        requires
            self.wf(),
    {
        let n = self.shards.len();
        let idx = shard_index(key, n);
        let handle = self.shards[idx].acquire_read();
        let shard = handle.borrow();
        let r = match shard.get(key) {
            Some(v) => Some(v.clone()),
            None => None,
        };
        handle.release_read();
        r
    }

    /// Upserts under an exclusive (write) lock on the key's home shard
    /// only; shards other than the key's home shard are never touched, and
    /// the shard invariant — only home keys in a shard — is preserved. The
    /// functional behaviour of an upsert against fixed contents is
    /// specified on [`ShardedMap::set`].
    pub fn set(&self, key: String, value: String)
        requires
            self.wf(),
    {
        let n = self.shards.len();
        let idx = shard_index(key.as_str(), n);
        let ghost k = key@;
        let (mut shard, handle) = self.shards[idx].acquire_write();
        shard.insert(key, value);
        proof {
            assert(forall|k2: Seq<char>|
                #[trigger] shard@.contains_key(k2) ==> shard_of(k2, n as int) == idx as int);
        }
        handle.release_write(shard);
    }
}

} // verus!
