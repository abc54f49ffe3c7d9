//! Sharded string-to-string map: a fixed array of shards, each holding
//! exactly the keys whose hash routes them to its index. This is the
//! sequential form, used to bulk-load the initial dataset and specified down
//! to its contents; the lock-per-shard form used during concurrent replay is
//! built from it.

use vstd::prelude::*;
use vstd::hash_map::StringHashMap;
use crate::hash::{shard_of, shard_index};

verus! {

/// The map that loading an ordered sequence of (key, value) pairs produces:
/// every pair is inserted in order, so the last value for a key wins.
pub open spec fn loaded(pairs: Seq<(Seq<char>, Seq<char>)>) -> Map<Seq<char>, Seq<char>>
    decreases pairs.len(),
{
    if pairs.len() == 0 {
        Map::empty()
    } else {
        loaded(pairs.drop_last()).insert(pairs.last().0, pairs.last().1)
    }
}

/// The views of a sequence of (key, value) pairs.
pub open spec fn pair_views(pairs: Seq<(String, String)>) -> Seq<(Seq<char>, Seq<char>)> {
    pairs.map(|i: int, p: (String, String)| (p.0@, p.1@))
}

/// Sum of the sizes of the first `n` shards.
spec fn shards_size(shards: Seq<StringHashMap<String>>, n: int) -> int
    decreases n,
{
    if n <= 0 {
        0
    } else {
        shards_size(shards, n - 1) + shards[n - 1]@.len()
    }
}

/// String-to-string map split into `S` shards; a key lives in shard
/// `shard_of(key, S)` and nowhere else.
pub struct ShardedMap {
    shards: Vec<StringHashMap<String>>,
}

impl View for ShardedMap {
    type V = Map<Seq<char>, Seq<char>>;

    /// The whole map: a key is present exactly when its home shard holds it.
    closed spec fn view(&self) -> Map<Seq<char>, Seq<char>> {
        Map::new(
            |k: Seq<char>| self.shards@[shard_of(k, self.shards@.len() as int)]@.contains_key(k),
            |k: Seq<char>| self.shards@[shard_of(k, self.shards@.len() as int)]@[k]@,
        )
    }
}

impl ShardedMap {
    /// The configured shard count.
    pub closed spec fn num_shards(&self) -> int {
        self.shards@.len() as int
    }

    /// Total map size: the sum of the shard sizes.
    pub closed spec fn total_size(&self) -> int {
        shards_size(self.shards@, self.shards@.len() as int)
    }

    /// There is at least one shard, every key sits in the shard its hash
    /// routes it to, and every shard holds finitely many keys.
    pub closed spec fn wf(&self) -> bool {
        &&& self.shards@.len() >= 1
        &&& forall|i: int, k: Seq<char>|
            0 <= i < self.shards@.len() && #[trigger] self.shards@[i]@.contains_key(k)
                ==> shard_of(k, self.shards@.len() as int) == i
        &&& forall|i: int|
            0 <= i < self.shards@.len() ==> (#[trigger] self.shards@[i]@).dom().finite()
    }

    /// Creates an empty map with `nshards` shards.
    pub fn new(nshards: usize) -> (m: ShardedMap)
        requires
            nshards >= 1,
        ensures
            m.wf(),
            m.num_shards() == nshards,
            m@ == Map::<Seq<char>, Seq<char>>::empty(),
            m.total_size() == 0,
    {
        let mut shards: Vec<StringHashMap<String>> = Vec::new();
        let mut i: usize = 0;
        while i < nshards
            invariant
                i <= nshards,
                shards@.len() == i,
                forall|j: int| 0 <= j < i ==> #[trigger] shards@[j]@ =~= Map::<
                    Seq<char>,
                    String,
                >::empty(),
            decreases nshards - i,
        {
            shards.push(StringHashMap::new());
            i = i + 1;
        }
        let m = ShardedMap { shards };
        proof {
            assert(m@ =~= Map::<Seq<char>, Seq<char>>::empty());
            lemma_shards_size_all_empty(m.shards@, m.shards@.len() as int);
            assert forall|j: int| 0 <= j < m.shards@.len() implies (
            #[trigger] m.shards@[j]@).dom().finite() by {
                assert(m.shards@[j]@.dom() =~= Set::<Seq<char>>::empty());
            }
        }
        m
    }

    /// Number of shards, as configured at construction.
    pub fn shard_count(&self) -> (n: usize)
        requires
            self.wf(),
        ensures
            n == self.num_shards(),
            n >= 1,
    {
        self.shards.len()
    }

    /// Looks a key up in its home shard, and nowhere else.
    pub fn get<'a>(&'a self, key: &str) -> (r: Option<&'a String>)
        requires
            self.wf(),
        ensures
            match r {
                Some(v) => self@.contains_key(key@) && v@ == self@[key@],
                None => !self@.contains_key(key@),
            },
    {
        let n = self.shards.len();
        let idx = shard_index(key, n);
        self.shards[idx].get(key)
    }

    /// Inserts or overwrites: the map afterwards holds `value` under `key`
    /// and is otherwise unchanged. Touches only the key's home shard.
    pub fn set(&mut self, key: String, value: String)
        requires
            old(self).wf(),
        ensures
            final(self).wf(),
            final(self).num_shards() == old(self).num_shards(),
            final(self)@ == old(self)@.insert(key@, value@),
    {
        let n = self.shards.len();
        let idx = shard_index(key.as_str(), n);
        let ghost k = key@;
        let shard = &mut self.shards[idx];
        shard.insert(key, value);
        proof {
            assert(self.shards@.len() == old(self).shards@.len());
            assert(forall|i: int, k2: Seq<char>|
                0 <= i < self.shards@.len() && #[trigger] self.shards@[i]@.contains_key(k2)
                    ==> shard_of(k2, self.shards@.len() as int) == i);
            assert forall|i: int| 0 <= i < self.shards@.len() implies (
            #[trigger] self.shards@[i]@).dom().finite() by {
                if i == idx as int {
                    assert(self.shards@[i]@.dom() =~= old(self).shards@[i]@.dom().insert(k));
                } else {
                    assert(self.shards@[i]@ == old(self).shards@[i]@);
                }
            }
            assert(self@ =~= old(self)@.insert(k, value@));
        }
    }

    /// Loads an ordered sequence of (key, value) pairs into a fresh map of
    /// `nshards` shards; a later pair for the same key overwrites an
    /// earlier one.
    pub fn bulk_load(pairs: &Vec<(String, String)>, nshards: usize) -> (m: ShardedMap)
        requires
            nshards >= 1,
        ensures
            m.wf(),
            m.num_shards() == nshards,
            m@ == loaded(pair_views(pairs@)),
    {
        let mut m = ShardedMap::new(nshards);
        let mut i: usize = 0;
        proof {
            assert(pair_views(pairs@).take(0) =~= Seq::<(Seq<char>, Seq<char>)>::empty());
        }
        while i < pairs.len()
            invariant
                i <= pairs@.len(),
                m.wf(),
                m.num_shards() == nshards,
                m@ == loaded(pair_views(pairs@).take(i as int)),
            decreases pairs@.len() - i,
        {
            let key = pairs[i].0.clone();
            let value = pairs[i].1.clone();
            m.set(key, value);
            proof {
                let pv = pair_views(pairs@);
                assert(pv.take(i + 1).drop_last() =~= pv.take(i as int));
                assert(pv.take(i + 1).last() == pv[i as int]);
            }
            i = i + 1;
        }
        proof {
            assert(pair_views(pairs@).take(pairs@.len() as int) =~= pair_views(pairs@));
        }
        m
    }

    /// Total number of entries: the sum of the shard sizes, saturating at
    /// `usize::MAX`. The sum counts the map's keys: it equals the number
    /// of distinct keys in the map.
    pub fn len(&self) -> (n: usize)
        requires
            self.wf(),
        ensures
            self.total_size() == self@.dom().len(),
            self.total_size() <= usize::MAX ==> n == self.total_size(),
            self.total_size() > usize::MAX ==> n == usize::MAX,
    {
        proof {
            lemma_total_size_counts_keys(self);
        }
        let mut acc: usize = 0;
        let mut i: usize = 0;
        let nsh = self.shards.len();
        while i < nsh
            invariant
                i <= nsh,
                nsh == self.shards@.len(),
                self.wf(),
                shards_size(self.shards@, i as int) <= usize::MAX ==> acc == shards_size(
                    self.shards@,
                    i as int,
                ),
                shards_size(self.shards@, i as int) > usize::MAX ==> acc == usize::MAX,
                acc <= shards_size(self.shards@, i as int),
            decreases nsh - i,
        {
            proof {
                lemma_shards_size_nonneg(self.shards@, i as int);
            }
            let l = self.shards[i].len();
            if acc as u128 + l as u128 > usize::MAX as u128 {
                acc = usize::MAX;
            } else {
                acc = acc + l;
            }
            i = i + 1;
        }
        acc
    }

    /// Hands the shard array out, for wrapping each shard in its own lock.
    /// Contents and order are preserved: shard `i` of the result holds
    /// exactly the keys whose hash routes them to index `i`, with the
    /// values the map held, and nothing else.
    pub fn into_shards(self) -> (shards: Vec<StringHashMap<String>>)
        requires
            self.wf(),
        ensures
            shards@.len() == self.num_shards(),
            shards@.len() >= 1,
            forall|i: int, k: Seq<char>|
                0 <= i < shards@.len() && #[trigger] shards@[i]@.contains_key(k) ==> shard_of(
                    k,
                    shards@.len() as int,
                ) == i,
            forall|k: Seq<char>| #[trigger]
                self@.contains_key(k) ==> shards@[shard_of(
                    k,
                    shards@.len() as int,
                )]@.contains_key(k) && shards@[shard_of(k, shards@.len() as int)]@[k]@
                    == self@[k],
            forall|i: int, k: Seq<char>|
                0 <= i < shards@.len() && #[trigger] shards@[i]@.contains_key(k)
                    ==> self@.contains_key(k),
    {
        let ShardedMap { shards } = self;
        shards
    }
}

proof fn lemma_shards_size_all_empty(shards: Seq<StringHashMap<String>>, n: int)
    requires
        n <= shards.len(),
        forall|j: int| 0 <= j < shards.len() ==> #[trigger] shards[j]@ =~= Map::<
            Seq<char>,
            String,
        >::empty(),
    ensures
        shards_size(shards, n) == 0,
    decreases n,
{
    if n > 0 {
        lemma_shards_size_all_empty(shards, n - 1);
        assert(shards[n - 1]@.len() == 0);
    }
}

proof fn lemma_shards_size_nonneg(shards: Seq<StringHashMap<String>>, n: int)
    ensures
        shards_size(shards, n) >= 0,
    decreases n,
{
    if n > 0 {
        lemma_shards_size_nonneg(shards, n - 1);
    }
}

/// The keys held by the first `n` shards.
spec fn shards_dom(shards: Seq<StringHashMap<String>>, n: int) -> Set<Seq<char>>
    decreases n,
{
    if n <= 0 {
        Set::empty()
    } else {
        shards_dom(shards, n - 1) + shards[n - 1]@.dom()
    }
}

/// With every key in its home shard, the shards' key sets are pairwise
/// disjoint, so the sizes of the first `n` shards add up to the number of
/// distinct keys they hold between them.
proof fn lemma_shards_dom_card(shards: Seq<StringHashMap<String>>, n: int)
    requires
        0 <= n <= shards.len(),
        forall|i: int, k: Seq<char>|
            0 <= i < shards.len() && #[trigger] shards[i]@.contains_key(k) ==> shard_of(
                k,
                shards.len() as int,
            ) == i,
        forall|i: int| 0 <= i < shards.len() ==> (#[trigger] shards[i]@).dom().finite(),
    ensures
        shards_dom(shards, n).finite(),
        shards_dom(shards, n).len() == shards_size(shards, n),
        forall|k: Seq<char>|
            #[trigger] shards_dom(shards, n).contains(k) <==> exists|i: int|
                0 <= i < n && #[trigger] shards[i]@.contains_key(k),
    decreases n,
{
    if n > 0 {
        lemma_shards_dom_card(shards, n - 1);
        let a = shards_dom(shards, n - 1);
        let b = shards[n - 1]@.dom();
        assert forall|k: Seq<char>| a.contains(k) implies !b.contains(k) by {
            let i = choose|i: int| 0 <= i < n - 1 && #[trigger] shards[i]@.contains_key(k);
            if b.contains(k) {
                assert(shards[n - 1]@.contains_key(k));
            }
        }
        assert(a.disjoint(b));
        vstd::set_lib::lemma_set_disjoint_lens(a, b);
        assert forall|k: Seq<char>| #[trigger]
            shards_dom(shards, n).contains(k) implies exists|i: int|
            0 <= i < n && #[trigger] shards[i]@.contains_key(k) by {
            if a.contains(k) {
                let i = choose|i: int| 0 <= i < n - 1 && #[trigger] shards[i]@.contains_key(k);
                assert(shards[i]@.contains_key(k));
            } else {
                assert(shards[n - 1]@.contains_key(k));
            }
        }
    }
}

/// Total map size — the sum of the shard sizes — counts the map's keys:
/// it equals the number of distinct keys in the map.
pub proof fn lemma_total_size_counts_keys(m: &ShardedMap)
    requires
        m.wf(),
    ensures
        m.total_size() == m@.dom().len(),
{
    let shards = m.shards@;
    let n = shards.len() as int;
    lemma_shards_dom_card(shards, n);
    assert forall|k: Seq<char>| #[trigger]
        m@.dom().contains(k) implies shards_dom(shards, n).contains(k) by {
        let home = shard_of(k, n);
        assert(shards[home]@.contains_key(k));
    }
    assert forall|k: Seq<char>| #[trigger]
        shards_dom(shards, n).contains(k) implies m@.dom().contains(k) by {
        let i = choose|i: int| 0 <= i < n && #[trigger] shards[i]@.contains_key(k);
        assert(shard_of(k, n) == i);
    }
    assert(m@.dom() =~= shards_dom(shards, n));
}

} // verus!
