//! FNV-1a hashing of keys and the shard-routing function derived from it.

use vstd::prelude::*;
use vstd::string::StringSliceAdditionalSpecFns;

verus! {

/// FNV-1a 64-bit offset basis.
pub const FNV_OFFSET_BASIS: u64 = 14695981039346656037;

/// FNV-1a 64-bit prime.
pub const FNV_PRIME: u64 = 1099511628211;

/// FNV-1a over a byte sequence: start from the offset basis and, for each
/// byte in order, XOR the byte in and then multiply by the prime, wrapping
/// on overflow.
pub open spec fn fnv1a64_bytes(bytes: Seq<u8>) -> u64
    decreases bytes.len(),
{
    if bytes.len() == 0 {
        FNV_OFFSET_BASIS
    } else {
        (fnv1a64_bytes(bytes.drop_last()) ^ (bytes.last() as u64)).wrapping_mul(FNV_PRIME)
    }
}

/// The hash of a key is FNV-1a over the key's UTF-8 encoding.
pub open spec fn hash_of(key: Seq<char>) -> u64 {
    fnv1a64_bytes(vstd::utf8::encode_utf8(key))
}

/// The shard a key is routed to: its hash reduced modulo the shard count.
pub open spec fn shard_of(key: Seq<char>, nshards: int) -> int {
    hash_of(key) as int % nshards
}

/// FNV-1a 64-bit hash of a string's UTF-8 bytes.
pub fn fnv1a64(s: &str) -> (h: u64)
    ensures
        h == hash_of(s@),
{
    let bytes: &[u8] = s.as_bytes();
    let n: usize = bytes.len();
    let mut hash: u64 = FNV_OFFSET_BASIS;
    let mut i: usize = 0;
    proof {
        assert(s.spec_bytes().subrange(0, 0) =~= Seq::<u8>::empty());
    }
    while i < n
        invariant
            n == s.spec_bytes().len(),
            bytes@ == s.spec_bytes(),
            i <= n,
            hash == fnv1a64_bytes(s.spec_bytes().subrange(0, i as int)),
        decreases n - i,
    {
        let b: u8 = bytes[i];
        hash = (hash ^ (b as u64)).wrapping_mul(FNV_PRIME);
        proof {
            let pre = s.spec_bytes().subrange(0, i as int);
            let post = s.spec_bytes().subrange(0, i + 1);
            assert(post.drop_last() =~= pre);
            assert(post.last() == s.spec_bytes()[i as int]);
        }
        i = i + 1;
    }
    proof {
        assert(s.spec_bytes().subrange(0, n as int) =~= s.spec_bytes());
    }
    hash
}

/// Routes a key to a shard: the FNV-1a hash of the key reduced modulo the
/// shard count. Deterministic in the key, and always within `[0, nshards)`.
pub fn shard_index(key: &str, nshards: usize) -> (i: usize)
    requires
        nshards >= 1,
    ensures
        i == shard_of(key@, nshards as int),
        i < nshards,
{
    let h = fnv1a64(key);
    (h % (nshards as u64)) as usize
}

} // verus!
