//! The content hash of the key cache: 64-bit FNV-1a over the key's bytes.

use vstd::prelude::*;

verus! {

/// The hash of the empty byte string.
pub const HASH_BASIS: u64 = 0xcbf2_9ce4_8422_2325;

/// The multiplier applied after each byte.
pub const HASH_PRIME: u64 = 0x0000_0100_0000_01b3;

/// The hash after one more byte.
pub open spec fn hash_step(h: u64, byte: u8) -> u64 {
    (h ^ (byte as u64)).wrapping_mul(HASH_PRIME)
}

/// The hash of a byte string: the bytes are folded in from left to right.
pub open spec fn spec_cache_hash(bytes: Seq<u8>) -> u64
    decreases bytes.len(),
{
    if bytes.len() == 0 {
        HASH_BASIS
    } else {
        hash_step(spec_cache_hash(bytes.drop_last()), bytes.last())
    }
}

/// A deterministic hash of `key`.
pub fn cache_hash(key: &[u8]) -> (h: u64)
    ensures
        h == spec_cache_hash(key@),
{
    let mut h: u64 = HASH_BASIS;
    let mut i: usize = 0;
    while i < key.len()
        invariant
            i <= key.len(),
            h == spec_cache_hash(key@.take(i as int)),
        decreases key.len() - i,
    {
        proof {
            assert(key@.take(i + 1).drop_last() =~= key@.take(i as int));
        }
        h = (h ^ (key[i] as u64)).wrapping_mul(HASH_PRIME);
        i += 1;
    }
    proof {
        assert(key@.take(i as int) =~= key@);
    }
    h
}

} // verus!
