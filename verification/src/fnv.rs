//! The 64-bit FNV-1a hash: fixed constants, the same on every machine.
use vstd::prelude::*;

verus! {

/// What the hash of no bytes is.
pub const FNV_OFFSET: u64 = 0xcbf2_9ce4_8422_2325;

/// What the hash is multiplied by after each byte.
pub const FNV_PRIME: u64 = 0x0000_0100_0000_01b3;

/// The hash after `bytes`, starting from `seed`: each byte is mixed in and the
/// result multiplied by the prime, modulo two to the sixty-fourth.
pub open spec fn fnv_from(seed: u64, bytes: Seq<u8>) -> u64
    decreases bytes.len(),
{
    if bytes.len() == 0 {
        seed
    } else {
        (fnv_from(seed, bytes.drop_last()) ^ (bytes.last() as u64)).wrapping_mul(FNV_PRIME)
    }
}

/// The hash of `bytes`.
pub open spec fn fnv1a(bytes: Seq<u8>) -> u64 {
    fnv_from(FNV_OFFSET, bytes)
}

/// Mixes `bytes` into the running hash `hash`.
pub fn absorb(hash: u64, bytes: &[u8]) -> (r: u64)
    ensures
        r == fnv_from(hash, bytes@),
{
    let mut h: u64 = hash;
    proof {
        assert(bytes@.take(0) =~= Seq::empty());
    }
    for i in 0..bytes.len()
        invariant
            h == fnv_from(hash, bytes@.take(i as int)),
    {
        proof {
            assert(bytes@.take(i + 1).drop_last() =~= bytes@.take(i as int));
        }
        h = (h ^ (bytes[i] as u64)).wrapping_mul(FNV_PRIME);
    }
    proof {
        assert(bytes@.take(bytes@.len() as int) =~= bytes@);
    }
    h
}

/// Hashing in pieces is hashing the whole.
pub proof fn lemma_absorb_concat(seed: u64, a: Seq<u8>, b: Seq<u8>)
    ensures
        fnv_from(fnv_from(seed, a), b) == fnv_from(seed, a + b),
    decreases b.len(),
{
    if b.len() == 0 {
        assert(a + b =~= a);
    } else {
        lemma_absorb_concat(seed, a, b.drop_last());
        assert((a + b).drop_last() =~= a + b.drop_last());
        assert((a + b).last() == b.last());
    }
}

/// The hash of `bytes`.
pub fn fnv1a_64(bytes: &[u8]) -> (r: u64)
    ensures
        r == fnv1a(bytes@),
{
    absorb(FNV_OFFSET, bytes)
}

/// The hash of nothing is the offset; each further byte is mixed into the low bits and
/// the whole multiplied by the prime, modulo two to the sixty-fourth.
pub proof fn each_byte_is_mixed_in_and_multiplied(bytes: Seq<u8>, byte: u8)
    ensures
        fnv1a(Seq::empty()) == 14_695_981_039_346_656_037,
        fnv1a(bytes.push(byte)) as int == ((fnv1a(bytes) ^ (byte as u64)) * 1_099_511_628_211)
            % 18_446_744_073_709_551_616,
{
    assert(bytes.push(byte).drop_last() =~= bytes);
}

} // verus!
