//! The checksum of a byte sequence: the 64-bit FNV-1a hash.
use vstd::prelude::*;

verus! {

/// The hash of the empty sequence.
pub const FNV_OFFSET_BASIS: u64 = 0xcbf2_9ce4_8422_2325;

/// The multiplier of one hashing step.
pub const FNV_PRIME: u64 = 0x0000_0100_0000_01b3;

/// One step of the hash: the byte is mixed into the state, which is then
/// multiplied by the prime, modulo 2^64.
pub open spec fn fnv1a_step(state: u64, byte: u8) -> u64 {
    (state ^ (byte as u64)).wrapping_mul(FNV_PRIME)
}

/// The state reached from `state` after hashing `bytes` from first to last.
pub open spec fn fnv1a_from(state: u64, bytes: Seq<u8>) -> u64
    decreases bytes.len(),
{
    if bytes.len() == 0 {
        state
    } else {
        fnv1a_step(fnv1a_from(state, bytes.drop_last()), bytes.last())
    }
}

/// The checksum of `bytes`.
pub open spec fn fnv1a(bytes: Seq<u8>) -> u64 {
    fnv1a_from(FNV_OFFSET_BASIS, bytes)
}

/// Hashing a concatenation is hashing its second part from the state that
/// the first part leaves.
pub proof fn lemma_fnv1a_concat(state: u64, a: Seq<u8>, b: Seq<u8>)
    ensures
        fnv1a_from(state, a + b) == fnv1a_from(fnv1a_from(state, a), b),
    decreases b.len(),
{
    if b.len() == 0 {
        assert(a + b =~= a);
    } else {
        lemma_fnv1a_concat(state, a, b.drop_last());
        assert((a + b).drop_last() =~= a + b.drop_last());
        assert((a + b).last() == b.last());
    }
}

/// Continues a checksum: hashes `bytes` starting from `state`.
pub fn fnv1a_extend(state: u64, bytes: &Vec<u8>) -> (next: u64)
    ensures
        next == fnv1a_from(state, bytes@),
{
    let mut h: u64 = state;
    let mut i: usize = 0;
    while i < bytes.len()
        invariant
            i <= bytes.len(),
            h == fnv1a_from(state, bytes@.take(i as int)),
        decreases bytes.len() - i,
    {
        proof {
            assert(bytes@.take(i + 1).drop_last() =~= bytes@.take(i as int));
        }
        h = (h ^ (bytes[i] as u64)).wrapping_mul(FNV_PRIME);
        i = i + 1;
    }
    proof {
        assert(bytes@.take(i as int) =~= bytes@);
    }
    h
}

/// Computes the checksum of `bytes`.
pub fn checksum(bytes: &Vec<u8>) -> (sum: u64)
    ensures
        sum == fnv1a(bytes@),
{
    fnv1a_extend(FNV_OFFSET_BASIS, bytes)
}

} // verus!
