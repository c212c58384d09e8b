//! FNV-1a hashing: deterministic, no OS randomness required, for hash maps
//! and sets that must behave the same on every run.

use vstd::prelude::*;

verus! {

/// The FNV-1a offset basis, the state of a fresh hasher.
pub const FNV_OFFSET_BASIS: u64 = 0xcbf29ce484222325;

/// The 64-bit FNV prime.
pub const FNV_PRIME: u64 = 0x100000001b3;

/// One FNV-1a step: xor in the byte, then multiply by the prime modulo 2^64.
pub open spec fn fnv1a_step(state: u64, byte: u8) -> u64 {
    (state ^ (byte as u64)).wrapping_mul(FNV_PRIME)
}

/// The FNV-1a state after feeding `bytes`, in order, to a hasher in `state`.
pub open spec fn fnv1a(state: u64, bytes: Seq<u8>) -> u64
    decreases bytes.len(),
{
    if bytes.len() == 0 {
        state
    } else {
        fnv1a_step(fnv1a(state, bytes.drop_last()), bytes.last())
    }
}

/// FNV-1a hasher: deterministic, no OS randomness required.
pub struct FnvHasher(u64);

impl FnvHasher {
    /// The current hash state.
    pub closed spec fn state(&self) -> u64 {
        self.0
    }
}

impl core::hash::Hasher for FnvHasher {
    /// Returns the hash of the bytes written so far.
    fn finish(&self) -> (h: u64)
        ensures
            h == self.state(),
    {
        self.0
    }

    /// Feeds `bytes` into the hash.
    fn write(&mut self, bytes: &[u8])
        ensures
            final(self).state() == fnv1a(old(self).state(), bytes@),
    {
        let mut i: usize = 0;
        while i < bytes.len()
            invariant
                i <= bytes@.len(),
                self.0 == fnv1a(old(self).0, bytes@.take(i as int)),
            decreases bytes@.len() - i,
        {
            let byte = bytes[i];
            self.0 = self.0 ^ (byte as u64);
            self.0 = self.0.wrapping_mul(FNV_PRIME);
            proof {
                assert(bytes@.take(i + 1).drop_last() == bytes@.take(i as int));
            }
            i = i + 1;
        }
        proof {
            assert(bytes@.take(i as int) == bytes@);
        }
    }
}

impl Default for FnvHasher {
    /// A fresh hasher starts at the FNV offset basis.
    fn default() -> (h: Self)
        ensures
            h.state() == FNV_OFFSET_BASIS,
            h.state() == 0xcbf29ce484222325u64,
    {
        FnvHasher(FNV_OFFSET_BASIS)
    }
}

/// Writing `a` and then `b` leaves the hasher where writing `a + b` at once
/// does: the hash of a byte stream does not depend on how it is cut into
/// writes.
pub proof fn lemma_fnv1a_concat(state: u64, a: Seq<u8>, b: Seq<u8>)
    ensures
        fnv1a(state, a + b) == fnv1a(fnv1a(state, a), b),
    decreases b.len(),
{
    if b.len() == 0 {
        assert(a + b == a);
    } else {
        lemma_fnv1a_concat(state, a, b.drop_last());
        assert((a + b).drop_last() == a + b.drop_last());
    }
}

/// Writing one byte `b` to a hasher in state `s` is the FNV-1a step: the
/// byte goes into the low eight bits of the state by xor, the other 56 bits
/// stay as they were, and the result is multiplied by the FNV prime
/// `0x100000001b3` modulo 2^64.
pub proof fn lemma_fnv1a_one_byte(s: u64, b: u8)
    ensures
        exists|x: u64|
            #![trigger x & 0xffu64]
            x >> 8u64 == s >> 8u64 && x & 0xffu64 == (s & 0xffu64) ^ (b as u64) && fnv1a(s, seq![b]) as nat
                == (x as nat * 0x100000001b3nat) % 0x1_0000_0000_0000_0000nat,
{
    let bb: u64 = b as u64;
    let x: u64 = s ^ bb;
    assert(x >> 8u64 == s >> 8u64 && x & 0xffu64 == (s & 0xffu64) ^ bb) by (bit_vector)
        requires
            x == s ^ bb,
            bb < 256,
    ;
    assert(seq![b].drop_last() =~= Seq::<u8>::empty());
    assert(fnv1a(s, Seq::<u8>::empty()) == s);
    assert(seq![b].last() == b);
    assert(fnv1a(s, seq![b]) == fnv1a_step(s, b));
    assert(x & 0xffu64 == (s & 0xffu64) ^ (b as u64));
}

} // verus!
