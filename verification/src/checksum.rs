//! The digest that guards a frame's canonical payload.

use vstd::prelude::*;

verus! {

/// The digest of the empty payload.
pub const DIGEST_SEED: u64 = 0xcbf29ce484222325;

/// The multiplier applied after each byte.
pub const DIGEST_PRIME: u64 = 0x100000001b3;

/// One step of the digest: fold the byte in, then multiply, modulo 2^64.
pub open spec fn digest_step(state: u64, byte: u8) -> u64 {
    (state ^ (byte as u64)).wrapping_mul(DIGEST_PRIME)
}

/// The 64-bit FNV-1a digest of `bytes`.
pub open spec fn digest(bytes: Seq<u8>) -> u64
    decreases bytes.len(),
{
    if bytes.len() == 0 {
        DIGEST_SEED
    } else {
        digest_step(digest(bytes.drop_last()), bytes.last())
    }
}

/// Computes the digest of a payload.
pub fn checksum(bytes: &[u8]) -> (sum: u64)
    ensures
        sum == digest(bytes@),
{
    let mut state: u64 = DIGEST_SEED;
    let mut i: usize = 0;
    while i < bytes.len()
        invariant
            i <= bytes.len(),
            state == digest(bytes@.take(i as int)),
        decreases bytes.len() - i,
    {
        proof {
            assert(bytes@.take(i + 1).drop_last() =~= bytes@.take(i as int));
        }
        state = (state ^ (bytes[i] as u64)).wrapping_mul(DIGEST_PRIME);
        i = i + 1;
    }
    proof {
        assert(bytes@.take(bytes.len() as int) =~= bytes@);
    }
    state
}

/// Whether a payload still has the digest that was recorded for it.
pub fn verify_checksum(bytes: &[u8], recorded: u64) -> (intact: bool)
    ensures
        intact == (digest(bytes@) == recorded),
{
    checksum(bytes) == recorded
}

} // verus!
