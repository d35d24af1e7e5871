//! A fixed, documented 64-bit hash over bytes (FNV-1a).
//!
//! Partition routing needs a hash that is deterministic within a run; using a
//! fixed, versioned function also makes assignments reproducible across runs,
//! which the language's default hasher does not promise.
use vstd::prelude::*;

verus! {

pub const FNV_OFFSET_BASIS: u64 = 0xcbf29ce484222325;

pub const FNV_PRIME: u64 = 0x100000001b3;

/// The FNV-1a digest of a byte sequence, folded left to right.
pub open spec fn fnv1a(bytes: Seq<u8>) -> u64
    decreases bytes.len(),
{
    if bytes.len() == 0 {
        FNV_OFFSET_BASIS
    } else {
        fnv1a_step(fnv1a(bytes.drop_last()), bytes.last())
    }
}

/// One FNV-1a round: xor the byte in, multiply by the prime (mod 2^64).
pub open spec fn fnv1a_step(h: u64, b: u8) -> u64 {
    vstd::wrapping::u64_specs::wrapping_mul(h ^ (b as u64), FNV_PRIME)
}

/// Computes the FNV-1a digest of `bytes`.
pub fn fnv1a_bytes(bytes: &[u8]) -> (h: u64)
    ensures
        h == fnv1a(bytes@),
{
    let mut h: u64 = FNV_OFFSET_BASIS;
    let n: usize = bytes.len();
    let mut i: usize = 0;
    while i < n
        invariant
            n == bytes@.len(),
            i <= n,
            h == fnv1a(bytes@.take(i as int)),
        decreases n - i,
    {
        let b: u8 = bytes[i];
        h = (h ^ (b as u64)).wrapping_mul(FNV_PRIME);
        i = i + 1;
        proof {
            assert(bytes@.take(i as int).drop_last() =~= bytes@.take(i - 1));
            assert(bytes@.take(i as int).last() == b);
        }
    }
    proof {
        assert(bytes@.take(n as int) =~= bytes@);
    }
    h
}

/// The FNV-1a digest of a string's UTF-8 bytes.
pub open spec fn fnv1a_str(s: Seq<char>) -> u64 {
    fnv1a(vstd::utf8::encode_utf8(s))
}

/// Computes the digest of `s`, hashing its UTF-8 bytes.
pub fn fnv1a_of_str(s: &str) -> (h: u64)
    ensures
        h == fnv1a_str(s@),
{
    fnv1a_bytes(s.as_bytes())
}

} // verus!
