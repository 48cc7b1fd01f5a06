//! The token digest: 64-bit FNV-1a over a token's bytes.
//!
//! The word-frequency table is keyed by this digest, not by the token itself:
//! two distinct tokens with the same digest share one count. That saves memory
//! at the price of a small, accepted inaccuracy; the exact-count law in
//! `freq` holds for every token whose digest no other token of the corpus
//! shares. The digest is deterministic, so both passes, and every run, agree
//! on it.

use vstd::prelude::*;

verus! {

/// FNV-1a's 64-bit offset basis.
pub const FNV_OFFSET_BASIS: u64 = 14695981039346656037;

/// FNV-1a's 64-bit prime.
pub const FNV_PRIME: u64 = 1099511628211;

/// One FNV-1a step: mix in a byte, then multiply modulo 2^64.
pub open spec fn fnv1a_step(h: u64, b: u8) -> u64 {
    (((h ^ (b as u64)) as nat * FNV_PRIME as nat) % 0x1_0000_0000_0000_0000nat) as u64
}

/// The digest of a byte sequence: FNV-1a folded over its bytes from the left.
pub open spec fn digest(s: Seq<u8>) -> u64
    decreases s.len(),
{
    if s.len() == 0 {
        FNV_OFFSET_BASIS
    } else {
        fnv1a_step(digest(s.drop_last()), s.last())
    }
}

/// Computes the 64-bit FNV-1a digest of `s`.
pub fn fnv1a(s: &[u8]) -> (r: u64)
    ensures
        r == digest(s@),
{
    let mut h: u64 = FNV_OFFSET_BASIS;
    let mut i: usize = 0;
    while i < s.len()
        invariant
            i <= s@.len(),
            h == digest(s@.take(i as int)),
        decreases s@.len() - i,
    {
        proof {
            assert(s@.take(i + 1).drop_last() =~= s@.take(i as int));
        }
        h = (h ^ (s[i] as u64)).wrapping_mul(FNV_PRIME);
        i = i + 1;
    }
    proof {
        assert(s@.take(i as int) =~= s@);
    }
    h
}

} // verus!
