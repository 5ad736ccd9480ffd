//! Content-derived fingerprints: a deterministic 64-bit hash of a string,
//! used for fast equality checks in place of string comparison.

use vstd::prelude::*;

verus! {

/// Offset basis of the 64-bit FNV-1a hash.
pub const FNV_OFFSET_BASIS: u64 = 0xcbf2_9ce4_8422_2325;

/// Multiplier of the 64-bit FNV-1a hash.
pub const FNV_PRIME: u64 = 0x0000_0100_0000_01b3;

/// One FNV-1a round: fold one character into the running hash.
pub open spec fn fingerprint_step(h: u64, c: char) -> u64 {
    vstd::wrapping::u64_specs::wrapping_mul(h ^ ((c as u32) as u64), FNV_PRIME)
}

/// The fingerprint of a character sequence: FNV-1a folded over the
/// characters from left to right. A pure function of the sequence alone,
/// so equal strings always produce equal fingerprints.
pub open spec fn fingerprint_seq(s: Seq<char>) -> u64
    decreases s.len(),
{
    if s.len() == 0 {
        FNV_OFFSET_BASIS
    } else {
        fingerprint_step(fingerprint_seq(s.drop_last()), s.last())
    }
}

/// Computes the fingerprint of a string.
pub fn fingerprint_str(s: &str) -> (r: u64)
    ensures
        r == fingerprint_seq(s@),
{
    let n = s.unicode_len();
    let mut h = FNV_OFFSET_BASIS;
    let mut i: usize = 0;
    while i < n
        invariant
            n == s@.len(),
            0 <= i <= n,
            h == fingerprint_seq(s@.take(i as int)),
        decreases n - i,
    {
        let c = s.get_char(i);
        proof {
            assert(s@.take(i + 1).drop_last() =~= s@.take(i as int));
            assert(s@.take(i + 1).last() == s@[i as int]);
        }
        h = (h ^ ((c as u32) as u64)).wrapping_mul(FNV_PRIME);
        i = i + 1;
    }
    proof {
        assert(s@.take(n as int) =~= s@);
    }
    h
}

/// Determinism of the fingerprint: two records built from equal strings
/// carry equal fingerprints, because the fingerprint is a function of the
/// character sequence and of nothing else.
pub proof fn lemma_fingerprint_deterministic(a: Seq<char>, b: Seq<char>)
    requires
        a == b,
    ensures
        fingerprint_seq(a) == fingerprint_seq(b),
{
}

} // verus!
