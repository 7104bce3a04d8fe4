//! Hashing.
use vstd::prelude::*;

verus! {

/// The hash after one more byte.
pub open spec fn fnv_step(h: u64, b: u8) -> u64 {
    (h ^ (b as u64)).wrapping_mul(0x100000001b3u64)
}

/// The 64-bit FNV-1a hash of `bytes`.
pub open spec fn fnv(bytes: Seq<u8>) -> u64
    decreases bytes.len(),
{
    if bytes.len() == 0 {
        0xcbf29ce484222325u64
    } else {
        fnv_step(fnv(bytes.drop_last()), bytes.last())
    }
}

/// The 64-bit FNV-1a hash of a text in UTF-8.
pub open spec fn text_hash(s: Seq<char>) -> u64 {
    fnv(vstd::utf8::encode_utf8(s))
}

/// FNV-1a 64-bit hash of the bytes of `s`. It does not depend on the compiler
/// or the process.
pub fn fnv1a(s: &str) -> (r: u64)
    ensures
        r == text_hash(s@),
{
    let bytes = s.as_bytes();
    let mut h: u64 = 0xcbf29ce484222325;
    let mut i: usize = 0;
    assert(bytes@.take(0) =~= Seq::empty());
    while i < bytes.len()
        invariant
            i <= bytes@.len(),
            h == fnv(bytes@.take(i as int)),
        decreases bytes@.len() - i,
    {
        assert(bytes@.take(i + 1).drop_last() =~= bytes@.take(i as int));
        h = h ^ (bytes[i] as u64);
        h = h.wrapping_mul(0x100000001b3);
        i = i + 1;
    }
    assert(bytes@.take(bytes@.len() as int) =~= bytes@);
    h
}

/// The hash takes up byte after byte, from its offset on: each is mixed in and
/// the whole multiplied by the prime.
pub proof fn hash_takes_up_each_byte(bytes: Seq<u8>, b: u8)
    ensures
        fnv(Seq::empty()) == 0xcbf29ce484222325u64,
        fnv(bytes.push(b)) == (fnv(bytes) ^ (b as u64)).wrapping_mul(0x100000001b3u64),
{
    assert(bytes.push(b).drop_last() =~= bytes);
}

} // verus!
