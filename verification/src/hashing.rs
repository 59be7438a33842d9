//! The stable hash that seeds deterministic activation noise.
use vstd::prelude::*;
use vstd::utf8::encode_utf8;

verus! {

/// The starting value of the hash, before the seed is mixed in.
pub open spec fn offset_basis() -> u64 {
    0xcbf2_9ce4_8422_2325
}

/// The multiplier of each step of the hash.
pub open spec fn hash_prime() -> u64 {
    0x0000_0100_0000_01b3
}

/// One step: mix a byte in, then multiply, wrapping.
pub open spec fn hash_step(h: u64, b: u8) -> u64 {
    ((((h ^ (b as u64)) as nat) * (hash_prime() as nat)) % 0x1_0000_0000_0000_0000) as u64
}

/// The hash of `bytes`, starting from `h`, a byte at a time.
pub open spec fn hash_bytes(h: u64, bytes: Seq<u8>) -> u64
    decreases bytes.len(),
{
    if bytes.len() == 0 {
        h
    } else {
        hash_step(hash_bytes(h, bytes.drop_last()), bytes.last())
    }
}

/// The hash of a label under a seed: the seed mixed into the offset basis,
/// then each UTF-8 byte of the label.
pub fn label_hash(seed: u64, label: &str) -> (r: u64)
    ensures
        r == hash_bytes(seed ^ offset_basis(), encode_utf8(label@)),
{
    let bytes = label.as_bytes();
    let mut hash: u64 = seed ^ 0xcbf2_9ce4_8422_2325;
    let mut i: usize = 0;
    while i < bytes.len()
        invariant
            bytes@ == encode_utf8(label@),
            i <= bytes@.len(),
            hash == hash_bytes(seed ^ offset_basis(), bytes@.subrange(0, i as int)),
        decreases bytes@.len() - i,
    {
        let b = bytes[i];
        assert(bytes@.subrange(0, i + 1).drop_last() == bytes@.subrange(0, i as int));
        hash = (hash ^ (b as u64)).wrapping_mul(0x0000_0100_0000_01b3);
        i = i + 1;
    }
    assert(bytes@.subrange(0, i as int) == bytes@);
    hash
}

} // verus!
