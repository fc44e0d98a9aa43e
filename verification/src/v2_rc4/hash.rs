use vstd::prelude::*;

verus! {

/// The multiplicative fingerprint continued from position `i` with running
/// value `h`: zero bytes are skipped; a non-zero byte multiplies `h` with
/// 32-bit wraparound, and the scan stops (keeping the previous value) as
/// soon as a product is zero or fails to grow.
pub open spec fn hash_from(key: Seq<u8>, i: int, h: int) -> int
    decreases key.len() - i,
{
    if i < 0 || i >= key.len() {
        h
    } else if key[i] == 0 {
        hash_from(key, i + 1, h)
    } else {
        let next = (h * key[i]) % 0x1_0000_0000;
        if next == 0 || next <= h {
            h
        } else {
            hash_from(key, i + 1, next)
        }
    }
}

/// The numeric fingerprint of a key: the early-terminating multiplicative
/// scan started with 1.
pub open spec fn hash_spec(key: Seq<u8>) -> int {
    hash_from(key, 0, 1)
}

/// Reduce a key to its 32-bit multiplicative fingerprint.
pub fn hash(key: &[u8]) -> (r: u32)
    ensures
        r == hash_spec(key@),
        r >= 1,
{
    let mut h: u32 = 1;
    let mut i: usize = 0;
    while i < key.len()
        invariant
            i <= key@.len(),
            h >= 1,
            hash_from(key@, 0, 1) == hash_from(key@, i as int, h as int),
        decreases key@.len() - i,
    {
        let v = key[i];
        if v != 0 {
            let next = h.wrapping_mul(v as u32);
            if next == 0 || next <= h {
                return h;
            }
            assert(next as int == (h as int * key@[i as int] as int) % 0x1_0000_0000);
            h = next;
        }
        i = i + 1;
    }
    h
}

} // verus!
