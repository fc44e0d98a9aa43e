use vstd::prelude::*;

verus! {

/// Number of bytes in the derived key table of the XOR-map cipher.
pub const V1_KEY_SIZE: usize = 128;

/// Absolute offsets up to this bound address the key table directly; larger
/// offsets wrap modulo this bound (the modulus is 0x7FFF, not 0x8000).
pub const V1_OFFSET_BOUNDARY: usize = 0x7FFF;

/// The effective offset: the absolute position itself up to the boundary,
/// and the position modulo the boundary past it.
pub open spec fn effective_offset(offset: nat) -> nat {
    if offset <= 0x7FFF {
        offset
    } else {
        offset % 0x7FFF
    }
}

/// Which key-table byte masks the byte at an absolute position.
pub open spec fn key_index(offset: nat) -> nat {
    effective_offset(offset) % 128
}

/// One byte of the XOR-map transform: the input byte XORed with the
/// key-table byte selected by the absolute position.
pub open spec fn qmc1_transform_spec(key: Seq<u8>, value: u8, offset: nat) -> u8
    recommends
        key.len() == 128,
{
    value ^ key[key_index(offset) as int]
}

/// Transform one byte at the given absolute position with a 128-byte key table.
pub fn qmc1_transform(key: &[u8], value: u8, offset: usize) -> (r: u8)
    requires
        key@.len() == V1_KEY_SIZE,
    ensures
        r == qmc1_transform_spec(key@, value, offset as nat),
{
    let effective: usize = if offset <= V1_OFFSET_BOUNDARY {
        offset
    } else {
        offset % V1_OFFSET_BOUNDARY
    };
    value ^ key[effective % V1_KEY_SIZE]
}

/// Past the boundary the transform is periodic: a position at or above
/// 0x8000 masks with the same key byte as that position reduced modulo
/// 0x7FFF.
pub proof fn lemma_offset_periodicity(key: Seq<u8>, value: u8, offset: nat)
    requires
        key.len() == 128,
        offset > 0x7FFF,
    ensures
        qmc1_transform_spec(key, value, offset) == qmc1_transform_spec(
            key,
            value,
            (offset % 0x7FFF) as nat,
        ),
{
    assert(offset % 0x7FFF < 0x7FFF) by {
        vstd::arithmetic::div_mod::lemma_mod_bound(offset as int, 0x7FFF);
    }
}

} // verus!
