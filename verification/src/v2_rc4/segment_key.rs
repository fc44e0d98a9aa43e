use crate::v2_rc4::rounding::{
    bit_len, div53_u64, div_round53, lemma_bit_len_le, lemma_pow2_values, pow2_u128, round53,
    round53_u64,
};
use vstd::arithmetic::power2::{lemma_pow2_pos, lemma_pow2_strictly_increases, pow2};
use vstd::prelude::*;

verus! {

/// The keystream-discard count of a segment, replicating the binary64
/// evaluation of `hash / ((id + 1) * seed) * 100` truncated toward zero:
/// the divisor is rounded as converting it to binary64 rounds it, the
/// quotient and the product by 100 are each rounded to 53 significant
/// bits with ties to even, and a zero seed yields 0.
pub open spec fn segment_key_spec(id: nat, seed: nat, hash: nat) -> nat
    recommends
        hash < pow2(32),
        (id + 1) * seed < pow2(64),
{
    if seed == 0 || hash == 0 {
        0
    } else {
        let d = (id + 1) * seed;
        let (bm, bs) = round53(d);
        let (n, e) = div_round53(hash, bm, bs);
        let (m2, s2) = round53((n * 100) as nat);
        let e2 = e + s2;
        if e2 >= 0 {
            m2 * pow2(e2 as nat)
        } else {
            m2 / pow2((-e2) as nat)
        }
    }
}

/// Map `(segment index, seed byte, fingerprint)` to the number of keystream
/// bytes a segment discards before use.
pub fn get_segment_key(id: u64, seed: u8, hash: u32) -> (r: u64)
    requires
        (id + 1) * (seed as int) <= u64::MAX,
    ensures
        r as nat == segment_key_spec(id as nat, seed as nat, hash as nat),
{
    if seed == 0 || hash == 0 {
        return 0;
    }
    proof {
        lemma_pow2_values();
        assert(id + 1 <= (id + 1) * (seed as int)) by (nonlinear_arith)
            requires
                seed as int >= 1,
                id as int >= 0,
        {
        }
    }
    let d: u64 = (id + 1) * (seed as u64);
    let (bm, bs) = round53_u64(d);
    let (n, e) = div53_u64(hash as u64, bm, bs);
    let p: u64 = n * 100;
    proof {
        lemma_bit_len_le(p as nat, 60);
        if p >= 0x20_0000_0000_0000 {
            crate::v2_rc4::rounding::lemma_bit_len_bounds(p as nat);
            if bit_len(p as nat) < 53 {
                lemma_pow2_strictly_increases(bit_len(p as nat), 53);
            }
        }
    }
    let (m2, s2) = round53_u64(p);
    let e2: i64 = e + (s2 as i64);
    let sh: u64 = (-e2) as u64;
    if sh >= 54 {
        proof {
            lemma_pow2_pos(sh as nat);
            if sh > 54 {
                lemma_pow2_strictly_increases(54, sh as nat);
            }
            lemma_pow2_values();
            assert((m2 as nat) < pow2(sh as nat));
            assert(m2 as nat / pow2(sh as nat) == 0) by (nonlinear_arith)
                requires
                    (m2 as nat) < pow2(sh as nat),
                    pow2(sh as nat) >= 1,
            {
            }
        }
        0
    } else {
        proof {
            lemma_pow2_pos(sh as nat);
        }
        let q = (m2 as u128) / pow2_u128(sh as u32);
        proof {
            assert(m2 as nat / pow2(sh as nat) <= m2 as nat) by (nonlinear_arith)
                requires
                    pow2(sh as nat) >= 1,
            {
            }
        }
        q as u64
    }
}

} // verus!
