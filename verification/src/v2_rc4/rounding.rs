use vstd::arithmetic::power2::{
    lemma2_to64, lemma2_to64_rest, lemma_pow2_adds, lemma_pow2_pos, lemma_pow2_strictly_increases,
    lemma_pow2_unfold, pow2,
};
use vstd::prelude::*;

verus! {

/// Number of binary digits of a natural number (0 for 0).
pub open spec fn bit_len(x: nat) -> nat
    decreases x,
{
    if x == 0 {
        0
    } else {
        1 + bit_len(x / 2)
    }
}

/// The quotient rounded to the nearest integer, ties to even: the rounding
/// that underlies every step of binary64 arithmetic.
pub open spec fn rne(num: int, den: int) -> int
    recommends
        den > 0,
{
    let q = num / den;
    let r = num % den;
    if 2 * r < den {
        q
    } else if 2 * r > den {
        q + 1
    } else if q % 2 == 0 {
        q
    } else {
        q + 1
    }
}

/// A positive integer rounded to at most 53 significant bits, as binary64
/// rounds an integer it cannot represent exactly. The result `(m, s)`
/// stands for the value `m * pow2(s)`.
pub open spec fn round53(x: nat) -> (nat, nat) {
    if x < pow2(53) {
        (x, 0)
    } else {
        let s = (bit_len(x) - 53) as nat;
        (rne(x as int, pow2(s) as int) as nat, s)
    }
}

/// The binary64 quotient of `a` by the value `bm * pow2(bs)`: the mantissa
/// `n` and binary exponent `e` of the correctly rounded result `n * 2^e`.
pub open spec fn div_round53(a: nat, bm: nat, bs: nat) -> (nat, int)
    recommends
        1 <= a < pow2(32),
        1 <= bm,
{
    let k = 53 + bit_len(bm) - bit_len(a);
    if (a * pow2(k as nat)) / bm >= pow2(53) {
        (rne((a * pow2((k - 1) as nat)) as int, bm as int) as nat, -(k - 1) - bs)
    } else {
        (rne((a * pow2(k as nat)) as int, bm as int) as nat, -k - bs)
    }
}

/// A number has as many binary digits as the powers of two that bracket it.
pub proof fn lemma_bit_len_bounds(x: nat)
    requires
        x >= 1,
    ensures
        bit_len(x) >= 1,
        pow2((bit_len(x) - 1) as nat) <= x < pow2(bit_len(x)),
    decreases x,
{
    lemma2_to64();
    if x == 1 {
        reveal_with_fuel(bit_len, 2);
    } else {
        lemma_bit_len_bounds(x / 2);
        let l = bit_len(x / 2);
        assert(bit_len(x) == l + 1);
        vstd::arithmetic::div_mod::lemma_fundamental_div_mod(x as int, 2);
        assert(2 * (x / 2) <= x);
        assert(x <= 2 * (x / 2) + 1);
        lemma_pow2_unfold((l + 1) as nat);
        lemma_pow2_unfold(l);
        assert(pow2(l) <= x);
        assert(x < pow2((l + 1) as nat));
    }
}

/// Below `pow2(l)` a number has at most `l` binary digits.
pub proof fn lemma_bit_len_le(x: nat, l: nat)
    requires
        x < pow2(l),
    ensures
        bit_len(x) <= l,
{
    if x >= 1 {
        lemma_bit_len_bounds(x);
        if bit_len(x) > l {
            lemma_pow2_strictly_increases(l, (bit_len(x) - 1) as nat);
        }
    }
}

/// `pow2` of exponents used here, as concrete numbers.
pub proof fn lemma_pow2_values()
    ensures
        pow2(32) == 0x1_0000_0000,
        pow2(53) == 0x20_0000_0000_0000,
        pow2(54) == 0x40_0000_0000_0000,
        pow2(60) == 0x1000_0000_0000_0000,
        pow2(64) == 0x1_0000_0000_0000_0000,
        pow2(128) == 0x1_0000_0000_0000_0000_0000_0000_0000_0000,
{
    lemma2_to64();
    lemma2_to64_rest();
    lemma_pow2_adds(64, 64);
}

/// Number of binary digits, for values held in a `u128`.
pub fn bit_len_u128(x: u128) -> (r: u32)
    ensures
        r as nat == bit_len(x as nat),
{
    proof {
        lemma_pow2_values();
        lemma_bit_len_le(x as nat, 128);
    }
    let mut n: u128 = x;
    let mut l: u32 = 0;
    while n > 0
        invariant
            bit_len(x as nat) == l as nat + bit_len(n as nat),
            l as nat <= bit_len(x as nat),
            bit_len(x as nat) <= 128,
        decreases n,
    {
        n = n / 2;
        l = l + 1;
    }
    l
}

/// `pow2` as an executable `u128`.
pub fn pow2_u128(e: u32) -> (r: u128)
    requires
        e <= 120,
    ensures
        r as nat == pow2(e as nat),
{
    let mut r: u128 = 1;
    let mut i: u32 = 0;
    proof {
        lemma2_to64();
    }
    while i < e
        invariant
            i <= e,
            e <= 120,
            r as nat == pow2(i as nat),
        decreases e - i,
    {
        proof {
            lemma_pow2_unfold((i + 1) as nat);
            lemma_pow2_strictly_increases((i + 1) as nat, 128);
            lemma_pow2_values();
        }
        r = r * 2;
        i = i + 1;
    }
    r
}

/// Round-to-nearest-even quotient, executable.
pub fn rne_u128(num: u128, den: u128) -> (r: u128)
    requires
        1 <= den,
        num < 0x4000_0000_0000_0000_0000_0000_0000_0000,
    ensures
        r as int == rne(num as int, den as int),
        num / den <= r <= num / den + 1,
{
    let q = num / den;
    let rem = num % den;
    if rem < den - rem {
        q
    } else if rem > den - rem {
        q + 1
    } else if q % 2 == 0 {
        q
    } else {
        q + 1
    }
}

/// Round a positive `u64` to at most 53 significant bits, as converting it
/// to binary64 does. Returns the mantissa and the binary scale.
pub fn round53_u64(x: u64) -> (r: (u64, u32))
    requires
        x >= 1,
    ensures
        r.0 as nat == round53(x as nat).0,
        r.1 as nat == round53(x as nat).1,
        1 <= r.0 <= 0x20_0000_0000_0000,
        r.1 <= 11,
{
    proof {
        lemma_pow2_values();
    }
    let two53: u64 = 0x20_0000_0000_0000;
    if x < two53 {
        (x, 0)
    } else {
        proof {
            lemma_bit_len_bounds(x as nat);
            lemma_bit_len_le(x as nat, 64);
            if bit_len(x as nat) < 53 {
                lemma_pow2_strictly_increases(bit_len(x as nat), 53);
            }
        }
        let l = bit_len_u128(x as u128);
        let s = l - 53;
        proof {
            lemma_pow2_pos(s as nat);
            lemma_pow2_strictly_increases(s as nat, (l - 1) as nat);
        }
        let p = pow2_u128(s);
        let m = rne_u128(x as u128, p);
        proof {
            // The rounded mantissa stays within [2^52, 2^53]:
            // x / 2^s >= 2^(l-1) / 2^s = 2^52, and x / 2^s < 2^53 so rne <= 2^53.
            lemma_pow2_adds((s + 52) as nat, 1);
            lemma_pow2_adds(s as nat, 53);
            assert(x as nat / pow2(s as nat) < pow2(53)) by (nonlinear_arith)
                requires
                    pow2(s as nat) > 0,
                    (x as nat) < pow2(s as nat) * pow2(53),
            {
            }
            assert(m >= 1) by (nonlinear_arith)
                requires
                    m as int == rne(x as int, pow2(s as nat) as int),
                    pow2(s as nat) >= 1,
                    x as nat >= pow2(s as nat),
            {
            }
        }
        (m as u64, s)
    }
}

/// The binary64 quotient of `a` (an exact 32-bit integer) by the binary64
/// value `bm * pow2(bs)`: the mantissa and binary exponent of the correctly
/// rounded result.
pub fn div53_u64(a: u64, bm: u64, bs: u32) -> (r: (u64, i64))
    requires
        1 <= a < 0x1_0000_0000,
        1 <= bm <= 0x20_0000_0000_0000,
        bs <= 11,
    ensures
        r.0 as nat == div_round53(a as nat, bm as nat, bs as nat).0,
        r.1 as int == div_round53(a as nat, bm as nat, bs as nat).1,
        1 <= r.0 <= 0x20_0000_0000_0000,
        -117 <= r.1 <= -21,
{
    proof {
        lemma_pow2_values();
        lemma_bit_len_bounds(a as nat);
        lemma_bit_len_le(a as nat, 32);
        lemma_bit_len_bounds(bm as nat);
        lemma_bit_len_le(bm as nat, 54);
    }
    let la = bit_len_u128(a as u128);
    let lb = bit_len_u128(bm as u128);
    let k = 53 + lb - la;
    let ghost pla = pow2(la as nat);
    let ghost plb1 = pow2((lb - 1) as nat);
    proof {
        lemma_pow2_pos(k as nat);
        lemma_pow2_pos((k - 1) as nat);
        lemma_pow2_pos((lb - 1) as nat);
        lemma_pow2_adds(la as nat, k as nat);
        lemma_pow2_adds(54, (lb - 1) as nat);
        lemma_pow2_strictly_increases((53 + lb) as nat, 126);
        lemma_pow2_strictly_increases(126, 128);
        assert(pow2(126) == 0x4000_0000_0000_0000_0000_0000_0000_0000) by {
            lemma_pow2_adds(63, 63);
            lemma2_to64_rest();
        }
        // a * 2^k < 2^(la + k) = 2^(53 + lb) = 2^54 * 2^(lb - 1)
        assert(a as nat * pow2(k as nat) < pow2(54) * plb1) by (nonlinear_arith)
            requires
                (a as nat) < pla,
                pow2(k as nat) >= 1,
                pla * pow2(k as nat) == pow2(54) * plb1,
        {
        }
        assert(pow2(54) * plb1 == pow2((53 + lb) as nat)) by {
            lemma_pow2_adds(54, (lb - 1) as nat);
        }
    }
    let pk = pow2_u128(k);
    let big: u128 = (a as u128) * pk;
    let n0: u128 = big / (bm as u128);
    proof {
        // big / bm < 2^54 because big < 2^54 * 2^(lb-1) <= 2^54 * bm.
        assert(big as nat / (bm as nat) < pow2(54)) by (nonlinear_arith)
            requires
                bm as nat >= plb1,
                plb1 >= 1,
                (big as nat) < pow2(54) * plb1,
        {
        }
    }
    let two53: u128 = 0x20_0000_0000_0000;
    if n0 >= two53 {
        proof {
            lemma_pow2_adds(la as nat, (k - 1) as nat);
            lemma_pow2_adds(53, (lb - 1) as nat);
            lemma_pow2_strictly_increases((52 + lb) as nat, 126);
            // a * 2^(k-1) < 2^(la + k - 1) = 2^(52 + lb) = 2^53 * 2^(lb - 1)
            assert(a as nat * pow2((k - 1) as nat) < pow2(53) * plb1) by (nonlinear_arith)
                requires
                    (a as nat) < pla,
                    pow2((k - 1) as nat) >= 1,
                    pla * pow2((k - 1) as nat) == pow2(53) * plb1,
            {
            }
        }
        let pk1 = pow2_u128(k - 1);
        let big2: u128 = (a as u128) * pk1;
        proof {
            assert(big2 as nat / (bm as nat) < pow2(53)) by (nonlinear_arith)
                requires
                    bm as nat >= plb1,
                    plb1 >= 1,
                    (big2 as nat) < pow2(53) * plb1,
            {
            }
        }
        proof {
            lemma_pow2_strictly_increases(lb as nat, (k - 1) as nat);
            assert(pow2((k - 1) as nat) <= big2 as nat) by (nonlinear_arith)
                requires
                    a as nat >= 1,
                    big2 as nat == a as nat * pow2((k - 1) as nat),
            {
            }
            assert(big2 as nat / (bm as nat) >= 1) by (nonlinear_arith)
                requires
                    bm as nat >= 1,
                    big2 as nat >= bm as nat,
            {
            }
        }
        let n = rne_u128(big2, bm as u128);
        (n as u64, -((k - 1) as i64) - (bs as i64))
    } else {
        proof {
            lemma_pow2_strictly_increases(lb as nat, k as nat);
            assert(pow2(k as nat) <= big as nat) by (nonlinear_arith)
                requires
                    a as nat >= 1,
                    big as nat == a as nat * pow2(k as nat),
            {
            }
            assert(big as nat / (bm as nat) >= 1) by (nonlinear_arith)
                requires
                    bm as nat >= 1,
                    big as nat >= bm as nat,
            {
            }
        }
        let n = rne_u128(big, bm as u128);
        (n as u64, -(k as i64) - (bs as i64))
    }
}

} // verus!
