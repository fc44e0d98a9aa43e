use crate::errors::QmcCryptoError;
use crate::v2_rc4::hash::{hash, hash_spec};
use crate::v2_rc4::rc4::{
    lemma_ksa_wf, lemma_rc4_advance_succ, rc4_advance, rc4_init, rc4_keystream, RC4,
};
use crate::v2_rc4::segment_key::{get_segment_key, segment_key_spec};
use vstd::arithmetic::div_mod::{lemma_div_is_ordered, lemma_fundamental_div_mod};
use vstd::prelude::*;
use vstd::slice::slice_to_vec;

verus! {

/// Fixed byte length of one keystream segment.
pub const SEGMENT_SIZE: usize = 5120;

/// The per-segment discard count is reduced modulo this bound before use,
/// keeping reinitialization affordable at any offset.
pub const SEGMENT_SKIP_BOUND: u64 = 0x200;

/// How many keystream bytes a segment discards: the segment-key formula
/// seeded by the key byte that the segment index selects, bounded.
pub open spec fn segment_skip(key: Seq<u8>, h: nat, s: nat) -> nat
    recommends
        key.len() >= 1,
{
    let seed = key[(s % key.len()) as int];
    segment_key_spec(s, seed as nat, h) % 0x200
}

/// The keystream byte that masks absolute position `p`: a fresh generator
/// for the key, with the segment's discard count plus the position within
/// the segment skipped.
pub open spec fn rc4_stream_byte(key: Seq<u8>, h: nat, p: nat) -> u8
    recommends
        key.len() >= 1,
{
    let s = p / 5120;
    let q = p % 5120;
    rc4_keystream(rc4_init(key), (segment_skip(key, h, s) + q) as nat)
}

/// Bytes produced by the segmented cipher for the given input bytes
/// starting at the given absolute position: each byte depends only on the
/// key, the fingerprint, its own absolute position, and itself.
pub open spec fn rc4_decrypt_spec(key: Seq<u8>, h: nat, data: Seq<u8>, offset: nat) -> Seq<u8>
    recommends
        key.len() >= 1,
{
    Seq::new(data.len(), |i: int| data[i] ^ rc4_stream_byte(key, h, (offset + i) as nat))
}

/// The segmented cipher: keeps the master key and its fingerprint, and
/// reinitializes a keystream generator per segment touched.
pub struct QMC2RC4 {
    key: Vec<u8>,
    hash: u32,
}

impl QMC2RC4 {
    /// The master key.
    pub closed spec fn view(&self) -> Seq<u8> {
        self.key@
    }

    #[verifier::type_invariant]
    spec fn type_inv(self) -> bool {
        &&& 1 <= self.key@.len()
        &&& self.hash as int == hash_spec(self.key@)
    }

    /// Build the cipher: retain the master key and compute its fingerprint
    /// once. An empty key is rejected.
    pub fn new(key: &[u8]) -> (r: Result<Self, QmcCryptoError>)
        ensures
            match r {
                Ok(c) => key@.len() > 0 && c@ == key@,
                Err(e) => key@.len() == 0 && e == QmcCryptoError::KeyEmpty,
            },
    {
        if key.len() == 0 {
            return Err(QmcCryptoError::KeyEmpty);
        }
        let h = hash(key);
        let k = slice_to_vec(key);
        Ok(QMC2RC4 { key: k, hash: h })
    }

    /// Decrypt (equally: encrypt) the buffer in place, where the buffer's
    /// first byte sits at the given absolute position of the stream. The
    /// result is the same whatever chunking of the stream the calls use.
    pub fn decrypt(&self, data: &mut [u8], offset: usize)
        requires
            old(data)@.len() + offset <= usize::MAX,
        ensures
            final(data)@ == rc4_decrypt_spec(
                self@,
                hash_spec(self@) as nat,
                old(data)@,
                offset as nat,
            ),
    {
        proof {
            use_type_invariant(self);
        }
        let klen = self.key.len();
        let n = data.len();
        let ghost hh = hash_spec(self.key@) as nat;
        let mut i: usize = 0;
        while i < n
            invariant
                1 <= klen,
                klen == self.key@.len(),
                self.hash as int == hash_spec(self.key@),
                hh == hash_spec(self.key@) as nat,
                i <= n,
                data@.len() == n,
                old(data)@.len() == n,
                n + offset <= usize::MAX,
                forall|x: int| i <= x < n ==> data@[x] == old(data)@[x],
                forall|x: int|
                    0 <= x < i ==> data@[x] == (old(data)@[x] ^ rc4_stream_byte(
                        self.key@,
                        hh,
                        (offset + x) as nat,
                    )),
            decreases n - i,
        {
            let p = offset + i;
            let s = p / SEGMENT_SIZE;
            let q = p % SEGMENT_SIZE;
            let remain_seg = SEGMENT_SIZE - q;
            let remain_buf = n - i;
            let count = if remain_seg < remain_buf {
                remain_seg
            } else {
                remain_buf
            };
            let seed = self.key[s % klen];
            proof {
                lemma_div_is_ordered(p as int, usize::MAX as int, 5120);
                assert((s as int + 1) * (seed as int) <= u64::MAX) by (nonlinear_arith)
                    requires
                        0 <= s as int <= 0xFFFF_FFFF_FFFF_FFFFu64 as int / 5120,
                        0 <= seed as int <= 255,
                {
                }
            }
            let skip64 = get_segment_key(s as u64, seed, self.hash) % SEGMENT_SKIP_BOUND;
            let skip = skip64 as usize;
            let ghost m0 = rc4_init(self.key@);
            proof {
                lemma_ksa_wf(self.key@, klen as int);
            }
            let mut gen = RC4::new(self.key.as_slice());
            let total_skip = skip + q;
            let mut d: usize = 0;
            while d < total_skip
                invariant
                    gen.wf(),
                    gen@ == rc4_advance(m0, d as nat),
                    d <= total_skip,
                decreases total_skip - d,
            {
                proof {
                    lemma_rc4_advance_succ(m0, d as nat);
                }
                let _ = gen.generate();
                d = d + 1;
            }
            let ghost data_entry = data@;
            let mut c: usize = 0;
            while c < count
                invariant
                    1 <= klen,
                    klen == self.key@.len(),
                    hh == hash_spec(self.key@) as nat,
                    c <= count,
                    i + count <= n,
                    data@.len() == n,
                    old(data)@.len() == n,
                    n + offset <= usize::MAX,
                    p == offset + i,
                    s == p as int / 5120,
                    q == p as int % 5120,
                    q + count <= 5120,
                    total_skip == skip + q,
                    skip as nat == segment_skip(self.key@, hh, s as nat),
                    gen.wf(),
                    gen@ == rc4_advance(m0, (total_skip + c) as nat),
                    m0 == rc4_init(self.key@),
                    forall|x: int| i + c <= x < n ==> data@[x] == old(data)@[x],
                    forall|x: int| 0 <= x < i ==> data@[x] == data_entry[x],
                    forall|x: int| 0 <= x < i ==> data_entry[x] == (old(data)@[x]
                        ^ rc4_stream_byte(self.key@, hh, (offset + x) as nat)),
                    forall|x: int|
                        i <= x < i + c ==> data@[x] == (old(data)@[x] ^ rc4_stream_byte(
                            self.key@,
                            hh,
                            (offset + x) as nat,
                        )),
                decreases count - c,
            {
                proof {
                    lemma_rc4_advance_succ(m0, (total_skip + c) as nat);
                    lemma_fundamental_div_mod(p as int, 5120);
                    assert((p + c) as int / 5120 == s as int && (p + c) as int % 5120 == q + c)
                        by (nonlinear_arith)
                        requires
                            p as int == 5120 * (s as int) + (q as int),
                            0 <= q as int,
                            0 <= c as int,
                            q + c < 5120,
                            s as int >= 0,
                    {
                    }
                }
                let ks = gen.generate();
                data[i + c] = data[i + c] ^ ks;
                c = c + 1;
            }
            proof {
                assert forall|x: int| 0 <= x < i + count implies data@[x] == (old(data)@[x]
                    ^ rc4_stream_byte(self.key@, hh, (offset + x) as nat)) by {
                    if x < i {
                        assert(data@[x] == data_entry[x]);
                    }
                }
            }
            i = i + count;
        }
        assert(data@ =~= rc4_decrypt_spec(self@, hash_spec(self@) as nat, old(data)@, offset as nat));
    }
}

/// Chunk invariance: decrypting a concatenation in one call equals
/// decrypting the two parts in order with the offsets they occupy. By
/// induction over splits, any chunking of a range yields the same bytes.
pub proof fn lemma_rc4_chunk_invariance(
    key: Seq<u8>,
    h: nat,
    d1: Seq<u8>,
    d2: Seq<u8>,
    offset: nat,
)
    ensures
        rc4_decrypt_spec(key, h, d1 + d2, offset) == rc4_decrypt_spec(key, h, d1, offset)
            + rc4_decrypt_spec(key, h, d2, offset + d1.len()),
{
    assert(rc4_decrypt_spec(key, h, d1 + d2, offset) =~= rc4_decrypt_spec(key, h, d1, offset)
        + rc4_decrypt_spec(key, h, d2, offset + d1.len()));
}

} // verus!
