use crate::errors::QmcCryptoError;
use crate::v1::{key_index, qmc1_transform, qmc1_transform_spec, V1_KEY_SIZE};
use vstd::prelude::*;

verus! {

/// Sample-index offset of the key compressor.
pub const INDEX_OFFSET: usize = 71214;

/// One byte of the compressed key table: the sampled key byte with its low
/// bits shifted up and its high bits shifted down by the same amount, ORed.
pub open spec fn compress_byte(key: Seq<u8>, k: int) -> u8
    recommends
        key.len() > 0,
{
    let idx = (k * k + 71214) % (key.len() as int);
    let b = key[idx];
    let sh = ((idx + 4) % 8) as u32;
    (b << sh) | (b >> sh)
}

/// The 128-byte table that an arbitrary non-empty key compresses to.
pub open spec fn key_compress_spec(key: Seq<u8>) -> Seq<u8>
    recommends
        key.len() > 0,
{
    Seq::new(128, |k: int| compress_byte(key, k))
}

/// Deterministically compress an arbitrary non-empty key into a fixed
/// 128-byte table; an empty key is rejected.
pub fn key_compress(long_key: &[u8]) -> (r: Result<Vec<u8>, QmcCryptoError>)
    ensures
        match r {
            Ok(table) => long_key@.len() > 0 && table@.len() == 128 && table@
                == key_compress_spec(long_key@),
            Err(e) => long_key@.len() == 0 && e == QmcCryptoError::KeyEmpty,
        },
{
    let n = long_key.len();
    if n == 0 {
        return Err(QmcCryptoError::KeyEmpty);
    }
    let mut result: Vec<u8> = Vec::new();
    let mut k: usize = 0;
    while k < V1_KEY_SIZE
        invariant
            n == long_key@.len(),
            n > 0,
            k <= 128,
            result@.len() == k,
            forall|j: int| 0 <= j < k ==> result@[j] == compress_byte(long_key@, j),
        decreases 128 - k,
    {
        assert(k * k <= 16384) by (nonlinear_arith)
            requires
                k <= 128,
        ;
        let square = k * k;
        let idx = (square + INDEX_OFFSET) % n;
        assert(idx <= square + INDEX_OFFSET) by (nonlinear_arith)
            requires
                n > 0,
                idx == ((square + INDEX_OFFSET) as int) % (n as int),
        ;
        let b = long_key[idx];
        let sh = ((idx + 4) % 8) as u32;
        let v = (b << sh) | (b >> sh);
        result.push(v);
        k = k + 1;
    }
    assert(result@ =~= key_compress_spec(long_key@));
    Ok(result)
}

/// The XOR-map cipher: every byte of the stream is XORed with a table byte
/// chosen by its absolute position alone, so the transform is stateless,
/// random-access, and its own inverse.
pub struct QMC2Map {
    key: Vec<u8>,
}

/// Bytes produced by the XOR-map cipher for the given input bytes starting
/// at the given absolute position.
pub open spec fn map_decrypt_spec(table: Seq<u8>, data: Seq<u8>, offset: nat) -> Seq<u8>
    recommends
        table.len() == 128,
{
    Seq::new(data.len(), |i: int| qmc1_transform_spec(table, data[i], (offset + i) as nat))
}

impl QMC2Map {
    /// The derived 128-byte key table.
    pub closed spec fn view(&self) -> Seq<u8> {
        self.key@
    }

    #[verifier::type_invariant]
    spec fn type_inv(self) -> bool {
        self.key@.len() == 128
    }

    /// Build the cipher by compressing the master key; only the table is kept.
    pub fn new(key: &[u8]) -> (r: Result<Self, QmcCryptoError>)
        ensures
            match r {
                Ok(cipher) => key@.len() > 0 && cipher@.len() == 128 && cipher@
                    == key_compress_spec(key@),
                Err(e) => key@.len() == 0 && e == QmcCryptoError::KeyEmpty,
            },
    {
        let table = key_compress(key)?;
        Ok(Self { key: table })
    }

    /// Decrypt (equally: encrypt) the buffer in place, where the buffer's
    /// first byte sits at the given absolute position of the stream.
    pub fn decrypt(&self, data: &mut [u8], offset: usize)
        requires
            old(data)@.len() + offset <= usize::MAX,
        ensures
            final(data)@ == map_decrypt_spec(self@, old(data)@, offset as nat),
    {
        proof {
            use_type_invariant(self);
        }
        let n = data.len();
        for i in 0..n
            invariant
                self.key@.len() == 128,
                data@.len() == n,
                n + offset <= usize::MAX,
                old(data)@.len() == n,
                forall|j: int|
                    i <= j < n ==> data@[j] == old(data)@[j],
                forall|j: int|
                    0 <= j < i ==> data@[j] == qmc1_transform_spec(
                        self.key@,
                        old(data)@[j],
                        (offset + j) as nat,
                    ),
        {
            let v = qmc1_transform(self.key.as_slice(), data[i], offset + i);
            data[i] = v;
        }
        assert(data@ =~= map_decrypt_spec(self@, old(data)@, offset as nat));
    }
}

/// The XOR-map transform is an involution: applying it twice at the same
/// absolute position returns every byte to its original value.
pub proof fn lemma_map_involution(table: Seq<u8>, data: Seq<u8>, offset: nat)
    requires
        table.len() == 128,
    ensures
        map_decrypt_spec(table, map_decrypt_spec(table, data, offset), offset) == data,
{
    let once = map_decrypt_spec(table, data, offset);
    let twice = map_decrypt_spec(table, once, offset);
    assert forall|i: int| 0 <= i < data.len() implies twice[i] == data[i] by {
        let k = table[key_index((offset + i) as nat) as int];
        let d = data[i];
        assert((d ^ k) ^ k == d) by (bit_vector);
    }
    assert(twice =~= data);
}

} // verus!
