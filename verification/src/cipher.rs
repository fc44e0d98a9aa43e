use crate::errors::QmcCryptoError;
use crate::v2_map::{key_compress_spec, map_decrypt_spec, QMC2Map};
use crate::v2_rc4::cipher::{rc4_decrypt_spec, QMC2RC4};
use crate::v2_rc4::hash::hash_spec;
use vstd::prelude::*;

verus! {

/// Keys shorter than this select the XOR-map cipher; longer keys select
/// the segmented keystream cipher.
pub const CIPHER_KEY_LEN_THRESHOLD: usize = 300;

/// The cipher chosen for one file, fixed at construction by the raw key's
/// length.
pub enum QMCv2Cipher {
    MapL(QMC2Map),
    RC4(QMC2RC4),
}

impl QMCv2Cipher {
    /// Bytes the chosen cipher produces for the given input bytes starting
    /// at the given absolute position.
    pub open spec fn decrypt_spec(&self, data: Seq<u8>, offset: nat) -> Seq<u8> {
        match self {
            QMCv2Cipher::MapL(c) => map_decrypt_spec(c@, data, offset),
            QMCv2Cipher::RC4(c) => rc4_decrypt_spec(c@, hash_spec(c@) as nat, data, offset),
        }
    }

    /// Build the cipher for a raw key: an empty key is rejected, a short
    /// key yields the XOR-map cipher over its compressed table, and a long
    /// key yields the segmented cipher over the key itself.
    pub fn new(key: &[u8]) -> (r: Result<Self, QmcCryptoError>)
        ensures
            match r {
                Ok(c) => key@.len() > 0 && (match c {
                    QMCv2Cipher::MapL(m) => key@.len() < 300 && m@ == key_compress_spec(key@),
                    QMCv2Cipher::RC4(s) => key@.len() >= 300 && s@ == key@,
                }),
                Err(e) => key@.len() == 0 && e == QmcCryptoError::KeyEmpty,
            },
    {
        if key.len() == 0 {
            return Err(QmcCryptoError::KeyEmpty);
        }
        if key.len() < CIPHER_KEY_LEN_THRESHOLD {
            let inner = QMC2Map::new(key)?;
            Ok(QMCv2Cipher::MapL(inner))
        } else {
            let inner = QMC2RC4::new(key)?;
            Ok(QMCv2Cipher::RC4(inner))
        }
    }

    /// Decrypt (equally: encrypt) the buffer in place, where the buffer's
    /// first byte sits at the given absolute position of the stream. Any
    /// chunking of the stream yields identical output.
    pub fn decrypt(&self, data: &mut [u8], offset: usize)
        requires
            old(data)@.len() + offset <= usize::MAX,
        ensures
            final(data)@ == self.decrypt_spec(old(data)@, offset as nat),
    {
        match self {
            QMCv2Cipher::MapL(c) => c.decrypt(data, offset),
            QMCv2Cipher::RC4(c) => c.decrypt(data, offset),
        }
    }
}

} // verus!
