//! Recovery of plaintext audio from a streaming-media container that appends
//! a self-describing trailer to an encrypted payload. The trailer parsers
//! recognize the known trailer encodings; the key-derivation and
//! stream-cipher modules turn a raw key into a byte-offset-addressable
//! decryption function.

pub mod base64;
pub mod cipher;
pub mod errors;
pub mod footer;
pub mod md5;
pub mod utils;
pub mod v1;
pub mod v2_map;
pub mod v2_rc4;
