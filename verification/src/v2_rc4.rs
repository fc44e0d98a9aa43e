pub mod cipher;
pub mod hash;
pub mod rc4;
pub mod rounding;
pub mod segment_key;
