use md5::Digest;
use vstd::prelude::*;

verus! {

/// The 16-byte MD5 digest of a byte string.
pub uninterp spec fn md5_of(data: Seq<u8>) -> Seq<u8>;

/// Relies on md-5's `Md5::digest`: a 16-byte digest depending on the input
/// bytes alone.
#[verifier::external_body]
pub fn md5(buffer: &[u8]) -> (r: [u8; 16])
    ensures
        r@ == md5_of(buffer@),
{
    md5::Md5::digest(buffer).into()
}

/// Relies on md-5's `Digest::update` and `finalize`: feeding two buffers
/// in order digests their concatenation.
#[verifier::external_body]
pub fn md5_2(buffer1: &[u8], buffer2: &[u8]) -> (r: [u8; 16])
    ensures
        r@ == md5_of(buffer1@ + buffer2@),
{
    let mut digest = md5::Md5::default();
    digest.update(buffer1);
    digest.update(buffer2);
    digest.finalize().into()
}

} // verus!
