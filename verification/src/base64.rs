use crate::errors::Base64DecodeError;
use base64::Engine;
use vstd::prelude::*;

verus! {

/// The base64 text of a byte string, standard alphabet, padded.
pub uninterp spec fn b64_std_of(data: Seq<u8>) -> Seq<char>;

/// The base64 text of a byte string, URL-safe alphabet, padded.
pub uninterp spec fn b64_url_of(data: Seq<u8>) -> Seq<char>;

/// What base64 text decodes to under the standard alphabet, padding
/// optional: the bytes, or nothing when the text is invalid.
pub uninterp spec fn b64_std_decoded(data: Seq<u8>) -> Option<Seq<u8>>;

/// What base64 text decodes to under the URL-safe alphabet, padding
/// optional: the bytes, or nothing when the text is invalid.
pub uninterp spec fn b64_url_decoded(data: Seq<u8>) -> Option<Seq<u8>>;

/// Relies on base64's `Engine::encode` over `GeneralPurpose` with the
/// standard alphabet and default (padding) config: the text depends on the
/// input bytes alone, four characters for every three bytes begun.
#[verifier::external_body]
pub fn encode(data: &[u8]) -> (r: String)
    requires
        data@.len() <= usize::MAX / 4,
    ensures
        r@ == b64_std_of(data@),
        r@.len() == ((data@.len() + 2) / 3) * 4,
{
    base64::engine::GeneralPurpose::new(
        &base64::alphabet::STANDARD,
        base64::engine::GeneralPurposeConfig::new().with_decode_padding_mode(
            base64::engine::DecodePaddingMode::Indifferent,
        ),
    ).encode(data)
}

/// Relies on base64's `Engine::encode` over `GeneralPurpose` with the
/// URL-safe alphabet and default (padding) config: the text depends on the
/// input bytes alone, four characters for every three bytes begun.
#[verifier::external_body]
pub fn encode_url_safe(data: &[u8]) -> (r: String)
    requires
        data@.len() <= usize::MAX / 4,
    ensures
        r@ == b64_url_of(data@),
        r@.len() == ((data@.len() + 2) / 3) * 4,
{
    base64::engine::GeneralPurpose::new(
        &base64::alphabet::URL_SAFE,
        base64::engine::GeneralPurposeConfig::new().with_decode_padding_mode(
            base64::engine::DecodePaddingMode::Indifferent,
        ),
    ).encode(data)
}

#[verifier::external_type_specification]
#[verifier::external_body]
pub struct ExDecodeError(base64::DecodeError);

/// Relies on base64's `Engine::decode` over `GeneralPurpose` with the
/// standard alphabet, padding indifferent: success and bytes depend on the
/// input alone, and the output never outgrows the input.
#[verifier::external_body]
fn decode_std(data: &[u8]) -> (r: Result<Vec<u8>, base64::DecodeError>)
    ensures
        match r {
            Ok(v) => b64_std_decoded(data@) == Some(v@) && v@.len() <= data@.len(),
            Err(_) => b64_std_decoded(data@) is None,
        },
{
    base64::engine::GeneralPurpose::new(
        &base64::alphabet::STANDARD,
        base64::engine::GeneralPurposeConfig::new().with_decode_padding_mode(
            base64::engine::DecodePaddingMode::Indifferent,
        ),
    ).decode(data)
}

/// Relies on base64's `Engine::decode` over `GeneralPurpose` with the
/// URL-safe alphabet, padding indifferent: success and bytes depend on the
/// input alone, and the output never outgrows the input.
#[verifier::external_body]
fn decode_url(data: &[u8]) -> (r: Result<Vec<u8>, base64::DecodeError>)
    ensures
        match r {
            Ok(v) => b64_url_decoded(data@) == Some(v@) && v@.len() <= data@.len(),
            Err(_) => b64_url_decoded(data@) is None,
        },
{
    base64::engine::GeneralPurpose::new(
        &base64::alphabet::URL_SAFE,
        base64::engine::GeneralPurposeConfig::new().with_decode_padding_mode(
            base64::engine::DecodePaddingMode::Indifferent,
        ),
    ).decode(data)
}

/// Decode base64 text under the standard alphabet, padded or not.
pub fn decode(data: &[u8]) -> (r: Result<Vec<u8>, Base64DecodeError>)
    ensures
        match r {
            Ok(v) => b64_std_decoded(data@) == Some(v@) && v@.len() <= data@.len(),
            Err(_) => b64_std_decoded(data@) is None,
        },
{
    match decode_std(data) {
        Ok(v) => Ok(v),
        Err(_) => Err(Base64DecodeError),
    }
}

/// Decode base64 text under the URL-safe alphabet, padded or not.
pub fn decode_url_safe(data: &[u8]) -> (r: Result<Vec<u8>, Base64DecodeError>)
    ensures
        match r {
            Ok(v) => b64_url_decoded(data@) == Some(v@) && v@.len() <= data@.len(),
            Err(_) => b64_url_decoded(data@) is None,
        },
{
    match decode_url(data) {
        Ok(v) => Ok(v),
        Err(_) => Err(Base64DecodeError),
    }
}

/// Decode base64 text (standard alphabet) in place: the decoded bytes
/// overwrite the front of the buffer, and the decoded length is returned;
/// the rest of the buffer keeps its old bytes.
pub fn decode_overwrite(data: &mut [u8]) -> (r: Result<usize, Base64DecodeError>)
    ensures
        match r {
            Ok(len) => b64_std_decoded(old(data)@) matches Some(d) && d.len() == len
                && final(data)@ == d + old(data)@.skip(len as int),
            Err(_) => b64_std_decoded(old(data)@) is None && final(data)@ == old(data)@,
        },
{
    let decoded = match decode(data) {
        Ok(v) => v,
        Err(e) => {
            return Err(e);
        },
    };
    let len = decoded.len();
    let mut k: usize = 0;
    while k < len
        invariant
            k <= len,
            len == decoded@.len(),
            len <= data@.len(),
            data@.len() == old(data)@.len(),
            b64_std_decoded(old(data)@) == Some(decoded@),
            forall|x: int| 0 <= x < k ==> data@[x] == decoded@[x],
            forall|x: int| k <= x < data@.len() ==> data@[x] == old(data)@[x],
        decreases len - k,
    {
        data[k] = decoded[k];
        k = k + 1;
    }
    proof {
        assert(data@ =~= decoded@ + old(data)@.skip(len as int));
    }
    Ok(len)
}

} // verus!
