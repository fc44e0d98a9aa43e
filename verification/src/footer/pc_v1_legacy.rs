use crate::errors::FooterParseError;
use crate::footer::utils::{is_base64, is_base64_seq};
use crate::footer::{
    first_pos, le_u32, metadata_result_matches, read_u32_le_at, Data, FooterOutcome, Metadata,
};
use vstd::prelude::*;
use vstd::slice::{slice_subrange, slice_to_vec};

verus! {

/// Largest key token length a legacy trailer may declare; a larger value
/// is a strong signal of a false match and is rejected.
pub const MAX_ALLOWED_EKEY_LEN: usize = 0x500;

/// Marker of a legacy trailer; it carries no fields of its own, only the
/// embedded key token in the surrounding metadata.
#[derive(Debug, Clone, PartialEq)]
pub struct PcV1Legacy;

/// What the legacy recognizer decides for a window: the last four bytes
/// are a little-endian token length, the token precedes them, is truncated
/// at its first zero byte, and must then be base64 text throughout.
pub open spec fn pcv1_outcome(b: Seq<u8>) -> FooterOutcome {
    if b.len() < 8 {
        FooterOutcome::TooSmall(8)
    } else {
        let n = b.len() as int;
        let l = le_u32(b.subrange(n - 4, n));
        if l > 0x500 {
            FooterOutcome::TokenTooLarge(l)
        } else if n - 4 < l {
            FooterOutcome::TooSmall(l + 4)
        } else {
            let pl = b.subrange(n - 4 - l, n - 4);
            let tok = pl.subrange(0, first_pos(pl, 0));
            if !is_base64_seq(tok) {
                FooterOutcome::BadToken
            } else {
                FooterOutcome::V1 { size: l + 4, ekey: tok }
            }
        }
    }
}

impl PcV1Legacy {
    /// Recognize a legacy trailer at the end of the window.
    pub fn from_byte_slice(buffer: &[u8]) -> (r: Result<Option<Metadata>, FooterParseError>)
        ensures
            metadata_result_matches(r, pcv1_outcome(buffer@)),
    {
        let n = buffer.len();
        if n < 8 {
            return Err(FooterParseError::BufferTooSmall(8));
        }
        let l = read_u32_le_at(buffer, n - 4);
        if l as usize > MAX_ALLOWED_EKEY_LEN {
            return Err(FooterParseError::TokenTooLarge(l as usize));
        }
        if n - 4 < l as usize {
            return Err(FooterParseError::BufferTooSmall(l as u64 + 4));
        }
        let llen = l as usize;
        let pl = slice_subrange(buffer, n - 4 - llen, n - 4);
        let z = crate::footer::find_byte(pl, 0);
        proof {
            crate::footer::lemma_first_pos(pl@, 0);
        }
        let tok = slice_subrange(pl, 0, z);
        if !is_base64(tok) {
            return Err(FooterParseError::InvalidTokenEncoding);
        }
        Ok(
            Some(
                Metadata {
                    size: llen + 4,
                    ekey: Some(slice_to_vec(tok)),
                    data: Data::PCv1Legacy(PcV1Legacy),
                },
            ),
        )
    }
}

} // verus!
