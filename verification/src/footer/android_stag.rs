use crate::errors::FooterParseError;
use crate::footer::{
    all_digits, be_u32, dec_val, find_byte, first_pos, metadata_result_matches, parse_u64_digits,
    read_u32_be_at, Data, FooterOutcome, Metadata,
};
use vstd::prelude::*;
use vstd::slice::{slice_subrange, slice_to_vec};

verus! {

/// Data of an `STag` trailer: the numeric resource id and the textual
/// media identifier used by the external key lookup.
#[derive(Debug, Clone, PartialEq)]
pub struct STagMetadata {
    /// Resource identifier (the `media_mid` field), as bytes.
    pub media_mid: Vec<u8>,
    /// Resource id (numeric).
    pub resource_id: u64,
}

/// Whether the window ends with the 4-byte marker `STag`.
pub open spec fn is_stag_suffix(b: Seq<u8>) -> bool
    recommends
        b.len() >= 4,
{
    let n = b.len() as int;
    b[n - 4] == 0x53 && b[n - 3] == 0x54 && b[n - 2] == 0x61 && b[n - 1] == 0x67
}

/// What the comma-separated `STag` payload `<digits>,<version>,<media_mid>`
/// yields: exactly three fields, version `2`, an all-digit id that fits
/// 64 bits; anything else is the matching structural error.
pub open spec fn stag_payload_outcome(pl: Seq<u8>, l: int) -> FooterOutcome {
    let c1 = first_pos(pl, 0x2c);
    if c1 == pl.len() {
        FooterOutcome::Malformed(pl)
    } else {
        let rest = pl.subrange(c1 + 1, pl.len() as int);
        let c2 = first_pos(rest, 0x2c);
        if c2 == rest.len() {
            FooterOutcome::Malformed(pl)
        } else {
            let f0 = pl.subrange(0, c1);
            let f1 = rest.subrange(0, c2);
            let f2 = rest.subrange(c2 + 1, rest.len() as int);
            if first_pos(f2, 0x2c) != f2.len() {
                FooterOutcome::Malformed(pl)
            } else if f1 != seq![0x32u8] {
                FooterOutcome::BadVersion(f1)
            } else if !(f0.len() >= 1 && all_digits(f0) && dec_val(f0) <= u64::MAX) {
                FooterOutcome::BadId(f0)
            } else {
                FooterOutcome::Stag { size: l + 8, resource_id: dec_val(f0), media_mid: f2 }
            }
        }
    }
}

/// What the `STag` recognizer decides for a window: no match without the
/// marker; with it, the big-endian length before the marker must fit the
/// window and the payload must parse.
pub open spec fn stag_outcome(b: Seq<u8>) -> FooterOutcome {
    if b.len() < 8 {
        FooterOutcome::TooSmall(8)
    } else if !is_stag_suffix(b) {
        FooterOutcome::NoMatch
    } else {
        let n = b.len() as int;
        let l = be_u32(b.subrange(n - 8, n - 4));
        if n - 8 < l {
            FooterOutcome::TooSmall(l + 8)
        } else {
            stag_payload_outcome(b.subrange(n - 8 - l, n - 8), l)
        }
    }
}

impl STagMetadata {
    /// Recognize an `STag` trailer at the end of the window.
    pub fn from_byte_slice(buffer: &[u8]) -> (r: Result<Option<Metadata>, FooterParseError>)
        ensures
            metadata_result_matches(r, stag_outcome(buffer@)),
    {
        let n = buffer.len();
        if n < 8 {
            return Err(FooterParseError::BufferTooSmall(8));
        }
        if !(buffer[n - 4] == 0x53 && buffer[n - 3] == 0x54 && buffer[n - 2] == 0x61 && buffer[n
            - 1] == 0x67) {
            return Ok(None);
        }
        let l = read_u32_be_at(buffer, n - 8);
        if n - 8 < l as usize {
            return Err(FooterParseError::BufferTooSmall(l as u64 + 8));
        }
        let llen = l as usize;
        let pl = slice_subrange(buffer, n - 8 - llen, n - 8);
        let c1 = find_byte(pl, 0x2c);
        proof {
            crate::footer::lemma_first_pos(pl@, 0x2c);
        }
        if c1 == pl.len() {
            return Err(FooterParseError::MalformedPayload(slice_to_vec(pl)));
        }
        let rest = slice_subrange(pl, c1 + 1, pl.len());
        let c2 = find_byte(rest, 0x2c);
        proof {
            crate::footer::lemma_first_pos(rest@, 0x2c);
        }
        if c2 == rest.len() {
            return Err(FooterParseError::MalformedPayload(slice_to_vec(pl)));
        }
        let f2 = slice_subrange(rest, c2 + 1, rest.len());
        if find_byte(f2, 0x2c) != f2.len() {
            return Err(FooterParseError::MalformedPayload(slice_to_vec(pl)));
        }
        let f1 = slice_subrange(rest, 0, c2);
        if !(f1.len() == 1 && f1[0] == 0x32) {
            proof {
                if f1@ == seq![0x32u8] {
                    assert(f1@.len() == 1 && f1@[0] == 0x32);
                }
            }
            return Err(FooterParseError::UnsupportedVersion(slice_to_vec(f1)));
        }
        proof {
            assert(f1@ =~= seq![0x32u8]);
        }
        let f0 = slice_subrange(pl, 0, c1);
        match parse_u64_digits(f0) {
            None => {
                proof {
                    if all_digits(f0@) {
                        crate::footer::lemma_dec_val_nonneg(f0@);
                    }
                }
                Err(FooterParseError::InvalidIdentifier(slice_to_vec(f0)))
            },
            Some(id) => Ok(
                Some(
                    Metadata {
                        size: llen + 8,
                        ekey: None,
                        data: Data::AndroidSTag(
                            STagMetadata { media_mid: slice_to_vec(f2), resource_id: id },
                        ),
                    },
                ),
            ),
        }
    }
}

} // verus!
