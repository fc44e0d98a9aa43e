use crate::errors::FooterParseError;
use crate::footer::{le_u32, read_u32_le_at, FooterOutcome};
use vstd::prelude::*;
use vstd::slice::{slice_subrange, slice_to_vec};

verus! {

/// Data of a `musicex` trailer, as the external inner-payload sub-parser
/// produces it: the resource identifier and the file name used for the
/// external key lookup.
#[derive(Debug, Clone, PartialEq)]
pub struct PcV2MusicEx {
    /// Resource identifier (`.mid`), as bytes.
    pub mid: Vec<u8>,
    /// The actual file name used for the key lookup, as bytes.
    pub media_filename: Vec<u8>,
}

/// Whether the window ends with the 8-byte marker `musicex` followed by a
/// zero byte.
pub open spec fn is_musicex_suffix(b: Seq<u8>) -> bool
    recommends
        b.len() >= 8,
{
    let n = b.len() as int;
    b[n - 8] == 0x6d && b[n - 7] == 0x75 && b[n - 6] == 0x73 && b[n - 5] == 0x69 && b[n - 4]
        == 0x63 && b[n - 3] == 0x65 && b[n - 2] == 0x78 && b[n - 1] == 0
}

/// What the `musicex` recognizer decides for a window: no match without
/// the marker; with it, the little-endian version before the marker must
/// be 1, and the preceding payload belongs to the external sub-parser.
pub open spec fn musicex_outcome(b: Seq<u8>) -> FooterOutcome {
    if b.len() < 16 {
        FooterOutcome::TooSmall(16)
    } else if !is_musicex_suffix(b) {
        FooterOutcome::NoMatch
    } else {
        let n = b.len() as int;
        let v = le_u32(b.subrange(n - 12, n - 8));
        if v != 1 {
            FooterOutcome::BadVersion(b.subrange(n - 12, n - 8))
        } else {
            FooterOutcome::MusicEx { payload: b.subrange(0, n - 12) }
        }
    }
}

/// How the recognizer's result must read, for each mathematical outcome:
/// a recognized version-1 trailer hands out its inner payload.
pub open spec fn musicex_result_matches(
    r: Result<Option<Vec<u8>>, FooterParseError>,
    o: FooterOutcome,
) -> bool {
    match o {
        FooterOutcome::TooSmall(n) => r matches Err(FooterParseError::BufferTooSmall(x))
            && x as int == n,
        FooterOutcome::NoMatch => r == Ok::<Option<Vec<u8>>, FooterParseError>(None),
        FooterOutcome::MusicEx { payload } => r matches Ok(Some(p)) && p@ == payload,
        FooterOutcome::BadVersion(v) => r matches Err(FooterParseError::UnsupportedVersion(x))
            && x@ == v,
        _ => false,
    }
}

impl PcV2MusicEx {
    /// Recognize a `musicex` trailer at the end of the window. A match
    /// yields the inner payload for the external sub-parser, which alone
    /// knows the payload's format and the trailer's full size.
    pub fn from_byte_slice(buffer: &[u8]) -> (r: Result<Option<Vec<u8>>, FooterParseError>)
        ensures
            musicex_result_matches(r, musicex_outcome(buffer@)),
    {
        let n = buffer.len();
        if n < 16 {
            return Err(FooterParseError::BufferTooSmall(16));
        }
        if !(buffer[n - 8] == 0x6d && buffer[n - 7] == 0x75 && buffer[n - 6] == 0x73 && buffer[n
            - 5] == 0x69 && buffer[n - 4] == 0x63 && buffer[n - 3] == 0x65 && buffer[n - 2] == 0x78
            && buffer[n - 1] == 0) {
            return Ok(None);
        }
        let v = read_u32_le_at(buffer, n - 12);
        if v != 1 {
            return Err(
                FooterParseError::UnsupportedVersion(
                    slice_to_vec(slice_subrange(buffer, n - 12, n - 8)),
                ),
            );
        }
        Ok(Some(slice_to_vec(slice_subrange(buffer, 0, n - 12))))
    }
}

} // verus!
