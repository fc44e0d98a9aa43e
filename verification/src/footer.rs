pub mod android_stag;
pub mod pc_v1_legacy;
pub mod pc_v2_musicex;
pub mod utils;

use crate::errors::FooterParseError;
use crate::footer::android_stag::STagMetadata;
use crate::footer::pc_v1_legacy::PcV1Legacy;
use crate::footer::pc_v2_musicex::PcV2MusicEx;
use vstd::prelude::*;

verus! {

/// How many trailing bytes of a file the caller should hand to the parser:
/// enough for every fixed detection window and for the largest key token a
/// legacy trailer may declare.
pub const INITIAL_DETECTION_LEN: usize = 1284;

/// The uniform result of trailer recognition: how many trailing bytes the
/// trailer occupies, the embedded key token if the variant carries one, and
/// the variant's own data.
#[derive(Debug, Clone, PartialEq)]
pub struct Metadata {
    pub size: usize,
    pub ekey: Option<Vec<u8>>,
    pub data: Data,
}

/// Which trailer variant was recognized.
#[derive(Debug, Clone, PartialEq)]
pub enum Data {
    AndroidSTag(STagMetadata),
    PCv1Legacy(PcV1Legacy),
    PCv2MusicEx(PcV2MusicEx),
}

/// What probing a trailer window yields when a recognizer matches.
#[derive(Debug, Clone, PartialEq)]
pub enum FooterDetection {
    /// A recognizer produced complete metadata.
    Complete(Metadata),
    /// The window ends in a version-1 `musicex` trailer; the inner payload
    /// belongs to an external sub-parser and is handed out unread.
    MusicExV1(Vec<u8>),
}

/// The mathematical description of what one recognizer, or the whole
/// parser, decides for a window: a match with its fields, no match, or a
/// structural error.
pub enum FooterOutcome {
    /// The window is too short; at least this many bytes are needed.
    TooSmall(int),
    /// The distinguishing magic is absent.
    NoMatch,
    /// A complete `STag` trailer.
    Stag { size: int, resource_id: int, media_mid: Seq<u8> },
    /// A complete legacy trailer with its embedded key token.
    V1 { size: int, ekey: Seq<u8> },
    /// A version-1 `musicex` trailer whose inner payload awaits the
    /// external sub-parser.
    MusicEx { payload: Seq<u8> },
    /// A version field held this unsupported value.
    BadVersion(Seq<u8>),
    /// The numeric identifier field held this invalid text.
    BadId(Seq<u8>),
    /// The comma-separated payload was not three fields.
    Malformed(Seq<u8>),
    /// The declared token length exceeds the allowed maximum.
    TokenTooLarge(int),
    /// The token held a byte outside the base64 alphabet.
    BadToken,
}

/// The big-endian 32-bit value of four bytes.
pub open spec fn be_u32(s: Seq<u8>) -> int
    recommends
        s.len() == 4,
{
    s[0] * 0x100_0000 + s[1] * 0x1_0000 + s[2] * 0x100 + s[3]
}

/// The little-endian 32-bit value of four bytes.
pub open spec fn le_u32(s: Seq<u8>) -> int
    recommends
        s.len() == 4,
{
    s[3] * 0x100_0000 + s[2] * 0x1_0000 + s[1] * 0x100 + s[0]
}

/// Index of the first occurrence of a byte, or the length if absent.
pub open spec fn first_pos(s: Seq<u8>, b: u8) -> int
    decreases s.len(),
{
    if s.len() == 0 {
        0
    } else if s[0] == b {
        0
    } else {
        1 + first_pos(s.subrange(1, s.len() as int), b)
    }
}

/// `first_pos` is the first occurrence: in range, hitting the byte if it is
/// present, with nothing equal before it.
pub proof fn lemma_first_pos(s: Seq<u8>, b: u8)
    ensures
        0 <= first_pos(s, b) <= s.len(),
        first_pos(s, b) < s.len() ==> s[first_pos(s, b)] == b,
        forall|k: int| 0 <= k < first_pos(s, b) ==> s[k] != b,
        first_pos(s, b) == s.len() ==> forall|k: int| 0 <= k < s.len() ==> s[k] != b,
    decreases s.len(),
{
    if s.len() > 0 && s[0] != b {
        let tail = s.subrange(1, s.len() as int);
        lemma_first_pos(tail, b);
        assert forall|k: int| 0 <= k < first_pos(s, b) implies s[k] != b by {
            if k > 0 {
                assert(s[k] == tail[k - 1]);
            }
        }
        if first_pos(s, b) == s.len() {
            assert forall|k: int| 0 <= k < s.len() implies s[k] != b by {
                if k > 0 {
                    assert(s[k] == tail[k - 1]);
                }
            }
        }
    }
}

/// Find the first occurrence of a byte in a slice, or its length if absent.
pub fn find_byte(s: &[u8], b: u8) -> (r: usize)
    ensures
        r as int == first_pos(s@, b),
{
    proof {
        lemma_first_pos(s@, b);
    }
    let n = s.len();
    let mut i: usize = 0;
    while i < n
        invariant
            i <= n,
            n == s@.len(),
            forall|k: int| 0 <= k < i ==> s@[k] != b,
            0 <= first_pos(s@, b) <= s@.len(),
            first_pos(s@, b) < s@.len() ==> s@[first_pos(s@, b)] == b,
            forall|k: int| 0 <= k < first_pos(s@, b) ==> s@[k] != b,
            first_pos(s@, b) == s@.len() ==> forall|k: int| 0 <= k < s@.len() ==> s@[k] != b,
        decreases n - i,
    {
        if s[i] == b {
            return i;
        }
        i = i + 1;
    }
    n
}

/// Read four bytes at a position as a big-endian 32-bit integer.
pub fn read_u32_be_at(b: &[u8], pos: usize) -> (r: u32)
    requires
        pos + 4 <= b@.len(),
    ensures
        r as int == be_u32(b@.subrange(pos as int, pos as int + 4)),
{
    let n = b.len();
    let r = (b[pos] as u32) * 0x100_0000 + (b[pos + 1] as u32) * 0x1_0000 + (b[pos + 2] as u32)
        * 0x100 + (b[pos + 3] as u32);
    r
}

/// Read four bytes at a position as a little-endian 32-bit integer.
pub fn read_u32_le_at(b: &[u8], pos: usize) -> (r: u32)
    requires
        pos + 4 <= b@.len(),
    ensures
        r as int == le_u32(b@.subrange(pos as int, pos as int + 4)),
{
    let n = b.len();
    let r = (b[pos + 3] as u32) * 0x100_0000 + (b[pos + 2] as u32) * 0x1_0000 + (b[pos + 1] as u32)
        * 0x100 + (b[pos] as u32);
    r
}

/// Whether every byte is an ASCII digit.
pub open spec fn all_digits(s: Seq<u8>) -> bool {
    forall|k: int| 0 <= k < s.len() ==> 0x30 <= #[trigger] s[k] <= 0x39
}

/// The decimal value of a digit string (most significant digit first).
pub open spec fn dec_val(s: Seq<u8>) -> int
    decreases s.len(),
{
    if s.len() == 0 {
        0
    } else {
        dec_val(s.drop_last()) * 10 + (s.last() - 0x30)
    }
}

/// The decimal value of a digit string is non-negative and grows with its
/// prefixes.
pub proof fn lemma_dec_val_nonneg(s: Seq<u8>)
    requires
        all_digits(s),
    ensures
        dec_val(s) >= 0,
    decreases s.len(),
{
    if s.len() > 0 {
        assert(all_digits(s.drop_last()));
        lemma_dec_val_nonneg(s.drop_last());
    }
}

/// For a digit string, every prefix's value is at most the whole value.
pub proof fn lemma_dec_val_prefix(s: Seq<u8>, j: int)
    requires
        all_digits(s),
        0 <= j <= s.len(),
    ensures
        dec_val(s.subrange(0, j)) <= dec_val(s),
    decreases s.len() - j,
{
    if j < s.len() {
        lemma_dec_val_prefix(s, j + 1);
        let p = s.subrange(0, j + 1);
        assert(p.drop_last() =~= s.subrange(0, j));
        assert(all_digits(p.drop_last()));
        lemma_dec_val_nonneg(p.drop_last());
    } else {
        assert(s.subrange(0, j) =~= s);
    }
}

/// Parse a non-empty all-digit string into a 64-bit integer; anything
/// else, or a value that does not fit, yields nothing.
pub fn parse_u64_digits(s: &[u8]) -> (r: Option<u64>)
    ensures
        match r {
            Some(v) => s@.len() >= 1 && all_digits(s@) && v as int == dec_val(s@),
            None => s@.len() == 0 || !all_digits(s@) || dec_val(s@) > u64::MAX,
        },
{
    let n = s.len();
    if n == 0 {
        return None;
    }
    let mut acc: u64 = 0;
    let mut i: usize = 0;
    while i < n
        invariant
            i <= n,
            n == s@.len(),
            all_digits(s@.subrange(0, i as int)),
            acc as int == dec_val(s@.subrange(0, i as int)),
        decreases n - i,
    {
        let d = s[i];
        if !(0x30 <= d && d <= 0x39) {
            return None;
        }
        let ghost pre = s@.subrange(0, i as int);
        let ghost cur = s@.subrange(0, i as int + 1);
        proof {
            assert(cur.drop_last() =~= pre);
        }
        let step = match acc.checked_mul(10) {
            Some(t) => t.checked_add((d - 0x30) as u64),
            None => None,
        };
        match step {
            Some(v) => {
                acc = v;
            },
            None => {
                proof {
                    assert(all_digits(cur));
                    assert(dec_val(cur) > u64::MAX);
                    if all_digits(s@) {
                        lemma_dec_val_prefix(s@, i as int + 1);
                    }
                }
                return None;
            },
        }
        i = i + 1;
    }
    proof {
        assert(s@.subrange(0, n as int) =~= s@);
    }
    Some(acc)
}

/// How the result of a recognizer that yields complete metadata must read,
/// for each mathematical outcome.
pub open spec fn metadata_result_matches(
    r: Result<Option<Metadata>, FooterParseError>,
    o: FooterOutcome,
) -> bool {
    match o {
        FooterOutcome::TooSmall(n) => r matches Err(FooterParseError::BufferTooSmall(x))
            && x as int == n,
        FooterOutcome::NoMatch => r == Ok::<Option<Metadata>, FooterParseError>(None),
        FooterOutcome::Stag { size, resource_id, media_mid } => r matches Ok(Some(m))
            && m.size as int == size && m.ekey is None && (m.data matches Data::AndroidSTag(st)
            && st.resource_id as int == resource_id && st.media_mid@ == media_mid),
        FooterOutcome::V1 { size, ekey } => r matches Ok(Some(m)) && m.size as int == size && (
        m.ekey matches Some(e) && e@ == ekey) && m.data matches Data::PCv1Legacy(_),
        FooterOutcome::MusicEx { .. } => false,
        FooterOutcome::BadVersion(v) => r matches Err(FooterParseError::UnsupportedVersion(x))
            && x@ == v,
        FooterOutcome::BadId(v) => r matches Err(FooterParseError::InvalidIdentifier(x)) && x@
            == v,
        FooterOutcome::Malformed(v) => r matches Err(FooterParseError::MalformedPayload(x)) && x@
            == v,
        FooterOutcome::TokenTooLarge(n) => r matches Err(FooterParseError::TokenTooLarge(x))
            && x as int == n,
        FooterOutcome::BadToken => r == Err::<Option<Metadata>, FooterParseError>(
            FooterParseError::InvalidTokenEncoding,
        ),
    }
}

/// How the whole parser's result must read, for each mathematical outcome.
pub open spec fn detection_result_matches(
    r: Result<Option<FooterDetection>, FooterParseError>,
    o: FooterOutcome,
) -> bool {
    match o {
        FooterOutcome::TooSmall(n) => r matches Err(FooterParseError::BufferTooSmall(x))
            && x as int == n,
        FooterOutcome::NoMatch => r == Ok::<Option<FooterDetection>, FooterParseError>(None),
        FooterOutcome::Stag { size, resource_id, media_mid } => r matches Ok(
            Some(FooterDetection::Complete(m)),
        ) && m.size as int == size && m.ekey is None && (m.data matches Data::AndroidSTag(st)
            && st.resource_id as int == resource_id && st.media_mid@ == media_mid),
        FooterOutcome::V1 { size, ekey } => r matches Ok(Some(FooterDetection::Complete(m)))
            && m.size as int == size && (m.ekey matches Some(e) && e@ == ekey) && (
        m.data matches Data::PCv1Legacy(_)),
        FooterOutcome::MusicEx { payload } => r matches Ok(Some(FooterDetection::MusicExV1(p)))
            && p@ == payload,
        FooterOutcome::BadVersion(v) => r matches Err(FooterParseError::UnsupportedVersion(x))
            && x@ == v,
        FooterOutcome::BadId(v) => r matches Err(FooterParseError::InvalidIdentifier(x)) && x@
            == v,
        FooterOutcome::Malformed(v) => r matches Err(FooterParseError::MalformedPayload(x)) && x@
            == v,
        FooterOutcome::TokenTooLarge(n) => r matches Err(FooterParseError::TokenTooLarge(x))
            && x as int == n,
        FooterOutcome::BadToken => r == Err::<Option<FooterDetection>, FooterParseError>(
            FooterParseError::InvalidTokenEncoding,
        ),
    }
}

/// What the whole parser decides: the recognizers are probed in a fixed
/// order, a recognizer that matched decides alone (a matched-but-malformed
/// trailer is an error, never a fall-through), and the catch-all legacy
/// recognizer comes last.
pub open spec fn footer_outcome(b: Seq<u8>) -> FooterOutcome {
    let stag = crate::footer::android_stag::stag_outcome(b);
    if !(stag is NoMatch) {
        stag
    } else {
        let mex = crate::footer::pc_v2_musicex::musicex_outcome(b);
        if !(mex is NoMatch) {
            mex
        } else {
            crate::footer::pc_v1_legacy::pcv1_outcome(b)
        }
    }
}

/// Probe the trailing window with every recognizer in order and return the
/// first decision: complete metadata, a `musicex` payload for the external
/// sub-parser, no trailer, or the hard error of a matched recognizer.
pub fn from_byte_slice(buffer: &[u8]) -> (r: Result<Option<FooterDetection>, FooterParseError>)
    ensures
        detection_result_matches(r, footer_outcome(buffer@)),
{
    match STagMetadata::from_byte_slice(buffer)? {
        Some(metadata) => Ok(Some(FooterDetection::Complete(metadata))),
        None => match PcV2MusicEx::from_byte_slice(buffer)? {
            Some(payload) => Ok(Some(FooterDetection::MusicExV1(payload))),
            None => match PcV1Legacy::from_byte_slice(buffer)? {
                Some(metadata) => Ok(Some(FooterDetection::Complete(metadata))),
                None => Ok(None),
            },
        },
    }
}

} // verus!
