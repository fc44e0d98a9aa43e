use qmc_crypto::errors::FooterParseError;
use qmc_crypto::footer::android_stag::STagMetadata;
use qmc_crypto::footer::pc_v1_legacy::PcV1Legacy;
use qmc_crypto::footer::pc_v2_musicex::PcV2MusicEx;
use qmc_crypto::footer::utils::{from_ascii_utf16, is_base64};
use qmc_crypto::footer::{from_byte_slice, Data, FooterDetection};

fn stag_trailer(payload: &[u8]) -> Vec<u8> {
    let mut buffer = Vec::new();
    buffer.extend_from_slice(b"padding-bytes-");
    buffer.extend_from_slice(payload);
    buffer.extend_from_slice(&(payload.len() as u32).to_be_bytes());
    buffer.extend_from_slice(b"STag");
    buffer
}

fn pcv1_trailer(token_field: &[u8]) -> Vec<u8> {
    let mut buffer = Vec::new();
    buffer.extend_from_slice(b"payload-bytes-here");
    buffer.extend_from_slice(token_field);
    buffer.extend_from_slice(&(token_field.len() as u32).to_le_bytes());
    buffer
}

fn musicex_trailer(payload: &[u8], version: u32) -> Vec<u8> {
    let mut buffer = Vec::new();
    buffer.extend_from_slice(payload);
    buffer.extend_from_slice(&version.to_le_bytes());
    buffer.extend_from_slice(b"musicex\x00");
    buffer
}

#[test]
fn test_stag_parses() {
    let buffer = stag_trailer(b"42,2,abcmid");
    let metadata = STagMetadata::from_byte_slice(&buffer)
        .expect("well-formed trailer")
        .expect("magic present");
    assert_eq!(metadata.size, 11 + 8);
    assert_eq!(metadata.ekey, None);
    match metadata.data {
        Data::AndroidSTag(st) => {
            assert_eq!(st.resource_id, 42);
            assert_eq!(st.media_mid, b"abcmid".to_vec());
        }
        other => panic!("wrong variant: {:?}", other),
    }
}

#[test]
fn test_stag_bad_version() {
    let buffer = stag_trailer(b"42,3,abcmid");
    let err = STagMetadata::from_byte_slice(&buffer).unwrap_err();
    assert_eq!(err, FooterParseError::UnsupportedVersion(b"3".to_vec()));
}

#[test]
fn test_stag_bad_id() {
    let buffer = stag_trailer(b"4x,2,abcmid");
    let err = STagMetadata::from_byte_slice(&buffer).unwrap_err();
    assert_eq!(err, FooterParseError::InvalidIdentifier(b"4x".to_vec()));
}

#[test]
fn test_stag_wrong_field_count() {
    let buffer = stag_trailer(b"42,2");
    let err = STagMetadata::from_byte_slice(&buffer).unwrap_err();
    assert_eq!(err, FooterParseError::MalformedPayload(b"42,2".to_vec()));
    let buffer = stag_trailer(b"42,2,a,b");
    let err = STagMetadata::from_byte_slice(&buffer).unwrap_err();
    assert_eq!(err, FooterParseError::MalformedPayload(b"42,2,a,b".to_vec()));
}

#[test]
fn test_stag_no_magic() {
    let buffer = b"not a trailer at all".to_vec();
    assert_eq!(STagMetadata::from_byte_slice(&buffer), Ok(None));
}

#[test]
fn test_stag_too_small() {
    let err = STagMetadata::from_byte_slice(b"STag").unwrap_err();
    assert_eq!(err, FooterParseError::BufferTooSmall(8));
}

#[test]
fn test_pcv1_token_too_large() {
    let mut buffer = vec![0u8; 32];
    buffer.extend_from_slice(&0x501u32.to_le_bytes());
    let err = PcV1Legacy::from_byte_slice(&buffer).unwrap_err();
    assert_eq!(err, FooterParseError::TokenTooLarge(0x501));
}

#[test]
fn test_pcv1_null_padded_token_truncates() {
    let buffer = pcv1_trailer(b"QWJjZDEyMw==\x00\x00\x00\x00");
    let metadata = PcV1Legacy::from_byte_slice(&buffer)
        .expect("valid trailer")
        .expect("always matches");
    assert_eq!(metadata.size, 16 + 4);
    assert_eq!(metadata.ekey, Some(b"QWJjZDEyMw==".to_vec()));
    assert!(matches!(metadata.data, Data::PCv1Legacy(_)));
}

#[test]
fn test_pcv1_invalid_token_byte() {
    let buffer = pcv1_trailer(b"QWJj!ZDEyMw==");
    let err = PcV1Legacy::from_byte_slice(&buffer).unwrap_err();
    assert_eq!(err, FooterParseError::InvalidTokenEncoding);
}

#[test]
fn test_musicex_v1_hands_out_payload() {
    let buffer = musicex_trailer(b"inner payload bytes", 1);
    let payload = PcV2MusicEx::from_byte_slice(&buffer)
        .expect("supported version")
        .expect("magic present");
    assert_eq!(payload, b"inner payload bytes".to_vec());
}

#[test]
fn test_musicex_unsupported_version() {
    let buffer = musicex_trailer(b"inner payload bytes", 2);
    let err = PcV2MusicEx::from_byte_slice(&buffer).unwrap_err();
    assert_eq!(
        err,
        FooterParseError::UnsupportedVersion(2u32.to_le_bytes().to_vec())
    );
}

#[test]
fn test_musicex_no_magic() {
    let buffer = b"something long enough without the marker".to_vec();
    assert_eq!(PcV2MusicEx::from_byte_slice(&buffer), Ok(None));
}

#[test]
fn test_dispatcher_orders_recognizers() {
    let stag = stag_trailer(b"7,2,mid");
    match from_byte_slice(&stag) {
        Ok(Some(FooterDetection::Complete(m))) => {
            assert!(matches!(m.data, Data::AndroidSTag(_)));
        }
        other => panic!("unexpected: {:?}", other),
    }

    let mex = musicex_trailer(b"opaque", 1);
    match from_byte_slice(&mex) {
        Ok(Some(FooterDetection::MusicExV1(p))) => assert_eq!(p, b"opaque".to_vec()),
        other => panic!("unexpected: {:?}", other),
    }

    let v1 = pcv1_trailer(b"dG9rZW4=");
    match from_byte_slice(&v1) {
        Ok(Some(FooterDetection::Complete(m))) => {
            assert_eq!(m.ekey, Some(b"dG9rZW4=".to_vec()));
            assert!(matches!(m.data, Data::PCv1Legacy(_)));
        }
        other => panic!("unexpected: {:?}", other),
    }

    let junk = vec![b'!'; 64];
    assert_eq!(
        from_byte_slice(&junk),
        Err(FooterParseError::TokenTooLarge(0x21212121))
    );
}

#[test]
fn test_is_base64_alphabet() {
    assert!(is_base64(b"AZaz09+/="));
    assert!(is_base64(b""));
    assert!(!is_base64(b"abc!"));
    assert!(!is_base64(b" "));
}

#[test]
fn test_from_ascii_utf16_stops_at_invalid() {
    assert_eq!(from_ascii_utf16(b"a\x00b\x00c\x00"), b"abc".to_vec());
    assert_eq!(from_ascii_utf16(b"a\x00\x00\x00b\x00"), b"a".to_vec());
    assert_eq!(from_ascii_utf16(b"a\x00b\x01c\x00"), b"a".to_vec());
    assert_eq!(from_ascii_utf16(b"a"), b"".to_vec());
}

#[test]
fn test_stag_declared_length_exceeds_window() {
    let mut buffer = Vec::new();
    buffer.extend_from_slice(b"abc");
    buffer.extend_from_slice(&100u32.to_be_bytes());
    buffer.extend_from_slice(b"STag");
    let err = STagMetadata::from_byte_slice(&buffer).unwrap_err();
    assert_eq!(err, FooterParseError::BufferTooSmall(108));
}

#[test]
fn test_pcv1_empty_token() {
    let buffer = pcv1_trailer(b"");
    let metadata = PcV1Legacy::from_byte_slice(&buffer)
        .expect("valid trailer")
        .expect("always matches");
    assert_eq!(metadata.size, 4);
    assert_eq!(metadata.ekey, Some(Vec::new()));
}

#[test]
fn test_pcv1_declared_length_exceeds_window() {
    let mut buffer = vec![0u8; 8];
    buffer.extend_from_slice(&64u32.to_le_bytes());
    let err = PcV1Legacy::from_byte_slice(&buffer).unwrap_err();
    assert_eq!(err, FooterParseError::BufferTooSmall(68));
}
