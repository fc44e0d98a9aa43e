use qmc_crypto::cipher::QMCv2Cipher;
use qmc_crypto::errors::QmcCryptoError;
use qmc_crypto::v1::qmc1_transform;
use qmc_crypto::v2_map::{key_compress, QMC2Map};

fn generate_key_128() -> Vec<u8> {
    (1..=128u8).collect()
}

fn generate_key_325() -> Vec<u8> {
    (b'a'..=b'z')
        .chain(b'A'..=b'Z')
        .chain(b'0'..=b'9')
        .cycle()
        .take(325)
        .collect()
}

#[test]
fn test_decode_start() {
    let test_key = generate_key_128();
    let mut data = *b"igohj&pg{fo";
    for (i, datum) in data.iter_mut().enumerate() {
        *datum = qmc1_transform(&test_key, *datum, i);
    }
    assert_eq!(data, *b"hello world");
}

#[test]
fn test_decode_boundary() {
    let test_key = generate_key_128();
    let mut data = [
        0x13, 0x19, 0x11, 0x12, 0x10, 0xa0, 0x75, 0x6c, 0x76, 0x69, 0x62,
    ];
    for (i, datum) in data.iter_mut().enumerate() {
        *datum = qmc1_transform(&test_key, *datum, 0x7FFA + i);
    }
    assert_eq!(data, *b"hello world");
}

#[test]
fn test_compress() {
    let expected = [
        0x79, 0xf4, 0x00, 0x75, 0x9e, 0x36, 0x00, 0x14, 0x8a, 0x63, 0x00, 0xb4, 0xbe, 0x77, 0x00,
        0x17, 0xba, 0x00, 0x37, 0x00, 0x00, 0x00, 0xbf, 0x80, 0x41, 0xbf, 0x83, 0xdd, 0xbc, 0x5c,
        0x02, 0x43, 0x14, 0x82, 0x49, 0x02, 0x00, 0x55, 0xbe, 0x6d, 0xbf, 0x49, 0x80, 0x8e, 0x43,
        0x00, 0xfa, 0x41, 0x67, 0xa8, 0x17, 0xf4, 0xae, 0x16, 0x15, 0x00, 0xc1, 0x37, 0x82, 0xdd,
        0x36, 0x21, 0x38, 0x55, 0x00, 0x79, 0x41, 0x9e, 0x42, 0xc1, 0x36, 0xfa, 0xcf, 0x35, 0x00,
        0x00, 0x41, 0xdd, 0x43, 0x42, 0x17, 0x4d, 0x8e, 0x8a, 0xdd, 0x00, 0xbe, 0xf5, 0x38, 0xb4,
        0xbf, 0x00, 0x7a, 0xcc, 0x4d, 0x02, 0x00, 0xcf, 0xc1, 0xc1, 0x02, 0xa8, 0x00, 0x16, 0xc1,
        0xbf, 0xc2, 0x42, 0x00, 0x49, 0x00, 0xc1, 0xc2, 0xf5, 0x00, 0x17, 0x41, 0xdc, 0x83, 0xc2,
        0x00, 0x9e, 0x41, 0xc1, 0x71, 0x36, 0x00, 0x80,
    ];
    let key = generate_key_325();
    let actual = key_compress(&key).expect("should compress ok");
    assert_eq!(&expected[..], &actual[..]);
}

#[test]
fn test_decrypt() {
    let key = generate_key_325();
    let cipher = QMC2Map::new(&key).expect("should not fail");
    let mut actual = [
        0x00u8, 0x9e, 0x41, 0xc1, 0x71, 0x36, 0x00, 0x80, 0xf4, 0x00, 0x75, 0x9e, 0x36, 0x00,
        0x14, 0x8a,
    ];
    cipher.decrypt(&mut actual, 32760);
    assert_eq!(actual, [0u8; 0x10]);
}

#[test]
fn test_compress_empty_key() {
    assert_eq!(key_compress(&[]), Err(QmcCryptoError::KeyEmpty));
    assert!(QMC2Map::new(&[]).is_err());
}

#[test]
fn test_map_involution_roundtrip() {
    let key = generate_key_325();
    let cipher = QMC2Map::new(&key).expect("should not fail");
    let original: Vec<u8> = (0..=255u8).cycle().take(600).collect();
    let mut data = original.clone();
    cipher.decrypt(&mut data, 0x7F00);
    assert_ne!(data, original);
    cipher.decrypt(&mut data, 0x7F00);
    assert_eq!(data, original);
}

#[test]
fn test_map_chunking_matches_single_call() {
    let key = generate_key_325();
    let cipher = QMC2Map::new(&key).expect("should not fail");
    let original: Vec<u8> = (0..200u8).collect();
    let mut whole = original.clone();
    cipher.decrypt(&mut whole, 1000);
    let mut parts = original.clone();
    cipher.decrypt(&mut parts[..37], 1000);
    cipher.decrypt(&mut parts[37..150], 1037);
    cipher.decrypt(&mut parts[150..], 1150);
    assert_eq!(whole, parts);
}

#[test]
fn test_selector_empty_key() {
    assert!(matches!(QMCv2Cipher::new(&[]), Err(QmcCryptoError::KeyEmpty)));
}

#[test]
fn test_selector_short_key_is_map() {
    let key = generate_key_128();
    let selected = QMCv2Cipher::new(&key).expect("non-empty key");
    let map_cipher = QMC2Map::new(&key).expect("non-empty key");
    let mut a = *b"igohj&pg{fo";
    let mut b = *b"igohj&pg{fo";
    selected.decrypt(&mut a, 0);
    map_cipher.decrypt(&mut b, 0);
    assert_eq!(a, b);
    assert_ne!(&a, b"igohj&pg{fo");
}
