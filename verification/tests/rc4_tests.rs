use qmc_crypto::cipher::QMCv2Cipher;
use qmc_crypto::v2_rc4::cipher::QMC2RC4;
use qmc_crypto::v2_rc4::hash::hash;
use qmc_crypto::v2_rc4::rc4::RC4;
use qmc_crypto::v2_rc4::segment_key::get_segment_key;

fn generate_long_key(len: usize) -> Vec<u8> {
    (b'a'..=b'z')
        .chain(b'A'..=b'Z')
        .chain(b'0'..=b'9')
        .cycle()
        .take(len)
        .collect()
}

#[test]
fn test_hash() {
    let expected = 4045008896u32;
    let actual = hash(b"hello world");
    assert_eq!(expected, actual);
}

#[test]
fn test_hash_skips_zero_bytes() {
    assert_eq!(hash(b"hello world"), hash(b"hel\0lo world\0"));
}

#[test]
fn test_rc4() {
    let mut rc4 = RC4::new(b"this is a test key");
    let rc4_copy = rc4.clone();

    let mut data = *b"hello world";
    rc4.derive(&mut data[..]);

    assert_ne!(rc4.state_bytes(), rc4_copy.state_bytes());
    assert_eq!(&data, b"\x68\x75\x6b\x64\x64\x24\x7f\x60\x7c\x7d\x60");
}

#[test]
fn test_rc4_fresh_generator_inverts() {
    let mut rc4 = RC4::new(b"this is a test key");
    let mut data = *b"hello world";
    rc4.derive(&mut data[..]);
    let mut again = RC4::new(b"this is a test key");
    again.derive(&mut data[..]);
    assert_eq!(&data, b"hello world");
}

#[test]
fn test_segment_key_nil_seed() {
    assert_eq!(get_segment_key(1, 0, 12345), 0);
}

#[test]
fn test_segment_key_123() {
    assert_eq!(get_segment_key(1, 123, 12345), 5018);
}

#[test]
fn test_segment_key_large_1() {
    assert_eq!(get_segment_key(51, 35, 516402887), 28373784);
}

#[test]
fn test_segment_key_large_2() {
    assert_eq!(get_segment_key(0, 66, 3908240000), 5921575757);
}

#[test]
fn test_rc4_cipher_roundtrip() {
    let key = generate_long_key(317);
    let cipher = QMC2RC4::new(&key).expect("non-empty key");
    let original: Vec<u8> = (0..=255u8).cycle().take(8000).collect();
    let mut data = original.clone();
    cipher.decrypt(&mut data, 4000);
    assert_ne!(data, original);
    cipher.decrypt(&mut data, 4000);
    assert_eq!(data, original);
}

#[test]
fn test_rc4_cipher_chunk_invariance() {
    let key = generate_long_key(317);
    let cipher = QMC2RC4::new(&key).expect("non-empty key");
    let original: Vec<u8> = (0..=255u8).cycle().take(10_000).collect();

    let mut whole = original.clone();
    cipher.decrypt(&mut whole, 0);

    let mut parts = original.clone();
    let mut sizes = Vec::new();
    let mut covered = 0usize;
    for k in 0..36usize {
        let step = 1 + (k * 97 + 13) % 520;
        let step = step.min(10_000 - covered);
        sizes.push(step);
        covered += step;
    }
    sizes.push(10_000 - covered);
    assert_eq!(sizes.len(), 37);

    let mut offset = 0usize;
    for size in sizes {
        cipher.decrypt(&mut parts[offset..offset + size], offset);
        offset += size;
    }
    assert_eq!(offset, 10_000);
    assert_eq!(whole, parts);
}

#[test]
fn test_selector_long_key_is_rc4() {
    let key = generate_long_key(325);
    let selected = QMCv2Cipher::new(&key).expect("non-empty key");
    let rc4_cipher = QMC2RC4::new(&key).expect("non-empty key");
    let original: Vec<u8> = (7..=200u8).cycle().take(600).collect();
    let mut a = original.clone();
    let mut b = original.clone();
    selected.decrypt(&mut a, 5000);
    rc4_cipher.decrypt(&mut b, 5000);
    assert_eq!(a, b);
}

#[test]
fn test_rc4_cipher_matches_per_byte_recipe() {
    let key = generate_long_key(317);
    let cipher = QMC2RC4::new(&key).expect("non-empty key");
    let h = hash(&key);
    let original: Vec<u8> = (3..=250u8).cycle().take(64).collect();
    let offset = 5120 - 32;

    let mut fast = original.clone();
    cipher.decrypt(&mut fast, offset);

    let mut slow = original.clone();
    for (i, byte) in slow.iter_mut().enumerate() {
        let p = offset + i;
        let segment = p / 5120;
        let seed = key[segment % key.len()];
        let skip = get_segment_key(segment as u64, seed, h) % 0x200;
        let mut gen = RC4::new(&key);
        let mut discard = vec![0u8; skip as usize + p % 5120];
        gen.derive(&mut discard);
        let mut one = [*byte];
        gen.derive(&mut one);
        *byte = one[0];
    }
    assert_eq!(fast, slow);
}
