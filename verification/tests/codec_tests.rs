use qmc_crypto::base64::{decode, decode_overwrite, decode_url_safe, encode, encode_url_safe};
use qmc_crypto::md5::{md5, md5_2};
use qmc_crypto::utils::get_filename;

#[test]
fn test_encode_known_vectors() {
    assert_eq!(encode(b""), "");
    assert_eq!(encode(b"f"), "Zg==");
    assert_eq!(encode(b"fo"), "Zm8=");
    assert_eq!(encode(b"foo"), "Zm9v");
    assert_eq!(encode(b"foobar"), "Zm9vYmFy");
}

#[test]
fn test_decode_padding_indifferent() {
    assert_eq!(decode(b"Zg==").unwrap(), b"f".to_vec());
    assert_eq!(decode(b"Zg").unwrap(), b"f".to_vec());
    assert_eq!(decode(b"Zm9vYmFy").unwrap(), b"foobar".to_vec());
}

#[test]
fn test_decode_rejects_invalid() {
    assert!(decode(b"Z!").is_err());
    assert!(decode(b"Z").is_err());
}

#[test]
fn test_url_safe_alphabet() {
    assert_eq!(encode_url_safe(&[0xfb, 0xff]), "-_8=");
    assert_eq!(encode(&[0xfb, 0xff]), "+/8=");
    assert_eq!(decode_url_safe(b"-_8=").unwrap(), vec![0xfb, 0xff]);
    assert!(decode(b"-_8=").is_err());
}

#[test]
fn test_decode_overwrite_front() {
    let mut data = *b"Zm9vYmFy";
    let len = decode_overwrite(&mut data[..]).unwrap();
    assert_eq!(len, 6);
    assert_eq!(&data[..len], b"foobar");
    assert_eq!(&data[len..], b"Fy");
}

#[test]
fn test_decode_overwrite_invalid_leaves_buffer() {
    let mut data = *b"Zm9v!mFy";
    assert!(decode_overwrite(&mut data[..]).is_err());
    assert_eq!(&data, b"Zm9v!mFy");
}

#[test]
fn test_md5_known_vectors() {
    let empty: [u8; 16] = [
        0xd4, 0x1d, 0x8c, 0xd9, 0x8f, 0x00, 0xb2, 0x04, 0xe9, 0x80, 0x09, 0x98, 0xec, 0xf8, 0x42,
        0x7e,
    ];
    assert_eq!(md5(b""), empty);
    let abc: [u8; 16] = [
        0x90, 0x01, 0x50, 0x98, 0x3c, 0xd2, 0x4f, 0xb0, 0xd6, 0x96, 0x3f, 0x7d, 0x28, 0xe1, 0x7f,
        0x72,
    ];
    assert_eq!(md5(b"abc"), abc);
}

#[test]
fn test_md5_2_concatenates() {
    assert_eq!(md5_2(b"ab", b"c"), md5(b"abc"));
    assert_eq!(md5_2(b"", b"abc"), md5(b"abc"));
    assert_ne!(md5_2(b"ab", b"c"), md5(b"ab"));
}

#[test]
fn test_get_filename() {
    assert_eq!(get_filename(b"/tmp/music/file.mflac2"), b"file.mflac2".to_vec());
    assert_eq!(get_filename(b"file.mflac2"), b"file.mflac2".to_vec());
    assert_eq!(get_filename(b"dir/"), b"".to_vec());
    assert_eq!(get_filename(b""), b"".to_vec());
}

#[test]
fn test_decode_url_safe_rejects_standard_alphabet() {
    assert!(decode_url_safe(b"+/8=").is_err());
}
