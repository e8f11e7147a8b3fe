use koc_core::crypto::{auto_decrypt, get_encryptor, try_auto_decrypt, x_encrypt_with, Cipher, Encryptor, Lz4Crypto, XorCrypto};
use std::io::Write;

fn encode_lx_fixture(data: &[u8], mask: u8) -> Vec<u8> {
    let mut encoder = lz4_flex::frame::FrameEncoder::new(Vec::new());
    encoder.write_all(data).unwrap();
    let mut encoded = encoder.finish().unwrap();
    for byte in encoded.iter_mut().take(100) {
        *byte ^= mask;
    }
    encoded[0] = 112;
    encoded[1] = 108;
    encoded[2] = (encoded[2] & 0b10101010)
        | ((mask >> 7) & 1) << 6
        | ((mask >> 6) & 1) << 4
        | ((mask >> 5) & 1) << 2
        | ((mask >> 4) & 1);
    encoded[3] = (encoded[3] & 0b10101010)
        | ((mask >> 3) & 1) << 6
        | ((mask >> 2) & 1) << 4
        | ((mask >> 1) & 1) << 2
        | (mask & 1);
    encoded
}

#[test]
fn checked_lz4_decode_enforces_output_limit() {
    let original = b"captured websocket payload";
    let encoded = encode_lx_fixture(original, 37);
    assert_eq!(try_auto_decrypt(&encoded, original.len()).unwrap(), original);
    assert!(try_auto_decrypt(&encoded, original.len() - 1).is_err());
}

#[test]
fn checked_decode_rejects_truncated_encrypted_payload() {
    assert!(try_auto_decrypt(b"px", 1024).is_err());
    assert!(try_auto_decrypt(b"pl", 1024).is_err());
}

#[test]
fn lz4_encryptor_roundtrips_frame_format() {
    let original = b"roundtrip compressed payload";
    let encryptor = Lz4Crypto::new();
    let encrypted = encryptor.encrypt(original);
    assert_eq!(encryptor.decrypt(&encrypted), original);
}

#[test]
fn test_xor_roundtrip() {
    let original = b"hello world test data";
    let enc = XorCrypto::new();
    let encrypted = enc.encrypt(original);
    let decrypted = auto_decrypt(&encrypted);
    assert_eq!(&decrypted, original);
}

#[test]
fn x_frame_has_magic_and_recovers_mask() {
    let framed = x_encrypt_with(b"abc", 0x5a, 0x01020304);
    assert_eq!(&framed[..2], &[112, 120]);
    assert_eq!(framed.len(), 7);
    assert_eq!(koc_core::crypto::extract_mask(&framed), Some(0x5a));
    assert_eq!(koc_core::crypto::x_decrypt(&framed), b"abc");
}

#[test]
fn xor_encrypt_uses_a_mask_in_range() {
    for _ in 0..50 {
        let framed = XorCrypto::new().encrypt(b"payload");
        let mask = koc_core::crypto::extract_mask(&framed).unwrap();
        assert!((2..250).contains(&mask));
        assert_eq!(framed[4] ^ mask, b'p');
    }
}

#[test]
fn lz4_frame_starts_with_lx_magic() {
    let encrypted = Lz4Crypto::new().encrypt(b"some data to compress, some data to compress");
    assert_eq!(&encrypted[..2], &[112, 108]);
    assert_ne!(encrypted, b"some data to compress, some data to compress".to_vec());
}

#[test]
fn payload_limits_report_sizes() {
    let err = try_auto_decrypt(b"some bytes!", 4).unwrap_err();
    assert_eq!(err, "plain payload exceeds limit: 11 > 4 bytes");
    let framed = x_encrypt_with(b"12345", 9, 7);
    let err = try_auto_decrypt(&framed, 3).unwrap_err();
    assert_eq!(err, "x payload exceeds limit: 5 > 3 bytes");
    assert_eq!(try_auto_decrypt(b"px", 1024).unwrap_err(), "truncated x payload");
    assert_eq!(try_auto_decrypt(b"pl", 1024).unwrap_err(), "truncated lx payload");
    assert_eq!(try_auto_decrypt(b"abc", 3).unwrap(), b"abc");
}

#[test]
fn encryptor_is_chosen_by_name() {
    assert!(matches!(get_encryptor("lx"), Cipher::Lz4(_)));
    assert!(matches!(get_encryptor("x"), Cipher::Xor(_)));
    assert!(matches!(get_encryptor("other"), Cipher::Xor(_)));
}
