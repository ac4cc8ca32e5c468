//! Secrets, keys and signatures.

use base64::Engine;

use recuros::credentials::{
    auth_bytes, constant_time_eq, decode_base64, decode_public_key, encode_base64,
    encode_public_key, hash_secret, random_bytes, secret, secret_of, verify_signature, DeviceKey,
};
use recuros::failure::{Base64Fault, Failure};

#[test]
fn only_the_enrolled_private_key_can_answer_a_challenge() {
    let key = DeviceKey::from_bytes(vec![8; 32]);
    let nonce = [3; 32];
    let device = "01J00000000000000000000000";
    let signature = key.sign_challenge(device, &nonce);
    verify_signature(&key.public_key(), device, &nonce, &signature).unwrap();
    assert!(verify_signature(&key.public_key(), "other", &nonce, &signature).is_err());
}

#[test]
fn a_signature_is_refused_for_another_key_nonce_or_form() {
    let key = DeviceKey::from_bytes(vec![8; 32]);
    let other = DeviceKey::from_bytes(vec![9; 32]);
    let signature = key.sign_challenge("d", &[1; 32]);
    assert!(matches!(
        verify_signature(&other.public_key(), "d", &[1; 32], &signature),
        Err(Failure::SignatureRefused)
    ));
    assert!(matches!(
        verify_signature(&key.public_key(), "d", &[2; 32], &signature),
        Err(Failure::SignatureRefused)
    ));
    assert!(matches!(
        verify_signature(&key.public_key(), "d", &[1; 32], "AAAA"),
        Err(Failure::SignatureLength)
    ));
    assert!(matches!(
        verify_signature(&key.public_key(), "d", &[1; 32], "=="),
        Err(Failure::NotBase64(_))
    ));
    assert!(matches!(
        verify_signature("AAAA", "d", &[1; 32], &signature),
        Err(Failure::KeyLength)
    ));
}

#[test]
fn the_public_key_is_the_one_of_the_seed() {
    // The first test vector of RFC 8032, section 7.1.
    let seed: Vec<u8> = vec![
        0x9d, 0x61, 0xb1, 0x9d, 0xef, 0xfd, 0x5a, 0x60, 0xba, 0x84, 0x4a, 0xf4, 0x92, 0xec, 0x2c,
        0xc4, 0x44, 0x49, 0xc5, 0x69, 0x7b, 0x32, 0x69, 0x19, 0x70, 0x3b, 0xac, 0x03, 0x1c, 0xae,
        0x7f, 0x60,
    ];
    let public: Vec<u8> = vec![
        0xd7, 0x5a, 0x98, 0x01, 0x82, 0xb1, 0x0a, 0xb7, 0xd5, 0x4b, 0xfe, 0xd3, 0xc9, 0x64, 0x07,
        0x3a, 0x0e, 0xe1, 0x72, 0xf3, 0xda, 0xa6, 0x23, 0x25, 0xaf, 0x02, 0x1a, 0x68, 0xf7, 0x07,
        0x51, 0x1a,
    ];
    let key = DeviceKey::from_bytes(seed);
    assert_eq!(decode_public_key(&key.public_key()).unwrap(), public);
    assert_eq!(encode_public_key(&public), key.public_key());
}

#[test]
fn bytes_that_are_no_key_are_refused() {
    // 2 is the y-coordinate of no point of the curve.
    let mut bytes = vec![0u8; 32];
    bytes[0] = 2;
    assert!(matches!(
        decode_public_key(&encode_base64(&bytes)),
        Err(Failure::NotAKey)
    ));
    assert!(matches!(decode_public_key("a b"), Err(Failure::NotBase64(_))));
    assert!(matches!(decode_public_key(""), Err(Failure::KeyLength)));
}

#[test]
fn outside_errors_keep_their_words() {
    let decoder = base64::engine::general_purpose::URL_SAFE_NO_PAD;
    for (bad, fault, words) in [
        ("Zm8+", Base64Fault::Byte { offset: 3, byte: 43 }, "Invalid symbol 43, offset 3."),
        ("Z", Base64Fault::Length(1), "Invalid input length: 1"),
        ("Zh", Base64Fault::LastSymbol { offset: 1, byte: 104 }, "Invalid last symbol 104, offset 1."),
        ("Zg==", Base64Fault::Padding, "Invalid padding"),
    ] {
        let failure = decode_base64(bad).unwrap_err();
        assert!(matches!(&failure, Failure::NotBase64(f) if *f == fault), "{}", bad);
        assert_eq!(failure.message(), words);
        assert_eq!(failure.message(), decoder.decode(bad).unwrap_err().to_string());
    }
    let mut bytes = [0u8; 32];
    bytes[0] = 2;
    let error = ed25519_dalek::VerifyingKey::from_bytes(&bytes).unwrap_err();
    assert_eq!(Failure::NotAKey.message(), error.to_string());
    let error = ed25519_dalek::Signature::from_slice(&[0; 3]).unwrap_err();
    assert_eq!(Failure::SignatureLength.message(), error.to_string());
}

#[test]
fn base64_is_url_safe_and_unpadded() {
    assert_eq!(encode_base64(b""), "");
    assert_eq!(encode_base64(b"f"), "Zg");
    assert_eq!(encode_base64(b"fo"), "Zm8");
    assert_eq!(encode_base64(b"foo"), "Zm9v");
    assert_eq!(encode_base64(&[0xfb, 0xff, 0xfe]), "-__-");
    for n in 0..70u8 {
        let bytes: Vec<u8> = (0..n).map(|i| i.wrapping_mul(37)).collect();
        assert_eq!(decode_base64(&encode_base64(&bytes)).unwrap(), bytes);
    }
    for bad in ["Zg==", "Zh", "Z", "Zm8+", "Zm 9", "\u{e9}"] {
        assert!(matches!(decode_base64(bad), Err(Failure::NotBase64(_))), "{}", bad);
    }
}

#[test]
fn signed_bytes_differ_for_nonces_of_any_length() {
    let all: Vec<Vec<u8>> = vec![
        auth_bytes("d", &[]),
        auth_bytes("d", &[0]),
        auth_bytes("d", &[0, 0]),
        auth_bytes("da", &[]),
        auth_bytes("d", &[97, 0]),
    ];
    for i in 0..all.len() {
        for j in 0..i {
            assert_ne!(all[i], all[j]);
        }
    }
}

#[test]
fn the_signed_bytes_name_purpose_device_and_nonce() {
    assert_eq!(
        auth_bytes("dev", &[7, 8]),
        b"recuros-node-auth-v1\0dev\0\x07\x08".to_vec()
    );
    assert_ne!(auth_bytes("a", &[1]), auth_bytes("a", &[1, 0]));
}

#[test]
fn secrets_are_random_and_prefixed() {
    let a = secret("rcb_").unwrap();
    let b = secret("rcb_").unwrap();
    assert!(a.starts_with("rcb_"));
    assert_eq!(a.len(), 4 + 43);
    assert_ne!(a, b);
    assert_eq!(decode_base64(&a[4..]).unwrap().len(), 32);
    assert_eq!(secret_of("x_", &[0, 0, 0]), "x_AAAA");
    assert_eq!(random_bytes(0).unwrap(), Vec::<u8>::new());
    assert_ne!(random_bytes(32).unwrap(), random_bytes(32).unwrap());
}

#[test]
fn secrets_are_hashed_with_blake3() {
    assert_eq!(
        hash_secret(""),
        "af1349b9f5f9a1a6a0404dea36dcc9499bcb25c9adc112b7cc9a93cae41f3262"
    );
    assert_ne!(hash_secret("a"), hash_secret("b"));
}

#[test]
fn bytes_are_compared_whole() {
    assert!(constant_time_eq(b"", b""));
    assert!(constant_time_eq(b"abc", b"abc"));
    assert!(!constant_time_eq(b"abc", b"abd"));
    assert!(!constant_time_eq(b"abc", b"ab"));
}
