use tink_aead::subtle::{XAesGcm, XAesGcmError};
use xaes_256_gcm::aead::{Aead, KeyInit, Payload};
use xaes_256_gcm::Xaes256Gcm;

fn reference_seal(key: &[u8], salt: &[u8], pt: &[u8], aad: &[u8]) -> Vec<u8> {
    let mut nonce = [0u8; 24];
    nonce[..salt.len()].copy_from_slice(salt);
    let cipher = Xaes256Gcm::new(key.try_into().unwrap());
    cipher
        .encrypt((&nonce).try_into().unwrap(), Payload { msg: pt, aad })
        .unwrap()
}

#[test]
fn test_new_errors() {
    assert_eq!(
        XAesGcm::new(&[0u8; 16], 12).err(),
        Some(XAesGcmError::InvalidKeySize(16))
    );
    assert_eq!(
        XAesGcm::new(&[0u8; 33], 12).err(),
        Some(XAesGcmError::InvalidKeySize(33))
    );
    // The key size is checked before the salt size.
    assert_eq!(
        XAesGcm::new(&[0u8; 31], 2).err(),
        Some(XAesGcmError::InvalidKeySize(31))
    );
    assert_eq!(
        XAesGcm::new(&[0u8; 32], 7).err(),
        Some(XAesGcmError::InvalidSaltSize(7))
    );
    assert_eq!(
        XAesGcm::new(&[0u8; 32], 13).err(),
        Some(XAesGcmError::InvalidSaltSize(13))
    );
    for salt_size in 8..=12 {
        assert!(XAesGcm::new(&[0u8; 32], salt_size).is_ok());
    }
}

#[test]
fn test_encrypt_with_salt_layout() {
    let key: Vec<u8> = (0u8..32).collect();
    let cipher = XAesGcm::new(&key, 8).unwrap();
    let salt = [9u8, 8, 7, 6, 5, 4, 3, 2];
    let ct = cipher.encrypt_with_salt(&salt, b"hello", b"world").unwrap();
    assert_eq!(ct.len(), 8 + 5 + 16);
    assert_eq!(&ct[..8], &salt);
    assert_eq!(&ct[8..], &reference_seal(&key, &salt, b"hello", b"world")[..]);
    assert_ne!(&ct[8..13], b"hello");
    assert_eq!(cipher.decrypt(&ct, b"world").unwrap(), b"hello");
}

#[test]
fn test_known_answer_matches_outside_cipher() {
    let key = [1u8; 32];
    let cipher = XAesGcm::new(&key, 12).unwrap();
    let salt = *b"ABCDEFGHIJKL";
    let ct = cipher.encrypt_with_salt(&salt, b"XAES-256-GCM", b"").unwrap();
    assert_eq!(&ct[12..], &reference_seal(&key, &salt, b"XAES-256-GCM", b"")[..]);
}

#[test]
fn test_encrypt_decrypt_roundtrip_all_salt_sizes() {
    for salt_size in 8..=12 {
        let cipher = XAesGcm::new(&[3u8; 32], salt_size).unwrap();
        for len in [0usize, 1, 15, 16, 17, 100] {
            let pt = vec![0xabu8; len];
            let ct = cipher.encrypt(&pt, b"ad").unwrap();
            assert_eq!(ct.len(), salt_size + len + 16);
            assert_eq!(cipher.decrypt(&ct, b"ad").unwrap(), pt);
        }
    }
}

#[test]
fn test_decrypt_errors() {
    let cipher = XAesGcm::new(&[5u8; 32], 12).unwrap();
    assert_eq!(
        cipher.decrypt(&[0u8; 27], b"").err(),
        Some(XAesGcmError::CiphertextTooShort)
    );
    assert_eq!(
        cipher.decrypt(&[], b"").err(),
        Some(XAesGcmError::CiphertextTooShort)
    );
    // Exactly a salt and a tag: a well-formed but forged empty message.
    assert_eq!(
        cipher.decrypt(&[0u8; 28], b"").err(),
        Some(XAesGcmError::DecryptionFailed)
    );
    let mut ct = cipher.encrypt(b"secret", b"ad").unwrap();
    assert_eq!(
        cipher.decrypt(&ct, b"other").err(),
        Some(XAesGcmError::DecryptionFailed)
    );
    let last = ct.len() - 1;
    ct[last] ^= 1;
    assert_eq!(
        cipher.decrypt(&ct, b"ad").err(),
        Some(XAesGcmError::DecryptionFailed)
    );
    let other = XAesGcm::new(&[6u8; 32], 12).unwrap();
    let ct = cipher.encrypt(b"secret", b"ad").unwrap();
    assert_eq!(
        other.decrypt(&ct, b"ad").err(),
        Some(XAesGcmError::DecryptionFailed)
    );
}

#[test]
fn test_salts_are_fresh() {
    let cipher = XAesGcm::new(&[5u8; 32], 12).unwrap();
    let a = cipher.encrypt(b"same", b"").unwrap();
    let b = cipher.encrypt(b"same", b"").unwrap();
    assert_ne!(a, b);
}

#[test]
fn test_clone_keeps_key() {
    let cipher = XAesGcm::new(&[8u8; 32], 10).unwrap();
    let copy = cipher.clone();
    let ct = cipher.encrypt(b"abc", b"").unwrap();
    assert_eq!(copy.decrypt(&ct, b"").unwrap(), b"abc");
}
