use std::collections::HashSet;
use tink_aead::proto::{XAesGcmKey, XAesGcmKeyFormat, XAesGcmParams};
use tink_aead::subtle;
use tink_aead::x_aes_gcm_key_manager::{
    KeyManagerError, KeyMaterialType, XAesGcmKeyManager, X_AES_GCM_KEY_VERSION,
    X_AES_GCM_TYPE_URL,
};
use tink_core::subtle::random::get_random_bytes;

const TYPE_URL: &str = "type.googleapis.com/google.crypto.tink.XAesGcmKey";

fn new_x_aes_gcm_key_format(salt_size: u32) -> XAesGcmKeyFormat {
    XAesGcmKeyFormat {
        version: X_AES_GCM_KEY_VERSION,
        params: Some(XAesGcmParams { salt_size }),
    }
}

fn gen_invalid_x_aes_gcm_keys() -> Vec<XAesGcmKey> {
    vec![
        // Bad key size.
        XAesGcmKey {
            version: X_AES_GCM_KEY_VERSION,
            key_value: get_random_bytes(16),
            params: Some(XAesGcmParams { salt_size: 12 }),
        },
        XAesGcmKey {
            version: X_AES_GCM_KEY_VERSION,
            key_value: get_random_bytes(31),
            params: Some(XAesGcmParams { salt_size: 12 }),
        },
        XAesGcmKey {
            version: X_AES_GCM_KEY_VERSION,
            key_value: get_random_bytes(33),
            params: Some(XAesGcmParams { salt_size: 12 }),
        },
        // Bad salt size.
        XAesGcmKey {
            version: X_AES_GCM_KEY_VERSION,
            key_value: get_random_bytes(subtle::X_AES_GCM_KEY_SIZE),
            params: Some(XAesGcmParams { salt_size: 7 }),
        },
        XAesGcmKey {
            version: X_AES_GCM_KEY_VERSION,
            key_value: get_random_bytes(subtle::X_AES_GCM_KEY_SIZE),
            params: Some(XAesGcmParams { salt_size: 13 }),
        },
        // Bad version.
        XAesGcmKey {
            version: X_AES_GCM_KEY_VERSION + 1,
            key_value: get_random_bytes(subtle::X_AES_GCM_KEY_SIZE),
            params: Some(XAesGcmParams { salt_size: 12 }),
        },
    ]
}

fn validate_x_aes_gcm_primitive(cipher: &subtle::XAesGcm) -> Result<(), String> {
    let pt = get_random_bytes(32);
    let aad = get_random_bytes(32);
    let ct = cipher.encrypt(&pt, &aad).map_err(|e| format!("{:?}", e))?;
    let decrypted = cipher.decrypt(&ct, &aad).map_err(|e| format!("{:?}", e))?;
    if decrypted != pt {
        return Err("decryption failed".to_string());
    }
    Ok(())
}

fn validate_x_aes_gcm_key(key: &XAesGcmKey, expected_salt_size: u32) -> Result<(), String> {
    if key.version != X_AES_GCM_KEY_VERSION {
        return Err(format!(
            "incorrect key version: key_version != {}",
            X_AES_GCM_KEY_VERSION
        ));
    }
    if key.key_value.len() != subtle::X_AES_GCM_KEY_SIZE {
        return Err(format!(
            "incorrect key size: key_size != {}",
            subtle::X_AES_GCM_KEY_SIZE
        ));
    }
    let params = key.params.as_ref().ok_or("missing params")?;
    if params.salt_size != expected_salt_size {
        return Err(format!(
            "incorrect salt size: {} != {}",
            params.salt_size, expected_salt_size
        ));
    }
    let p = subtle::XAesGcm::new(&key.key_value, params.salt_size as usize)
        .map_err(|e| format!("{:?}", e))?;
    validate_x_aes_gcm_primitive(&p)
}

fn to_proto_material_type(t: KeyMaterialType) -> tink_proto::key_data::KeyMaterialType {
    match t {
        KeyMaterialType::UnknownKeymaterial => {
            tink_proto::key_data::KeyMaterialType::UnknownKeymaterial
        }
        KeyMaterialType::Symmetric => tink_proto::key_data::KeyMaterialType::Symmetric,
        KeyMaterialType::AsymmetricPrivate => {
            tink_proto::key_data::KeyMaterialType::AsymmetricPrivate
        }
        KeyMaterialType::AsymmetricPublic => {
            tink_proto::key_data::KeyMaterialType::AsymmetricPublic
        }
        KeyMaterialType::Remote => tink_proto::key_data::KeyMaterialType::Remote,
    }
}

#[test]
fn test_x_aes_gcm_get_primitive() {
    let km = XAesGcmKeyManager::default();
    assert_eq!(km.type_url(), TYPE_URL);
    assert_eq!(
        to_proto_material_type(km.key_material_type()),
        tink_proto::key_data::KeyMaterialType::Symmetric
    );

    // Test with multiple salt sizes
    for salt_size in [8, 9, 10, 11, 12] {
        let key_format = new_x_aes_gcm_key_format(salt_size);
        let serialized_format = key_format.encode_to_vec();
        let serialized_key = km.new_key(&serialized_format).unwrap();
        let p = km.primitive(&serialized_key).unwrap();
        let key = XAesGcmKey::decode(serialized_key.as_ref()).unwrap();
        validate_x_aes_gcm_primitive(&p).unwrap();
        validate_x_aes_gcm_key(&key, salt_size).unwrap();
    }
}

#[test]
fn test_x_aes_gcm_get_primitive_with_invalid_keys() {
    let km = XAesGcmKeyManager::default();
    let invalid_keys = gen_invalid_x_aes_gcm_keys();
    for key in invalid_keys {
        let serialized_key = key.encode_to_vec();
        assert!(km.primitive(&serialized_key).is_err());
    }
    assert!(km.primitive(&[]).is_err());
}

#[test]
fn test_x_aes_gcm_new_key() {
    let km = XAesGcmKeyManager::default();
    for salt_size in [8, 9, 10, 11, 12] {
        let key_format = new_x_aes_gcm_key_format(salt_size);
        let serialized_format = key_format.encode_to_vec();
        let m = km.new_key(&serialized_format).unwrap();
        let key = XAesGcmKey::decode(m.as_ref()).unwrap();
        validate_x_aes_gcm_key(&key, salt_size).unwrap();
    }
}

#[test]
fn test_x_aes_gcm_new_key_with_invalid_format() {
    let km = XAesGcmKeyManager::default();

    // Invalid salt sizes
    for invalid_salt_size in [7, 13, 14] {
        let key_format = new_x_aes_gcm_key_format(invalid_salt_size);
        let serialized_format = key_format.encode_to_vec();
        assert!(km.new_key(&serialized_format).is_err());
    }

    // Empty format
    assert!(km.new_key(&[]).is_err());
}

#[test]
fn test_x_aes_gcm_new_key_data() {
    let km = XAesGcmKeyManager::default();
    for salt_size in [8, 12] {
        let key_format = new_x_aes_gcm_key_format(salt_size);
        let serialized_format = key_format.encode_to_vec();
        let kd = tink_proto::KeyData {
            type_url: km.type_url().to_string(),
            value: km.new_key(&serialized_format).unwrap(),
            key_material_type: to_proto_material_type(km.key_material_type()) as i32,
        };
        assert_eq!(kd.type_url, TYPE_URL);
        assert_eq!(
            kd.key_material_type,
            tink_proto::key_data::KeyMaterialType::Symmetric as i32
        );
        let key = XAesGcmKey::decode(kd.value.as_ref()).unwrap();
        validate_x_aes_gcm_key(&key, salt_size).unwrap();
    }
}

#[test]
fn test_x_aes_gcm_new_key_multiple_times() {
    let km = XAesGcmKeyManager::default();
    let key_format = new_x_aes_gcm_key_format(12);
    let serialized_format = key_format.encode_to_vec();

    let mut keys = HashSet::new();
    let n_test = 26;
    for _ in 0..n_test {
        let key = km.new_key(&serialized_format).unwrap();
        keys.insert(key);
    }
    assert_eq!(keys.len(), n_test, "keys are repeated");
}

#[test]
fn test_x_aes_gcm_does_support() {
    let km = XAesGcmKeyManager::default();
    assert!(
        km.type_url() == TYPE_URL,
        "X-AES-GCM KeyManager must support {}",
        TYPE_URL
    );
    assert!(
        km.type_url() != "some bad type",
        "X-AES-GCM KeyManager must only support {}",
        TYPE_URL
    );
}

#[test]
fn test_x_aes_gcm_type_url() {
    let km = XAesGcmKeyManager::default();
    assert_eq!(km.type_url(), TYPE_URL);
    assert_eq!(X_AES_GCM_TYPE_URL, TYPE_URL);
    assert_eq!(
        to_proto_material_type(km.key_material_type()),
        tink_proto::key_data::KeyMaterialType::Symmetric
    );
}

#[test]
fn test_x_aes_gcm_large_plaintext() {
    let key = [1u8; 32];
    let cipher = subtle::XAesGcm::new(&key, 12).unwrap();

    let plaintext = get_random_bytes(16 * 1024); // 16 KiB
    let aad = b"aad";

    let ct = cipher.encrypt(&plaintext, aad).unwrap();
    let pt = cipher.decrypt(&ct, aad).unwrap();
    assert_eq!(plaintext, pt);
}

// ---------------------------------------------------------------------
// Errors of the key manager
// ---------------------------------------------------------------------

fn key_bytes(version: u32, salt: Option<u32>, key_len: usize) -> Vec<u8> {
    XAesGcmKey {
        version,
        params: salt.map(|salt_size| XAesGcmParams { salt_size }),
        key_value: vec![7u8; key_len],
    }
    .encode_to_vec()
}

#[test]
fn test_primitive_errors() {
    let km = XAesGcmKeyManager::default();
    assert_eq!(km.primitive(&[]).err(), Some(KeyManagerError::EmptyKey));
    assert!(matches!(
        km.primitive(&[0x08]),
        Err(KeyManagerError::InvalidKey(_))
    ));
    assert_eq!(
        km.primitive(&key_bytes(1, Some(12), 32)).err(),
        Some(KeyManagerError::UnsupportedKeyVersion(1))
    );
    assert_eq!(
        km.primitive(&key_bytes(0, Some(12), 16)).err(),
        Some(KeyManagerError::InvalidKeySize(16))
    );
    assert_eq!(
        km.primitive(&key_bytes(0, None, 32)).err(),
        Some(KeyManagerError::MissingParams)
    );
    assert_eq!(
        km.primitive(&key_bytes(0, Some(7), 32)).err(),
        Some(KeyManagerError::InvalidSaltSize(7))
    );
    // The version is checked before the key size.
    assert_eq!(
        km.primitive(&key_bytes(3, Some(7), 5)).err(),
        Some(KeyManagerError::UnsupportedKeyVersion(3))
    );
    let c = km.primitive(&key_bytes(0, Some(9), 32)).unwrap();
    let ct = c.encrypt(b"msg", b"ad").unwrap();
    assert_eq!(ct.len(), 9 + 3 + 16);
}

#[test]
fn test_new_key_errors() {
    let km = XAesGcmKeyManager::default();
    assert_eq!(km.new_key(&[]).err(), Some(KeyManagerError::EmptyKeyFormat));
    assert!(matches!(
        km.new_key(&[0xff]),
        Err(KeyManagerError::InvalidKeyFormat(_))
    ));
    let no_params = XAesGcmKeyFormat { version: 0, params: None }.encode_to_vec();
    // An encoding with only a version field.
    let only_version = XAesGcmKeyFormat { version: 5, params: None }.encode_to_vec();
    assert_eq!(
        km.new_key(&only_version).err(),
        Some(KeyManagerError::MissingFormatParams)
    );
    assert_eq!(no_params, Vec::<u8>::new());
    assert_eq!(km.new_key(&no_params).err(), Some(KeyManagerError::EmptyKeyFormat));
    assert_eq!(
        km.new_key(&new_x_aes_gcm_key_format(13).encode_to_vec()).err(),
        Some(KeyManagerError::InvalidFormatSaltSize(13))
    );
}

#[test]
fn test_new_key_with_value_is_exact() {
    let km = XAesGcmKeyManager::default();
    let format = new_x_aes_gcm_key_format(10).encode_to_vec();
    let kv: Vec<u8> = (0u8..32).collect();
    let sk = km.new_key_with_value(&format, kv.clone()).unwrap();
    let mut expected = vec![0x12, 0x02, 0x08, 10, 0x1a, 32];
    expected.extend_from_slice(&kv);
    assert_eq!(sk, expected);
    let key = XAesGcmKey::decode(&sk).unwrap();
    assert_eq!(key.version, 0);
    assert_eq!(key.params, Some(XAesGcmParams { salt_size: 10 }));
    assert_eq!(key.key_value, kv);
}

#[test]
fn test_new_key_then_primitive() {
    // A generated key is accepted, and the cipher uses its key value.
    let km = XAesGcmKeyManager::default();
    let format = new_x_aes_gcm_key_format(11).encode_to_vec();
    let sk = km.new_key(&format).unwrap();
    let key = XAesGcmKey::decode(&sk).unwrap();
    let from_manager = km.primitive(&sk).unwrap();
    let direct = subtle::XAesGcm::new(&key.key_value, 11).unwrap();
    let ct = from_manager.encrypt(b"payload", b"aad").unwrap();
    assert_eq!(direct.decrypt(&ct, b"aad").unwrap(), b"payload");
}
