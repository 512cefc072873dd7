use tink_aead::proto::{XAesGcmKey, XAesGcmKeyFormat, XAesGcmParams};
use tink_aead::wire::{decode_varint, encode_varint, DecodeError, WireType};
use tink_proto::prost::Message;

// `AesCtrKey` has the same field numbers and types as `XAesGcmKey`
// (uint32 version = 1, params message with uint32 field 1 = 2, bytes
// key_value = 3), so prost's decoder serves as a reference.
fn prost_decode(b: &[u8]) -> Option<(u32, Option<u32>, Vec<u8>)> {
    tink_proto::AesCtrKey::decode(b)
        .ok()
        .map(|k| (k.version, k.params.map(|p| p.iv_size), k.key_value))
}

fn ours(b: &[u8]) -> Option<(u32, Option<u32>, Vec<u8>)> {
    XAesGcmKey::decode(b)
        .ok()
        .map(|k| (k.version, k.params.map(|p| p.salt_size), k.key_value))
}

#[test]
fn test_varint_encoding() {
    let mut out = Vec::new();
    encode_varint(300, &mut out);
    assert_eq!(out, vec![0xac, 0x02]);
    assert_eq!(decode_varint(&out, 0), Ok((300, 2)));
    let mut out = Vec::new();
    encode_varint(u64::MAX, &mut out);
    assert_eq!(out.len(), 10);
    assert_eq!(out[9], 1);
    assert_eq!(decode_varint(&out, 0), Ok((u64::MAX, 10)));
    assert_eq!(decode_varint(&[0x80], 0), Err(DecodeError::InvalidVarint));
    assert_eq!(decode_varint(&[], 0), Err(DecodeError::InvalidVarint));
    let mut too_big = vec![0xffu8; 9];
    too_big.push(0x02);
    assert_eq!(decode_varint(&too_big, 0), Err(DecodeError::InvalidVarint));
    assert_eq!(decode_varint(&[0xff; 11], 0), Err(DecodeError::InvalidVarint));
    assert_eq!(decode_varint(&[0x05, 0x96, 0x01], 1), Ok((150, 3)));
}

#[test]
fn test_key_encoding_matches_prost() {
    let key = XAesGcmKey {
        version: 3,
        params: Some(XAesGcmParams { salt_size: 12 }),
        key_value: vec![1u8; 32],
    };
    let reference = tink_proto::AesCtrKey {
        version: 3,
        params: Some(tink_proto::AesCtrParams { iv_size: 12 }),
        key_value: vec![1u8; 32],
    };
    assert_eq!(key.encode_to_vec(), reference.encode_to_vec());
    let key = XAesGcmKey { version: 0, params: None, key_value: vec![] };
    assert_eq!(key.encode_to_vec(), Vec::<u8>::new());
    let key = XAesGcmKey {
        version: 0,
        params: Some(XAesGcmParams { salt_size: 0 }),
        key_value: vec![],
    };
    assert_eq!(key.encode_to_vec(), vec![0x12, 0x00]);
}

#[test]
fn test_key_roundtrip() {
    for version in [0u32, 1, 127, 128, 300, u32::MAX] {
        for params in [None, Some(0u32), Some(8), Some(12), Some(u32::MAX)] {
            for len in [0usize, 1, 32, 200] {
                let key = XAesGcmKey {
                    version,
                    params: params.map(|salt_size| XAesGcmParams { salt_size }),
                    key_value: (0..len).map(|i| i as u8).collect(),
                };
                let bytes = key.encode_to_vec();
                let back = XAesGcmKey::decode(&bytes).unwrap();
                assert_eq!(back.version, key.version);
                assert_eq!(back.params, key.params);
                assert_eq!(back.key_value, key.key_value);
                assert_eq!(ours(&bytes), prost_decode(&bytes));
            }
        }
    }
}

#[test]
fn test_key_format_roundtrip() {
    for version in [0u32, 1, 1000] {
        for params in [None, Some(XAesGcmParams { salt_size: 9 })] {
            let f = XAesGcmKeyFormat { version, params };
            assert_eq!(XAesGcmKeyFormat::decode(&f.encode_to_vec()), Ok(f));
        }
    }
    let f = XAesGcmKeyFormat { version: 0, params: Some(XAesGcmParams { salt_size: 12 }) };
    assert_eq!(f.encode_to_vec(), vec![0x1a, 0x02, 0x08, 0x0c]);
}

#[test]
fn test_decode_errors() {
    assert_eq!(XAesGcmKey::decode(&[0x08]).err(), Some(DecodeError::InvalidVarint));
    assert_eq!(XAesGcmKey::decode(&[0x00]).err(), Some(DecodeError::InvalidTag));
    assert_eq!(
        XAesGcmKey::decode(&[0x0e]).err(),
        Some(DecodeError::InvalidWireTypeValue(6))
    );
    assert_eq!(
        XAesGcmKey::decode(&[0x80, 0x80, 0x80, 0x80, 0x10]).err(),
        Some(DecodeError::InvalidKeyValue(0x1_0000_0000))
    );
    assert_eq!(
        XAesGcmKey::decode(&[0x0a, 0x00]).err(),
        Some(DecodeError::UnexpectedWireType {
            actual: WireType::LengthDelimited,
            expected: WireType::Varint
        })
    );
    assert_eq!(
        XAesGcmKey::decode(&[0x1a, 0x05, 0x01]).err(),
        Some(DecodeError::BufferUnderflow)
    );
    // The embedded message claims one byte, but its field takes two.
    assert_eq!(
        XAesGcmKey::decode(&[0x12, 0x01, 0x08, 0x05]).err(),
        Some(DecodeError::DelimitedLengthExceeded)
    );
    assert_eq!(
        XAesGcmKey::decode(&[0x24]).err(),
        Some(DecodeError::UnexpectedEndGroupTag)
    );
    // A group opened with tag 5 and closed with tag 6.
    assert_eq!(
        XAesGcmKey::decode(&[0x2b, 0x34]).err(),
        Some(DecodeError::UnexpectedEndGroupTag)
    );
    assert_eq!(
        XAesGcmKey::decode(&[0x2d, 0x00, 0x00]).err(),
        Some(DecodeError::BufferUnderflow)
    );
}

#[test]
fn test_decode_skips_unknown_fields_and_merges() {
    // Unknown fields of every wire type, then version twice (the last wins),
    // then params twice (merged).
    let bytes = vec![
        0x28, 0x96, 0x01, // field 5, varint
        0x31, 1, 2, 3, 4, 5, 6, 7, 8, // field 6, 64-bit
        0x3a, 0x02, 0xaa, 0xbb, // field 7, length-delimited
        0x43, 0x48, 0x01, 0x44, // field 8, group holding field 9
        0x55, 1, 2, 3, 4, // field 10, 32-bit
        0x08, 0x01, 0x08, 0x02, // version 1, then 2
        0x12, 0x02, 0x08, 0x09, // params salt 9
        0x12, 0x02, 0x18, 0x01, // params with an unknown field: salt stays 9
    ];
    let key = XAesGcmKey::decode(&bytes).unwrap();
    assert_eq!(key.version, 2);
    assert_eq!(key.params, Some(XAesGcmParams { salt_size: 9 }));
    assert!(key.key_value.is_empty());
    assert_eq!(ours(&bytes), prost_decode(&bytes));
}

#[test]
fn test_decode_uint32_truncates() {
    // A version varint above 32 bits keeps its low 32 bits.
    let bytes = vec![0x08, 0x81, 0x80, 0x80, 0x80, 0x10];
    assert_eq!(XAesGcmKey::decode(&bytes).unwrap().version, 1);
    assert_eq!(ours(&bytes), prost_decode(&bytes));
}

#[test]
fn test_group_recursion_limit() {
    // Nested groups of field 5: depth 100 is refused, depth 99 accepted.
    fn nested(depth: usize) -> Vec<u8> {
        let mut v = vec![0x2bu8; depth];
        v.extend(std::iter::repeat(0x2cu8).take(depth));
        v
    }
    assert_eq!(ours(&nested(99)), prost_decode(&nested(99)));
    assert!(XAesGcmKey::decode(&nested(99)).is_ok());
    assert_eq!(
        XAesGcmKey::decode(&nested(101)).err(),
        Some(DecodeError::RecursionLimitReached)
    );
    assert_eq!(ours(&nested(100)), prost_decode(&nested(100)));
    assert_eq!(ours(&nested(101)), prost_decode(&nested(101)));
}

#[test]
fn test_decode_agrees_with_prost_on_mutations() {
    let base = XAesGcmKey {
        version: 0,
        params: Some(XAesGcmParams { salt_size: 12 }),
        key_value: vec![0x42u8; 32],
    }
    .encode_to_vec();
    for i in 0..base.len() {
        for b in [0x00u8, 0x01, 0x07, 0x08, 0x0b, 0x12, 0x1a, 0x2c, 0x7f, 0x80, 0xff] {
            let mut m = base.clone();
            m[i] = b;
            assert_eq!(ours(&m), prost_decode(&m), "byte {} set to {:#x}", i, b);
            assert_eq!(ours(&m[..i]), prost_decode(&m[..i]));
        }
    }
}

#[test]
fn test_key_format_skips_reserved_field() {
    // Field 2 is reserved in the key format: it is skipped like any unknown field.
    let bytes = [0x10u8, 0x05, 0x1a, 0x02, 0x08, 0x09];
    assert_eq!(
        XAesGcmKeyFormat::decode(&bytes),
        Ok(XAesGcmKeyFormat { version: 0, params: Some(XAesGcmParams { salt_size: 9 }) })
    );
}
