//! Key management for X-AES-GCM keys: validating serialized keys and key
//! formats, making ciphers from keys, and generating new keys.

use vstd::prelude::*;
use crate::proto::{
    decode_key_format_spec, decode_key_spec, encode_key_spec, lemma_decode_standard_key,
    lemma_decode_standard_key_format, lemma_encode_standard, lemma_key_roundtrip,
    XAesGcmKey, XAesGcmKeyFormat, XAesGcmKeyModel, XAesGcmParams,
};
use crate::subtle::x_aes_gcm::{
    random_bytes, valid_salt_size, XAesGcm, XAesGcmError, X_AES_GCM_KEY_SIZE,
};
use crate::wire::DecodeError;

verus! {

/// Maximal version of X-AES-GCM keys.
pub const X_AES_GCM_KEY_VERSION: u32 = 0;

/// Type URL of X-AES-GCM keys that Tink supports.
pub const X_AES_GCM_TYPE_URL: &'static str = "type.googleapis.com/google.crypto.tink.XAesGcmKey";

/// The error type of `tink_core`.
#[verifier::external_type_specification]
#[verifier::external_body]
pub struct ExTinkError(tink_core::TinkError);

/// Checks a key version with `tink_core::keyset::validate_key_version`.
/// Trusted: it succeeds exactly when `version` is at most `max_expected`.
#[verifier::external_body]
fn validate_key_version(version: u32, max_expected: u32) -> (r: Result<(), tink_core::TinkError>)
    ensures
        r is Ok <==> version <= max_expected,
{
    tink_core::keyset::validate_key_version(version, max_expected)
}

/// The kind of key material that a key manager handles.
#[derive(Clone, Copy, Debug, PartialEq, Eq, Structural)]
pub enum KeyMaterialType {
    UnknownKeymaterial,
    Symmetric,
    AsymmetricPrivate,
    AsymmetricPublic,
    Remote,
}

/// Why the key manager refused a key or a key format.
#[derive(Clone, Copy, Debug, PartialEq, Eq, Structural)]
pub enum KeyManagerError {
    /// The serialized key is empty.
    EmptyKey,
    /// The serialized key is not a valid `XAesGcmKey` encoding.
    InvalidKey(DecodeError),
    /// The key has a version above the supported one; holds the version.
    UnsupportedKeyVersion(u32),
    /// The key value is not 32 bytes long; holds its length.
    InvalidKeySize(usize),
    /// The key has no parameters.
    MissingParams,
    /// The salt size of the key is outside 8..=12; holds it.
    InvalidSaltSize(u32),
    /// The cipher could not be made from the key.
    PrimitiveCreation(XAesGcmError),
    /// The serialized key format is empty.
    EmptyKeyFormat,
    /// The serialized key format is not a valid `XAesGcmKeyFormat` encoding.
    InvalidKeyFormat(DecodeError),
    /// The key format has no parameters.
    MissingFormatParams,
    /// The salt size of the key format is outside 8..=12; holds it.
    InvalidFormatSaltSize(u32),
}

/// The outcome of validating a decoded key: its parameters, or why it is
/// refused.
pub open spec fn validate_key_spec(k: XAesGcmKeyModel) -> Result<XAesGcmParams, KeyManagerError> {
    if k.version > X_AES_GCM_KEY_VERSION {
        Err(KeyManagerError::UnsupportedKeyVersion(k.version))
    } else if k.key_value.len() != X_AES_GCM_KEY_SIZE {
        Err(KeyManagerError::InvalidKeySize(k.key_value.len() as usize))
    } else {
        match k.params {
            None => Err(KeyManagerError::MissingParams),
            Some(p) => if !valid_salt_size(p.salt_size as int) {
                Err(KeyManagerError::InvalidSaltSize(p.salt_size))
            } else {
                Ok(p)
            },
        }
    }
}

/// The key of the cipher that a serialized key gives (its key value and
/// salt size), or why it gives none.
pub open spec fn primitive_spec(serialized_key: Seq<u8>) -> Result<(Seq<u8>, nat), KeyManagerError> {
    if serialized_key.len() == 0 {
        Err(KeyManagerError::EmptyKey)
    } else {
        match decode_key_spec(serialized_key) {
            Err(e) => Err(KeyManagerError::InvalidKey(e)),
            Ok(k) => match validate_key_spec(k) {
                Err(e) => Err(e),
                Ok(p) => Ok((k.key_value, p.salt_size as nat)),
            },
        }
    }
}

/// The parameters that a serialized key format asks for, or why it is
/// refused.
pub open spec fn key_format_spec(serialized_key_format: Seq<u8>) -> Result<
    XAesGcmParams,
    KeyManagerError,
> {
    if serialized_key_format.len() == 0 {
        Err(KeyManagerError::EmptyKeyFormat)
    } else {
        match decode_key_format_spec(serialized_key_format) {
            Err(e) => Err(KeyManagerError::InvalidKeyFormat(e)),
            Ok(f) => match f.params {
                None => Err(KeyManagerError::MissingFormatParams),
                Some(p) => if !valid_salt_size(p.salt_size as int) {
                    Err(KeyManagerError::InvalidFormatSaltSize(p.salt_size))
                } else {
                    Ok(p)
                },
            },
        }
    }
}

/// The key that a serialized key format gives with the key value
/// `key_value`.
pub open spec fn new_key_model(p: XAesGcmParams, key_value: Seq<u8>) -> XAesGcmKeyModel {
    XAesGcmKeyModel { version: X_AES_GCM_KEY_VERSION, params: Some(p), key_value }
}

/// The serialized key that a serialized key format gives with the key
/// value `key_value`, or why it gives none.
pub open spec fn new_key_spec(serialized_key_format: Seq<u8>, key_value: Seq<u8>) -> Result<
    Seq<u8>,
    KeyManagerError,
> {
    match key_format_spec(serialized_key_format) {
        Err(e) => Err(e),
        Ok(p) => Ok(encode_key_spec(new_key_model(p, key_value))),
    }
}

/// A key that the manager makes for a key format, with any 32-byte key
/// value, is accepted by the manager: it gives a cipher with that key value
/// and the salt size that the format asks for.
pub proof fn lemma_new_key_gives_primitive(serialized_key_format: Seq<u8>, key_value: Seq<u8>)
    requires
        key_value.len() == X_AES_GCM_KEY_SIZE,
        key_format_spec(serialized_key_format) is Ok,
    ensures
        new_key_spec(serialized_key_format, key_value) matches Ok(sk) && primitive_spec(sk) == Ok::<
            (Seq<u8>, nat),
            KeyManagerError,
        >((key_value, key_format_spec(serialized_key_format)->Ok_0.salt_size as nat)),
{
    let p = key_format_spec(serialized_key_format)->Ok_0;
    let k = new_key_model(p, key_value);
    lemma_key_roundtrip(k);
    assert(encode_key_spec(k).len() > 0);
}

/// A key in the standard encoding, with an admissible salt size and a
/// 32-byte key value, gives a cipher with exactly that key value and salt
/// size.
pub proof fn lemma_primitive_standard_key(s: u8, key_value: Seq<u8>)
    requires
        valid_salt_size(s as int),
        key_value.len() == X_AES_GCM_KEY_SIZE,
    ensures
        primitive_spec(seq![0x12u8, 0x02, 0x08, s, 0x1a, 0x20] + key_value) == Ok::<
            (Seq<u8>, nat),
            KeyManagerError,
        >((key_value, s as nat)),
{
    lemma_decode_standard_key(0, s, key_value);
    assert(key_value.len() as u8 == 0x20u8);
}

/// For a key format in the standard encoding with an admissible salt size,
/// a new key with a 32-byte key value is the standard encoding of a
/// version-0 key with the format's salt size and that key value, and the
/// manager makes from it a cipher with that key value and salt size.
pub proof fn lemma_new_key_standard_format(s: u8, key_value: Seq<u8>)
    requires
        valid_salt_size(s as int),
        key_value.len() == X_AES_GCM_KEY_SIZE,
    ensures
        new_key_spec(seq![0x1au8, 0x02, 0x08, s], key_value) == Ok::<Seq<u8>, KeyManagerError>(
            seq![0x12u8, 0x02, 0x08, s, 0x1a, 0x20] + key_value,
        ),
        primitive_spec(seq![0x12u8, 0x02, 0x08, s, 0x1a, 0x20] + key_value) == Ok::<
            (Seq<u8>, nat),
            KeyManagerError,
        >((key_value, s as nat)),
{
    lemma_decode_standard_key_format(0, s);
    lemma_encode_standard(s, key_value);
    assert(key_value.len() as u8 == 0x20u8);
    lemma_primitive_standard_key(s, key_value);
}

/// Checks the version, the key size and the parameters of a key.
fn validate_key(key: &XAesGcmKey) -> (r: Result<XAesGcmParams, KeyManagerError>)
    ensures
        r == validate_key_spec(key@),
{
    if validate_key_version(key.version, X_AES_GCM_KEY_VERSION).is_err() {
        return Err(KeyManagerError::UnsupportedKeyVersion(key.version));
    }
    if key.key_value.len() != X_AES_GCM_KEY_SIZE {
        return Err(KeyManagerError::InvalidKeySize(key.key_value.len()));
    }
    let params = match key.params {
        Some(p) => p,
        None => return Err(KeyManagerError::MissingParams),
    };
    validate_params(&params)
}

/// Checks the parameters of a key format.
fn validate_key_format(format: &XAesGcmKeyFormat) -> (r: Result<XAesGcmParams, KeyManagerError>)
    ensures
        match format.params {
            None => r == Err::<XAesGcmParams, KeyManagerError>(KeyManagerError::MissingFormatParams),
            Some(p) => if valid_salt_size(p.salt_size as int) {
                r == Ok::<XAesGcmParams, KeyManagerError>(p)
            } else {
                r == Err::<XAesGcmParams, KeyManagerError>(
                    KeyManagerError::InvalidFormatSaltSize(p.salt_size),
                )
            },
        },
{
    let params = match format.params {
        Some(p) => p,
        None => return Err(KeyManagerError::MissingFormatParams),
    };
    match validate_params(&params) {
        Ok(p) => Ok(p),
        Err(_) => Err(KeyManagerError::InvalidFormatSaltSize(params.salt_size)),
    }
}

/// Checks the salt size of the parameters.
fn validate_params(params: &XAesGcmParams) -> (r: Result<XAesGcmParams, KeyManagerError>)
    ensures
        valid_salt_size(params.salt_size as int) ==> r == Ok::<XAesGcmParams, KeyManagerError>(
            *params,
        ),
        !valid_salt_size(params.salt_size as int) ==> r == Err::<XAesGcmParams, KeyManagerError>(
            KeyManagerError::InvalidSaltSize(params.salt_size),
        ),
{
    let salt_size = params.salt_size;
    if salt_size < 8 || salt_size > 12 {
        return Err(KeyManagerError::InvalidSaltSize(salt_size));
    }
    Ok(*params)
}

/// Generates X-AES-GCM keys and makes [`XAesGcm`] ciphers from them.
#[derive(Default)]
pub struct XAesGcmKeyManager {}

impl XAesGcmKeyManager {
    /// Makes a cipher from a serialized `XAesGcmKey`.
    pub fn primitive(&self, serialized_key: &[u8]) -> (r: Result<XAesGcm, KeyManagerError>)
        ensures
            match primitive_spec(serialized_key@) {
                Ok((key_value, salt_size)) => r matches Ok(c) && c.key_bytes() == key_value
                    && c.salt_len() == salt_size,
                Err(e) => r matches Err(e2) && e2 == e,
            },
    {
        if serialized_key.len() == 0 {
            return Err(KeyManagerError::EmptyKey);
        }
        let key = match XAesGcmKey::decode(serialized_key) {
            Ok(k) => k,
            Err(e) => return Err(KeyManagerError::InvalidKey(e)),
        };
        let params = match validate_key(&key) {
            Ok(p) => p,
            Err(e) => return Err(e),
        };
        match XAesGcm::new(key.key_value.as_slice(), params.salt_size as usize) {
            Ok(p) => Ok(p),
            Err(e) => Err(KeyManagerError::PrimitiveCreation(e)),
        }
    }

    /// Makes a new serialized key, with the key value `key_value`, for a
    /// serialized `XAesGcmKeyFormat`.
    pub fn new_key_with_value(&self, serialized_key_format: &[u8], key_value: Vec<u8>) -> (r: Result<
        Vec<u8>,
        KeyManagerError,
    >)
        ensures
            match new_key_spec(serialized_key_format@, key_value@) {
                Ok(b) => r matches Ok(v) && v@ == b,
                Err(e) => r matches Err(e2) && e2 == e,
            },
    {
        if serialized_key_format.len() == 0 {
            return Err(KeyManagerError::EmptyKeyFormat);
        }
        let key_format = match XAesGcmKeyFormat::decode(serialized_key_format) {
            Ok(f) => f,
            Err(e) => return Err(KeyManagerError::InvalidKeyFormat(e)),
        };
        let params = match validate_key_format(&key_format) {
            Ok(p) => p,
            Err(e) => return Err(e),
        };
        let key = XAesGcmKey {
            version: X_AES_GCM_KEY_VERSION,
            params: key_format.params,
            key_value,
        };
        Ok(key.encode_to_vec())
    }

    /// Makes a new serialized key with a random 32-byte key value for a
    /// serialized `XAesGcmKeyFormat`.
    pub fn new_key(&self, serialized_key_format: &[u8]) -> (r: Result<Vec<u8>, KeyManagerError>)
        ensures
            match key_format_spec(serialized_key_format@) {
                Err(e) => r matches Err(e2) && e2 == e,
                Ok(p) => r matches Ok(v) && decode_key_spec(v@) matches Ok(k) && v@ == encode_key_spec(
                    k,
                ) && k == new_key_model(p, k.key_value) && k.key_value.len() == X_AES_GCM_KEY_SIZE
                    && primitive_spec(v@) == Ok::<(Seq<u8>, nat), KeyManagerError>(
                    (k.key_value, p.salt_size as nat),
                ),
            },
    {
        let key_value = random_bytes(X_AES_GCM_KEY_SIZE);
        let ghost kv = key_value@;
        let r = self.new_key_with_value(serialized_key_format, key_value);
        proof {
            if key_format_spec(serialized_key_format@) is Ok {
                let p = key_format_spec(serialized_key_format@)->Ok_0;
                lemma_new_key_gives_primitive(serialized_key_format@, kv);
            }
        }
        r
    }

    /// The type URL of the keys that this manager handles.
    pub fn type_url(&self) -> (r: &'static str)
        ensures
            r@ == X_AES_GCM_TYPE_URL@,
    {
        X_AES_GCM_TYPE_URL
    }

    /// The kind of key material that this manager handles.
    pub fn key_material_type(&self) -> (r: KeyMaterialType)
        ensures
            r == KeyMaterialType::Symmetric,
    {
        KeyMaterialType::Symmetric
    }
}

} // verus!
