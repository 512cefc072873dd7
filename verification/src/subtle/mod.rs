//! Cryptographic primitives.

pub mod x_aes_gcm;

pub use self::x_aes_gcm::{
    XAesGcm, XAesGcmError, X_AES_GCM_KEY_SIZE, X_AES_GCM_MAX_SALT_SIZE, X_AES_GCM_MIN_SALT_SIZE,
    X_AES_GCM_TAG_SIZE,
};
