//! X-AES-GCM authenticated encryption for Tink: the cipher, the key
//! manager's key handling, and the protocol buffer encoding of X-AES-GCM
//! keys and key formats.

pub mod wire;
pub mod proto;
pub mod subtle;
pub mod x_aes_gcm_key_manager;
