# tink_aead: X-AES-GCM for Tink, verified with Verus

The library (`src/`) holds, with contracts proved by Verus:

- `wire`: the protocol buffer wire format (varints, field keys, skipping of
  unknown fields and groups, the recursion budget), specified after the
  `prost` decoder, with the varint round trip proved. That the specification
  agrees with `prost` itself is tested (`tests/proto_test.rs` compares the
  two on many inputs), not proved.
- `proto`: the X-AES-GCM key messages, following Tink's `x_aes_gcm.proto`
  schema (`XAesGcmParams`, `XAesGcmKeyFormat`, `XAesGcmKey`). The published
  `tink-proto` crate (0.3.0) does not carry these messages, so their decoder
  and encoder stand here, specified field by field; decoding an encoded key
  or key format gives it back (proved).
- `subtle::x_aes_gcm`: the `XAesGcm` cipher. Encryption and decryption call
  the `xaes-256-gcm` crate through trusted wrappers; salt handling, nonce
  construction and ciphertext layout are verified, and decrypting what was
  encrypted gives the plaintext back.
- `x_aes_gcm_key_manager`: validation of serialized keys and key formats,
  cipher creation and key generation; a generated key is accepted by the
  manager (proved).

`app/` implements Tink's `Aead` and `KeyManager` traits on top of the library
and turns its errors into `TinkError`s.
