//! X-AES-GCM: AES-256-GCM with a 192-bit nonce built from a random
//! per-message salt. A ciphertext is the salt followed by the AES-GCM
//! ciphertext and its tag.

use vstd::prelude::*;
use xaes_256_gcm::aead::{Aead, KeyInit, Payload};
use xaes_256_gcm::Xaes256Gcm;

verus! {

/// The size of the X-AES-GCM key in bytes (256 bits).
pub const X_AES_GCM_KEY_SIZE: usize = 32;

/// Minimum salt size in bytes.
pub const X_AES_GCM_MIN_SALT_SIZE: usize = 8;

/// Maximum salt size in bytes.
pub const X_AES_GCM_MAX_SALT_SIZE: usize = 12;

/// The tag size that X-AES-GCM produces.
pub const X_AES_GCM_TAG_SIZE: usize = 16;

/// The nonce size of X-AES-GCM is 24 bytes (192 bits).
const X_AES_GCM_NONCE_SIZE: usize = 24;

/// The longest plaintext that AES-GCM encrypts: 2^36 - 32 bytes.
pub open spec fn plaintext_max() -> nat {
    0xf_ffff_ffe0
}

/// The longest associated data that AES-GCM authenticates: 2^61 - 1 bytes.
pub open spec fn aad_max() -> nat {
    0x1fff_ffff_ffff_ffff
}

/// The error type of the `aead` crate, returned by X-AES-GCM encryption and
/// decryption.
#[verifier::external_type_specification]
#[verifier::external_body]
pub struct ExAeadError(xaes_256_gcm::aead::Error);

/// What X-AES-GCM encryption under `key` and `nonce` makes of `msg` and
/// `aad`: the ciphertext followed by the tag.
pub uninterp spec fn xaes_seal(key: Seq<u8>, nonce: Seq<u8>, msg: Seq<u8>, aad: Seq<u8>) -> Seq<u8>;

/// What X-AES-GCM decryption under `key` and `nonce` makes of a ciphertext
/// with its tag and `aad`: the plaintext, or nothing when the tag does not
/// verify.
pub uninterp spec fn xaes_open(key: Seq<u8>, nonce: Seq<u8>, ct: Seq<u8>, aad: Seq<u8>) -> Option<
    Seq<u8>,
>;

/// Encrypts with `Xaes256Gcm::new(key)` and `Aead::encrypt` of the
/// `xaes-256-gcm` crate. Trusted: encryption succeeds exactly when the
/// plaintext and the associated data are within AES-GCM's limits; the result
/// is the ciphertext followed by a 16-byte tag, and decryption under the
/// same key, nonce and associated data gives the plaintext back.
#[verifier::external_body]
fn xaes_encrypt(key: &[u8], nonce: &[u8], msg: &[u8], aad: &[u8]) -> (r: Result<
    Vec<u8>,
    xaes_256_gcm::aead::Error,
>)
    requires
        key@.len() == X_AES_GCM_KEY_SIZE,
        nonce@.len() == X_AES_GCM_NONCE_SIZE,
    ensures
        r is Ok <==> (msg@.len() <= plaintext_max() && aad@.len() <= aad_max()),
        r matches Ok(c) ==> {
            &&& c@ == xaes_seal(key@, nonce@, msg@, aad@)
            &&& c@.len() == msg@.len() + X_AES_GCM_TAG_SIZE
            &&& xaes_open(key@, nonce@, c@, aad@) == Some(msg@)
        },
{
    let cipher = Xaes256Gcm::new(key.try_into().unwrap());
    cipher.encrypt(nonce.try_into().unwrap(), Payload { msg, aad })
}

/// Decrypts with `Xaes256Gcm::new(key)` and `Aead::decrypt` of the
/// `xaes-256-gcm` crate. Trusted: the result is `xaes_open` of the arguments;
/// an input shorter than the tag is refused, and a plaintext is 16 bytes
/// shorter than its input.
#[verifier::external_body]
fn xaes_decrypt(key: &[u8], nonce: &[u8], ct: &[u8], aad: &[u8]) -> (r: Result<
    Vec<u8>,
    xaes_256_gcm::aead::Error,
>)
    requires
        key@.len() == X_AES_GCM_KEY_SIZE,
        nonce@.len() == X_AES_GCM_NONCE_SIZE,
    ensures
        match r {
            Ok(p) => xaes_open(key@, nonce@, ct@, aad@) == Some(p@),
            Err(_) => xaes_open(key@, nonce@, ct@, aad@) is None,
        },
        ct@.len() < X_AES_GCM_TAG_SIZE ==> r is Err,
        r matches Ok(p) ==> p@.len() + X_AES_GCM_TAG_SIZE == ct@.len(),
{
    let cipher = Xaes256Gcm::new(key.try_into().unwrap());
    cipher.decrypt(nonce.try_into().unwrap(), Payload { msg: ct, aad })
}

/// `size` random bytes from `tink_core::subtle::random::get_random_bytes`.
/// Trusted: the result has `size` bytes; nothing is said of their values.
#[verifier::external_body]
pub(crate) fn random_bytes(size: usize) -> (r: Vec<u8>)
    ensures
        r@.len() == size,
{
    tink_core::subtle::random::get_random_bytes(size)
}

/// Why an X-AES-GCM cipher could not be made, or could not encrypt or
/// decrypt.
#[derive(Clone, Copy, Debug, PartialEq, Eq, Structural)]
pub enum XAesGcmError {
    /// The key is not 32 bytes long; holds the given length.
    InvalidKeySize(usize),
    /// The salt size is outside 8..=12; holds the given size.
    InvalidSaltSize(usize),
    /// The plaintext or the associated data is too long to encrypt.
    EncryptionFailed,
    /// The ciphertext is shorter than a salt and a tag.
    CiphertextTooShort,
    /// The ciphertext does not authenticate under this key and data.
    DecryptionFailed,
}

/// Whether `salt_size` is an admissible salt size.
pub open spec fn valid_salt_size(salt_size: int) -> bool {
    X_AES_GCM_MIN_SALT_SIZE <= salt_size <= X_AES_GCM_MAX_SALT_SIZE
}

/// The 24-byte nonce built from a salt: the salt, padded with zero bytes.
pub open spec fn nonce_from_salt(salt: Seq<u8>) -> Seq<u8> {
    salt + Seq::new((24 - salt.len()) as nat, |i: int| 0u8)
}

/// The ciphertext of `pt` and `aad` under `key` with the salt `salt`: the
/// salt followed by the X-AES-GCM ciphertext and tag; nothing when the
/// plaintext or the associated data is too long.
pub open spec fn encrypt_spec(key: Seq<u8>, salt: Seq<u8>, pt: Seq<u8>, aad: Seq<u8>) -> Option<
    Seq<u8>,
> {
    if pt.len() <= plaintext_max() && aad.len() <= aad_max() {
        Some(salt + xaes_seal(key, nonce_from_salt(salt), pt, aad))
    } else {
        None
    }
}

/// The plaintext of `ct` and `aad` under `key` with salts of `salt_size`
/// bytes, or why there is none.
pub open spec fn decrypt_spec(key: Seq<u8>, salt_size: nat, ct: Seq<u8>, aad: Seq<u8>) -> Result<
    Seq<u8>,
    XAesGcmError,
> {
    if ct.len() < salt_size + X_AES_GCM_TAG_SIZE {
        Err(XAesGcmError::CiphertextTooShort)
    } else {
        match xaes_open(key, nonce_from_salt(ct.take(salt_size as int)), ct.skip(salt_size as int), aad) {
            Some(p) => Ok(p),
            None => Err(XAesGcmError::DecryptionFailed),
        }
    }
}

/// The nonce of a salt holds the whole salt, then zero bytes up to 24 bytes.
pub proof fn lemma_nonce_from_salt(salt: Seq<u8>)
    requires
        salt.len() <= 24,
    ensures
        nonce_from_salt(salt).len() == 24,
        forall|i: int| 0 <= i < salt.len() ==> nonce_from_salt(salt)[i] == salt[i],
        forall|i: int| salt.len() <= i < 24 ==> nonce_from_salt(salt)[i] == 0u8,
        nonce_from_salt(salt) == salt + Seq::new((24 - salt.len()) as nat, |i: int| 0u8),
{
    assert(nonce_from_salt(salt) =~= salt + Seq::new((24 - salt.len()) as nat, |i: int| 0u8));
}

/// Decryption of a salt followed by a sealed message opens the message
/// under the nonce made of the whole salt and zero bytes, for every
/// admissible salt size.
pub proof fn lemma_decrypt_opens_with_whole_salt(
    key: Seq<u8>,
    salt: Seq<u8>,
    c: Seq<u8>,
    aad: Seq<u8>,
)
    requires
        valid_salt_size(salt.len() as int),
        c.len() >= X_AES_GCM_TAG_SIZE,
    ensures
        decrypt_spec(key, salt.len(), salt + c, aad) == match xaes_open(
            key,
            salt + Seq::new((24 - salt.len()) as nat, |i: int| 0u8),
            c,
            aad,
        ) {
            Some(p) => Ok::<Seq<u8>, XAesGcmError>(p),
            None => Err::<Seq<u8>, XAesGcmError>(XAesGcmError::DecryptionFailed),
        },
{
    lemma_nonce_from_salt(salt);
    assert((salt + c).take(salt.len() as int) =~= salt);
    assert((salt + c).skip(salt.len() as int) =~= c);
}

/// A message sealed under the nonce made of the whole salt and zero bytes,
/// and sent after the salt, decrypts to the message, for every admissible
/// salt size.
pub proof fn lemma_decrypt_sealed_with_whole_salt(
    key: Seq<u8>,
    salt: Seq<u8>,
    c: Seq<u8>,
    pt: Seq<u8>,
    aad: Seq<u8>,
)
    requires
        valid_salt_size(salt.len() as int),
        c.len() == pt.len() + X_AES_GCM_TAG_SIZE,
        xaes_open(key, salt + Seq::new((24 - salt.len()) as nat, |i: int| 0u8), c, aad) == Some(pt),
    ensures
        decrypt_spec(key, salt.len(), salt + c, aad) == Ok::<Seq<u8>, XAesGcmError>(pt),
{
    lemma_decrypt_opens_with_whole_salt(key, salt, c, aad);
}

/// Encryption with a salt seals under the nonce made of the whole salt and
/// zero bytes, and puts the salt in front.
pub proof fn lemma_encrypt_seals_with_whole_salt(key: Seq<u8>, salt: Seq<u8>, pt: Seq<u8>, aad: Seq<u8>)
    requires
        valid_salt_size(salt.len() as int),
        pt.len() <= plaintext_max(),
        aad.len() <= aad_max(),
    ensures
        encrypt_spec(key, salt, pt, aad) == Some(
            salt + xaes_seal(key, salt + Seq::new((24 - salt.len()) as nat, |i: int| 0u8), pt, aad),
        ),
{
    lemma_nonce_from_salt(salt);
}

/// An implementation of AEAD with X-AES-GCM.
///
/// X-AES-GCM is an extended-nonce variant of AES-GCM that uses a 192-bit
/// nonce constructed from a per-message salt. This allows for safe
/// encryption of large amounts of data without nonce reuse concerns.
pub struct XAesGcm {
    key: Vec<u8>,
    salt_size: usize,
}

impl XAesGcm {
    #[verifier::type_invariant]
    spec fn well_formed(&self) -> bool {
        &&& self.key@.len() == X_AES_GCM_KEY_SIZE
        &&& valid_salt_size(self.salt_size as int)
    }

    /// The 32-byte key.
    pub closed spec fn key_bytes(&self) -> Seq<u8> {
        self.key@
    }

    /// The salt size in bytes.
    pub closed spec fn salt_len(&self) -> nat {
        self.salt_size as nat
    }

    /// Creates a cipher for the 32-byte `key` that uses salts of `salt_size`
    /// bytes (8 to 12).
    pub fn new(key: &[u8], salt_size: usize) -> (r: Result<XAesGcm, XAesGcmError>)
        ensures
            key@.len() != X_AES_GCM_KEY_SIZE ==> r == Err::<XAesGcm, XAesGcmError>(
                XAesGcmError::InvalidKeySize(key@.len() as usize),
            ),
            key@.len() == X_AES_GCM_KEY_SIZE && !valid_salt_size(salt_size as int) ==> r == Err::<
                XAesGcm,
                XAesGcmError,
            >(XAesGcmError::InvalidSaltSize(salt_size)),
            key@.len() == X_AES_GCM_KEY_SIZE && valid_salt_size(salt_size as int) ==> (r matches Ok(
                c,
            ) && c.key_bytes() == key@ && c.salt_len() == salt_size),
    {
        if key.len() != X_AES_GCM_KEY_SIZE {
            return Err(XAesGcmError::InvalidKeySize(key.len()));
        }
        if salt_size < X_AES_GCM_MIN_SALT_SIZE || salt_size > X_AES_GCM_MAX_SALT_SIZE {
            return Err(XAesGcmError::InvalidSaltSize(salt_size));
        }
        let mut k: Vec<u8> = Vec::new();
        let mut i: usize = 0;
        while i < key.len()
            invariant
                i <= key@.len(),
                k@ == key@.subrange(0, i as int),
            decreases key@.len() - i,
        {
            k.push(key[i]);
            i = i + 1;
        }
        assert(key@.subrange(0, key@.len() as int) =~= key@);
        Ok(XAesGcm { key: k, salt_size })
    }

    /// Builds the nonce for `salt`: the salt padded with zeros to 24 bytes.
    fn nonce(salt: &[u8]) -> (r: Vec<u8>)
        requires
            salt@.len() <= X_AES_GCM_NONCE_SIZE,
        ensures
            r@ == nonce_from_salt(salt@),
            r@.len() == X_AES_GCM_NONCE_SIZE,
    {
        let mut r: Vec<u8> = Vec::new();
        let mut i: usize = 0;
        while i < salt.len()
            invariant
                i <= salt@.len(),
                r@ == salt@.subrange(0, i as int),
            decreases salt@.len() - i,
        {
            r.push(salt[i]);
            i = i + 1;
        }
        assert(salt@.subrange(0, salt@.len() as int) =~= salt@);
        while r.len() < X_AES_GCM_NONCE_SIZE
            invariant
                salt@.len() <= r@.len() <= X_AES_GCM_NONCE_SIZE,
                r@ == salt@ + Seq::new((r@.len() - salt@.len()) as nat, |i: int| 0u8),
            decreases X_AES_GCM_NONCE_SIZE - r@.len(),
        {
            r.push(0);
            assert(r@ =~= salt@ + Seq::new((r@.len() - salt@.len()) as nat, |i: int| 0u8));
        }
        r
    }

    /// Encrypts `pt` with `aad` as additional authenticated data, using the
    /// given salt. The ciphertext is the salt followed by the X-AES-GCM
    /// ciphertext and tag.
    pub fn encrypt_with_salt(&self, salt: &[u8], pt: &[u8], aad: &[u8]) -> (r: Result<
        Vec<u8>,
        XAesGcmError,
    >)
        requires
            salt@.len() == self.salt_len(),
        ensures
            match encrypt_spec(self.key_bytes(), salt@, pt@, aad@) {
                Some(c) => r matches Ok(v) && v@ == c,
                None => r == Err::<Vec<u8>, XAesGcmError>(XAesGcmError::EncryptionFailed),
            },
            r matches Ok(v) ==> decrypt_spec(self.key_bytes(), self.salt_len(), v@, aad@) == Ok::<
                Seq<u8>,
                XAesGcmError,
            >(pt@),
            r matches Ok(v) ==> v@.len() == salt@.len() + pt@.len() + X_AES_GCM_TAG_SIZE,
            r matches Ok(v) ==> v@ == salt@ + xaes_seal(
                self.key_bytes(),
                salt@ + Seq::new((24 - salt@.len()) as nat, |i: int| 0u8),
                pt@,
                aad@,
            ),
    {
        proof {
            use_type_invariant(self);
            lemma_nonce_from_salt(salt@);
        }
        let nonce = XAesGcm::nonce(salt);
        let ct = match xaes_encrypt(self.key.as_slice(), nonce.as_slice(), pt, aad) {
            Ok(c) => c,
            Err(_) => return Err(XAesGcmError::EncryptionFailed),
        };
        let mut ret: Vec<u8> = Vec::new();
        let mut i: usize = 0;
        while i < salt.len()
            invariant
                i <= salt@.len(),
                ret@ == salt@.subrange(0, i as int),
            decreases salt@.len() - i,
        {
            ret.push(salt[i]);
            i = i + 1;
        }
        let mut j: usize = 0;
        while j < ct.len()
            invariant
                i == salt@.len(),
                j <= ct@.len(),
                ret@ == salt@.subrange(0, i as int) + ct@.subrange(0, j as int),
            decreases ct@.len() - j,
        {
            ret.push(ct[j]);
            j = j + 1;
            assert(ret@ =~= salt@.subrange(0, i as int) + ct@.subrange(0, j as int));
        }
        assert(ret@ =~= salt@ + ct@);
        assert(ret@.take(salt@.len() as int) =~= salt@);
        assert(ret@.skip(salt@.len() as int) =~= ct@);
        Ok(ret)
    }

    /// Encrypts `pt` with `aad` as additional authenticated data. The
    /// ciphertext is a fresh random salt followed by the X-AES-GCM
    /// ciphertext and tag.
    pub fn encrypt(&self, pt: &[u8], aad: &[u8]) -> (r: Result<Vec<u8>, XAesGcmError>)
        ensures
            r is Ok <==> (pt@.len() <= plaintext_max() && aad@.len() <= aad_max()),
            r is Err ==> r == Err::<Vec<u8>, XAesGcmError>(XAesGcmError::EncryptionFailed),
            r matches Ok(v) ==> {
                &&& v@.len() == self.salt_len() + pt@.len() + X_AES_GCM_TAG_SIZE
                &&& encrypt_spec(self.key_bytes(), v@.take(self.salt_len() as int), pt@, aad@)
                    == Some(v@)
                &&& decrypt_spec(self.key_bytes(), self.salt_len(), v@, aad@) == Ok::<
                    Seq<u8>,
                    XAesGcmError,
                >(pt@)
            },
    {
        let salt = random_bytes(self.salt_size);
        let r = self.encrypt_with_salt(salt.as_slice(), pt, aad);
        proof {
            if r is Ok {
                let v = r->Ok_0@;
                assert(v.take(self.salt_len() as int) =~= salt@);
            }
        }
        r
    }

    /// Decrypts `ct` with `aad` as the additional authenticated data.
    pub fn decrypt(&self, ct: &[u8], aad: &[u8]) -> (r: Result<Vec<u8>, XAesGcmError>)
        ensures
            match decrypt_spec(self.key_bytes(), self.salt_len(), ct@, aad@) {
                Ok(p) => r matches Ok(v) && v@ == p,
                Err(e) => r == Err::<Vec<u8>, XAesGcmError>(e),
            },
            r matches Ok(v) ==> v@.len() + self.salt_len() + X_AES_GCM_TAG_SIZE == ct@.len(),
    {
        proof {
            use_type_invariant(self);
        }
        if ct.len() < self.salt_size + X_AES_GCM_TAG_SIZE {
            return Err(XAesGcmError::CiphertextTooShort);
        }
        let (salt, msg) = ct.split_at(self.salt_size);
        let nonce = XAesGcm::nonce(salt);
        assert(salt@ =~= ct@.take(self.salt_size as int));
        assert(msg@ =~= ct@.skip(self.salt_size as int));
        match xaes_decrypt(self.key.as_slice(), nonce.as_slice(), msg, aad) {
            Ok(p) => Ok(p),
            Err(_) => Err(XAesGcmError::DecryptionFailed),
        }
    }
}

impl Clone for XAesGcm {
    fn clone(&self) -> (r: Self)
        ensures
            r.key_bytes() == self.key_bytes(),
            r.salt_len() == self.salt_len(),
    {
        proof {
            use_type_invariant(self);
        }
        XAesGcm { key: self.key.clone(), salt_size: self.salt_size }
    }
}

} // verus!
