//! Key derivation (Argon2id) and authenticated encryption (AES-256-GCM).
//!
//! The primitives themselves come from the `argon2`, `aes-gcm`, `rand` and
//! `subtle` crates; this module fixes how they are called and what the rest
//! of the library may rely on about their results.
use vstd::prelude::*;
use aes_gcm::aead::{Aead, KeyInit};
use aes_gcm::{Aes256Gcm, Nonce};
use argon2::{Argon2, ParamsBuilder, Version};
use rand::RngCore;
use subtle::ConstantTimeEq;

verus! {

/// Length of the Argon2id salt, in bytes.
pub const SALT_SIZE: usize = 32;

/// Length of the AES-GCM nonce, in bytes.
pub const NONCE_SIZE: usize = 12;

/// Length of the derived key, in bytes.
pub const KEY_SIZE: usize = 32;

/// Length of the AES-GCM authentication tag appended to every ciphertext.
pub const TAG_SIZE: usize = 16;

/// Longest plaintext that AES-GCM accepts, in bytes (2^36).
pub const AES_GCM_P_MAX: u64 = 0x10_0000_0000;

/// Errors of the cryptographic layer.
#[derive(Debug)]
pub enum CryptoError {
    EncryptionFailed,
    DecryptionFailed,
    KeyDerivationFailed(String),
    InvalidPassword,
    InvalidKeySize,
    RandomnessUnavailable,
}

#[verifier::external_type_specification]
#[verifier::external_body]
pub struct ExArgon2Error(argon2::Error);

#[verifier::external_type_specification]
#[verifier::external_body]
pub struct ExAeadError(aes_gcm::Error);

/// Key material of `KEY_SIZE` bytes.
pub struct SecureKey {
    key: [u8; KEY_SIZE],
}

impl View for SecureKey {
    type V = Seq<u8>;

    closed spec fn view(&self) -> Seq<u8> {
        self.key@
    }
}

impl SecureKey {
    /// The key bytes.
    pub fn as_bytes(&self) -> (r: &[u8; KEY_SIZE])
        ensures
            r@ == self@,
    {
        &self.key
    }

    /// A key holding exactly `bytes`.
    pub fn from_bytes(bytes: [u8; KEY_SIZE]) -> (r: Self)
        ensures
            r@ == bytes@,
    {
        Self { key: bytes }
    }

    /// Every key is `KEY_SIZE` bytes long.
    pub proof fn lemma_len(&self)
        ensures
            self@.len() == KEY_SIZE,
    {
    }
}

/// Calls `zeroize::Zeroize::zeroize` on the key bytes. Claimed: every byte
/// is zero afterwards.
#[verifier::external_body]
fn zeroize_key_bytes(k: &mut [u8; KEY_SIZE])
    ensures
        forall|i: int| 0 <= i < KEY_SIZE ==> final(k)@[i] == 0,
    opens_invariants none
    no_unwind
{
    zeroize::Zeroize::zeroize(k)
}

impl Drop for SecureKey {
    /// Wipes the key from memory.
    fn drop(&mut self)
        opens_invariants none
        no_unwind
    {
        zeroize_key_bytes(&mut self.key);
    }
}

/// Argon2id cost parameters.
#[derive(Debug, Clone, Copy, PartialEq, Eq, Structural)]
pub struct KdfParams {
    pub memory_cost_kb: u32,
    pub time_cost: u32,
    pub parallelism: u32,
}

/// The parameters every vault is created with: 64 MiB, 3 passes, 4 lanes.
pub open spec fn default_kdf_params() -> KdfParams {
    KdfParams { memory_cost_kb: 65536, time_cost: 3, parallelism: 4 }
}

impl Default for KdfParams {
    fn default() -> (r: Self)
        ensures
            r == default_kdf_params(),
    {
        Self { memory_cost_kb: 65536, time_cost: 3, parallelism: 4 }
    }
}

/// The cost parameters that the `argon2` crate accepts for a 32-byte output:
/// at least 8 KiB and at least 8 KiB per lane, at least one pass, and between
/// 1 and 2^24 - 1 lanes.
pub open spec fn argon2_params_valid(m_cost: u32, t_cost: u32, p_cost: u32) -> bool {
    &&& m_cost >= 8
    &&& m_cost >= 8 * p_cost
    &&& t_cost >= 1
    &&& 1 <= p_cost <= 0xFF_FFFF
}

/// Whether key derivation succeeds for a password of `password_len` bytes.
pub open spec fn kdf_accepts(params: KdfParams, password_len: nat) -> bool {
    &&& argon2_params_valid(params.memory_cost_kb, params.time_cost, params.parallelism)
    &&& password_len <= 0xFFFF_FFFF
}

/// Parameters on which the `argon2` crate's parameter check does not overflow.
pub open spec fn kdf_params_in_range(params: KdfParams) -> bool {
    params.parallelism <= 0x1FFF_FFFF
}

/// The 32-byte Argon2id (version 0x13) hash of `password` under `salt` with
/// memory cost `m_cost` KiB, `t_cost` passes and `p_cost` lanes.
pub uninterp spec fn argon2id_output(password: Seq<u8>, salt: Seq<u8>, m_cost: u32, t_cost: u32, p_cost: u32) -> Seq<u8>;

/// The AES-256-GCM ciphertext (with its tag appended) of `plaintext` under
/// `key` and `nonce`, with no associated data.
pub uninterp spec fn aes256gcm_seal(key: Seq<u8>, nonce: Seq<u8>, plaintext: Seq<u8>) -> Seq<u8>;

/// The AES-256-GCM decryption of `ciphertext` under `key` and `nonce` with no
/// associated data: `None` where it fails (a ciphertext shorter than its tag
/// or longer than 2^36 + 32 bytes, or a tag that does not authenticate).
pub uninterp spec fn aes256gcm_open(key: Seq<u8>, nonce: Seq<u8>, ciphertext: Seq<u8>) -> Option<Seq<u8>>;

/// The key that `derive_key` gives for these inputs.
pub open spec fn derived_key(password: Seq<u8>, salt: Seq<u8>, params: KdfParams) -> Seq<u8> {
    argon2id_output(password, salt, params.memory_cost_kb, params.time_cost, params.parallelism)
}

/// Calls `argon2::ParamsBuilder::build` and `argon2::Argon2::hash_password_into`
/// (Argon2id, version 0x13, 32-byte output). Claimed: the call succeeds exactly
/// on valid cost parameters and a password of at most 2^32 - 1 bytes (the
/// checks in `Params::new` and `verify_inputs`), and the output is the named
/// Argon2id hash of the arguments. Not claimed: that the `m_cost` KiB that the
/// hash allocates can be had; where they cannot, the process aborts.
#[verifier::external_body]
fn argon2id_hash(password: &[u8], salt: &[u8; SALT_SIZE], m_cost: u32, t_cost: u32, p_cost: u32) -> (r: Result<[u8; KEY_SIZE], argon2::Error>)
    requires
        p_cost <= 0x1FFF_FFFF,
    ensures
        r is Ok <==> (argon2_params_valid(m_cost, t_cost, p_cost) && password@.len() <= 0xFFFF_FFFF),
        r matches Ok(k) ==> k@ == argon2id_output(password@, salt@, m_cost, t_cost, p_cost),
{
    let params = ParamsBuilder::new().m_cost(m_cost).t_cost(t_cost).p_cost(p_cost).output_len(KEY_SIZE).build()?;
    let mut out = [0u8; KEY_SIZE];
    Argon2::new(argon2::Algorithm::Argon2id, Version::V0x13, params).hash_password_into(password, salt, &mut out)?;
    Ok(out)
}

/// Calls `Display::to_string` on an `argon2::Error`. Nothing is claimed of the text.
#[verifier::external_body]
fn argon2_error_text(e: &argon2::Error) -> String {
    e.to_string()
}

/// Calls `Aead::encrypt` of `aes_gcm::Aes256Gcm` (no associated data).
/// Claimed, from the crate's source: it fails exactly on plaintexts longer
/// than 2^36 bytes; its output is the named ciphertext, 16 bytes longer than
/// the plaintext; and decrypting that output under the same key and nonce
/// gives back the plaintext.
#[verifier::external_body]
fn aes256gcm_encrypt(key: &[u8; KEY_SIZE], nonce: &[u8; NONCE_SIZE], plaintext: &[u8]) -> (r: Result<Vec<u8>, aes_gcm::Error>)
    ensures
        r is Ok <==> plaintext@.len() <= AES_GCM_P_MAX,
        r matches Ok(c) ==> c@ == aes256gcm_seal(key@, nonce@, plaintext@),
        r matches Ok(c) ==> c@.len() == plaintext@.len() + TAG_SIZE,
        r matches Ok(c) ==> aes256gcm_open(key@, nonce@, c@) == Some(plaintext@),
{
    Aes256Gcm::new(key.into()).encrypt(Nonce::from_slice(nonce), plaintext)
}

/// Calls `Aead::decrypt` of `aes_gcm::Aes256Gcm` (no associated data).
/// Claimed, from the crate's source: it succeeds exactly where the named
/// decryption authenticates, and then returns its plaintext, 16 bytes shorter
/// than the ciphertext; where that plaintext is short enough for encryption,
/// encrypting it under the same key and nonce gives the ciphertext back (the
/// tag is checked against the ciphertext body, and the body is the plaintext
/// run through the same counter-mode keystream).
#[verifier::external_body]
fn aes256gcm_decrypt(key: &[u8; KEY_SIZE], nonce: &[u8; NONCE_SIZE], ciphertext: &[u8]) -> (r: Result<Vec<u8>, aes_gcm::Error>)
    ensures
        r is Ok <==> aes256gcm_open(key@, nonce@, ciphertext@) is Some,
        r matches Ok(p) ==> aes256gcm_open(key@, nonce@, ciphertext@) == Some(p@),
        r matches Ok(p) ==> ciphertext@.len() == p@.len() + TAG_SIZE,
        r matches Ok(p) ==> (p@.len() <= AES_GCM_P_MAX ==> aes256gcm_seal(key@, nonce@, p@) == ciphertext@),
{
    Aes256Gcm::new(key.into()).decrypt(Nonce::from_slice(nonce), ciphertext)
}

/// Calls `rand_core::RngCore::try_fill_bytes` on the operating system's
/// generator (`OsRng`) and reports whether it succeeded. Nothing is claimed
/// of the bytes, nor of when the operating system can supply them.
#[verifier::external_body]
fn fill_random<const N: usize>(buf: &mut [u8; N]) -> (ok: bool) {
    aes_gcm::aead::OsRng.try_fill_bytes(buf).is_ok()
}

/// Calls `subtle::ConstantTimeEq::ct_eq` on two 32-byte arrays and converts
/// the `Choice` to `bool`. Claimed: true exactly when the arrays are equal.
#[verifier::external_body]
fn ct_eq_32(a: &[u8; KEY_SIZE], b: &[u8; KEY_SIZE]) -> (r: bool)
    ensures
        r == (a@ == b@),
{
    a.ct_eq(b).into()
}

/// A fresh random salt from the operating system's generator;
/// `RandomnessUnavailable` where the generator fails.
pub fn generate_salt() -> (r: Result<[u8; SALT_SIZE], CryptoError>)
    ensures
        r matches Err(e) ==> e is RandomnessUnavailable,
{
    let mut salt = [0u8; SALT_SIZE];
    if fill_random(&mut salt) {
        Ok(salt)
    } else {
        Err(CryptoError::RandomnessUnavailable)
    }
}

/// A fresh random nonce from the operating system's generator;
/// `RandomnessUnavailable` where the generator fails.
pub fn generate_nonce() -> (r: Result<[u8; NONCE_SIZE], CryptoError>)
    ensures
        r matches Err(e) ==> e is RandomnessUnavailable,
{
    let mut nonce = [0u8; NONCE_SIZE];
    if fill_random(&mut nonce) {
        Ok(nonce)
    } else {
        Err(CryptoError::RandomnessUnavailable)
    }
}

/// Derives a key from `password` with Argon2id under `salt` and `params`.
/// Fails with `KeyDerivationFailed` exactly when the parameters are invalid
/// or the password is longer than 2^32 - 1 bytes.
pub fn derive_key(password: &[u8], salt: &[u8; SALT_SIZE], params: &KdfParams) -> (r: Result<SecureKey, CryptoError>)
    requires
        kdf_params_in_range(*params),
    ensures
        r is Ok <==> kdf_accepts(*params, password@.len()),
        r matches Ok(k) ==> k@ == derived_key(password@, salt@, *params),
        r matches Ok(k) ==> k@ == argon2id_output(password@, salt@, params.memory_cost_kb, params.time_cost, params.parallelism),
        r matches Err(e) ==> e is KeyDerivationFailed,
{
    match argon2id_hash(password, salt, params.memory_cost_kb, params.time_cost, params.parallelism) {
        Ok(key_bytes) => Ok(SecureKey::from_bytes(key_bytes)),
        Err(e) => Err(CryptoError::KeyDerivationFailed(argon2_error_text(&e))),
    }
}

/// Encrypts `plaintext` with AES-256-GCM under `key` and `nonce`.
/// Fails with `EncryptionFailed` exactly on plaintexts longer than 2^36 bytes.
pub fn encrypt(key: &SecureKey, nonce: &[u8; NONCE_SIZE], plaintext: &[u8]) -> (r: Result<Vec<u8>, CryptoError>)
    ensures
        r is Ok <==> plaintext@.len() <= AES_GCM_P_MAX,
        r matches Ok(c) ==> c@ == aes256gcm_seal(key@, nonce@, plaintext@),
        r matches Ok(c) ==> c@.len() == plaintext@.len() + TAG_SIZE,
        r matches Ok(c) ==> aes256gcm_open(key@, nonce@, c@) == Some(plaintext@),
        r matches Err(e) ==> e is EncryptionFailed,
{
    match aes256gcm_encrypt(key.as_bytes(), nonce, plaintext) {
        Ok(c) => Ok(c),
        Err(_) => Err(CryptoError::EncryptionFailed),
    }
}

/// Decrypts and authenticates `ciphertext` with AES-256-GCM under `key` and
/// `nonce`. Fails with `DecryptionFailed` exactly where authentication fails.
/// A plaintext it gives is 16 bytes shorter than the ciphertext, and where it
/// is short enough to encrypt, `encrypt` under the same key and nonce gives
/// the ciphertext back.
pub fn decrypt(key: &SecureKey, nonce: &[u8; NONCE_SIZE], ciphertext: &[u8]) -> (r: Result<Vec<u8>, CryptoError>)
    ensures
        r is Ok <==> aes256gcm_open(key@, nonce@, ciphertext@) is Some,
        r matches Ok(p) ==> aes256gcm_open(key@, nonce@, ciphertext@) == Some(p@),
        r matches Ok(p) ==> ciphertext@.len() == p@.len() + TAG_SIZE,
        r matches Ok(p) ==> (p@.len() <= AES_GCM_P_MAX ==> aes256gcm_seal(key@, nonce@, p@) == ciphertext@),
        r matches Err(e) ==> e is DecryptionFailed,
{
    match aes256gcm_decrypt(key.as_bytes(), nonce, ciphertext) {
        Ok(p) => Ok(p),
        Err(_) => Err(CryptoError::DecryptionFailed),
    }
}

/// Checks `password` against `expected_key`: derives the key under `salt`
/// and `params` and compares the two in constant time.
pub fn verify_password(password: &[u8], salt: &[u8; SALT_SIZE], expected_key: &SecureKey, params: &KdfParams) -> (r: Result<bool, CryptoError>)
    requires
        kdf_params_in_range(*params),
    ensures
        r is Ok <==> kdf_accepts(*params, password@.len()),
        r matches Ok(b) ==> (b <==> password_matches(password@, salt@, *params, expected_key@)),
        r matches Err(e) ==> e is KeyDerivationFailed,
{
    let derived = derive_key(password, salt, params)?;
    let result = ct_eq_32(derived.as_bytes(), expected_key.as_bytes());
    Ok(result)
}

/// A key that `password` derives to under `salt` and `params`.
pub open spec fn password_matches(password: Seq<u8>, salt: Seq<u8>, params: KdfParams, key: Seq<u8>) -> bool {
    derived_key(password, salt, params) == key
}

/// The key derived from a password is the Argon2id hash of the whole
/// password, every byte of it, under the salt and with the parameters' memory
/// cost, passes and lanes, in that order.
pub proof fn lemma_derived_key_is_argon2id(password: Seq<u8>, salt: Seq<u8>, params: KdfParams)
    ensures
        derived_key(password, salt, params) == argon2id_output(password, salt, params.memory_cost_kb, params.time_cost, params.parallelism),
{
}

/// The key derived from a password verifies that password: derivation is a
/// function of the password, salt and parameters alone.
pub proof fn lemma_derived_key_matches(password: Seq<u8>, salt: Seq<u8>, params: KdfParams)
    ensures
        password_matches(password, salt, params, derived_key(password, salt, params)),
{
}

} // verus!
