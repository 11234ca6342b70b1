//! The binary container that a vault is stored in.
//!
//! Layout: the magic bytes `SECVAULT` (8 bytes), the format version (`u32`,
//! little-endian), the Argon2id salt (32 bytes), the AES-GCM nonce (12 bytes),
//! the ciphertext length (`u64`, little-endian) and the ciphertext, whose last
//! 16 bytes are the authentication tag. Bytes after the ciphertext are ignored.
use vstd::prelude::*;
use crate::bytes::{le_u32, le_u64, u32_from_le, u64_from_le, lemma_u32_le_roundtrip, lemma_u64_le_roundtrip, lemma_u32_le_unique, lemma_u64_le_unique, push_u32_le, push_u64_le, push_all, read_u32_le, read_u64_le, copy_range};
use crate::crypto::{NONCE_SIZE, SALT_SIZE, AES_GCM_P_MAX, KdfParams, derived_key, default_kdf_params, kdf_accepts, kdf_params_in_range, aes256gcm_seal, aes256gcm_open, generate_salt, generate_nonce, derive_key, encrypt, decrypt};
use crate::payload::{encode_payload, decode_payload, encoded_payload, decoded_payload, table_fits};
use crate::vault::{MAGIC_BYTES, VERSION, VaultData, VaultDataView, VaultError, keys_distinct};

verus! {

/// Length of the header before the ciphertext.
pub const HEADER_SIZE: usize = 64;

/// The magic bytes as a sequence.
pub open spec fn magic() -> Seq<u8> {
    seq![0x53u8, 0x45u8, 0x43u8, 0x56u8, 0x41u8, 0x55u8, 0x4cu8, 0x54u8]
}

/// The container bytes for `salt`, `nonce` and `ciphertext`.
pub open spec fn container_bytes(salt: Seq<u8>, nonce: Seq<u8>, ciphertext: Seq<u8>) -> Seq<u8> {
    magic() + le_u32(VERSION) + salt + nonce + le_u64(ciphertext.len() as u64) + ciphertext
}

/// `b` starts with the magic bytes.
pub open spec fn magic_ok(b: Seq<u8>) -> bool {
    b.len() >= 8 && b.subrange(0, 8) == magic()
}

/// The version field of `b`.
pub open spec fn version_of(b: Seq<u8>) -> u32 {
    u32_from_le(b.subrange(8, 12))
}

/// The declared ciphertext length of `b`.
pub open spec fn declared_len(b: Seq<u8>) -> u64 {
    u64_from_le(b.subrange(56, 64))
}

/// `b` holds a whole header and as many ciphertext bytes as it declares.
pub open spec fn frame_complete(b: Seq<u8>) -> bool {
    b.len() >= HEADER_SIZE && declared_len(b) <= b.len() - HEADER_SIZE
}

/// `b` is a container of the current version: right magic, right version,
/// and complete.
pub open spec fn container_ok(b: Seq<u8>) -> bool {
    &&& magic_ok(b)
    &&& b.len() >= 12
    &&& version_of(b) == VERSION
    &&& frame_complete(b)
}

/// The salt of a container.
pub open spec fn salt_of(b: Seq<u8>) -> Seq<u8> {
    b.subrange(12, 44)
}

/// The nonce of a container.
pub open spec fn nonce_of(b: Seq<u8>) -> Seq<u8> {
    b.subrange(44, 56)
}

/// The ciphertext of a container.
pub open spec fn ciphertext_of(b: Seq<u8>) -> Seq<u8> {
    b.subrange(HEADER_SIZE as int, HEADER_SIZE + declared_len(b))
}

/// The error that reading the container `b` ends with, for a `b` that is not
/// a whole container of the current version: too few bytes (`Io`), wrong magic
/// (`InvalidFormat`) or another version (`UnsupportedVersion`), in the order in
/// which the header is read.
pub open spec fn container_error_matches(b: Seq<u8>, e: VaultError) -> bool {
    if b.len() < 8 {
        e is Io
    } else if !magic_ok(b) {
        e is InvalidFormat
    } else if b.len() < 12 {
        e is Io
    } else if version_of(b) != VERSION {
        e matches VaultError::UnsupportedVersion(v) && v == version_of(b)
    } else {
        e is Io
    }
}

/// A parsed container.
#[derive(Debug)]
pub struct VaultContainer {
    magic: [u8; 8],
    version: u32,
    salt: [u8; SALT_SIZE],
    nonce: [u8; NONCE_SIZE],
    ciphertext: Vec<u8>,
}

/// A container as plain values.
pub struct ContainerView {
    pub salt: Seq<u8>,
    pub nonce: Seq<u8>,
    pub ciphertext: Seq<u8>,
}

impl View for VaultContainer {
    type V = ContainerView;

    closed spec fn view(&self) -> ContainerView {
        ContainerView { salt: self.salt@, nonce: self.nonce@, ciphertext: self.ciphertext@ }
    }
}

/// Calls `std::io::Error::from(std::io::ErrorKind::UnexpectedEof)`, the error
/// that reading past the end of the container gives.
#[verifier::external_body]
fn unexpected_eof() -> std::io::Error {
    std::io::Error::from(std::io::ErrorKind::UnexpectedEof)
}

proof fn lemma_magic_bytes()
    ensures
        MAGIC_BYTES@ == magic(),
{
    assert(MAGIC_BYTES@ =~= magic());
}

impl VaultContainer {
    /// The magic and version fields hold the current values.
    #[verifier::type_invariant]
    closed spec fn inv(&self) -> bool {
        self.magic@ == magic() && self.version == VERSION
    }

    /// The salt, nonce and ciphertext lengths are those of the format.
    pub proof fn lemma_field_lengths(&self)
        ensures
            self@.salt.len() == SALT_SIZE,
            self@.nonce.len() == NONCE_SIZE,
    {
    }

    /// The format version recorded in the header.
    pub fn version(&self) -> (r: u32)
        ensures
            r == VERSION,
    {
        proof {
            use_type_invariant(self);
        }
        self.version
    }

    /// The length of the ciphertext, tag included.
    pub fn ciphertext_len(&self) -> (r: usize)
        ensures
            r == self@.ciphertext.len(),
    {
        self.ciphertext.len()
    }

    /// The container bytes.
    pub fn to_bytes(&self) -> (r: Vec<u8>)
        ensures
            r@ == container_bytes(self@.salt, self@.nonce, self@.ciphertext),
    {
        proof {
            use_type_invariant(self);
        }
        let mut out: Vec<u8> = Vec::new();
        push_all(&mut out, &self.magic);
        push_u32_le(&mut out, self.version);
        push_all(&mut out, &self.salt);
        push_all(&mut out, &self.nonce);
        push_u64_le(&mut out, self.ciphertext.len() as u64);
        push_all(&mut out, self.ciphertext.as_slice());
        assert(out@ =~= container_bytes(self@.salt, self@.nonce, self@.ciphertext));
        out
    }

    /// Reads a container from its bytes. Succeeds exactly on a whole container
    /// of the current version; otherwise fails as `container_error_matches` says.
    pub fn from_bytes(b: &[u8]) -> (r: Result<Self, VaultError>)
        ensures
            r is Ok <==> container_ok(b@),
            r matches Ok(c) ==> c@.salt == salt_of(b@) && c@.nonce == nonce_of(b@)
                && c@.ciphertext == ciphertext_of(b@),
            r matches Err(e) ==> container_error_matches(b@, e),
    {
        proof {
            lemma_magic_bytes();
        }
        if b.len() < 8 {
            return Err(VaultError::Io(unexpected_eof()));
        }
        let mut magic_buf = [0u8; 8];
        let mut i: usize = 0;
        let mut same = true;
        while i < 8
            invariant
                b@.len() >= 8,
                i <= 8,
                forall|j: int| 0 <= j < i ==> magic_buf@[j] == b@[j],
                same <==> (forall|j: int| 0 <= j < i ==> b@[j] == magic()[j]),
            decreases 8 - i,
        {
            magic_buf.set(i, b[i]);
            if b[i] != MAGIC_BYTES[i] {
                same = false;
            }
            i += 1;
        }
        assert(magic_buf@ =~= b@.subrange(0, 8));
        if !same {
            assert(!magic_ok(b@)) by {
                if magic_ok(b@) {
                    let j = choose|j: int| 0 <= j < 8 && b@[j] != magic()[j];
                    assert(b@.subrange(0, 8)[j] == b@[j]);
                }
            }
            return Err(VaultError::InvalidFormat);
        }
        assert(b@.subrange(0, 8) =~= magic());
        if b.len() < 12 {
            return Err(VaultError::Io(unexpected_eof()));
        }
        let version = read_u32_le(b, 8);
        if version != VERSION {
            return Err(VaultError::UnsupportedVersion(version));
        }
        if b.len() < HEADER_SIZE {
            return Err(VaultError::Io(unexpected_eof()));
        }
        let mut salt = [0u8; SALT_SIZE];
        let mut k: usize = 0;
        while k < SALT_SIZE
            invariant
                b@.len() >= HEADER_SIZE,
                k <= SALT_SIZE,
                forall|j: int| 0 <= j < k ==> salt@[j] == b@[12 + j],
            decreases SALT_SIZE - k,
        {
            salt.set(k, b[12 + k]);
            k += 1;
        }
        assert(salt@ =~= salt_of(b@));
        let mut nonce = [0u8; NONCE_SIZE];
        let mut k: usize = 0;
        while k < NONCE_SIZE
            invariant
                b@.len() >= HEADER_SIZE,
                k <= NONCE_SIZE,
                forall|j: int| 0 <= j < k ==> nonce@[j] == b@[44 + j],
            decreases NONCE_SIZE - k,
        {
            nonce.set(k, b[44 + k]);
            k += 1;
        }
        assert(nonce@ =~= nonce_of(b@));
        let len = read_u64_le(b, 56);
        if len > (b.len() - HEADER_SIZE) as u64 {
            return Err(VaultError::Io(unexpected_eof()));
        }
        let ciphertext = copy_range(b, HEADER_SIZE, HEADER_SIZE + len as usize);
        Ok(VaultContainer { magic: magic_buf, version, salt, nonce, ciphertext })
    }
}

/// Reading back the bytes of a container gives its fields.
pub proof fn lemma_container_roundtrip(salt: Seq<u8>, nonce: Seq<u8>, ciphertext: Seq<u8>)
    requires
        salt.len() == SALT_SIZE,
        nonce.len() == NONCE_SIZE,
        ciphertext.len() <= u64::MAX,
    ensures
        container_ok(container_bytes(salt, nonce, ciphertext)),
        salt_of(container_bytes(salt, nonce, ciphertext)) == salt,
        nonce_of(container_bytes(salt, nonce, ciphertext)) == nonce,
        ciphertext_of(container_bytes(salt, nonce, ciphertext)) == ciphertext,
{
    let b = container_bytes(salt, nonce, ciphertext);
    lemma_u32_le_roundtrip(VERSION);
    lemma_u64_le_roundtrip(ciphertext.len() as u64);
    assert(b.subrange(0, 8) =~= magic());
    assert(b.subrange(8, 12) =~= le_u32(VERSION));
    assert(b.subrange(56, 64) =~= le_u64(ciphertext.len() as u64));
    assert(salt_of(b) =~= salt);
    assert(nonce_of(b) =~= nonce);
    assert(ciphertext_of(b) =~= ciphertext);
}

/// Writing back the fields read from a container gives the bytes they were
/// read from (up to the end of the ciphertext).
pub proof fn lemma_container_reserialize(b: Seq<u8>)
    requires
        container_ok(b),
    ensures
        container_bytes(salt_of(b), nonce_of(b), ciphertext_of(b)) == b.subrange(0, HEADER_SIZE + declared_len(b)),
{
    lemma_u32_le_unique(b.subrange(8, 12));
    lemma_u64_le_unique(b.subrange(56, 64));
    let ct = ciphertext_of(b);
    assert(ct.len() == declared_len(b));
    assert(le_u32(VERSION) == b.subrange(8, 12));
    assert(le_u64(ct.len() as u64) == b.subrange(56, 64));
    assert(container_bytes(salt_of(b), nonce_of(b), ct) =~= b.subrange(0, HEADER_SIZE + declared_len(b)));
}

/// `b` is the container that sealing `d` under `password` with `salt` and
/// `nonce` gives, together with what the outside crates promise of it: the
/// key derivation accepted the password and parameters, and the ciphertext
/// decrypts to the encoded data.
pub open spec fn sealed_with(b: Seq<u8>, password: Seq<u8>, d: VaultDataView, salt: Seq<u8>, nonce: Seq<u8>) -> bool {
    let key = derived_key(password, salt, d.metadata.kdf_params);
    let pt = encoded_payload(d);
    let ct = aes256gcm_seal(key, nonce, pt);
    &&& salt.len() == SALT_SIZE
    &&& nonce.len() == NONCE_SIZE
    &&& b == container_bytes(salt, nonce, ct)
    &&& pt.len() <= AES_GCM_P_MAX
    &&& ct.len() == pt.len() + 16
    &&& aes256gcm_open(key, nonce, ct) == Some(pt)
    &&& kdf_accepts(d.metadata.kdf_params, password.len())
    &&& keys_distinct(d.files)
    &&& table_fits(d.files)
}

/// The errors that sealing `d` under `password` may end with: the operating
/// system's generator failing, whatever the inputs; otherwise key derivation
/// where it refuses the password or parameters, and encryption where it does not.
pub open spec fn seal_error_matches(d: VaultDataView, password: Seq<u8>, e: VaultError) -> bool {
    ||| e matches VaultError::Crypto(c) && c is RandomnessUnavailable
    ||| !kdf_accepts(d.metadata.kdf_params, password.len()) && (e matches VaultError::Crypto(c) && c is KeyDerivationFailed)
    ||| kdf_accepts(d.metadata.kdf_params, password.len()) && encoded_payload(d).len() > AES_GCM_P_MAX
        && (e matches VaultError::Crypto(c) && c is EncryptionFailed)
}

/// `b` is a container that seals `d` under `password` with some salt and nonce.
pub open spec fn sealed(b: Seq<u8>, password: Seq<u8>, d: VaultDataView) -> bool {
    exists|salt: Seq<u8>, nonce: Seq<u8>| #[trigger] sealed_with(b, password, d, salt, nonce)
}

/// The data that a ciphertext holds when the key is derived from `password`
/// under `salt` with the default parameters, if it authenticates and decodes.
pub open spec fn unsealed(password: Seq<u8>, salt: Seq<u8>, nonce: Seq<u8>, ct: Seq<u8>) -> Option<VaultDataView> {
    if kdf_accepts(default_kdf_params(), password.len()) {
        match aes256gcm_open(derived_key(password, salt, default_kdf_params()), nonce, ct) {
            Some(pt) => decoded_payload(pt),
            None => None,
        }
    } else {
        None
    }
}

/// The error that unsealing ends with where `unsealed` gives nothing: key
/// derivation, then authentication, then decoding.
pub open spec fn unseal_error_matches(password: Seq<u8>, salt: Seq<u8>, nonce: Seq<u8>, ct: Seq<u8>, e: VaultError) -> bool {
    if !kdf_accepts(default_kdf_params(), password.len()) {
        e matches VaultError::Crypto(c) && c is KeyDerivationFailed
    } else if aes256gcm_open(derived_key(password, salt, default_kdf_params()), nonce, ct) is None {
        e matches VaultError::Crypto(c) && c is DecryptionFailed
    } else {
        e is Serialization
    }
}

/// The data held in the container bytes `b` for `password`.
pub open spec fn opened(b: Seq<u8>, password: Seq<u8>) -> Option<VaultDataView> {
    if container_ok(b) {
        unsealed(password, salt_of(b), nonce_of(b), ciphertext_of(b))
    } else {
        None
    }
}

/// The error that opening the container bytes `b` with `password` ends with.
pub open spec fn open_error_matches(b: Seq<u8>, password: Seq<u8>, e: VaultError) -> bool {
    if container_ok(b) {
        unseal_error_matches(password, salt_of(b), nonce_of(b), ciphertext_of(b), e)
    } else {
        container_error_matches(b, e)
    }
}

impl VaultContainer {
    /// Seals `data` under `password` with the given `salt` and `nonce`: the
    /// key derived with the data's own Argon2id parameters, and the encoded
    /// data encrypted under it. Fails with `KeyDerivationFailed` where the key
    /// derivation refuses the password or parameters, and otherwise with
    /// `EncryptionFailed` where the encoded data is longer than AES-GCM allows.
    pub fn seal_with(data: &VaultData, password: &[u8], salt: [u8; SALT_SIZE], nonce: [u8; NONCE_SIZE]) -> (r: Result<Self, VaultError>)
        requires
            data.wf(),
            kdf_params_in_range(data.metadata.kdf_params),
        ensures
            r is Ok <==> kdf_accepts(data.metadata.kdf_params, password@.len())
                && encoded_payload(data@).len() <= AES_GCM_P_MAX,
            r matches Ok(c) ==> c@.salt == salt@ && c@.nonce == nonce@
                && c@.ciphertext == aes256gcm_seal(derived_key(password@, salt@, data@.metadata.kdf_params), nonce@, encoded_payload(data@))
                && sealed_with(container_bytes(salt@, nonce@, c@.ciphertext), password@, data@, salt@, nonce@),
            r matches Err(e) ==> (if kdf_accepts(data.metadata.kdf_params, password@.len()) {
                e matches VaultError::Crypto(c) && c is EncryptionFailed
            } else {
                e matches VaultError::Crypto(c) && c is KeyDerivationFailed
            }),
    {
        let key = match derive_key(password, &salt, &data.metadata.kdf_params) {
            Ok(k) => k,
            Err(e) => return Err(VaultError::Crypto(e)),
        };
        let plaintext = encode_payload(data);
        let ciphertext = match encrypt(&key, &nonce, plaintext.as_slice()) {
            Ok(c) => c,
            Err(e) => return Err(VaultError::Crypto(e)),
        };
        proof {
            lemma_magic_bytes();
        }
        Ok(VaultContainer { magic: MAGIC_BYTES, version: VERSION, salt, nonce, ciphertext })
    }

    /// Seals `data` under `password` with a fresh random salt and nonce from
    /// the operating system's generator: `seal_with` on the drawn bytes.
    /// Fails with `RandomnessUnavailable` where the generator cannot supply
    /// them, and otherwise as `seal_with` does.
    pub fn new(data: &VaultData, password: &[u8]) -> (r: Result<Self, VaultError>)
        requires
            data.wf(),
            kdf_params_in_range(data.metadata.kdf_params),
        ensures
            r is Ok ==> kdf_accepts(data.metadata.kdf_params, password@.len())
                && encoded_payload(data@).len() <= AES_GCM_P_MAX,
            r matches Ok(c) ==> c@.ciphertext == aes256gcm_seal(derived_key(password@, c@.salt, data@.metadata.kdf_params), c@.nonce, encoded_payload(data@))
                && sealed_with(container_bytes(c@.salt, c@.nonce, c@.ciphertext), password@, data@, c@.salt, c@.nonce),
            r matches Err(e) ==> seal_error_matches(data@, password@, e),
    {
        let salt = match generate_salt() {
            Ok(s) => s,
            Err(e) => return Err(VaultError::Crypto(e)),
        };
        let nonce = match generate_nonce() {
            Ok(n) => n,
            Err(e) => return Err(VaultError::Crypto(e)),
        };
        Self::seal_with(data, password, salt, nonce)
    }

    /// Decrypts the container with a key derived from `password` under the
    /// container's salt with the default parameters, and decodes the data.
    pub fn decrypt(&self, password: &[u8]) -> (r: Result<VaultData, VaultError>)
        ensures
            r is Ok <==> unsealed(password@, self@.salt, self@.nonce, self@.ciphertext) is Some,
            r matches Ok(d) ==> d.wf() && unsealed(password@, self@.salt, self@.nonce, self@.ciphertext) == Some(d@),
            r matches Err(e) ==> unseal_error_matches(password@, self@.salt, self@.nonce, self@.ciphertext, e),
    {
        let kdf_params = KdfParams::default();
        let key = match derive_key(password, &self.salt, &kdf_params) {
            Ok(k) => k,
            Err(e) => return Err(VaultError::Crypto(e)),
        };
        let plaintext = match decrypt(&key, &self.nonce, self.ciphertext.as_slice()) {
            Ok(p) => p,
            Err(e) => return Err(VaultError::Crypto(e)),
        };
        decode_payload(plaintext.as_slice())
    }
}

/// Opening what sealing gave, with the same password, gives back the sealed
/// data, where the data carries the default key-derivation parameters (those
/// that opening uses).
pub proof fn lemma_open_sealed(b: Seq<u8>, password: Seq<u8>, d: VaultDataView)
    requires
        sealed(b, password, d),
        d.metadata.kdf_params == default_kdf_params(),
    ensures
        opened(b, password) == Some(d),
{
    let (salt, nonce) = choose|salt: Seq<u8>, nonce: Seq<u8>| #[trigger] sealed_with(b, password, d, salt, nonce);
    let key = derived_key(password, salt, d.metadata.kdf_params);
    let pt = encoded_payload(d);
    let ct = aes256gcm_seal(key, nonce, pt);
    lemma_container_roundtrip(salt, nonce, ct);
    crate::payload::lemma_payload_roundtrip(d);
}

} // verus!
