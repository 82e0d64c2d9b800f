//! Sealing a payload under a password and opening it again.
//!
//! A sealed file is the magic `EAI1`, a random 16-byte salt, a random 12-byte
//! nonce and the AES-256-GCM encryption of the encoded payload under a key
//! that Argon2id derives from the password and the salt.

use vstd::prelude::*;
use vstd::utf8::*;
use aes_gcm::aead::Aead;
use aes_gcm::aead::KeyInit;
use rand::RngCore;
use vstd::string::to_string_from_display_ensures;
use crate::payload::{
    serde_invalid_value_text,
    decode_payload, decode_payload_bytes, encode_payload, lemma_payload_round_trip, payload_bytes,
    Payload, PayloadDecoding, PayloadEncodingError, PayloadView,
};

verus! {

/// Declares the error type of the AEAD ciphers.
#[verifier::external_type_specification]
#[verifier::external_body]
pub struct ExAeadError(aes_gcm::Error);

/// Declares argon2's error type.
#[verifier::external_type_specification]
#[verifier::external_body]
pub struct ExArgon2Error(argon2::Error);

/// Declares the error type of the random number generators.
#[verifier::external_type_specification]
#[verifier::external_body]
pub struct ExRandError(rand::Error);

pub const SALT_LEN: usize = 16;

pub const NONCE_LEN: usize = 12;

pub const KEY_LEN: usize = 32;

/// Length of the magic, the salt and the nonce that open a sealed file.
pub const HEADER_LEN: usize = 32;

/// Argon2id memory cost in KiB.
pub const KDF_MEMORY_KIB: u32 = 65536;

/// Argon2id number of passes.
pub const KDF_ITERATIONS: u32 = 3;

/// Argon2id degree of parallelism.
pub const KDF_PARALLELISM: u32 = 1;

/// The longest plaintext that AES-GCM encrypts, in bytes.
pub const AES_GCM_MAX_PLAINTEXT: u64 = 0x10_0000_0000;

/// The longest password and salt that Argon2 accepts, in bytes.
pub const ARGON2_MAX_INPUT_LEN: u64 = 0xFFFF_FFFF;

/// The shortest salt that Argon2 accepts, in bytes.
pub const ARGON2_MIN_SALT_LEN: u64 = 8;

/// Why sealing or opening failed.
#[derive(Debug)]
pub enum CryptoError {
    InvalidFormat,
    EncryptionFailed,
    DecryptionFailed,
    Serialize(PayloadEncodingError),
    KeyDerivation,
    InvalidParameters,
}

/// The bytes `EAI1` that open every sealed file.
pub open spec fn magic_bytes() -> Seq<u8> {
    seq![0x45u8, 0x41u8, 0x49u8, 0x31u8]
}

/// What AES-256-GCM encryption with an empty associated data gives for a
/// 32-byte key, a 12-byte nonce and a plaintext: the ciphertext with its tag.
pub uninterp spec fn aes256gcm_seal(key: Seq<u8>, nonce: Seq<u8>, plaintext: Seq<u8>) -> Seq<u8>;

/// What AES-256-GCM decryption with an empty associated data gives for a key,
/// a nonce and a ciphertext with its tag: the plaintext, or `None` where the
/// tag does not authenticate the ciphertext.
pub uninterp spec fn aes256gcm_open(key: Seq<u8>, nonce: Seq<u8>, ciphertext: Seq<u8>) -> Option<
    Seq<u8>,
>;

/// The 32 bytes that Argon2id, version 0x13, derives with the given memory
/// cost, number of passes and parallelism from a password and a salt.
pub uninterp spec fn argon2id_v13_key(
    m_cost: u32,
    t_cost: u32,
    p_cost: u32,
    password: Seq<u8>,
    salt: Seq<u8>,
) -> Seq<u8>;

/// The parameters that `argon2::Params::new` accepts with a given output length.
pub open spec fn argon2_params_in_range(m_cost: u32, t_cost: u32, p_cost: u32, output_len: nat) -> bool {
    &&& m_cost >= 8
    &&& m_cost >= 8 * p_cost
    &&& t_cost >= 1
    &&& 1 <= p_cost <= 0xFF_FFFF
    &&& 4 <= output_len <= 0xFFFF_FFFF
}

/// The key that a password and a salt give, or `None` where Argon2 refuses the
/// password as too long.
pub open spec fn password_key(password: Seq<char>, salt: Seq<u8>) -> Option<Seq<u8>> {
    if encode_utf8(password).len() <= ARGON2_MAX_INPUT_LEN {
        Some(
            argon2id_v13_key(
                KDF_MEMORY_KIB,
                KDF_ITERATIONS,
                KDF_PARALLELISM,
                encode_utf8(password),
                salt,
            ),
        )
    } else {
        None
    }
}

/// The bytes of a sealed file with the given salt, nonce and ciphertext.
pub open spec fn sealed_layout(salt: Seq<u8>, nonce: Seq<u8>, ciphertext: Seq<u8>) -> Seq<u8> {
    magic_bytes() + salt + nonce + ciphertext
}

/// What opening a sealed file with a password gives.
pub enum Opened {
    Payload(PayloadView),
    BadFormat,
    KeyDerivationFailed,
    NotAuthentic,
    Malformed,
    UnknownKind(u32),
}

/// Opens a sealed file: checks its length and magic, derives the key from the
/// password and the stored salt, decrypts and authenticates the rest with the
/// stored nonce and reads the payload from the plaintext.
pub open spec fn open_sealed(bytes: Seq<u8>, password: Seq<char>) -> Opened {
    if bytes.len() <= HEADER_LEN || bytes.subrange(0, 4) != magic_bytes() {
        Opened::BadFormat
    } else {
        match password_key(password, bytes.subrange(4, 20)) {
            None => Opened::KeyDerivationFailed,
            Some(key) => match aes256gcm_open(
                key,
                bytes.subrange(20, 32),
                bytes.subrange(32, bytes.len() as int),
            ) {
                None => Opened::NotAuthentic,
                Some(plaintext) => match decode_payload_bytes(plaintext) {
                    PayloadDecoding::Payload(p) => Opened::Payload(p),
                    PayloadDecoding::UnknownKind(tag) => Opened::UnknownKind(tag),
                    PayloadDecoding::Malformed => Opened::Malformed,
                },
            },
        }
    }
}

/// Why key derivation failed.
enum Argon2Failure {
    Params(argon2::Error),
    Hash(argon2::Error),
}

/// `argon2::Params::new(m_cost, t_cost, p_cost, Some(32))`, then
/// `Argon2::new(Argon2id, V0x13, params).hash_password_into(password, salt, out)`.
/// The parameters fail exactly where they are out of the documented ranges;
/// hashing then succeeds exactly where the password is at most 2^32 - 1 bytes
/// and the salt between 8 and 2^32 - 1 bytes, and fills `out` with the
/// derived key.
#[verifier::external_body]
fn argon2id_hash_password_into(m_cost: u32, t_cost: u32, p_cost: u32, password: &[u8], salt: &[u8], out: &mut [u8; 32]) -> (r: Result<(), Argon2Failure>)
    requires
        p_cost <= 0x1FFF_FFFF,
    ensures
        (r matches Err(Argon2Failure::Params(_))) <==> !argon2_params_in_range(m_cost, t_cost, p_cost, 32),
        r is Ok <==> (argon2_params_in_range(m_cost, t_cost, p_cost, 32)
            && password@.len() <= ARGON2_MAX_INPUT_LEN && ARGON2_MIN_SALT_LEN <= salt@.len() <= ARGON2_MAX_INPUT_LEN),
        r is Ok ==> final(out)@ == argon2id_v13_key(m_cost, t_cost, p_cost, password@, salt@),
{
    let params = match argon2::Params::new(m_cost, t_cost, p_cost, Some(out.len())) {
        Ok(params) => params,
        Err(e) => return Err(Argon2Failure::Params(e)),
    };
    argon2::Argon2::new(argon2::Algorithm::Argon2id, argon2::Version::V0x13, params)
        .hash_password_into(password, salt, out)
        .map_err(Argon2Failure::Hash)
}

/// Why an AES-256-GCM call failed.
enum AesFailure {
    /// The key is not 32 bytes long.
    KeyLength,
    /// The cipher refused the input.
    Cipher(aes_gcm::Error),
}

/// `Aes256Gcm::new_from_slice(key)`, then `encrypt(nonce, plaintext)`. The key
/// is refused exactly where it is not 32 bytes long; encryption then fails
/// exactly where the plaintext is longer than 2^36 bytes. The ciphertext it
/// gives is the encrypted plaintext followed by a 16-byte tag, and decrypts
/// under the same key and nonce to the plaintext.
#[verifier::external_body]
fn aes256gcm_encrypt(key: &[u8], nonce: &[u8; 12], plaintext: &[u8]) -> (r: Result<Vec<u8>, AesFailure>)
    ensures
        (r matches Err(AesFailure::KeyLength)) <==> key@.len() != 32,
        r is Ok <==> (key@.len() == 32 && plaintext@.len() <= AES_GCM_MAX_PLAINTEXT),
        r matches Ok(c) ==> c@ == aes256gcm_seal(key@, nonce@, plaintext@),
        r matches Ok(c) ==> c@.len() == plaintext@.len() + 16,
        r matches Ok(c) ==> aes256gcm_open(key@, nonce@, c@) == Some(plaintext@),
{
    let cipher = match aes_gcm::Aes256Gcm::new_from_slice(key) {
        Ok(cipher) => cipher,
        Err(_) => return Err(AesFailure::KeyLength),
    };
    cipher.encrypt(aes_gcm::Nonce::from_slice(nonce), plaintext).map_err(AesFailure::Cipher)
}

/// `Aes256Gcm::new_from_slice(key)`, then `decrypt(nonce, ciphertext)`. The
/// key is refused exactly where it is not 32 bytes long.
#[verifier::external_body]
fn aes256gcm_decrypt(key: &[u8], nonce: &[u8; 12], ciphertext: &[u8]) -> (r: Result<Vec<u8>, AesFailure>)
    ensures
        (r matches Err(AesFailure::KeyLength)) <==> key@.len() != 32,
        match r {
            Ok(p) => aes256gcm_open(key@, nonce@, ciphertext@) == Some(p@),
            Err(AesFailure::Cipher(_)) => aes256gcm_open(key@, nonce@, ciphertext@) is None,
            Err(AesFailure::KeyLength) => true,
        },
{
    let cipher = match aes_gcm::Aes256Gcm::new_from_slice(key) {
        Ok(cipher) => cipher,
        Err(_) => return Err(AesFailure::KeyLength),
    };
    cipher.decrypt(aes_gcm::Nonce::from_slice(nonce), ciphertext).map_err(AesFailure::Cipher)
}

/// `OsRng.try_fill_bytes(dest)`: fills `dest` from the operating system's
/// random source. What it writes, and whether the source fails, is not stated.
#[verifier::external_body]
fn os_rng_try_fill_bytes(dest: &mut [u8]) -> (r: Result<(), rand::Error>)
    ensures
        final(dest)@.len() == old(dest)@.len(),
{
    rand::rngs::OsRng.try_fill_bytes(dest)
}

/// Derives the key for a password and a salt: Argon2id, version 0x13, with
/// 65536 KiB of memory, 3 passes and 1 lane over the password's UTF-8 bytes
/// and the salt. It fails only where the password is longer than Argon2
/// accepts.
pub fn derive_key(password: &str, salt: &[u8; SALT_LEN]) -> (r: Result<[u8; KEY_LEN], CryptoError>)
    ensures
        match r {
            Ok(key) => password_key(password@, salt@) == Some(key@),
            Err(CryptoError::KeyDerivation) => password_key(password@, salt@) is None,
            Err(_) => false,
        },
        r matches Ok(key) ==> key@ == argon2id_v13_key(65536, 3, 1, encode_utf8(password@), salt@),
        r is Ok <==> encode_utf8(password@).len() <= 0xFFFF_FFFF,
{
    let mut key = [0u8; KEY_LEN];
    match argon2id_hash_password_into(
        KDF_MEMORY_KIB,
        KDF_ITERATIONS,
        KDF_PARALLELISM,
        password.as_bytes(),
        salt,
        &mut key,
    ) {
        Ok(()) => Ok(key),
        Err(Argon2Failure::Params(_)) => Err(CryptoError::InvalidParameters),
        Err(Argon2Failure::Hash(_)) => Err(CryptoError::KeyDerivation),
    }
}

/// Appends the bytes of `src` to `dst`.
fn append_bytes(dst: &mut Vec<u8>, src: &[u8])
    ensures
        final(dst)@ == old(dst)@ + src@,
{
    let mut i: usize = 0;
    while i < src.len()
        invariant
            i <= src@.len(),
            dst@ == old(dst)@ + src@.subrange(0, i as int),
        decreases src@.len() - i,
    {
        dst.push(src[i]);
        i = i + 1;
        assert(dst@ =~= old(dst)@ + src@.subrange(0, i as int));
    }
    assert(src@.subrange(0, src@.len() as int) =~= src@);
}

/// Seals a payload under a password with the given salt and nonce: derives the
/// key, encrypts the encoded payload and writes the magic, the salt, the nonce
/// and the ciphertext. What comes out opens, with the same password, to the
/// payload.
pub fn seal_payload(payload: &Payload, password: &str, salt: &[u8; SALT_LEN], nonce: &[u8; NONCE_LEN]) -> (r: Result<Vec<u8>, CryptoError>)
    ensures
        match r {
            Ok(sealed) => {
                &&& password_key(password@, salt@) is Some
                &&& payload_bytes(payload@).len() <= AES_GCM_MAX_PLAINTEXT
                &&& sealed@.len() == HEADER_LEN + payload_bytes(payload@).len() + 16
                &&& sealed@ == sealed_layout(
                    salt@,
                    nonce@,
                    aes256gcm_seal(password_key(password@, salt@)->0, nonce@, payload_bytes(payload@)),
                )
                &&& open_sealed(sealed@, password@) == Opened::Payload(payload@)
            },
            Err(CryptoError::KeyDerivation) => password_key(password@, salt@) is None,
            Err(CryptoError::EncryptionFailed) => password_key(password@, salt@) is Some
                && payload_bytes(payload@).len() > AES_GCM_MAX_PLAINTEXT,
            Err(_) => false,
        },
{
    let plaintext = match encode_payload(payload) {
        Ok(bytes) => bytes,
        Err(e) => return Err(CryptoError::Serialize(e)),
    };
    let key = derive_key(password, salt)?;
    let ciphertext = match aes256gcm_encrypt(key.as_slice(), nonce, plaintext.as_slice()) {
        Ok(c) => c,
        Err(AesFailure::KeyLength) => return Err(CryptoError::InvalidParameters),
        Err(AesFailure::Cipher(_)) => return Err(CryptoError::EncryptionFailed),
    };
    let mut sealed: Vec<u8> = Vec::new();
    sealed.push(0x45u8);
    sealed.push(0x41u8);
    sealed.push(0x49u8);
    sealed.push(0x31u8);
    assert(sealed@ =~= magic_bytes());
    append_bytes(&mut sealed, salt);
    append_bytes(&mut sealed, nonce);
    append_bytes(&mut sealed, ciphertext.as_slice());
    proof {
        let b = sealed@;
        assert(b.subrange(0, 4) =~= magic_bytes());
        assert(b.subrange(4, 20) =~= salt@);
        assert(b.subrange(20, 32) =~= nonce@);
        assert(b.subrange(32, b.len() as int) =~= ciphertext@);
        lemma_payload_round_trip(payload@, Seq::empty());
        assert(payload_bytes(payload@) + Seq::<u8>::empty() =~= payload_bytes(payload@));
        assert(sealed@ =~= sealed_layout(salt@, nonce@, ciphertext@));
    }
    Ok(sealed)
}

/// Seals a payload under a password with a fresh random salt and nonce.
///
/// What comes out opens, with the same password, to the payload. It fails with
/// `KeyDerivation` where the password is too long for Argon2, and with
/// `EncryptionFailed` where the operating system's random source fails or
/// the encoded payload is too long for AES-GCM.
pub fn encrypt_payload(payload: &Payload, password: &str) -> (r: Result<Vec<u8>, CryptoError>)
    ensures
        match r {
            Ok(sealed) => {
                let salt = sealed@.subrange(4, 20);
                let nonce = sealed@.subrange(20, 32);
                &&& sealed@.len() == HEADER_LEN + payload_bytes(payload@).len() + 16
                &&& password_key(password@, salt) is Some
                &&& sealed@ == sealed_layout(
                    salt,
                    nonce,
                    aes256gcm_seal(password_key(password@, salt)->0, nonce, payload_bytes(payload@)),
                )
                &&& open_sealed(sealed@, password@) == Opened::Payload(payload@)
            },
            Err(CryptoError::KeyDerivation) => encode_utf8(password@).len() > ARGON2_MAX_INPUT_LEN,
            Err(CryptoError::EncryptionFailed) => true,
            Err(_) => false,
        },
{
    let mut salt = [0u8; SALT_LEN];
    let mut nonce = [0u8; NONCE_LEN];
    if os_rng_try_fill_bytes(&mut salt).is_err() {
        return Err(CryptoError::EncryptionFailed);
    }
    if os_rng_try_fill_bytes(&mut nonce).is_err() {
        return Err(CryptoError::EncryptionFailed);
    }
    let r = seal_payload(payload, password, &salt, &nonce);
    proof {
        if r is Ok {
            assert(r->Ok_0@.subrange(4, 20) =~= salt@);
            assert(r->Ok_0@.subrange(20, 32) =~= nonce@);
        }
    }
    r
}

/// Opens a sealed file with a password.
///
/// Fails with `InvalidFormat` where the bytes are no longer than the header or
/// do not start with the magic, with `KeyDerivation` where Argon2 refuses the
/// password, with `DecryptionFailed` where the password is wrong or the file
/// was altered, and with `Serialize` where the plaintext holds no payload.
pub fn decrypt_payload(bytes: &[u8], password: &str) -> (r: Result<Payload, CryptoError>)
    ensures
        match r {
            Ok(p) => open_sealed(bytes@, password@) == Opened::Payload(p@),
            Err(CryptoError::InvalidFormat) => open_sealed(bytes@, password@) == Opened::BadFormat,
            Err(CryptoError::KeyDerivation) => open_sealed(bytes@, password@)
                == Opened::KeyDerivationFailed,
            Err(CryptoError::DecryptionFailed) => open_sealed(bytes@, password@)
                == Opened::NotAuthentic,
            Err(CryptoError::Serialize(PayloadEncodingError::UnknownKind(tag))) => open_sealed(
                bytes@,
                password@,
            ) == Opened::UnknownKind(tag),
            Err(CryptoError::Serialize(PayloadEncodingError::Bincode(_))) => open_sealed(
                bytes@,
                password@,
            ) == Opened::Malformed,
            Err(_) => false,
        },
{
    if bytes.len() <= HEADER_LEN {
        return Err(CryptoError::InvalidFormat);
    }
    if !(bytes[0] == 0x45u8 && bytes[1] == 0x41u8 && bytes[2] == 0x49u8 && bytes[3] == 0x31u8) {
        proof {
            assert(bytes@.subrange(0, 4) != magic_bytes()) by {
                if bytes@.subrange(0, 4) == magic_bytes() {
                    assert(bytes@.subrange(0, 4)[0] == bytes@[0]);
                    assert(bytes@.subrange(0, 4)[1] == bytes@[1]);
                    assert(bytes@.subrange(0, 4)[2] == bytes@[2]);
                    assert(bytes@.subrange(0, 4)[3] == bytes@[3]);
                }
            }
        }
        return Err(CryptoError::InvalidFormat);
    }
    assert(bytes@.subrange(0, 4) =~= magic_bytes());
    let mut salt = [0u8; SALT_LEN];
    let mut i: usize = 0;
    while i < SALT_LEN
        invariant
            i <= SALT_LEN,
            bytes@.len() > HEADER_LEN,
            forall|j: int| 0 <= j < i ==> salt@[j] == bytes@[4 + j],
        decreases SALT_LEN - i,
    {
        salt[i] = bytes[4 + i];
        i = i + 1;
    }
    assert(salt@ =~= bytes@.subrange(4, 20));
    let mut nonce = [0u8; NONCE_LEN];
    let mut i: usize = 0;
    while i < NONCE_LEN
        invariant
            i <= NONCE_LEN,
            bytes@.len() > HEADER_LEN,
            forall|j: int| 0 <= j < i ==> nonce@[j] == bytes@[20 + j],
        decreases NONCE_LEN - i,
    {
        nonce[i] = bytes[20 + i];
        i = i + 1;
    }
    assert(nonce@ =~= bytes@.subrange(20, 32));
    let key = derive_key(password, &salt)?;
    let plaintext = match aes256gcm_decrypt(key.as_slice(), &nonce, &bytes[HEADER_LEN..bytes.len()]) {
        Ok(p) => p,
        Err(AesFailure::KeyLength) => return Err(CryptoError::InvalidParameters),
        Err(AesFailure::Cipher(_)) => return Err(CryptoError::DecryptionFailed),
    };
    match decode_payload(plaintext.as_slice()) {
        Ok(p) => Ok(p),
        Err(e) => Err(CryptoError::Serialize(e)),
    }
}

/// How serde words the refusal of a tag that names no payload kind.
pub open spec fn unknown_kind_detail(tag: u32) -> Seq<char> {
    "invalid value: integer `"@ + crate::naming::decimal(tag as nat) + "`, expected "@
        + "variant index 0 <= i < 2"@
}

/// Whether `text` is the message of an error: fixed for each kind, and for a
/// payload that could not be read, a fixed lead followed by the reason.
pub open spec fn is_crypto_message(e: CryptoError, text: Seq<char>) -> bool {
    match e {
        CryptoError::InvalidFormat => text == "The encrypted file format is invalid or unsupported."@,
        CryptoError::EncryptionFailed => text == "Encryption failed."@,
        CryptoError::DecryptionFailed => text
            == "Decryption failed. Check the password or confirm the file was created by Encryptallinator."@,
        CryptoError::Serialize(PayloadEncodingError::UnknownKind(tag)) => text
            == "Unable to serialize the encrypted payload: "@ + unknown_kind_detail(tag),
        CryptoError::Serialize(PayloadEncodingError::Bincode(b)) => exists|detail: String|
            to_string_from_display_ensures::<Box<bincode::ErrorKind>>(&b, detail) && text
                == "Unable to serialize the encrypted payload: "@ + detail@,
        CryptoError::KeyDerivation => text == "Password key derivation failed."@,
        CryptoError::InvalidParameters => text == "The crypto parameters are invalid."@,
    }
}

impl CryptoError {
    /// The message shown to the user.
    pub fn message(&self) -> (r: String)
        ensures
            is_crypto_message(*self, r@),
    {
        match self {
            CryptoError::InvalidFormat => String::from_str(
                "The encrypted file format is invalid or unsupported.",
            ),
            CryptoError::EncryptionFailed => String::from_str("Encryption failed."),
            CryptoError::DecryptionFailed => String::from_str(
                "Decryption failed. Check the password or confirm the file was created by Encryptallinator.",
            ),
            CryptoError::Serialize(e) => {
                let mut r = String::from_str("Unable to serialize the encrypted payload: ");
                let ghost prefix = r@;
                match e {
                    PayloadEncodingError::UnknownKind(tag) => {
                        let detail = serde_invalid_value_text(*tag, "variant index 0 <= i < 2");
                        r.append(detail.as_str());
                        assert(r@ =~= prefix + unknown_kind_detail(*tag));
                    },
                    PayloadEncodingError::Bincode(b) => {
                        let detail = b.to_string();
                        r.append(detail.as_str());
                    },
                }
                r
            },
            CryptoError::KeyDerivation => String::from_str("Password key derivation failed."),
            CryptoError::InvalidParameters => String::from_str(
                "The crypto parameters are invalid.",
            ),
        }
    }
}


/// The key that opens a sealed file is Argon2id, version 0x13, with 65536 KiB
/// of memory, 3 passes and 1 lane, of the password's UTF-8 bytes and the
/// stored salt; a password longer than 2^32 - 1 bytes gives no key.
pub proof fn lemma_key_is_argon2id_64mib_3_passes_1_lane(password: Seq<char>, salt: Seq<u8>)
    ensures
        encode_utf8(password).len() <= 0xFFFF_FFFF ==> password_key(password, salt) == Some(
            argon2id_v13_key(65536, 3, 1, encode_utf8(password), salt),
        ),
        encode_utf8(password).len() > 0xFFFF_FFFF ==> password_key(password, salt) is None,
{
}

/// A file in the sealed format opens with its password to the payload it
/// carries: the bytes `EAI1`, a 16-byte salt, a 12-byte nonce and the
/// AES-256-GCM encryption, under that nonce and the Argon2id key (version
/// 0x13, 65536 KiB, 3 passes, 1 lane) of the password and salt, of the
/// payload's encoding. This holds wherever AES-256-GCM decrypts what it
/// encrypted under that key and nonce.
pub proof fn lemma_sealed_format_opens(p: PayloadView, password: Seq<char>, salt: Seq<u8>, nonce: Seq<u8>)
    requires
        salt.len() == 16,
        nonce.len() == 12,
        encode_utf8(password).len() <= 0xFFFF_FFFF,
        encode_utf8(p.original_name).len() <= u64::MAX,
        p.data.len() <= u64::MAX,
        aes256gcm_open(
            argon2id_v13_key(65536, 3, 1, encode_utf8(password), salt),
            nonce,
            aes256gcm_seal(
                argon2id_v13_key(65536, 3, 1, encode_utf8(password), salt),
                nonce,
                payload_bytes(p),
            ),
        ) == Some(payload_bytes(p)),
        aes256gcm_seal(
            argon2id_v13_key(65536, 3, 1, encode_utf8(password), salt),
            nonce,
            payload_bytes(p),
        ).len() > 0,
    ensures
        open_sealed(
            seq![0x45u8, 0x41u8, 0x49u8, 0x31u8] + salt + nonce + aes256gcm_seal(
                argon2id_v13_key(65536, 3, 1, encode_utf8(password), salt),
                nonce,
                payload_bytes(p),
            ),
            password,
        ) == Opened::Payload(p),
{
    let key = argon2id_v13_key(65536, 3, 1, encode_utf8(password), salt);
    let c = aes256gcm_seal(key, nonce, payload_bytes(p));
    let b = seq![0x45u8, 0x41u8, 0x49u8, 0x31u8] + salt + nonce + c;
    assert(b.subrange(0, 4) =~= magic_bytes());
    assert(b.subrange(4, 20) =~= salt);
    assert(b.subrange(20, 32) =~= nonce);
    assert(b.subrange(32, b.len() as int) =~= c);
    lemma_payload_round_trip(p, Seq::empty());
    assert(payload_bytes(p) + Seq::<u8>::empty() =~= payload_bytes(p));
}

} // verus!
