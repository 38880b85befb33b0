//! Credential vault: AES-256-GCM sealing of upstream API keys under a key
//! derived from a master secret, with the sealed form `base64(nonce || ciphertext)`.

use aes_gcm::aead::{Aead, AeadCore, KeyInit, OsRng};
use aes_gcm::{Aes256Gcm, Key, Nonce};
use base64::engine::general_purpose::STANDARD;
use base64::Engine;
use sha2::{Digest, Sha256};
use vstd::prelude::*;
use vstd::utf8::{decode_utf8, encode_utf8, valid_utf8};

verus! {

/// Length in bytes of an AES-256 key.
pub const KEY_LEN: usize = 32;

/// Length in bytes of an AES-GCM nonce, stored in front of every sealed value.
pub const NONCE_LEN: usize = 12;

/// Length in bytes of the AES-GCM authentication tag.
pub const TAG_LEN: usize = 16;

/// Largest plaintext, in bytes, that AES-GCM accepts (`aes_gcm::P_MAX`).
pub const MAX_PLAINTEXT_LEN: u64 = 68719476736u64;

/// Errors of `Vault::decrypt`.
#[derive(Debug, PartialEq, Eq, Structural, Clone, Copy)]
pub enum VaultError {
    /// The sealed value is not valid standard base64.
    InvalidBase64,
    /// The value is too short, fails authentication, or is not UTF-8 text.
    DecryptionFailed,
}

/// What `sha2::Sha256::digest` returns for `data`.
pub uninterp spec fn sha256_digest(data: Seq<u8>) -> Seq<u8>;

/// What AES-256-GCM encryption (`aes_gcm::Aes256Gcm`, no associated data)
/// returns for a key, a nonce and a plaintext: ciphertext followed by the tag.
pub uninterp spec fn aes256gcm_seal(key: Seq<u8>, nonce: Seq<u8>, plaintext: Seq<u8>) -> Seq<u8>;

/// What AES-256-GCM decryption (`aes_gcm::Aes256Gcm`, no associated data)
/// returns for a key, a nonce and a ciphertext with its tag; `None` when it refuses.
pub uninterp spec fn aes256gcm_open(key: Seq<u8>, nonce: Seq<u8>, ciphertext: Seq<u8>) -> Option<Seq<u8>>;

/// What `base64::engine::general_purpose::STANDARD.encode` returns for `data`.
pub uninterp spec fn base64_encode(data: Seq<u8>) -> Seq<char>;

/// What `base64::engine::general_purpose::STANDARD.decode` returns for `text`;
/// `None` when it reports an error.
pub uninterp spec fn base64_decode(text: Seq<char>) -> Option<Seq<u8>>;

/// `sha2::Sha256::digest`. Claims that the result is the named digest of
/// `data` and is 32 bytes long.
#[verifier::external_body]
fn sha256(data: &[u8]) -> (r: Vec<u8>)
    ensures
        r@ == sha256_digest(data@),
        r@.len() == KEY_LEN,
{
    Sha256::digest(data).to_vec()
}

/// `aes_gcm::Aes256Gcm::encrypt` under the cipher made from `key`. Claims: it
/// refuses exactly the plaintexts longer than `MAX_PLAINTEXT_LEN`; otherwise the
/// result is the named ciphertext, 16 bytes longer than the plaintext, and
/// decryption with the same key and nonce gives the plaintext back.
#[verifier::external_body]
fn aes256gcm_encrypt(key: &[u8], nonce: &[u8], plaintext: &[u8]) -> (r: Option<Vec<u8>>)
    requires
        key@.len() == KEY_LEN,
        nonce@.len() == NONCE_LEN,
    ensures
        r is Some <==> plaintext@.len() <= MAX_PLAINTEXT_LEN,
        r matches Some(c) ==> {
            &&& c@ == aes256gcm_seal(key@, nonce@, plaintext@)
            &&& c@.len() == plaintext@.len() + TAG_LEN
            &&& aes256gcm_open(key@, nonce@, c@) == Some(plaintext@)
        },
{
    Aes256Gcm::new(Key::<Aes256Gcm>::from_slice(key)).encrypt(Nonce::from_slice(nonce), plaintext).ok()
}

/// `aes_gcm::Aes256Gcm::decrypt` under the cipher made from `key`. Claims that
/// the result is the named decryption, and that a ciphertext shorter than the
/// tag is refused.
#[verifier::external_body]
fn aes256gcm_decrypt(key: &[u8], nonce: &[u8], ciphertext: &[u8]) -> (r: Option<Vec<u8>>)
    requires
        key@.len() == KEY_LEN,
        nonce@.len() == NONCE_LEN,
    ensures
        aes256gcm_open(key@, nonce@, ciphertext@) == (match r {
            Some(p) => Some(p@),
            None => None,
        }),
        ciphertext@.len() < TAG_LEN ==> r is None,
{
    Aes256Gcm::new(Key::<Aes256Gcm>::from_slice(key)).decrypt(Nonce::from_slice(nonce), ciphertext).ok()
}

/// `Aes256Gcm::generate_nonce` from the operating system's generator. Claims
/// only the length: the bytes are random.
#[verifier::external_body]
fn random_nonce() -> (r: Vec<u8>)
    ensures
        r@.len() == NONCE_LEN,
{
    Aes256Gcm::generate_nonce(&mut OsRng).to_vec()
}

/// `STANDARD.encode` of the `base64` crate. Claims that the result is the named
/// encoding and that `STANDARD.decode` gives `data` back from it. It panics when
/// the length of the encoding overflows `usize`, which `requires` leaves out.
#[verifier::external_body]
fn base64_standard_encode(data: &[u8]) -> (r: String)
    requires
        data@.len() / 3 * 4 + 4 <= usize::MAX,
    ensures
        r@ == base64_encode(data@),
        base64_decode(r@) == Some(data@),
{
    STANDARD.encode(data)
}

/// `STANDARD.decode` of the `base64` crate. Claims that the result is the named
/// decoding.
#[verifier::external_body]
fn base64_standard_decode(text: &str) -> (r: Option<Vec<u8>>)
    ensures
        base64_decode(text@) == (match r {
            Some(b) => Some(b@),
            None => None,
        }),
{
    STANDARD.decode(text).ok()
}

/// `String::from_utf8`: the text that `bytes` encode, or `None` when they are
/// not UTF-8.
#[verifier::external_body]
fn utf8_text(bytes: Vec<u8>) -> (r: Option<String>)
    ensures
        match r {
            Some(s) => valid_utf8(bytes@) && s@ == decode_utf8(bytes@),
            None => !valid_utf8(bytes@),
        },
{
    String::from_utf8(bytes).ok()
}

/// The vault key derived from a master secret: SHA-256 of its UTF-8 bytes.
pub open spec fn master_key(secret: Seq<char>) -> Seq<u8> {
    sha256_digest(encode_utf8(secret))
}

/// The sealed form of `plaintext` under `key` with `nonce`.
pub open spec fn sealed_text(key: Seq<u8>, nonce: Seq<u8>, plaintext: Seq<char>) -> Seq<char> {
    base64_encode(nonce + aes256gcm_seal(key, nonce, encode_utf8(plaintext)))
}

/// What decrypting `encoded` under `key` gives.
pub open spec fn unsealed_text(key: Seq<u8>, encoded: Seq<char>) -> Result<Seq<char>, VaultError> {
    match base64_decode(encoded) {
        None => Err(VaultError::InvalidBase64),
        Some(data) => if data.len() < NONCE_LEN {
            Err(VaultError::DecryptionFailed)
        } else {
            match aes256gcm_open(key, data.take(NONCE_LEN as int), data.skip(NONCE_LEN as int)) {
                None => Err(VaultError::DecryptionFailed),
                Some(bytes) => if valid_utf8(bytes) {
                    Ok(decode_utf8(bytes))
                } else {
                    Err(VaultError::DecryptionFailed)
                },
            }
        },
    }
}

/// Plaintexts that `Vault::encrypt` accepts: AES-GCM's limit, and a sealed
/// form whose base64 length fits in `usize`.
pub open spec fn sealable(plaintext: Seq<char>) -> bool {
    let n = encode_utf8(plaintext).len();
    &&& n <= MAX_PLAINTEXT_LEN
    &&& (n + NONCE_LEN + TAG_LEN) / 3 * 4 + 4 <= usize::MAX
}

/// Decides `sealable`.
pub fn is_sealable(plaintext: &str) -> (r: bool)
    ensures
        r == sealable(plaintext@),
{
    let n = plaintext.as_bytes().len();
    if n as u64 > MAX_PLAINTEXT_LEN {
        return false;
    }
    let sealed_len = n as u128 + NONCE_LEN as u128 + TAG_LEN as u128;
    sealed_len / 3 * 4 + 4 <= usize::MAX as u128
}

/// Seals and unseals credentials with AES-256-GCM under one key.
pub struct Vault {
    key: Vec<u8>,
}

impl Vault {
    /// The 32-byte AES key of this vault.
    pub closed spec fn key(&self) -> Seq<u8> {
        self.key@
    }

    #[verifier::type_invariant]
    closed spec fn key_has_aes256_length(&self) -> bool {
        self.key@.len() == KEY_LEN
    }

    /// A vault whose key is the SHA-256 digest of `master_secret`.
    pub fn new(master_secret: &str) -> (v: Vault)
        ensures
            v.key() == master_key(master_secret@),
    {
        let key = sha256(master_secret.as_bytes());
        Vault { key }
    }

    /// Seals `plaintext` with the given nonce: `base64(nonce || ciphertext ||
    /// tag)`, which decodes to 12 + plaintext length + 16 bytes and decrypts
    /// back to `plaintext`. A nonce must never be used twice under one key;
    /// `encrypt` draws a fresh one each time.
    pub fn seal(&self, nonce: &[u8], plaintext: &str) -> (r: String)
        requires
            nonce@.len() == NONCE_LEN,
            sealable(plaintext@),
        ensures
            r@ == sealed_text(self.key(), nonce@, plaintext@),
            base64_decode(r@) matches Some(d) && d.len() == NONCE_LEN + encode_utf8(plaintext@).len()
                + TAG_LEN && d.take(NONCE_LEN as int) == nonce@,
            unsealed_text(self.key(), r@) == Ok::<Seq<char>, VaultError>(plaintext@),
    {
        proof {
            use_type_invariant(self);
        }
        let bytes = plaintext.as_bytes();
        let sealed = aes256gcm_encrypt(self.key.as_slice(), nonce, bytes);
        let mut body = match sealed {
            Some(c) => c,
            None => {
                proof {
                    assert(false);
                }
                Vec::new()
            },
        };
        let ghost body_view = body@;
        let mut combined: Vec<u8> = Vec::new();
        let mut i: usize = 0;
        while i < nonce.len()
            invariant
                i <= nonce@.len(),
                combined@ == nonce@.take(i as int),
            decreases nonce@.len() - i,
        {
            assert(nonce@.take(i + 1) == nonce@.take(i as int).push(nonce@[i as int]));
            combined.push(nonce[i]);
            i += 1;
        }
        assert(nonce@.take(nonce@.len() as int) == nonce@);
        combined.append(&mut body);
        assert(combined@.take(NONCE_LEN as int) == nonce@);
        assert(combined@.skip(NONCE_LEN as int) == body_view);
        let r = base64_standard_encode(combined.as_slice());
        proof {
            vstd::utf8::encode_utf8_valid_utf8(plaintext@);
            vstd::utf8::encode_utf8_decode_utf8(plaintext@);
        }
        r
    }

    /// Seals `plaintext` under a fresh random nonce; the result is
    /// `base64(nonce || ciphertext || tag)`, decodes to 12 + plaintext length
    /// + 16 bytes, and decrypting it gives `plaintext` back.
    pub fn encrypt(&self, plaintext: &str) -> (r: String)
        requires
            sealable(plaintext@),
        ensures
            exists|nonce: Seq<u8>| nonce.len() == NONCE_LEN && r@ == sealed_text(self.key(), nonce, plaintext@),
            base64_decode(r@) matches Some(d) && d.len() == NONCE_LEN + encode_utf8(plaintext@).len()
                + TAG_LEN,
            unsealed_text(self.key(), r@) == Ok::<Seq<char>, VaultError>(plaintext@),
    {
        let nonce = random_nonce();
        self.seal(nonce.as_slice(), plaintext)
    }

    /// Unseals `encoded`: `InvalidBase64` when it is not standard base64;
    /// `DecryptionFailed` when it is shorter than a nonce, fails authentication
    /// under this vault's key, or is not UTF-8 text.
    pub fn decrypt(&self, encoded: &str) -> (r: Result<String, VaultError>)
        ensures
            match r {
                Ok(s) => unsealed_text(self.key(), encoded@) == Ok::<Seq<char>, VaultError>(s@),
                Err(e) => unsealed_text(self.key(), encoded@) == Err::<Seq<char>, VaultError>(e),
            },
            base64_decode(encoded@) matches Some(d) && d.len() < NONCE_LEN + TAG_LEN ==> r == Err::<
                String,
                VaultError,
            >(VaultError::DecryptionFailed),
    {
        proof {
            use_type_invariant(self);
        }
        let data = match base64_standard_decode(encoded) {
            Some(d) => d,
            None => return Err(VaultError::InvalidBase64),
        };
        if data.len() < NONCE_LEN {
            return Err(VaultError::DecryptionFailed);
        }
        let (nonce, ciphertext) = data.as_slice().split_at(NONCE_LEN);
        let plain = match aes256gcm_decrypt(self.key.as_slice(), nonce, ciphertext) {
            Some(p) => p,
            None => return Err(VaultError::DecryptionFailed),
        };
        match utf8_text(plain) {
            Some(s) => Ok(s),
            None => Err(VaultError::DecryptionFailed),
        }
    }
}

} // verus!
