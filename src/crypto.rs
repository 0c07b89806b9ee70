use vstd::prelude::*;
use aes_gcm::aead::{Aead, KeyInit, Payload};
use ed25519_dalek::Signer;
use hmac::Mac;
use sha2::Digest;

verus! {

/// Length of symmetric keys, chain keys, hashes and Curve25519 keys.
pub const KEY_LEN: usize = 32;

/// Length of an AES-GCM nonce.
pub const NONCE_LEN: usize = 12;

/// Length of an AES-GCM tag.
pub const TAG_LEN: usize = 16;

/// The longest plaintext or associated data AES-GCM takes: 2^36 bytes.
pub const AEAD_MAX: u64 = 0x10_0000_0000;

/// Length of an Ed25519 signature.
pub const SIGNATURE_LEN: usize = 64;

/// HMAC-SHA256 of `data` under `key`.
pub uninterp spec fn hmac_sha256_of(key: Seq<u8>, data: Seq<u8>) -> Seq<u8>;

/// SHA-256 digest of `data`.
pub uninterp spec fn sha256_of(data: Seq<u8>) -> Seq<u8>;

/// AES-256-GCM ciphertext with its tag appended: key, nonce, associated data, plaintext.
pub uninterp spec fn aead_seal_of(key: Seq<u8>, nonce: Seq<u8>, aad: Seq<u8>, plaintext: Seq<u8>) -> Seq<u8>;

/// The Curve25519 base point.
pub open spec fn basepoint() -> Seq<u8> {
    seq![9u8] + Seq::new(31, |i: int| 0u8)
}

/// X25519 of a scalar and a u-coordinate.
pub uninterp spec fn x25519_of(scalar: Seq<u8>, point: Seq<u8>) -> Seq<u8>;

/// Ed25519 public key of a 32-byte secret key.
pub uninterp spec fn ed25519_public_of(secret: Seq<u8>) -> Seq<u8>;

/// Ed25519 signature of a message under a secret key.
pub uninterp spec fn ed25519_sign_of(secret: Seq<u8>, msg: Seq<u8>) -> Seq<u8>;

/// Whether strict Ed25519 verification accepts a signature of a message under a public key.
pub uninterp spec fn ed25519_accepts(public: Seq<u8>, msg: Seq<u8>, sig: Seq<u8>) -> bool;

/// Relies on hmac::Hmac<sha2::Sha256>: a 32-byte tag that depends on key and
/// data alone; `new_from_slice` accepts keys of every length.
#[verifier::external_body]
pub(crate) fn hmac_sha256(key: &[u8], data: &[u8]) -> (r: Vec<u8>)
    ensures
        r@ == hmac_sha256_of(key@, data@),
        r@.len() == KEY_LEN,
{
    match <hmac::Hmac<sha2::Sha256> as Mac>::new_from_slice(key) {
        Ok(m) => m.chain_update(data).finalize().into_bytes().to_vec(),
        Err(_) => Vec::new(),
    }
}

/// Relies on sha2::Sha256::digest: a 32-byte digest of the data.
#[verifier::external_body]
pub(crate) fn sha256(data: &[u8]) -> (r: Vec<u8>)
    ensures
        r@ == sha256_of(data@),
        r@.len() == KEY_LEN,
{
    sha2::Sha256::digest(data).to_vec()
}

/// Relies on aes_gcm::Aes256Gcm::encrypt: the ciphertext with a 16-byte tag
/// appended, one byte of ciphertext per byte of plaintext; it fails only on
/// plaintext or associated data longer than 2^36 bytes.
#[verifier::external_body]
pub(crate) fn aead_seal(key: &[u8], nonce: &[u8], aad: &[u8], plaintext: &[u8]) -> (r: Option<Vec<u8>>)
    requires
        key@.len() == KEY_LEN,
        nonce@.len() == NONCE_LEN,
    ensures
        r matches Some(c) ==> c@ == aead_seal_of(key@, nonce@, aad@, plaintext@),
        r matches Some(c) ==> c@.len() == plaintext@.len() + TAG_LEN,
        plaintext@.len() <= 0x10_0000_0000 && aad@.len() <= 0x10_0000_0000 ==> r is Some,
{
    let cipher = aes_gcm::Aes256Gcm::new_from_slice(key).unwrap();
    let n = aes_gcm::Nonce::from_slice(nonce);
    cipher.encrypt(n, Payload { msg: plaintext, aad }).ok()
}

/// Relies on aes_gcm::Aes256Gcm::decrypt: it returns a plaintext exactly
/// when the ciphertext is the encryption of it under the same key, nonce and
/// associated data (the tag is checked over the ciphertext, then the same
/// keystream as in encryption is applied).
#[verifier::external_body]
pub(crate) fn aead_open(key: &[u8], nonce: &[u8], aad: &[u8], ciphertext: &[u8]) -> (r: Option<Vec<u8>>)
    requires
        key@.len() == KEY_LEN,
        nonce@.len() == NONCE_LEN,
    ensures
        r matches Some(p) ==> ciphertext@ == aead_seal_of(key@, nonce@, aad@, p@),
        forall|p: Seq<u8>|
            ciphertext@ == aead_seal_of(key@, nonce@, aad@, p) && p.len() <= AEAD_MAX && aad@.len() <= AEAD_MAX
                ==> r is Some && r->0@ == p,
{
    let cipher = aes_gcm::Aes256Gcm::new_from_slice(key).unwrap();
    let n = aes_gcm::Nonce::from_slice(nonce);
    cipher.decrypt(n, Payload { msg: ciphertext, aad }).ok()
}

/// Relies on x25519_dalek::x25519: the 32-byte shared point of a scalar
/// (clamped by the callee) and a u-coordinate. Both clamped scalars multiply
/// the base point, so the exchange agrees from either side.
#[verifier::external_body]
pub(crate) fn x25519(scalar: &[u8], point: &[u8]) -> (r: Vec<u8>)
    requires
        scalar@.len() == KEY_LEN,
        point@.len() == KEY_LEN,
    ensures
        r@ == x25519_of(scalar@, point@),
        r@.len() == KEY_LEN,
        forall|t: Seq<u8>| t.len() == KEY_LEN && point@ == x25519_of(t, basepoint())
            ==> r@ == x25519_of(t, x25519_of(scalar@, basepoint())),
{
    let k: [u8; 32] = scalar.try_into().unwrap();
    let u: [u8; 32] = point.try_into().unwrap();
    x25519_dalek::x25519(k, u).to_vec()
}

/// Relies on ed25519_dalek::SigningKey::verifying_key: the 32-byte public
/// key of a secret key.
#[verifier::external_body]
pub(crate) fn ed25519_public(secret: &[u8]) -> (r: Vec<u8>)
    requires
        secret@.len() == KEY_LEN,
    ensures
        r@ == ed25519_public_of(secret@),
        r@.len() == KEY_LEN,
{
    let k: [u8; 32] = secret.try_into().unwrap();
    ed25519_dalek::SigningKey::from_bytes(&k).verifying_key().to_bytes().to_vec()
}

/// Relies on ed25519_dalek::SigningKey::sign: a deterministic 64-byte
/// signature, which strict verification under the matching public key accepts.
#[verifier::external_body]
pub(crate) fn ed25519_sign(secret: &[u8], msg: &[u8]) -> (r: Vec<u8>)
    requires
        secret@.len() == KEY_LEN,
    ensures
        r@ == ed25519_sign_of(secret@, msg@),
        r@.len() == SIGNATURE_LEN,
        ed25519_accepts(ed25519_public_of(secret@), msg@, r@),
{
    let k: [u8; 32] = secret.try_into().unwrap();
    ed25519_dalek::SigningKey::from_bytes(&k).sign(msg).to_bytes().to_vec()
}

/// Relies on ed25519_dalek::VerifyingKey::verify_strict; a public key that
/// does not decode is rejected like a bad signature.
#[verifier::external_body]
pub(crate) fn ed25519_verify(public: &[u8], msg: &[u8], sig: &[u8]) -> (r: bool)
    requires
        public@.len() == KEY_LEN,
        sig@.len() == SIGNATURE_LEN,
    ensures
        r == ed25519_accepts(public@, msg@, sig@),
{
    let p: [u8; 32] = public.try_into().unwrap();
    let s: [u8; 64] = sig.try_into().unwrap();
    match ed25519_dalek::VerifyingKey::from_bytes(&p) {
        Ok(vk) => vk.verify_strict(msg, &ed25519_dalek::Signature::from_bytes(&s)).is_ok(),
        Err(_) => false,
    }
}

} // verus!
