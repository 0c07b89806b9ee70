use aes_gcm::aead::{Aead, KeyInit, Payload};
use ed25519_dalek::Signer;
use hmac::Mac;
use sha2::Digest;
use wa_core::chain::chain_step;
use wa_core::frame::CipherState;
use wa_core::group::GroupSender;
use wa_core::store::Device;
use wa_core::symmetric::SymmetricState;

fn hmac(key: &[u8], data: &[u8]) -> Vec<u8> {
    let mut m = <hmac::Hmac<sha2::Sha256> as Mac>::new_from_slice(key).unwrap();
    m.update(data);
    m.finalize().into_bytes().to_vec()
}

#[test]
fn chain_step_uses_hmac_sha256() {
    let ck = vec![3u8; 32];
    let (mk, next) = chain_step(&ck);
    assert_eq!(mk, hmac(&ck, &[1]));
    assert_eq!(next, hmac(&ck, &[2]));
    assert_ne!(mk, ck);
}

#[test]
fn transcript_hash_uses_sha256() {
    let name = b"Noise_XX_25519_AESGCM_SHA256\0\0\0\0";
    let mut s = SymmetricState::new(name);
    assert_eq!(s.handshake_hash(), name.to_vec());
    s.mix_hash(b"prologue");
    let mut buf = name.to_vec();
    buf.extend_from_slice(b"prologue");
    assert_eq!(s.handshake_hash(), sha2::Sha256::digest(&buf).to_vec());
    let long = vec![b'n'; 40];
    assert_eq!(SymmetricState::new(&long).handshake_hash(), sha2::Sha256::digest(&long).to_vec());
}

#[test]
fn key_mixing_follows_hmac_chain() {
    let name = [7u8; 32];
    let mut s = SymmetricState::new(&name);
    s.mix_key(b"ikm");
    let t = hmac(&name, b"ikm");
    let ck = hmac(&t, &[1]);
    let mut d = ck.clone();
    d.push(2);
    let k = hmac(&t, &d);
    let c = s.encrypt_and_hash(b"field");
    let cipher = aes_gcm::Aes256Gcm::new_from_slice(&k).unwrap();
    let expect = cipher.encrypt(aes_gcm::Nonce::from_slice(&[0u8; 12]), Payload { msg: b"field", aad: &name }).unwrap();
    assert_eq!(c, expect);
    let (k1, _k2) = s.split();
    let t2 = hmac(&ck, &[]);
    assert_eq!(k1, hmac(&t2, &[1]));
}

#[test]
fn frames_use_aes_gcm_with_counter_nonce() {
    let key = vec![5u8; 32];
    let mut tx = CipherState::new(key.clone());
    tx.encrypt_frame(b"first").unwrap();
    let f = tx.encrypt_frame(b"second").unwrap();
    let cipher = aes_gcm::Aes256Gcm::new_from_slice(&key).unwrap();
    let mut nonce = [0u8; 12];
    nonce[11] = 1;
    let expect = cipher.encrypt(aes_gcm::Nonce::from_slice(&nonce), Payload { msg: b"second", aad: &[] }).unwrap();
    assert_eq!(&f[3..], &expect[..]);
    assert_eq!(f[2] as usize, expect.len());
}

#[test]
fn signatures_use_ed25519() {
    let secret = [9u8; 32];
    let sk = ed25519_dalek::SigningKey::from_bytes(&secret);
    let mut sender = GroupSender::new(vec![1u8; 32], secret.to_vec());
    assert_eq!(sender.signing_public(), sk.verifying_key().to_bytes().to_vec());
    let m = sender.encrypt(b"hi");
    assert_eq!(m.signature, sk.sign(&m.ciphertext).to_bytes().to_vec());
    let d = Device::new(1, vec![2u8; 32], secret.to_vec());
    assert_eq!(d.signing_public(), sk.verifying_key().to_bytes().to_vec());
}
