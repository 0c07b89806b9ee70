use ed25519_dalek::Signer;
use wa_core::correlator::RequestCorrelator;
use wa_core::error::CoreError;
use wa_core::frame::{frame_length, CipherState};
use wa_core::group::{GroupReceiver, GroupSender};
use wa_core::handshake::{Handshake, Phase};
use wa_core::session::{Session, SessionManager};
use wa_core::symmetric::SymmetricState;

const NAME: &[u8] = b"Noise_XX_25519_AESGCM_SHA256\0\0\0\0";
const PROLOGUE: &[u8] = b"WA\x06\x03";

fn key(b: u8) -> Vec<u8> {
    vec![b; 32]
}

fn public(secret: &[u8]) -> Vec<u8> {
    let k: [u8; 32] = secret.try_into().unwrap();
    x25519_dalek::x25519(k, x25519_dalek::X25519_BASEPOINT_BYTES).to_vec()
}

fn dh(secret: &[u8], point: &[u8]) -> Vec<u8> {
    let k: [u8; 32] = secret.try_into().unwrap();
    let p: [u8; 32] = point.try_into().unwrap();
    x25519_dalek::x25519(k, p).to_vec()
}

struct Relay {
    sym: SymmetricState,
    ephemeral: Vec<u8>,
}

/// Plays the relay's side of the handshake up to its hello.
fn relay_hello(client_ephemeral: &[u8], relay_static: &[u8], cert: &[u8]) -> (Relay, Vec<u8>, Vec<u8>, Vec<u8>) {
    let ephemeral = key(0x51);
    let mut sym = SymmetricState::new(NAME);
    sym.mix_hash(PROLOGUE);
    sym.mix_hash(client_ephemeral);
    let e_pub = public(&ephemeral);
    sym.mix_hash(&e_pub);
    sym.mix_key(&dh(&ephemeral, client_ephemeral));
    let enc_static = sym.encrypt_and_hash(&public(relay_static));
    sym.mix_key(&dh(relay_static, client_ephemeral));
    let enc_cert = sym.encrypt_and_hash(cert);
    (Relay { sym, ephemeral }, e_pub, enc_static, enc_cert)
}

fn certificate(root_secret: &[u8], relay_static: &[u8]) -> Vec<u8> {
    let k: [u8; 32] = root_secret.try_into().unwrap();
    let sk = ed25519_dalek::SigningKey::from_bytes(&k);
    let rs_pub = public(relay_static);
    let mut cert = rs_pub.clone();
    cert.extend_from_slice(&sk.sign(&rs_pub).to_bytes());
    cert
}

fn root_public(root_secret: &[u8]) -> Vec<u8> {
    let k: [u8; 32] = root_secret.try_into().unwrap();
    ed25519_dalek::SigningKey::from_bytes(&k).verifying_key().to_bytes().to_vec()
}

#[test]
fn handshake_pair_derives_matching_ciphers() {
    let root = key(0x70);
    let relay_static = key(0x33);
    let mut hs = Handshake::new(NAME, PROLOGUE, key(0x11), key(0x22), root_public(&root));
    assert_eq!(hs.phase(), Phase::Init);
    let hello = hs.client_hello();
    assert_eq!(hs.phase(), Phase::HelloSent);
    let (mut relay, e_pub, enc_static, enc_cert) = relay_hello(&hello, &relay_static, &certificate(&root, &relay_static));
    assert_eq!(hs.read_server_hello(&e_pub, &enc_static, &enc_cert), Ok(()));
    assert_eq!(hs.phase(), Phase::ServerHelloReceived);
    let (finish, mut client) = hs.finish(b"client payload");

    let client_static = relay.sym.decrypt_and_hash(&finish.encrypted_static).unwrap();
    assert_eq!(client_static, public(&key(0x11)));
    relay.sym.mix_key(&dh(&relay.ephemeral, &client_static));
    let payload = relay.sym.decrypt_and_hash(&finish.encrypted_payload).unwrap();
    assert_eq!(payload, b"client payload".to_vec());
    let (c2s, s2c) = relay.sym.split();
    let mut relay_recv = CipherState::new(c2s);
    let mut relay_send = CipherState::new(s2c);

    let f = client.send.encrypt_frame(b"ping").unwrap();
    assert_eq!(relay_recv.decrypt_frame(&f), Ok(b"ping".to_vec()));
    let g = relay_send.encrypt_frame(b"pong").unwrap();
    assert_eq!(client.recv.decrypt_frame(&g), Ok(b"pong".to_vec()));
}

#[test]
fn handshake_rejects_flipped_certificate_bit() {
    let root = key(0x70);
    let relay_static = key(0x33);
    let mut hs = Handshake::new(NAME, PROLOGUE, key(0x11), key(0x22), root_public(&root));
    let hello = hs.client_hello();
    let mut cert = certificate(&root, &relay_static);
    cert[40] ^= 0x01;
    let (_relay, e_pub, enc_static, enc_cert) = relay_hello(&hello, &relay_static, &cert);
    assert_eq!(hs.read_server_hello(&e_pub, &enc_static, &enc_cert), Err(CoreError::CertificateInvalid));
    assert_eq!(hs.phase(), Phase::Failed);
}

#[test]
fn handshake_rejects_certificate_from_other_root() {
    let relay_static = key(0x33);
    let mut hs = Handshake::new(NAME, PROLOGUE, key(0x11), key(0x22), root_public(&key(0x70)));
    let hello = hs.client_hello();
    let (_relay, e_pub, enc_static, enc_cert) = relay_hello(&hello, &relay_static, &certificate(&key(0x71), &relay_static));
    assert_eq!(hs.read_server_hello(&e_pub, &enc_static, &enc_cert), Err(CoreError::CertificateInvalid));
}

#[test]
fn handshake_rejects_tampered_static_field() {
    let root = key(0x70);
    let relay_static = key(0x33);
    let mut hs = Handshake::new(NAME, PROLOGUE, key(0x11), key(0x22), root_public(&root));
    let hello = hs.client_hello();
    let (_relay, e_pub, mut enc_static, enc_cert) = relay_hello(&hello, &relay_static, &certificate(&root, &relay_static));
    enc_static[0] ^= 0x80;
    assert_eq!(hs.read_server_hello(&e_pub, &enc_static, &enc_cert), Err(CoreError::HandshakeAuthFailed));
    assert_eq!(hs.phase(), Phase::Failed);
}

#[test]
fn handshake_rejects_short_ephemeral() {
    let mut hs = Handshake::new(NAME, PROLOGUE, key(0x11), key(0x22), root_public(&key(0x70)));
    hs.client_hello();
    assert_eq!(hs.read_server_hello(&[1, 2, 3], &[], &[]), Err(CoreError::MalformedFrame));
}

#[test]
fn frame_counters_increase_and_order_is_enforced() {
    let mut tx = CipherState::new(key(7));
    let mut rx = CipherState::new(key(7));
    let mut frames = Vec::new();
    for i in 0..5u64 {
        assert_eq!(tx.counter(), i);
        frames.push(tx.encrypt_frame(&[i as u8; 10]).unwrap());
    }
    assert_eq!(tx.counter(), 5);
    assert_eq!(frames[0].len(), 3 + 10 + 16);
    assert_eq!(frame_length(&frames[0]), Ok(26));
    assert_eq!(rx.decrypt_frame(&frames[0]), Ok(vec![0u8; 10]));
    assert_eq!(rx.decrypt_frame(&frames[2]), Err(CoreError::DecryptionFailed));
    assert!(rx.is_failed());
    assert_eq!(rx.decrypt_frame(&frames[1]), Err(CoreError::DecryptionFailed));
}

#[test]
fn frame_in_order_decrypts() {
    let mut tx = CipherState::new(key(9));
    let mut rx = CipherState::new(key(9));
    for i in 0..4u8 {
        let f = tx.encrypt_frame(&[i, i, i]).unwrap();
        assert_eq!(rx.decrypt_frame(&f), Ok(vec![i, i, i]));
    }
    assert_eq!(rx.counter(), 4);
}

#[test]
fn frame_too_large_and_malformed() {
    let mut tx = CipherState::new(key(1));
    let big = vec![0u8; 0xFF_FFFF - 15];
    assert_eq!(tx.encrypt_frame(&big), Err(CoreError::FrameTooLarge));
    assert_eq!(tx.counter(), 0);
    let mut rx = CipherState::new(key(1));
    assert_eq!(rx.decrypt_frame(&[0, 0]), Err(CoreError::MalformedFrame));
    assert_eq!(rx.decrypt_frame(&[0, 0, 5, 1, 2]), Err(CoreError::MalformedFrame));
    assert!(!rx.is_failed());
    assert_eq!(frame_length(&[1, 2, 3]), Ok(0x010203));
}

fn pair() -> (Session, Session) {
    (Session::new(key(1), key(2)), Session::new(key(2), key(1)))
}

#[test]
fn out_of_order_messages_decrypt_exactly_once() {
    let (mut alice, mut bob) = pair();
    let m0 = alice.encrypt(b"zero");
    assert_eq!(bob.decrypt(m0.counter, &m0.ciphertext), Ok(b"zero".to_vec()));
    let msgs: Vec<_> = (1..=5u8).map(|i| alice.encrypt(&[i])).collect();
    for &i in &[3usize, 1, 5, 2, 4] {
        let m = &msgs[i - 1];
        assert_eq!(m.counter, i as u32);
        assert_eq!(bob.decrypt(m.counter, &m.ciphertext), Ok(vec![i as u8]));
    }
    for m in &msgs {
        assert_eq!(bob.decrypt(m.counter, &m.ciphertext), Err(CoreError::DuplicateOrTooOld));
    }
}

#[test]
fn replay_fails_with_duplicate() {
    let (mut alice, mut bob) = pair();
    let m = alice.encrypt(b"hi");
    assert_eq!(bob.decrypt(m.counter, &m.ciphertext), Ok(b"hi".to_vec()));
    assert_eq!(bob.decrypt(m.counter, &m.ciphertext), Err(CoreError::DuplicateOrTooOld));
}

#[test]
fn too_far_ahead_fails_without_state() {
    let (_alice, mut bob) = pair();
    assert_eq!(bob.decrypt(2001, &[0u8; 20]), Err(CoreError::TooManySkippedMessages));
    let (mut alice, _) = pair();
    let m = alice.encrypt(b"first");
    assert_eq!(bob.decrypt(m.counter, &m.ciphertext), Ok(b"first".to_vec()));
}

#[test]
fn forged_message_leaves_session_intact() {
    let (mut alice, mut bob) = pair();
    let m = alice.encrypt(b"real");
    let mut forged = m.ciphertext.clone();
    forged[0] ^= 1;
    assert_eq!(bob.decrypt(m.counter, &forged), Err(CoreError::DecryptionFailed));
    assert_eq!(bob.decrypt(m.counter, &m.ciphertext), Ok(b"real".to_vec()));
}

#[test]
fn manager_reports_missing_session() {
    let mut mgr = SessionManager::new();
    assert_eq!(mgr.encrypt(b"bob", b"x").err(), Some(CoreError::NoSession));
    assert_eq!(mgr.decrypt(b"bob", 0, b"x"), Err(CoreError::NoSession));
    mgr.install(b"bob".to_vec(), Session::new(key(1), key(2)));
    assert!(mgr.has_session(b"bob"));
    let mut bob = Session::new(key(2), key(1));
    let m = mgr.encrypt(b"bob", b"hello").unwrap();
    assert_eq!(bob.decrypt(m.counter, &m.ciphertext), Ok(b"hello".to_vec()));
    let r = bob.encrypt(b"back");
    assert_eq!(mgr.decrypt(b"bob", r.counter, &r.ciphertext), Ok(b"back".to_vec()));
}

#[test]
fn group_rotation_cuts_off_old_chain() {
    let mut sender = GroupSender::new(key(4), key(5));
    let old = sender.encrypt(b"before");
    let mut old_receiver = GroupReceiver::new(key(4), sender.signing_public());
    assert_eq!(old_receiver.decrypt(old.iteration, &old.ciphertext, &old.signature), Ok(b"before".to_vec()));
    sender.rotate(key(6), key(8));
    let mut new_receiver = GroupReceiver::new(key(6), sender.signing_public());
    assert!(new_receiver.decrypt(old.iteration, &old.ciphertext, &old.signature).is_err());
    let fresh = sender.encrypt(b"after");
    assert_eq!(fresh.iteration, 0);
    assert_eq!(new_receiver.decrypt(fresh.iteration, &fresh.ciphertext, &fresh.signature), Ok(b"after".to_vec()));
}

#[test]
fn group_rejects_bad_signature_and_old_iteration() {
    let mut sender = GroupSender::new(key(4), key(5));
    let mut receiver = GroupReceiver::new(key(4), sender.signing_public());
    let m = sender.encrypt(b"one");
    let mut bad = m.signature.clone();
    bad[3] ^= 1;
    assert_eq!(receiver.decrypt(m.iteration, &m.ciphertext, &bad), Err(CoreError::SignatureInvalid));
    assert_eq!(receiver.decrypt(m.iteration, &m.ciphertext, &m.signature[..10]), Err(CoreError::SignatureInvalid));
    assert_eq!(receiver.decrypt(m.iteration, &m.ciphertext, &m.signature), Ok(b"one".to_vec()));
    assert_eq!(receiver.decrypt(m.iteration, &m.ciphertext, &m.signature), Err(CoreError::TooOld));
}

#[test]
fn request_resolves_once_and_times_out() {
    let mut c = RequestCorrelator::new();
    c.send(b"1".to_vec(), 100);
    assert!(c.is_pending(b"1"));
    assert!(c.on_incoming(b"1"));
    assert!(!c.on_incoming(b"1"));
    assert_eq!(c.len(), 0);
    c.send(b"2".to_vec(), 50);
    c.send(b"3".to_vec(), 500);
    assert_eq!(c.expire(60), vec![b"2".to_vec()]);
    assert!(!c.on_incoming(b"2"));
    assert!(c.cancel(b"3"));
    assert_eq!(c.len(), 0);
}

#[test]
fn error_kinds_tell_reconnect_from_message_local() {
    assert!(CoreError::DecryptionFailed.is_connection_fatal());
    assert!(CoreError::CertificateInvalid.is_connection_fatal());
    assert!(!CoreError::NoSession.is_connection_fatal());
    assert!(!CoreError::TooOld.is_connection_fatal());
}
