use wa_core::group::{GroupReceiver, GroupSender};
use wa_core::records::{sender_key_id_bytes, RecordStore};
use wa_core::bootstrap::{ratchet_from_bundle, ratchet_from_initiation, PreKeyBundle};
use wa_core::error::CoreError;
use wa_core::ratchet::{Header, RatchetSession};
use wa_core::store::Device;

fn key(b: u8) -> Vec<u8> {
    vec![b; 32]
}

fn public(secret: &[u8]) -> Vec<u8> {
    let k: [u8; 32] = secret.try_into().unwrap();
    x25519_dalek::x25519(k, x25519_dalek::X25519_BASEPOINT_BYTES).to_vec()
}

fn setup() -> (RatchetSession, RatchetSession) {
    let mut bob = Device::new(2, key(0x21), key(0x22));
    let spk = bob.get_or_generate_signed_prekey(1, key(0x40));
    let otk = bob.generate_one_time_prekeys(vec![key(0x41)]);
    let bundle = PreKeyBundle {
        identity_public: bob.identity_public(),
        signing_public: bob.signing_public(),
        signed_prekey_public: spk.public,
        signed_prekey_signature: spk.signature,
        one_time_prekey_public: Some(otk[0].1.clone()),
    };
    let alice = ratchet_from_bundle(&key(0x11), &key(0x12), key(0x13), &bundle).unwrap();
    let secret = bob.consume_one_time_prekey(otk[0].0).unwrap();
    let bob_session = ratchet_from_initiation(&key(0x21), &key(0x40), Some(&secret), &public(&key(0x11)), &public(&key(0x12)));
    (alice, bob_session)
}

#[test]
fn ratchet_ping_pong_steps_both_ways() {
    let (mut alice, mut bob) = setup();
    assert_eq!(bob.encrypt(b"too early").err(), Some(CoreError::NoSession));
    let (h1, c1) = alice.encrypt(b"one").unwrap();
    let (h2, c2) = alice.encrypt(b"two").unwrap();
    assert_eq!(h1.ratchet_public, public(&key(0x13)));
    assert_eq!((h1.counter, h2.counter), (0, 1));
    assert_eq!(bob.decrypt(&h2, &c2, &key(0x50)), Ok(b"two".to_vec()));
    assert_eq!(bob.decrypt(&h1, &c1, &key(0x51)), Ok(b"one".to_vec()));
    assert_eq!(bob.decrypt(&h1, &c1, &key(0x52)), Err(CoreError::DuplicateOrTooOld));

    let (r1, d1) = bob.encrypt(b"reply").unwrap();
    assert_eq!(r1.ratchet_public, public(&key(0x50)));
    assert_eq!(alice.decrypt(&r1, &d1, &key(0x14)), Ok(b"reply".to_vec()));

    let (h3, c3) = alice.encrypt(b"three").unwrap();
    assert_eq!(h3.ratchet_public, public(&key(0x14)));
    assert_eq!(h3.counter, 0);
    assert_eq!(h3.previous_length, 2);
    assert_eq!(bob.decrypt(&h3, &c3, &key(0x53)), Ok(b"three".to_vec()));
}

#[test]
fn ratchet_failures_change_nothing() {
    let (mut alice, mut bob) = setup();
    let (h, c) = alice.encrypt(b"msg").unwrap();
    let mut forged = c.clone();
    forged[1] ^= 4;
    assert_eq!(bob.decrypt(&h, &forged, &key(0x50)), Err(CoreError::DecryptionFailed));
    let short = Header { ratchet_public: vec![1, 2, 3], counter: 0, previous_length: 0 };
    assert_eq!(bob.decrypt(&short, &c, &key(0x50)), Err(CoreError::MalformedFrame));
    let far = Header { ratchet_public: h.ratchet_public.clone(), counter: 5000, previous_length: 0 };
    assert_eq!(bob.decrypt(&far, &c, &key(0x50)), Err(CoreError::TooManySkippedMessages));
    assert_eq!(bob.decrypt(&h, &c, &key(0x50)), Ok(b"msg".to_vec()));
}

#[test]
fn late_message_of_previous_chain_still_decrypts() {
    let (mut alice, mut bob) = setup();
    let (h1, c1) = alice.encrypt(b"m1").unwrap();
    let (h2, c2) = alice.encrypt(b"m2").unwrap();
    assert_eq!(bob.decrypt(&h1, &c1, &key(0x50)), Ok(b"m1".to_vec()));
    let (r1, d1) = bob.encrypt(b"r1").unwrap();
    assert_eq!(alice.decrypt(&r1, &d1, &key(0x14)), Ok(b"r1".to_vec()));
    let (h3, c3) = alice.encrypt(b"m3").unwrap();
    assert_eq!(h3.previous_length, 2);
    assert_eq!(bob.decrypt(&h3, &c3, &key(0x51)), Ok(b"m3".to_vec()));
    assert_eq!(bob.decrypt(&h2, &c2, &key(0x52)), Ok(b"m2".to_vec()));
    assert_eq!(bob.decrypt(&h2, &c2, &key(0x53)), Err(CoreError::DuplicateOrTooOld));
}

#[test]
fn stores_hold_sessions_and_sender_keys_by_key() {
    let (mut alice, bob) = setup();
    let mut sessions = RecordStore::new_sessions();
    assert!(!sessions.contains(b"alice"));
    sessions.put(b"alice".to_vec(), bob);
    assert!(sessions.contains(b"alice"));
    let (h, c) = alice.encrypt(b"stored").unwrap();
    let mut s = sessions.take(b"alice").unwrap();
    assert!(sessions.take(b"alice").is_none());
    assert_eq!(s.decrypt(&h, &c, &key(0x50)), Ok(b"stored".to_vec()));
    sessions.put(b"alice".to_vec(), s);
    let mut s = sessions.take(b"alice").unwrap();
    assert_eq!(s.decrypt(&h, &c, &key(0x51)), Err(CoreError::DuplicateOrTooOld));

    let mut sender = GroupSender::new(key(4), key(5));
    let mut keys = RecordStore::new_sender_keys();
    let id = sender_key_id_bytes(b"group", b"alice");
    assert_eq!(id, b"\0\0\0\x05groupalice".to_vec());
    keys.put(id.clone(), GroupReceiver::new(key(4), sender.signing_public()));
    let m = sender.encrypt(b"hi all");
    let mut r = keys.take(&id).unwrap();
    assert_eq!(r.decrypt(m.iteration, &m.ciphertext, &m.signature), Ok(b"hi all".to_vec()));
    assert!(keys.take(&sender_key_id_bytes(b"groupa", b"lice")).is_none());
}
