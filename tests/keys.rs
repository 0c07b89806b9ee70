use wa_core::bootstrap::{session_from_bundle, session_from_initiation, PreKeyBundle};
use wa_core::error::CoreError;
use wa_core::store::{apply_command_to_device, Device, DeviceCommand};

fn key(b: u8) -> Vec<u8> {
    vec![b; 32]
}

fn public(secret: &[u8]) -> Vec<u8> {
    let k: [u8; 32] = secret.try_into().unwrap();
    x25519_dalek::x25519(k, x25519_dalek::X25519_BASEPOINT_BYTES).to_vec()
}

#[test]
fn one_time_prekeys_are_consumed_once() {
    let mut d = Device::new(42, key(1), key(2));
    let published = d.generate_one_time_prekeys(vec![key(10), key(11), key(12)]);
    assert_eq!(published.len(), 3);
    assert_eq!(published[0].0, 1);
    assert_eq!(published[2].0, 3);
    assert_eq!(published[1].1, public(&key(11)));
    assert_eq!(d.consume_one_time_prekey(2), Some(key(11)));
    assert_eq!(d.consume_one_time_prekey(2), None);
    assert_eq!(d.consume_one_time_prekey(9), None);
    let more = d.generate_one_time_prekeys(vec![key(13)]);
    assert_eq!(more[0].0, 4);
}

#[test]
fn commands_and_records_round_trip() {
    let mut d = Device::new(7, key(1), key(2));
    apply_command_to_device(&mut d, DeviceCommand::AddOneTimePreKeys(vec![key(20), key(21)]));
    apply_command_to_device(&mut d, DeviceCommand::DeleteOneTimePreKey(1));
    apply_command_to_device(&mut d, DeviceCommand::DeleteOneTimePreKey(1));
    let rec = d.to_serializable();
    assert_eq!(rec.registration_id, 7);
    assert_eq!(rec.next_prekey_id, 3);
    assert_eq!(rec.one_time_prekeys.len(), 1);
    assert_eq!(rec.one_time_prekeys[0].id, 2);
    let mut other = Device::new(8, key(3), key(4));
    other.load_from_serializable(rec);
    assert_eq!(other.to_serializable().registration_id, 7);
    assert_eq!(other.consume_one_time_prekey(2), Some(key(21)));
    assert_eq!(other.identity_public(), public(&key(1)));
}

#[test]
fn signed_prekey_is_generated_once() {
    let mut d = Device::new(1, key(1), key(2));
    let a = d.get_or_generate_signed_prekey(5, key(30));
    let b = d.get_or_generate_signed_prekey(6, key(31));
    assert_eq!(a.id, 5);
    assert_eq!(b.id, 5);
    assert_eq!(a.public, public(&key(30)));
    assert_eq!(a.public, b.public);
    assert_eq!(a.signature.len(), 64);
}

fn bundle_of(bob: &mut Device, with_one_time: bool) -> PreKeyBundle {
    let spk = bob.get_or_generate_signed_prekey(1, key(0x40));
    let otk = if with_one_time { Some(bob.generate_one_time_prekeys(vec![key(0x41)])[0].1.clone()) } else { None };
    PreKeyBundle {
        identity_public: bob.identity_public(),
        signing_public: bob.signing_public(),
        signed_prekey_public: spk.public,
        signed_prekey_signature: spk.signature,
        one_time_prekey_public: otk,
    }
}

#[test]
fn bundle_sessions_match_on_both_sides() {
    for with_one_time in [true, false] {
        let mut bob = Device::new(2, key(0x21), key(0x22));
        let bundle = bundle_of(&mut bob, with_one_time);
        let mut alice = session_from_bundle(&key(0x11), &key(0x12), &bundle).unwrap();
        let otk = if with_one_time { bob.consume_one_time_prekey(1) } else { None };
        let mut bob_session = session_from_initiation(
            &key(0x21),
            &key(0x40),
            otk.as_deref(),
            &public(&key(0x11)),
            &public(&key(0x12)),
        );
        let m = alice.encrypt(b"hello bob");
        assert_eq!(bob_session.decrypt(m.counter, &m.ciphertext), Ok(b"hello bob".to_vec()));
        let r = bob_session.encrypt(b"hello alice");
        assert_eq!(alice.decrypt(r.counter, &r.ciphertext), Ok(b"hello alice".to_vec()));
    }
}

#[test]
fn bundle_with_bad_signature_is_refused() {
    let mut bob = Device::new(2, key(0x21), key(0x22));
    let mut bundle = bundle_of(&mut bob, false);
    bundle.signed_prekey_signature[0] ^= 1;
    assert_eq!(session_from_bundle(&key(0x11), &key(0x12), &bundle).err(), Some(CoreError::SignatureInvalid));
    bundle.signed_prekey_signature.truncate(10);
    assert_eq!(session_from_bundle(&key(0x11), &key(0x12), &bundle).err(), Some(CoreError::SignatureInvalid));
}
