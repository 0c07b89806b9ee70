use vstd::prelude::*;
use crate::bytes::copy_bytes;
use crate::crypto::{ed25519_public, ed25519_public_of, ed25519_sign, ed25519_sign_of, x25519, x25519_of, KEY_LEN};
use crate::crypto::basepoint;
use crate::tables::{has_key, lemma_without_key, lemma_without_key_absent, lemma_without_key_step, without_key};

verus! {

/// A one-time prekey: its id, secret and public key.
pub struct OneTimePreKey {
    pub id: u32,
    pub secret: Vec<u8>,
    pub public: Vec<u8>,
}

/// The signed prekey: its id, secret, public key and the identity signing
/// key's signature over the public key.
pub struct SignedPreKey {
    pub id: u32,
    pub secret: Vec<u8>,
    pub public: Vec<u8>,
    pub signature: Vec<u8>,
}

/// What is published of the signed prekey: id, public key, signature.
pub struct PublishedPreKey {
    pub id: u32,
    pub public: Vec<u8>,
    pub signature: Vec<u8>,
}

/// The device's durable key material, as handed to and taken back from the
/// persistence layer.
pub struct DeviceRecord {
    pub registration_id: u32,
    pub identity_secret: Vec<u8>,
    pub signing_secret: Vec<u8>,
    pub signed_prekey: Option<SignedPreKey>,
    pub next_prekey_id: u32,
    pub one_time_prekeys: Vec<OneTimePreKey>,
}

/// A mutation of the device's key material.
pub enum DeviceCommand {
    /// Adds one-time prekeys made from the given fresh secrets.
    AddOneTimePreKeys(Vec<Vec<u8>>),
    /// Deletes a one-time prekey, whether or not it is still there.
    DeleteOneTimePreKey(u32),
}

/// The one-time prekeys as (id, secret) pairs.
pub type PreKeysView = Seq<(u32, Seq<u8>)>;

pub open spec fn prekeys_view(v: Seq<OneTimePreKey>) -> PreKeysView {
    v.map_values(|k: OneTimePreKey| (k.id, k.secret@))
}

/// The prekeys made from `secrets`, numbered from `first` on.
pub open spec fn fresh_prekeys(secrets: Seq<Seq<u8>>, first: nat) -> PreKeysView {
    Seq::new(secrets.len(), |i: int| ((first + i) as u32, secrets[i]))
}

/// A one-time prekey is consumed once: after it has been taken, taking it
/// again finds nothing.
pub proof fn lemma_consumed_once(t: PreKeysView, id: u32)
    ensures
        !has_key(without_key(t, id), id),
        without_key(without_key(t, id), id) == without_key(t, id),
{
    lemma_without_key(t, id);
    lemma_without_key_absent(without_key(t, id), id);
}

/// The device's key material store.
pub struct Device {
    core: DeviceRecord,
}

/// What the device's key material is.
pub struct DeviceView {
    pub registration_id: u32,
    pub identity_secret: Seq<u8>,
    pub signing_secret: Seq<u8>,
    pub signed_prekey: Option<(u32, Seq<u8>)>,
    pub next_prekey_id: u32,
    pub one_time: PreKeysView,
}

impl View for Device {
    type V = DeviceView;

    closed spec fn view(&self) -> DeviceView {
        DeviceView {
            registration_id: self.core.registration_id,
            identity_secret: self.core.identity_secret@,
            signing_secret: self.core.signing_secret@,
            signed_prekey: signed_view(self.core.signed_prekey),
            next_prekey_id: self.core.next_prekey_id,
            one_time: prekeys_view(self.core.one_time_prekeys@),
        }
    }
}

/// A record's keys have 32-byte secrets, each public key is that of its
/// secret, and the signed prekey carries the signing key's signature over
/// its public key.
pub open spec fn record_ok(r: DeviceRecord) -> bool {
    &&& r.identity_secret@.len() == KEY_LEN
    &&& r.signing_secret@.len() == KEY_LEN
    &&& r.signed_prekey matches Some(k) ==> k.secret@.len() == KEY_LEN
        && k.public@ == x25519_of(k.secret@, basepoint())
        && k.signature@ == ed25519_sign_of(r.signing_secret@, k.public@)
    &&& forall|i: int| 0 <= i < r.one_time_prekeys@.len() ==> (#[trigger] r.one_time_prekeys@[i]).secret@.len() == KEY_LEN
        && r.one_time_prekeys@[i].public@ == x25519_of(r.one_time_prekeys@[i].secret@, basepoint())
}

/// The signed prekey of a record as (id, secret).
pub open spec fn signed_view(k: Option<SignedPreKey>) -> Option<(u32, Seq<u8>)> {
    match k {
        Some(k) => Some((k.id, k.secret@)),
        None => None,
    }
}

impl Device {
    pub closed spec fn wf(&self) -> bool {
        record_ok(self.core)
    }

    /// A device with the given identity secrets and registration id and no
    /// prekeys.
    pub fn new(registration_id: u32, identity_secret: Vec<u8>, signing_secret: Vec<u8>) -> (r: Self)
        requires
            identity_secret@.len() == KEY_LEN,
            signing_secret@.len() == KEY_LEN,
        ensures
            r.wf(),
            r@ == (DeviceView {
                registration_id,
                identity_secret: identity_secret@,
                signing_secret: signing_secret@,
                signed_prekey: None,
                next_prekey_id: 1,
                one_time: Seq::empty(),
            }),
    {
        let r = Device {
            core: DeviceRecord {
                registration_id,
                identity_secret,
                signing_secret,
                signed_prekey: None,
                next_prekey_id: 1,
                one_time_prekeys: Vec::new(),
            },
        };
        assert(r@.one_time =~= Seq::<(u32, Seq<u8>)>::empty());
        r
    }

    /// The identity public key.
    pub fn identity_public(&self) -> (r: Vec<u8>)
        requires
            self.wf(),
        ensures
            r@ == x25519_of(self@.identity_secret, basepoint()),
    {
        let bp = crate::handshake::basepoint_bytes();
        x25519(self.core.identity_secret.as_slice(), bp.as_slice())
    }

    /// A copy of the durable key material.
    pub fn to_serializable(&self) -> (r: DeviceRecord)
        requires
            self.wf(),
        ensures
            record_ok(r),
            r.registration_id == self@.registration_id,
            r.identity_secret@ == self@.identity_secret,
            r.signing_secret@ == self@.signing_secret,
            r.next_prekey_id == self@.next_prekey_id,
            prekeys_view(r.one_time_prekeys@) == self@.one_time,
            signed_view(r.signed_prekey) == self@.signed_prekey,
    {
        let mut ks: Vec<OneTimePreKey> = Vec::new();
        let mut i: usize = 0;
        while i < self.core.one_time_prekeys.len()
            invariant
                self.wf(),
                0 <= i <= self.core.one_time_prekeys@.len(),
                ks@.len() == i,
                prekeys_view(ks@) == prekeys_view(self.core.one_time_prekeys@.subrange(0, i as int)),
                forall|j: int| 0 <= j < ks@.len() ==> (#[trigger] ks@[j]).secret@.len() == KEY_LEN
                    && ks@[j].public@ == x25519_of(ks@[j].secret@, basepoint()),
            decreases self.core.one_time_prekeys@.len() - i,
        {
            let k = &self.core.one_time_prekeys[i];
            let ghost before = ks@;
            ks.push(OneTimePreKey { id: k.id, secret: copy_bytes(&k.secret), public: copy_bytes(&k.public) });
            assert forall|j: int| 0 <= j < i + 1 implies #[trigger] prekeys_view(ks@)[j]
                == prekeys_view(self.core.one_time_prekeys@.subrange(0, i + 1))[j] by {
                if j < i {
                    assert(ks@[j] == before[j]);
                    assert(prekeys_view(before)[j] == prekeys_view(self.core.one_time_prekeys@.subrange(0, i as int))[j]);
                }
            }
            assert(prekeys_view(ks@) =~= prekeys_view(self.core.one_time_prekeys@.subrange(0, i + 1)));
            i = i + 1;
        }
        assert(self.core.one_time_prekeys@.subrange(0, i as int) =~= self.core.one_time_prekeys@);
        let signed = match &self.core.signed_prekey {
            Some(k) => Some(SignedPreKey {
                id: k.id,
                secret: copy_bytes(&k.secret),
                public: copy_bytes(&k.public),
                signature: copy_bytes(&k.signature),
            }),
            None => None,
        };
        DeviceRecord {
            registration_id: self.core.registration_id,
            identity_secret: copy_bytes(&self.core.identity_secret),
            signing_secret: copy_bytes(&self.core.signing_secret),
            signed_prekey: signed,
            next_prekey_id: self.core.next_prekey_id,
            one_time_prekeys: ks,
        }
    }

    /// Replaces the key material by a loaded record.
    pub fn load_from_serializable(&mut self, loaded: DeviceRecord)
        requires
            old(self).wf(),
            record_ok(loaded),
        ensures
            final(self).wf(),
            final(self)@.registration_id == loaded.registration_id,
            final(self)@.identity_secret == loaded.identity_secret@,
            final(self)@.signing_secret == loaded.signing_secret@,
            final(self)@.next_prekey_id == loaded.next_prekey_id,
            final(self)@.one_time == prekeys_view(loaded.one_time_prekeys@),
            final(self)@.signed_prekey == signed_view(loaded.signed_prekey),
    {
        self.core = loaded;
    }

    /// The signed prekey, made from `secret` under id `id` when there is
    /// none yet.
    pub fn get_or_generate_signed_prekey(&mut self, id: u32, secret: Vec<u8>) -> (r: PublishedPreKey)
        requires
            old(self).wf(),
            secret@.len() == KEY_LEN,
        ensures
            final(self).wf(),
            old(self)@.signed_prekey is Some ==> final(self)@ == old(self)@,
            old(self)@.signed_prekey is None ==> final(self)@ == (DeviceView { signed_prekey: Some((id, secret@)), ..old(self)@ }),
            final(self)@.signed_prekey matches Some((kid, ksecret)) && kid == r.id
                && r.public@ == x25519_of(ksecret, basepoint())
                && r.signature@ == ed25519_sign_of(old(self)@.signing_secret, r.public@),
    {
        if self.core.signed_prekey.is_none() {
            let bp = crate::handshake::basepoint_bytes();
            let public = x25519(secret.as_slice(), bp.as_slice());
            let signature = ed25519_sign(self.core.signing_secret.as_slice(), public.as_slice());
            self.core.signed_prekey = Some(SignedPreKey { id, secret, public, signature });
        }
        let k = self.core.signed_prekey.as_ref().unwrap();
        let bp = crate::handshake::basepoint_bytes();
        let public = x25519(k.secret.as_slice(), bp.as_slice());
        let signature = ed25519_sign(self.core.signing_secret.as_slice(), public.as_slice());
        PublishedPreKey { id: k.id, public, signature }
    }

    /// The public signing key that other devices check prekey signatures with.
    pub fn signing_public(&self) -> (r: Vec<u8>)
        requires
            self.wf(),
        ensures
            r@ == ed25519_public_of(self@.signing_secret),
    {
        ed25519_public(self.core.signing_secret.as_slice())
    }

    /// Adds one-time prekeys made from fresh secrets, numbered on from the
    /// next free id; returns their ids and public keys for publication.
    pub fn generate_one_time_prekeys(&mut self, secrets: Vec<Vec<u8>>) -> (r: Vec<(u32, Vec<u8>)>)
        requires
            old(self).wf(),
            old(self)@.next_prekey_id + secrets@.len() <= u32::MAX,
            forall|i: int| 0 <= i < secrets@.len() ==> (#[trigger] secrets@[i])@.len() == KEY_LEN,
        ensures
            final(self).wf(),
            final(self)@ == (DeviceView {
                next_prekey_id: (old(self)@.next_prekey_id + secrets@.len()) as u32,
                one_time: old(self)@.one_time + fresh_prekeys(secrets@.map_values(|s: Vec<u8>| s@), old(self)@.next_prekey_id as nat),
                ..old(self)@
            }),
            r@.len() == secrets@.len(),
            forall|i: int| 0 <= i < r@.len() ==> (#[trigger] r@[i]).0 == old(self)@.next_prekey_id + i
                && r@[i].1@ == x25519_of(secrets@[i]@, basepoint()),
    {
        let ghost sv = secrets@.map_values(|s: Vec<u8>| s@);
        let ghost first = self.core.next_prekey_id as nat;
        let ghost start = self@;
        let bp = crate::handshake::basepoint_bytes();
        let mut out: Vec<(u32, Vec<u8>)> = Vec::new();
        let mut i: usize = 0;
        while i < secrets.len()
            invariant
                self.wf(),
                sv == secrets@.map_values(|s: Vec<u8>| s@),
                bp@ == basepoint(),
                0 <= i <= secrets@.len(),
                first + secrets@.len() <= u32::MAX,
                forall|j: int| 0 <= j < secrets@.len() ==> (#[trigger] secrets@[j])@.len() == KEY_LEN,
                self@ == (DeviceView {
                    next_prekey_id: (first + i) as u32,
                    one_time: start.one_time + fresh_prekeys(sv.subrange(0, i as int), first),
                    ..start
                }),
                out@.len() == i,
                forall|j: int| 0 <= j < i ==> (#[trigger] out@[j]).0 == first + j
                    && out@[j].1@ == x25519_of(secrets@[j]@, basepoint()),
            decreases secrets@.len() - i,
        {
            let s = copy_bytes(&secrets[i]);
            let public = x25519(s.as_slice(), bp.as_slice());
            let id = self.core.next_prekey_id;
            let ghost before = self.core.one_time_prekeys@;
            self.core.one_time_prekeys.push(OneTimePreKey { id, secret: s, public: copy_bytes(&public) });
            self.core.next_prekey_id = id + 1;
            out.push((id, public));
            assert(prekeys_view(self.core.one_time_prekeys@) =~= prekeys_view(before).push((id, sv[i as int])));
            assert(fresh_prekeys(sv.subrange(0, i + 1), first) =~= fresh_prekeys(sv.subrange(0, i as int), first).push((id, sv[i as int])));
            assert(self@.one_time =~= start.one_time + fresh_prekeys(sv.subrange(0, i + 1), first));
            i = i + 1;
        }
        assert(sv.subrange(0, secrets@.len() as int) =~= sv);
        out
    }

    /// Takes out one-time prekey `id` and returns its secret; a second call
    /// for the same id finds nothing.
    pub fn consume_one_time_prekey(&mut self, id: u32) -> (r: Option<Vec<u8>>)
        requires
            old(self).wf(),
        ensures
            final(self).wf(),
            r is Some == has_key(old(self)@.one_time, id),
            r matches Some(s) ==> old(self)@.one_time.contains((id, s@)),
            final(self)@ == (DeviceView { one_time: without_key(old(self)@.one_time, id), ..old(self)@ }),
    {
        let ghost t = self@.one_time;
        let mut kept: Vec<OneTimePreKey> = Vec::new();
        let mut found: Option<Vec<u8>> = None;
        let mut i: usize = 0;
        while i < self.core.one_time_prekeys.len()
            invariant
                self@ == old(self)@,
                self.wf(),
                t == self@.one_time,
                0 <= i <= t.len(),
                prekeys_view(kept@) == without_key(t.subrange(0, i as int), id),
                forall|j: int| 0 <= j < kept@.len() ==> (#[trigger] kept@[j]).secret@.len() == KEY_LEN
                    && kept@[j].public@ == x25519_of(kept@[j].secret@, basepoint()),
                found is Some == has_key(t.subrange(0, i as int), id),
                found matches Some(s) ==> t.contains((id, s@)),
            decreases t.len() - i,
        {
            proof {
                lemma_without_key_step(t, id, i as int);
            }
            let k = &self.core.one_time_prekeys[i];
            assert(t[i as int] == (k.id, k.secret@));
            let ghost was = found is Some;
            if k.id == id {
                if found.is_none() {
                    found = Some(copy_bytes(&k.secret));
                }
            } else {
                let ghost before = kept@;
                kept.push(OneTimePreKey { id: k.id, secret: copy_bytes(&k.secret), public: copy_bytes(&k.public) });
                assert(prekeys_view(kept@) =~= prekeys_view(before).push(t[i as int]));
            }
            assert(has_key(t.subrange(0, i + 1), id) == (was || k.id == id)) by {
                if has_key(t.subrange(0, i + 1), id) && k.id != id {
                    let j = choose|j: int| 0 <= j < i + 1 && (#[trigger] t.subrange(0, i + 1)[j]).0 == id;
                    assert(t.subrange(0, i as int)[j].0 == id);
                }
                if was {
                    let j = choose|j: int| 0 <= j < i && (#[trigger] t.subrange(0, i as int)[j]).0 == id;
                    assert(t.subrange(0, i + 1)[j].0 == id);
                }
                if k.id == id {
                    assert(t.subrange(0, i + 1)[i as int].0 == id);
                }
            }
            i = i + 1;
        }
        assert(t.subrange(0, t.len() as int) =~= t);
        self.core.one_time_prekeys = kept;
        found
    }
}

/// Applies one key-material mutation to the device.
pub fn apply_command_to_device(device: &mut Device, command: DeviceCommand)
    requires
        old(device).wf(),
        command matches DeviceCommand::AddOneTimePreKeys(s) ==> old(device)@.next_prekey_id + s@.len() <= u32::MAX
            && forall|i: int| 0 <= i < s@.len() ==> (#[trigger] s@[i])@.len() == KEY_LEN,
    ensures
        final(device).wf(),
        command matches DeviceCommand::AddOneTimePreKeys(s) ==> final(device)@ == (DeviceView {
            next_prekey_id: (old(device)@.next_prekey_id + s@.len()) as u32,
            one_time: old(device)@.one_time + fresh_prekeys(s@.map_values(|x: Vec<u8>| x@), old(device)@.next_prekey_id as nat),
            ..old(device)@
        }),
        command matches DeviceCommand::DeleteOneTimePreKey(id) ==> final(device)@ == (DeviceView {
            one_time: without_key(old(device)@.one_time, id),
            ..old(device)@
        }),
{
    match command {
        DeviceCommand::AddOneTimePreKeys(secrets) => {
            device.generate_one_time_prekeys(secrets);
        },
        DeviceCommand::DeleteOneTimePreKey(id) => {
            device.consume_one_time_prekey(id);
        },
    }
}

} // verus!
