use vstd::prelude::*;
use crate::bytes::to_bytes;
use crate::crypto::{basepoint, AEAD_MAX, ed25519_accepts, ed25519_verify, x25519, x25519_of, KEY_LEN, SIGNATURE_LEN};
use crate::error::CoreError;
use crate::frame::{CipherState, CipherView};
use crate::symmetric::{
    after_field, initial_hash, mixed_hash, mixed_key, sealed_field, split_keys, SymView, SymmetricState,
    MAX_HANDSHAKE_FIELD,
};

verus! {

/// Length of the relay's certificate: its static public key, then the root
/// key's signature over it.
pub const CERTIFICATE_LEN: usize = 96;

/// The phases of the initiator.
#[derive(Debug, Clone, Copy, PartialEq, Eq, Structural)]
pub enum Phase {
    Init,
    HelloSent,
    ServerHelloReceived,
    Finished,
    Failed,
}

/// The public key of a Curve25519 secret.
pub open spec fn public_of(secret: Seq<u8>) -> Seq<u8> {
    x25519_of(secret, basepoint())
}

/// Whether `cert` names `server_static` as the relay's key under the pinned
/// root key.
pub open spec fn certificate_valid(root: Seq<u8>, server_static: Seq<u8>, cert: Seq<u8>) -> bool {
    &&& cert.len() == CERTIFICATE_LEN
    &&& cert.subrange(0, 32) == server_static
    &&& ed25519_accepts(root, server_static, cert.subrange(32, 96))
}

/// What the initiator is.
pub struct HandshakeView {
    pub phase: Phase,
    pub sym: SymView,
    pub static_secret: Seq<u8>,
    pub ephemeral_secret: Seq<u8>,
    pub remote_ephemeral: Seq<u8>,
    pub remote_static: Seq<u8>,
    pub root: Seq<u8>,
}

/// The transcript after the relay's hello, up to and including the key
/// derived from the ephemeral-ephemeral exchange.
pub open spec fn after_ee(v: HandshakeView, eph: Seq<u8>) -> SymView {
    mixed_key(mixed_hash(v.sym, eph), x25519_of(v.ephemeral_secret, eph))
}

/// The transcript after the relay's static key `rs`, sent as `enc_static`,
/// up to and including the key derived from the exchange with it.
pub open spec fn after_es(v: HandshakeView, eph: Seq<u8>, enc_static: Seq<u8>, rs: Seq<u8>) -> SymView {
    mixed_key(after_field(after_ee(v, eph), enc_static), x25519_of(v.ephemeral_secret, rs))
}

/// The initiator's final message: its static key and its payload, both
/// encrypted.
pub struct ClientFinish {
    pub encrypted_static: Vec<u8>,
    pub encrypted_payload: Vec<u8>,
}

/// The transport ciphers a finished handshake hands over.
pub struct TransportCiphers {
    pub send: CipherState,
    pub recv: CipherState,
}

pub(crate) fn basepoint_bytes() -> (r: Vec<u8>)
    ensures
        r@ == basepoint(),
{
    let mut v: Vec<u8> = vec![9u8];
    let mut i: usize = 0;
    while i < 31
        invariant
            0 <= i <= 31,
            v@ == seq![9u8] + Seq::new(i as nat, |k: int| 0u8),
        decreases 31 - i,
    {
        v.push(0u8);
        i = i + 1;
        assert(v@ =~= seq![9u8] + Seq::new(i as nat, |k: int| 0u8));
    }
    v
}

fn certificate_check(root: &[u8], server_static: &[u8], cert: &[u8]) -> (r: bool)
    requires
        root@.len() == KEY_LEN,
        server_static@.len() == KEY_LEN,
    ensures
        r == certificate_valid(root@, server_static@, cert@),
{
    if cert.len() != CERTIFICATE_LEN {
        return false;
    }
    let mut i: usize = 0;
    while i < 32
        invariant
            cert@.len() == CERTIFICATE_LEN,
            server_static@.len() == KEY_LEN,
            0 <= i <= 32,
            forall|k: int| 0 <= k < i ==> cert@[k] == server_static@[k],
        decreases 32 - i,
    {
        if cert[i] != server_static[i] {
            assert(cert@.subrange(0, 32)[i as int] != server_static@[i as int]);
            return false;
        }
        i = i + 1;
    }
    assert(cert@.subrange(0, 32) =~= server_static@);
    let mut sig: Vec<u8> = Vec::new();
    let mut j: usize = 32;
    while j < 96
        invariant
            cert@.len() == CERTIFICATE_LEN,
            32 <= j <= 96,
            sig@ == cert@.subrange(32, j as int),
        decreases 96 - j,
    {
        sig.push(cert[j]);
        j = j + 1;
        assert(sig@ =~= cert@.subrange(32, j as int));
    }
    ed25519_verify(root, server_static, sig.as_slice())
}

/// The initiator of the transport handshake: it proves the relay's identity
/// against a pinned root key and derives the two transport ciphers. It is
/// used once; it hands its keys over only when finished.
pub struct Handshake {
    phase: Phase,
    sym: SymmetricState,
    static_secret: Vec<u8>,
    ephemeral_secret: Vec<u8>,
    remote_ephemeral: Vec<u8>,
    remote_static: Vec<u8>,
    root: Vec<u8>,
}

impl View for Handshake {
    type V = HandshakeView;

    closed spec fn view(&self) -> HandshakeView {
        HandshakeView {
            phase: self.phase,
            sym: self.sym@,
            static_secret: self.static_secret@,
            ephemeral_secret: self.ephemeral_secret@,
            remote_ephemeral: self.remote_ephemeral@,
            remote_static: self.remote_static@,
            root: self.root@,
        }
    }
}

impl Handshake {
    pub closed spec fn wf(&self) -> bool {
        &&& self.sym.wf()
        &&& self.phase != Phase::Failed ==> {
            &&& self.static_secret@.len() == KEY_LEN
            &&& self.ephemeral_secret@.len() == KEY_LEN
            &&& self.root@.len() == KEY_LEN
        }
        &&& self.sym@.n < 16
        &&& self.phase == Phase::ServerHelloReceived ==> self.remote_ephemeral@.len() == KEY_LEN
            && self.remote_static@.len() == KEY_LEN
    }

    /// An initiator for a protocol name and prologue, with the device's
    /// static secret, a fresh ephemeral secret and the relay's pinned root
    /// public key. The prologue is absorbed into the transcript.
    pub fn new(
        protocol_name: &[u8],
        prologue: &[u8],
        static_secret: Vec<u8>,
        ephemeral_secret: Vec<u8>,
        root: Vec<u8>,
    ) -> (r: Self)
        requires
            static_secret@.len() == KEY_LEN,
            ephemeral_secret@.len() == KEY_LEN,
            root@.len() == KEY_LEN,
        ensures
            r.wf(),
            r@.phase == Phase::Init,
            r@.sym == mixed_hash(SymView { h: initial_hash(protocol_name@), ck: initial_hash(protocol_name@), key: None, n: 0 }, prologue@),
            r@.static_secret == static_secret@,
            r@.ephemeral_secret == ephemeral_secret@,
            r@.root == root@,
    {
        let mut sym = SymmetricState::new(protocol_name);
        sym.mix_hash(prologue);
        Handshake {
            phase: Phase::Init,
            sym,
            static_secret,
            ephemeral_secret,
            remote_ephemeral: Vec::new(),
            remote_static: Vec::new(),
            root,
        }
    }

    pub fn phase(&self) -> (r: Phase)
        ensures
            r == self@.phase,
    {
        self.phase
    }

    /// The client hello: the ephemeral public key, absorbed into the
    /// transcript.
    pub fn client_hello(&mut self) -> (r: Vec<u8>)
        requires
            old(self).wf(),
            old(self)@.phase == Phase::Init,
        ensures
            final(self).wf(),
            r@ == public_of(old(self)@.ephemeral_secret),
            final(self)@ == (HandshakeView {
                phase: Phase::HelloSent,
                sym: mixed_hash(old(self)@.sym, r@),
                ..old(self)@
            }),
    {
        let bp = basepoint_bytes();
        let e_pub = x25519(self.ephemeral_secret.as_slice(), bp.as_slice());
        self.sym.mix_hash(e_pub.as_slice());
        self.phase = Phase::HelloSent;
        e_pub
    }

    /// Enters the failed phase and forgets every secret.
    fn fail(&mut self)
        requires
            old(self).sym.wf(),
            old(self).sym@.n < 16,
        ensures
            final(self).wf(),
            final(self)@.phase == Phase::Failed,
            final(self)@.static_secret.len() == 0,
            final(self)@.ephemeral_secret.len() == 0,
    {
        self.phase = Phase::Failed;
        self.static_secret = Vec::new();
        self.ephemeral_secret = Vec::new();
    }

    /// Reads the relay's hello: its ephemeral key, its encrypted static key
    /// and its encrypted certificate. Mixes the ephemeral-ephemeral and
    /// ephemeral-static exchanges into the key chain and accepts only a
    /// certificate for the relay's static key signed by the pinned root key.
    /// Any failure leaves the initiator failed, its secrets forgotten.
    pub fn read_server_hello(&mut self, ephemeral: &[u8], encrypted_static: &[u8], encrypted_cert: &[u8]) -> (r: Result<(), CoreError>)
        requires
            old(self).wf(),
            old(self)@.phase == Phase::HelloSent,
        ensures
            final(self).wf(),
            r is Err ==> final(self)@.phase == Phase::Failed && final(self)@.static_secret.len() == 0
                && final(self)@.ephemeral_secret.len() == 0,
            ephemeral@.len() != KEY_LEN ==> r == Err::<(), CoreError>(CoreError::MalformedFrame),
            r matches Err(e) ==> e == CoreError::MalformedFrame || e == CoreError::HandshakeAuthFailed
                || e == CoreError::CertificateInvalid,
            forall|rs: Seq<u8>, cert: Seq<u8>| ephemeral@.len() == KEY_LEN && rs.len() == KEY_LEN
                && cert.len() <= AEAD_MAX
                && encrypted_static@ == sealed_field(after_ee(old(self)@, ephemeral@), rs)
                && encrypted_cert@ == sealed_field(after_es(old(self)@, ephemeral@, encrypted_static@, rs), cert)
                ==> (r is Ok <==> certificate_valid(old(self)@.root, rs, cert))
                && (!certificate_valid(old(self)@.root, rs, cert) ==> r == Err::<(), CoreError>(CoreError::CertificateInvalid)),
            r is Ok ==> {
                let v = old(self)@;
                let w = final(self)@;
                let rs = w.remote_static;
                &&& w.phase == Phase::ServerHelloReceived
                &&& w.remote_ephemeral == ephemeral@
                &&& rs.len() == KEY_LEN
                &&& encrypted_static@ == sealed_field(after_ee(v, ephemeral@), rs)
                &&& exists|cert: Seq<u8>| encrypted_cert@ == sealed_field(after_es(v, ephemeral@, encrypted_static@, rs), cert)
                    && certificate_valid(v.root, rs, cert)
                &&& w.sym == after_field(after_es(v, ephemeral@, encrypted_static@, rs), encrypted_cert@)
                &&& w.static_secret == v.static_secret
                &&& w.ephemeral_secret == v.ephemeral_secret
                &&& w.root == v.root
            },
    {
        if ephemeral.len() != KEY_LEN {
            self.fail();
            return Err(CoreError::MalformedFrame);
        }
        self.sym.mix_hash(ephemeral);
        let ee = x25519(self.ephemeral_secret.as_slice(), ephemeral);
        self.sym.mix_key(ee.as_slice());
        let ghost v = old(self)@;
        let ghost s1 = self.sym@;
        assert(s1 == after_ee(v, ephemeral@));
        let rs = match self.sym.decrypt_and_hash(encrypted_static) {
            Ok(p) => p,
            Err(e) => {
                assert forall|rs: Seq<u8>|
                    !(rs.len() == KEY_LEN && #[trigger] sealed_field(after_ee(v, ephemeral@), rs) == encrypted_static@) by {
                    if rs.len() == KEY_LEN && encrypted_static@ == sealed_field(s1, rs) {
                        assert(rs.len() <= AEAD_MAX);
                    }
                }
                self.fail();
                return Err(e);
            },
        };
        assert forall|rs2: Seq<u8>| rs2.len() == KEY_LEN && encrypted_static@ == sealed_field(after_ee(v, ephemeral@), rs2)
            implies rs2 == rs@ by {
            assert(rs2.len() <= AEAD_MAX);
        }
        if rs.len() != KEY_LEN {
            self.fail();
            return Err(CoreError::MalformedFrame);
        }
        let es = x25519(self.ephemeral_secret.as_slice(), rs.as_slice());
        self.sym.mix_key(es.as_slice());
        let ghost before_cert = self.sym@;
        assert(before_cert == after_es(v, ephemeral@, encrypted_static@, rs@));
        let cert = match self.sym.decrypt_and_hash(encrypted_cert) {
            Ok(p) => p,
            Err(e) => {
                assert forall|rs2: Seq<u8>, cert2: Seq<u8>| !(rs2.len() == KEY_LEN && cert2.len() <= AEAD_MAX
                    && encrypted_static@ == sealed_field(after_ee(v, ephemeral@), rs2)
                    && encrypted_cert@ == sealed_field(after_es(v, ephemeral@, encrypted_static@, rs2), cert2)) by {
                    if rs2.len() == KEY_LEN && cert2.len() <= AEAD_MAX
                        && encrypted_static@ == sealed_field(after_ee(v, ephemeral@), rs2)
                        && encrypted_cert@ == sealed_field(after_es(v, ephemeral@, encrypted_static@, rs2), cert2) {
                        assert(rs2 == rs@);
                        assert(encrypted_cert@ == sealed_field(before_cert, cert2));
                    }
                }
                self.fail();
                return Err(e);
            },
        };
        assert forall|rs2: Seq<u8>, cert2: Seq<u8>| rs2.len() == KEY_LEN && cert2.len() <= AEAD_MAX
            && encrypted_static@ == sealed_field(after_ee(v, ephemeral@), rs2)
            && encrypted_cert@ == sealed_field(after_es(v, ephemeral@, encrypted_static@, rs2), cert2)
            implies rs2 == rs@ && cert2 == cert@ by {
            assert(rs2 == rs@);
            assert(encrypted_cert@ == sealed_field(before_cert, cert2));
        }
        if !certificate_check(self.root.as_slice(), rs.as_slice(), cert.as_slice()) {
            self.fail();
            return Err(CoreError::CertificateInvalid);
        }
        assert(encrypted_cert@ == sealed_field(before_cert, cert@));
        self.remote_ephemeral = to_bytes(ephemeral);
        self.remote_static = rs;
        self.phase = Phase::ServerHelloReceived;
        Ok(())
    }

    /// Sends the initiator's static key and its payload, mixing in the
    /// static-ephemeral exchange, and splits the key chain into the two
    /// transport ciphers. The initiator is used up.
    pub fn finish(self, payload: &[u8]) -> (r: (ClientFinish, TransportCiphers))
        requires
            self.wf(),
            self@.phase == Phase::ServerHelloReceived,
            payload@.len() <= MAX_HANDSHAKE_FIELD,
        ensures
            ({
                let v = self@;
                let w1 = after_field(v.sym, r.0.encrypted_static@);
                let w2 = mixed_key(w1, x25519_of(v.static_secret, v.remote_ephemeral));
                let w3 = after_field(w2, r.0.encrypted_payload@);
                &&& r.0.encrypted_static@ == sealed_field(v.sym, public_of(v.static_secret))
                &&& r.0.encrypted_payload@ == sealed_field(w2, payload@)
                &&& r.1.send@ == (CipherView { key: split_keys(w3).0, counter: 0, failed: false })
                &&& r.1.recv@ == (CipherView { key: split_keys(w3).1, counter: 0, failed: false })
            }),
            r.1.send.wf(),
            r.1.recv.wf(),
    {
        let mut hs = self;
        let bp = basepoint_bytes();
        let s_pub = x25519(hs.static_secret.as_slice(), bp.as_slice());
        let encrypted_static = hs.sym.encrypt_and_hash(s_pub.as_slice());
        let se = x25519(hs.static_secret.as_slice(), hs.remote_ephemeral.as_slice());
        hs.sym.mix_key(se.as_slice());
        let encrypted_payload = hs.sym.encrypt_and_hash(payload);
        let (k1, k2) = hs.sym.split();
        hs.phase = Phase::Finished;
        (
            ClientFinish { encrypted_static, encrypted_payload },
            TransportCiphers { send: CipherState::new(k1), recv: CipherState::new(k2) },
        )
    }
}

} // verus!
