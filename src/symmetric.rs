use vstd::prelude::*;
use crate::bytes::{copy_bytes, to_bytes};
use crate::crypto::{
    AEAD_MAX, aead_open, aead_seal, aead_seal_of, hmac_sha256, hmac_sha256_of, sha256, sha256_of, KEY_LEN,
};
use crate::error::CoreError;
use crate::frame::frame_nonce;

verus! {

/// The largest handshake field that can be encrypted.
pub const MAX_HANDSHAKE_FIELD: usize = 0x10_0000;

/// The two outputs of the key-derivation chain for chaining key `ck` and
/// input key material `ikm`: HMAC-SHA256 based extract-then-expand.
pub open spec fn kdf2(ck: Seq<u8>, ikm: Seq<u8>) -> (Seq<u8>, Seq<u8>) {
    let t = hmac_sha256_of(ck, ikm);
    let o1 = hmac_sha256_of(t, seq![1u8]);
    let o2 = hmac_sha256_of(t, o1.push(2u8));
    (o1, o2)
}

/// The initial transcript hash of a protocol name: the name padded with
/// zeros to 32 bytes, or its digest when longer.
pub open spec fn initial_hash(name: Seq<u8>) -> Seq<u8> {
    if name.len() <= 32 {
        name + Seq::new((32 - name.len()) as nat, |i: int| 0u8)
    } else {
        sha256_of(name)
    }
}

/// What a symmetric handshake state is: transcript hash, chaining key, the
/// current cipher key once there is one, and its nonce counter.
pub struct SymView {
    pub h: Seq<u8>,
    pub ck: Seq<u8>,
    pub key: Option<Seq<u8>>,
    pub n: u64,
}

/// The transcript after absorbing `data`.
pub open spec fn mixed_hash(v: SymView, data: Seq<u8>) -> SymView {
    SymView { h: sha256_of(v.h + data), ..v }
}

/// The state after feeding key material `ikm` into the chain.
pub open spec fn mixed_key(v: SymView, ikm: Seq<u8>) -> SymView {
    SymView { ck: kdf2(v.ck, ikm).0, key: Some(kdf2(v.ck, ikm).1), n: 0, ..v }
}

/// The bytes sent for handshake field `p`: encrypted with the transcript as
/// associated data once there is a key, else `p` itself.
pub open spec fn sealed_field(v: SymView, p: Seq<u8>) -> Seq<u8> {
    match v.key {
        Some(k) => aead_seal_of(k, frame_nonce(v.n), v.h, p),
        None => p,
    }
}

/// The state after sending or receiving field ciphertext `c`.
pub open spec fn after_field(v: SymView, c: Seq<u8>) -> SymView {
    let w = mixed_hash(v, c);
    match v.key {
        Some(k) => SymView { n: (v.n + 1) as u64, ..w },
        None => w,
    }
}

/// The two transport keys, initiator-to-responder first.
pub open spec fn split_keys(v: SymView) -> (Seq<u8>, Seq<u8>) {
    kdf2(v.ck, Seq::empty())
}

pub(crate) fn kdf2_bytes(ck: &[u8], ikm: &[u8]) -> (r: (Vec<u8>, Vec<u8>))
    ensures
        r.0@ == kdf2(ck@, ikm@).0,
        r.1@ == kdf2(ck@, ikm@).1,
        r.0@.len() == KEY_LEN,
        r.1@.len() == KEY_LEN,
{
    let t = hmac_sha256(ck, ikm);
    let one: [u8; 1] = [1u8];
    assert(one@ =~= seq![1u8]);
    let o1 = hmac_sha256(t.as_slice(), one.as_slice());
    let mut d = copy_bytes(&o1);
    d.push(2u8);
    let o2 = hmac_sha256(t.as_slice(), d.as_slice());
    (o1, o2)
}

/// The symmetric half of a Noise handshake.
pub struct SymmetricState {
    h: Vec<u8>,
    ck: Vec<u8>,
    key: Option<Vec<u8>>,
    n: u64,
}

impl View for SymmetricState {
    type V = SymView;

    closed spec fn view(&self) -> SymView {
        SymView {
            h: self.h@,
            ck: self.ck@,
            key: match self.key {
                Some(k) => Some(k@),
                None => None,
            },
            n: self.n,
        }
    }
}

impl SymmetricState {
    pub closed spec fn wf(&self) -> bool {
        &&& self.h@.len() == KEY_LEN
        &&& self.ck@.len() == KEY_LEN
        &&& self.key matches Some(k) ==> k@.len() == KEY_LEN
    }

    /// The state for a protocol name: hash and chaining key both start as the
    /// initial hash, with no key yet.
    pub fn new(protocol_name: &[u8]) -> (r: Self)
        ensures
            r.wf(),
            r@ == (SymView { h: initial_hash(protocol_name@), ck: initial_hash(protocol_name@), key: None, n: 0 }),
    {
        let h = if protocol_name.len() <= 32 {
            let mut v: Vec<u8> = Vec::new();
            let mut i: usize = 0;
            while i < protocol_name.len()
                invariant
                    0 <= i <= protocol_name@.len(),
                    v@ == protocol_name@.subrange(0, i as int),
                decreases protocol_name@.len() - i,
            {
                v.push(protocol_name[i]);
                i = i + 1;
                assert(v@ =~= protocol_name@.subrange(0, i as int));
            }
            let mut j: usize = 0;
            while j < 32 - protocol_name.len()
                invariant
                    protocol_name@.len() <= 32,
                    0 <= j <= 32 - protocol_name@.len(),
                    v@ == protocol_name@ + Seq::new(j as nat, |k: int| 0u8),
                decreases 32 - protocol_name@.len() - j,
            {
                v.push(0u8);
                j = j + 1;
                assert(v@ =~= protocol_name@ + Seq::new(j as nat, |k: int| 0u8));
            }
            assert(protocol_name@.subrange(0, protocol_name@.len() as int) =~= protocol_name@);
            v
        } else {
            sha256(protocol_name)
        };
        let ck = copy_bytes(&h);
        SymmetricState { h, ck, key: None, n: 0 }
    }

    /// The current transcript hash.
    pub fn handshake_hash(&self) -> (r: Vec<u8>)
        ensures
            r@ == self@.h,
    {
        copy_bytes(&self.h)
    }

    /// Absorbs `data` into the transcript.
    pub fn mix_hash(&mut self, data: &[u8])
        requires
            old(self).wf(),
        ensures
            final(self).wf(),
            final(self)@ == mixed_hash(old(self)@, data@),
    {
        let mut buf = copy_bytes(&self.h);
        let mut i: usize = 0;
        while i < data.len()
            invariant
                0 <= i <= data@.len(),
                buf@ == self.h@ + data@.subrange(0, i as int),
            decreases data@.len() - i,
        {
            buf.push(data[i]);
            i = i + 1;
            assert(buf@ =~= self.h@ + data@.subrange(0, i as int));
        }
        assert(data@.subrange(0, data@.len() as int) =~= data@);
        self.h = sha256(buf.as_slice());
    }

    /// Feeds key material into the chain, which yields a new chaining key and
    /// a new cipher key with its counter at zero.
    pub fn mix_key(&mut self, ikm: &[u8])
        requires
            old(self).wf(),
        ensures
            final(self).wf(),
            final(self)@ == mixed_key(old(self)@, ikm@),
    {
        let (ck, k) = kdf2_bytes(self.ck.as_slice(), ikm);
        self.ck = ck;
        self.key = Some(k);
        self.n = 0;
    }

    /// Encrypts a handshake field, if there is a key, and absorbs what is
    /// sent into the transcript.
    pub fn encrypt_and_hash(&mut self, plaintext: &[u8]) -> (r: Vec<u8>)
        requires
            old(self).wf(),
            old(self)@.n < u64::MAX,
            plaintext@.len() <= MAX_HANDSHAKE_FIELD,
        ensures
            final(self).wf(),
            r@ == sealed_field(old(self)@, plaintext@),
            final(self)@ == after_field(old(self)@, r@),
    {
        match &self.key {
            None => {
                let c = to_bytes(plaintext);
                assert(c@ =~= plaintext@);
                self.mix_hash(c.as_slice());
                c
            },
            Some(k) => {
                let nonce = crate::frame::nonce_of(self.n);
                let c = match aead_seal(k.as_slice(), nonce.as_slice(), self.h.as_slice(), plaintext) {
                    Some(c) => c,
                    None => Vec::new(),
                };
                self.mix_hash(c.as_slice());
                self.n = self.n + 1;
                c
            },
        }
    }

    /// Decrypts a received handshake field, if there is a key, and absorbs
    /// the received bytes into the transcript. A field that does not
    /// authenticate fails with `HandshakeAuthFailed` and changes nothing.
    pub fn decrypt_and_hash(&mut self, ciphertext: &[u8]) -> (r: Result<Vec<u8>, CoreError>)
        requires
            old(self).wf(),
            old(self)@.n < u64::MAX,
        ensures
            final(self).wf(),
            old(self)@.key is None ==> (r matches Ok(p) && p@ == ciphertext@),
            r matches Ok(p) ==> ciphertext@ == sealed_field(old(self)@, p@)
                && final(self)@ == after_field(old(self)@, ciphertext@),
            r matches Err(e) ==> e == CoreError::HandshakeAuthFailed && final(self)@ == old(self)@,
            forall|p: Seq<u8>| p.len() <= AEAD_MAX
                && ciphertext@ == sealed_field(old(self)@, p) ==> (r matches Ok(q) && q@ == p),
    {
        match &self.key {
            None => {
                let p = to_bytes(ciphertext);
                assert(p@ =~= ciphertext@);
                self.mix_hash(ciphertext);
                Ok(p)
            },
            Some(k) => {
                let nonce = crate::frame::nonce_of(self.n);
                match aead_open(k.as_slice(), nonce.as_slice(), self.h.as_slice(), ciphertext) {
                    Some(p) => {
                        self.mix_hash(ciphertext);
                        self.n = self.n + 1;
                        Ok(p)
                    },
                    None => Err(CoreError::HandshakeAuthFailed),
                }
            },
        }
    }

    /// The two transport keys, initiator-to-responder first.
    pub fn split(&self) -> (r: (Vec<u8>, Vec<u8>))
        requires
            self.wf(),
        ensures
            r.0@ == split_keys(self@).0,
            r.1@ == split_keys(self@).1,
            r.0@.len() == KEY_LEN,
            r.1@.len() == KEY_LEN,
    {
        let empty: Vec<u8> = Vec::new();
        assert(empty@ =~= Seq::<u8>::empty());
        kdf2_bytes(self.ck.as_slice(), empty.as_slice())
    }
}

} // verus!
