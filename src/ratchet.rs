use vstd::prelude::*;
use crate::bytes::{bytes_equal, copy_bytes, to_bytes};
use crate::chain::{after_take, can_take, skipped_to, take_error, ChainView, ReceivingChain, MAX_SKIP};
use crate::crypto::{aead_open, x25519, x25519_of, AEAD_MAX, KEY_LEN};
use crate::error::CoreError;
use crate::crypto::basepoint;
use crate::handshake::basepoint_bytes;
use crate::session::{sealed_message, zero_nonce, EncryptedMessage, SendView, SendingChain};
use crate::symmetric::{kdf2, kdf2_bytes};

verus! {

/// What travels in front of a pairwise message: the sender's current
/// ratchet public key, the message's index in the sending chain and the
/// length of the sender's previous chain.
pub struct Header {
    pub ratchet_public: Vec<u8>,
    pub counter: u32,
    pub previous_length: u32,
}

/// What a ratchet session is.
pub struct RatchetView {
    pub root: Seq<u8>,
    pub our_secret: Seq<u8>,
    pub their_public: Option<Seq<u8>>,
    pub send: Option<SendView>,
    pub recv: Option<ChainView>,
    pub previous_length: u32,
    pub previous: Option<(Seq<u8>, ChainView)>,
}

/// Whether a header continues the current receiving chain.
pub open spec fn same_chain(v: RatchetView, ratchet_public: Seq<u8>) -> bool {
    v.their_public == Some(ratchet_public) && v.recv is Some
}

/// Whether a header belongs to the previous receiving chain.
pub open spec fn previous_chain(v: RatchetView, ratchet_public: Seq<u8>) -> bool {
    &&& !same_chain(v, ratchet_public)
    &&& v.previous matches Some((k, _c)) && k == ratchet_public
}

/// The previous receiving chain.
pub open spec fn previous_recv(v: RatchetView) -> ChainView {
    match v.previous {
        Some((_k, c)) => c,
        None => ChainView { base: Seq::empty(), next: 0, cached: Seq::empty() },
    }
}

/// What a ratchet step keeps of the current receiving chain: its key and
/// the chain moved on to the length the peer's previous chain reached, when
/// that lies within `MAX_SKIP`, so that its late messages still decrypt.
pub open spec fn retired(v: RatchetView, previous_length: u32) -> Option<(Seq<u8>, ChainView)> {
    match (v.their_public, v.recv) {
        (Some(k), Some(c)) => if c.next <= previous_length && previous_length - c.next <= MAX_SKIP {
            Some((k, skipped_to(c, previous_length as nat)))
        } else {
            Some((k, c))
        },
        _ => None,
    }
}

/// The receiving chain key and root after a ratchet step to `their`.
pub open spec fn step_recv(v: RatchetView, their: Seq<u8>) -> (Seq<u8>, Seq<u8>) {
    kdf2(v.root, x25519_of(v.our_secret, their))
}

/// The sending chain key and root after a ratchet step to `their` with the
/// fresh secret `fresh`.
pub open spec fn step_send(v: RatchetView, their: Seq<u8>, fresh: Seq<u8>) -> (Seq<u8>, Seq<u8>) {
    kdf2(step_recv(v, their).0, x25519_of(fresh, their))
}

/// The new receiving chain after a step, before any message is taken.
pub open spec fn stepped_chain(v: RatchetView, their: Seq<u8>) -> ChainView {
    ChainView { base: step_recv(v, their).1, next: 0, cached: Seq::empty() }
}

/// A pairwise session with a Diffie-Hellman ratchet: a new ratchet key from
/// the peer moves the root key on and replaces both chains, so keys of
/// earlier chains cannot be derived from later state.
pub struct RatchetSession {
    root: Vec<u8>,
    our_secret: Vec<u8>,
    their_public: Option<Vec<u8>>,
    sending: Option<SendingChain>,
    receiving: Option<ReceivingChain>,
    previous_length: u32,
    previous: Option<(Vec<u8>, ReceivingChain)>,
}

impl View for RatchetSession {
    type V = RatchetView;

    closed spec fn view(&self) -> RatchetView {
        RatchetView {
            root: self.root@,
            our_secret: self.our_secret@,
            their_public: match &self.their_public {
                Some(p) => Some(p@),
                None => None,
            },
            send: match &self.sending {
                Some(s) => Some(s@),
                None => None,
            },
            recv: match &self.receiving {
                Some(r) => Some(r@),
                None => None,
            },
            previous_length: self.previous_length,
            previous: match &self.previous {
                Some((k, c)) => Some((k@, c@)),
                None => None,
            },
        }
    }
}

impl RatchetSession {
    pub closed spec fn wf(&self) -> bool {
        &&& self.root@.len() == KEY_LEN
        &&& self.our_secret@.len() == KEY_LEN
        &&& self.their_public matches Some(p) ==> p@.len() == KEY_LEN
        &&& self.sending matches Some(s) ==> s.wf()
        &&& self.receiving matches Some(r) ==> r.wf()
        &&& self.previous matches Some((k, c)) ==> k@.len() == KEY_LEN && c.wf()
    }

    /// The initiator's session: from the shared secret of session setup, a
    /// fresh ratchet secret and the responder's signed prekey as its first
    /// ratchet key. It can send at once.
    pub fn initiate(shared: Vec<u8>, our_secret: Vec<u8>, their_public: Vec<u8>) -> (r: Self)
        requires
            shared@.len() == KEY_LEN,
            our_secret@.len() == KEY_LEN,
            their_public@.len() == KEY_LEN,
        ensures
            r.wf(),
            r@ == (RatchetView {
                root: kdf2(shared@, x25519_of(our_secret@, their_public@)).0,
                our_secret: our_secret@,
                their_public: Some(their_public@),
                send: Some(SendView { base: kdf2(shared@, x25519_of(our_secret@, their_public@)).1, next: 0 }),
                recv: None,
                previous_length: 0,
                previous: None,
            }),
    {
        let dh = x25519(our_secret.as_slice(), their_public.as_slice());
        let (root, ck) = kdf2_bytes(shared.as_slice(), dh.as_slice());
        RatchetSession {
            root,
            our_secret,
            their_public: Some(their_public),
            sending: Some(SendingChain::new(ck)),
            receiving: None,
            previous_length: 0,
            previous: None,
        }
    }

    /// The responder's session: from the shared secret and the signed prekey
    /// secret. It can send once the initiator's first message has arrived.
    pub fn respond(shared: Vec<u8>, our_secret: Vec<u8>) -> (r: Self)
        requires
            shared@.len() == KEY_LEN,
            our_secret@.len() == KEY_LEN,
        ensures
            r.wf(),
            r@ == (RatchetView {
                root: shared@,
                our_secret: our_secret@,
                their_public: None,
                send: None,
                recv: None,
                previous_length: 0,
                previous: None,
            }),
    {
        RatchetSession {
            root: shared,
            our_secret,
            their_public: None,
            sending: None,
            receiving: None,
            previous_length: 0,
            previous: None,
        }
    }

    /// Encrypts a message on the sending chain; fails with `NoSession` while
    /// there is none.
    pub fn encrypt(&mut self, plaintext: &[u8]) -> (r: Result<(Header, Vec<u8>), CoreError>)
        requires
            old(self).wf(),
            old(self)@.send matches Some(s) ==> s.next < 0xFFFF_FFFF && plaintext@.len() <= AEAD_MAX,
        ensures
            final(self).wf(),
            r is Err == old(self)@.send is None,
            r matches Err(e) ==> e == CoreError::NoSession && final(self)@ == old(self)@,
            r matches Ok((h, c)) ==> {
                let s = old(self)@.send->0;
                &&& h.ratchet_public@ == x25519_of(old(self)@.our_secret, basepoint())
                &&& h.counter == s.next
                &&& h.previous_length == old(self)@.previous_length
                &&& c@ == sealed_message(s.base, s.next, plaintext@)
                &&& final(self)@ == (RatchetView { send: Some(SendView { base: s.base, next: s.next + 1 }), ..old(self)@ })
            },
    {
        let mut chain = match self.sending.take() {
            Some(c) => c,
            None => return Err(CoreError::NoSession),
        };
        let m: EncryptedMessage = chain.encrypt(plaintext);
        self.sending = Some(chain);
        let bp = basepoint_bytes();
        let ratchet_public = x25519(self.our_secret.as_slice(), bp.as_slice());
        Ok((Header { ratchet_public, counter: m.counter, previous_length: self.previous_length }, m.ciphertext))
    }

    fn is_previous(&self, ratchet_public: &[u8]) -> (r: bool)
        requires
            !same_chain(self@, ratchet_public@),
        ensures
            r == previous_chain(self@, ratchet_public@),
    {
        match &self.previous {
            Some((k, _c)) => bytes_equal(k.as_slice(), ratchet_public),
            None => false,
        }
    }

    fn same_key(&self, ratchet_public: &[u8]) -> (r: bool)
        ensures
            r == same_chain(self@, ratchet_public@),
    {
        match &self.their_public {
            Some(p) => self.receiving.is_some() && bytes_equal(p.as_slice(), ratchet_public),
            None => false,
        }
    }

    /// Decrypts a message. A header with the current remote ratchet key uses
    /// the current receiving chain. A new ratchet key first steps the
    /// ratchet: the root key and the exchange with the current secret give
    /// the new receiving chain; the root key and the exchange with
    /// `fresh_secret` give the new sending chain. State changes only when
    /// decryption succeeds.
    pub fn decrypt(&mut self, header: &Header, ciphertext: &[u8], fresh_secret: &[u8]) -> (r: Result<Vec<u8>, CoreError>)
        requires
            old(self).wf(),
            fresh_secret@.len() == KEY_LEN,
        ensures
            final(self).wf(),
            r is Err ==> final(self)@ == old(self)@,
            same_chain(old(self)@, header.ratchet_public@) ==> {
                let c = old(self)@.recv->0;
                &&& r is Ok ==> can_take(c, header.counter)
                &&& forall|p: Seq<u8>| can_take(c, header.counter) && p.len() <= AEAD_MAX
                    && ciphertext@ == sealed_message(c.base, header.counter as nat, p) ==> (r matches Ok(q) && q@ == p)
                &&& r matches Ok(p) ==> ciphertext@ == sealed_message(c.base, header.counter as nat, p@)
                    && final(self)@ == (RatchetView { recv: Some(after_take(c, header.counter)), ..old(self)@ })
                &&& r matches Err(e) ==> e == if can_take(c, header.counter) {
                    CoreError::DecryptionFailed
                } else {
                    take_error(c, header.counter)
                }
            },
            previous_chain(old(self)@, header.ratchet_public@) ==> {
                let c = previous_recv(old(self)@);
                &&& r is Ok ==> can_take(c, header.counter)
                &&& forall|p: Seq<u8>| can_take(c, header.counter) && p.len() <= AEAD_MAX
                    && ciphertext@ == sealed_message(c.base, header.counter as nat, p) ==> (r matches Ok(q) && q@ == p)
                &&& r matches Ok(p) ==> ciphertext@ == sealed_message(c.base, header.counter as nat, p@)
                    && final(self)@ == (RatchetView {
                        previous: Some((header.ratchet_public@, after_take(c, header.counter))),
                        ..old(self)@
                    })
                &&& r matches Err(e) ==> e == if can_take(c, header.counter) {
                    CoreError::DecryptionFailed
                } else {
                    take_error(c, header.counter)
                }
            },
            !same_chain(old(self)@, header.ratchet_public@) && !previous_chain(old(self)@, header.ratchet_public@)
                && header.ratchet_public@.len() != KEY_LEN
                ==> r == Err::<Vec<u8>, CoreError>(CoreError::MalformedFrame),
            !same_chain(old(self)@, header.ratchet_public@) && !previous_chain(old(self)@, header.ratchet_public@)
                && header.ratchet_public@.len() == KEY_LEN ==> {
                let v = old(self)@;
                let hp = header.ratchet_public@;
                let c = stepped_chain(v, hp);
                &&& r is Ok ==> can_take(c, header.counter)
                &&& forall|p: Seq<u8>| can_take(c, header.counter) && p.len() <= AEAD_MAX
                    && ciphertext@ == sealed_message(c.base, header.counter as nat, p) ==> (r matches Ok(q) && q@ == p)
                &&& r matches Ok(p) ==> ciphertext@ == sealed_message(c.base, header.counter as nat, p@)
                    && final(self)@ == (RatchetView {
                        root: step_send(v, hp, fresh_secret@).0,
                        our_secret: fresh_secret@,
                        their_public: Some(hp),
                        send: Some(SendView { base: step_send(v, hp, fresh_secret@).1, next: 0 }),
                        recv: Some(after_take(c, header.counter)),
                        previous_length: match v.send { Some(s) => s.next as u32, None => 0 },
                        previous: retired(v, header.previous_length),
                    })
                &&& r matches Err(e) ==> e == if can_take(c, header.counter) {
                    CoreError::DecryptionFailed
                } else {
                    take_error(c, header.counter)
                }
            },
    {
        let counter = header.counter;
        let nonce = zero_nonce();
        let empty: Vec<u8> = Vec::new();
        assert(empty@ =~= Seq::<u8>::empty());
        if self.same_key(header.ratchet_public.as_slice()) {
            let mut chain = match self.receiving.take() {
                Some(c) => c,
                None => return Err(CoreError::NoSession),
            };
            let key = match chain.message_key_for(counter) {
                Ok(k) => k,
                Err(e) => {
                    self.receiving = Some(chain);
                    return Err(e);
                },
            };
            match aead_open(key.as_slice(), nonce.as_slice(), empty.as_slice(), ciphertext) {
                Some(p) => {
                    chain.advance_past(counter);
                    self.receiving = Some(chain);
                    Ok(p)
                },
                None => {
                    self.receiving = Some(chain);
                    Err(CoreError::DecryptionFailed)
                },
            }
        } else if self.is_previous(header.ratchet_public.as_slice()) {
            let (k, mut chain) = match self.previous.take() {
                Some(x) => x,
                None => return Err(CoreError::NoSession),
            };
            let key = match chain.message_key_for(counter) {
                Ok(key) => key,
                Err(e) => {
                    self.previous = Some((k, chain));
                    return Err(e);
                },
            };
            match aead_open(key.as_slice(), nonce.as_slice(), empty.as_slice(), ciphertext) {
                Some(p) => {
                    chain.advance_past(counter);
                    self.previous = Some((k, chain));
                    Ok(p)
                },
                None => {
                    self.previous = Some((k, chain));
                    Err(CoreError::DecryptionFailed)
                },
            }
        } else {
            if header.ratchet_public.len() != KEY_LEN {
                return Err(CoreError::MalformedFrame);
            }
            let dh1 = x25519(self.our_secret.as_slice(), header.ratchet_public.as_slice());
            let (root1, recv_ck) = kdf2_bytes(self.root.as_slice(), dh1.as_slice());
            let mut chain = ReceivingChain::new(recv_ck);
            let key = match chain.message_key_for(counter) {
                Ok(k) => k,
                Err(e) => return Err(e),
            };
            match aead_open(key.as_slice(), nonce.as_slice(), empty.as_slice(), ciphertext) {
                Some(p) => {
                    chain.advance_past(counter);
                    let dh2 = x25519(fresh_secret, header.ratchet_public.as_slice());
                    let (root2, send_ck) = kdf2_bytes(root1.as_slice(), dh2.as_slice());
                    let previous = match &self.sending {
                        Some(s) => s.next_counter(),
                        None => 0,
                    };
                    let pl = header.previous_length;
                    let retired_chain = match (self.their_public.take(), self.receiving.take()) {
                        (Some(k), Some(mut c)) => {
                            if c.next_index() <= pl as u64 && pl as u64 - c.next_index() <= MAX_SKIP as u64 {
                                c.skip_to(pl as u64);
                            }
                            Some((k, c))
                        },
                        _ => None,
                    };
                    self.previous = retired_chain;
                    self.root = root2;
                    self.our_secret = to_bytes(fresh_secret);
                    self.their_public = Some(copy_bytes(&header.ratchet_public));
                    self.sending = Some(SendingChain::new(send_ck));
                    self.receiving = Some(chain);
                    self.previous_length = previous;
                    Ok(p)
                },
                None => Err(CoreError::DecryptionFailed),
            }
        }
    }
}

} // verus!
