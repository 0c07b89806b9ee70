use vstd::prelude::*;
use crate::chain::{after_take, can_take, take_error, ChainView, ReceivingChain};
use crate::crypto::{
    aead_open, ed25519_accepts, ed25519_public, ed25519_public_of, ed25519_sign, ed25519_sign_of,
    ed25519_verify, KEY_LEN, SIGNATURE_LEN,
};
use crate::error::CoreError;
use crate::session::{sealed_message, zero_nonce, SendView, SendingChain};
use crate::crypto::AEAD_MAX;

verus! {

/// A group message: the sender chain iteration, the ciphertext and the
/// sender's signature over the ciphertext.
pub struct GroupMessage {
    pub iteration: u32,
    pub ciphertext: Vec<u8>,
    pub signature: Vec<u8>,
}

/// The error of a group message whose key cannot be had: the sender chain
/// only moves forward, so a message behind it is too old.
pub open spec fn group_take_error(v: ChainView, i: u32) -> CoreError {
    if take_error(v, i) == CoreError::DuplicateOrTooOld {
        CoreError::TooOld
    } else {
        take_error(v, i)
    }
}

/// The local device's sender key for one group: a sending chain and the
/// secret signing key.
pub struct GroupSender {
    chain: SendingChain,
    signing_secret: Vec<u8>,
}

/// What a group sender is.
pub struct GroupSenderView {
    pub chain: SendView,
    pub signing_secret: Seq<u8>,
}

impl View for GroupSender {
    type V = GroupSenderView;

    closed spec fn view(&self) -> GroupSenderView {
        GroupSenderView { chain: self.chain@, signing_secret: self.signing_secret@ }
    }
}

impl GroupSender {
    pub closed spec fn wf(&self) -> bool {
        self.chain.wf() && self.signing_secret@.len() == KEY_LEN
    }

    pub fn new(chain_key: Vec<u8>, signing_secret: Vec<u8>) -> (r: Self)
        requires
            chain_key@.len() == KEY_LEN,
            signing_secret@.len() == KEY_LEN,
        ensures
            r.wf(),
            r@ == (GroupSenderView { chain: SendView { base: chain_key@, next: 0 }, signing_secret: signing_secret@ }),
    {
        GroupSender { chain: SendingChain::new(chain_key), signing_secret }
    }

    /// The public signing key that receivers check signatures against.
    pub fn signing_public(&self) -> (r: Vec<u8>)
        requires
            self.wf(),
        ensures
            r@ == ed25519_public_of(self@.signing_secret),
    {
        ed25519_public(self.signing_secret.as_slice())
    }

    /// Encrypts a message under the next iteration of the sender chain and
    /// signs the ciphertext.
    pub fn encrypt(&mut self, plaintext: &[u8]) -> (r: GroupMessage)
        requires
            old(self).wf(),
            old(self)@.chain.next < 0xFFFF_FFFF,
            plaintext@.len() <= AEAD_MAX,
        ensures
            final(self).wf(),
            final(self)@ == (GroupSenderView {
                chain: SendView { base: old(self)@.chain.base, next: old(self)@.chain.next + 1 },
                signing_secret: old(self)@.signing_secret,
            }),
            r.iteration == old(self)@.chain.next,
            r.ciphertext@ == sealed_message(old(self)@.chain.base, old(self)@.chain.next, plaintext@),
            r.signature@ == ed25519_sign_of(old(self)@.signing_secret, r.ciphertext@),
            ed25519_accepts(ed25519_public_of(old(self)@.signing_secret), r.ciphertext@, r.signature@),
    {
        let m = self.chain.encrypt(plaintext);
        let signature = ed25519_sign(self.signing_secret.as_slice(), m.ciphertext.as_slice());
        GroupMessage { iteration: m.counter, ciphertext: m.ciphertext, signature }
    }

    /// Discards the chain and the signing key and starts over with fresh
    /// ones, as membership changes require.
    pub fn rotate(&mut self, chain_key: Vec<u8>, signing_secret: Vec<u8>)
        requires
            chain_key@.len() == KEY_LEN,
            signing_secret@.len() == KEY_LEN,
        ensures
            final(self).wf(),
            final(self)@ == (GroupSenderView { chain: SendView { base: chain_key@, next: 0 }, signing_secret: signing_secret@ }),
    {
        *self = GroupSender::new(chain_key, signing_secret);
    }
}

/// The sender key of one remote member of a group: the receiving chain and
/// the member's public signing key.
pub struct GroupReceiver {
    chain: ReceivingChain,
    signing_public: Vec<u8>,
}

/// What a group receiver is.
pub struct GroupReceiverView {
    pub chain: ChainView,
    pub signing_public: Seq<u8>,
}

impl View for GroupReceiver {
    type V = GroupReceiverView;

    closed spec fn view(&self) -> GroupReceiverView {
        GroupReceiverView { chain: self.chain@, signing_public: self.signing_public@ }
    }
}

impl GroupReceiver {
    pub closed spec fn wf(&self) -> bool {
        self.chain.wf() && self.signing_public@.len() == KEY_LEN
    }

    /// The sender key a member distributed: chain key and public signing key,
    /// starting at iteration `0`.
    pub fn new(chain_key: Vec<u8>, signing_public: Vec<u8>) -> (r: Self)
        requires
            chain_key@.len() == KEY_LEN,
            signing_public@.len() == KEY_LEN,
        ensures
            r.wf(),
            r@ == (GroupReceiverView {
                chain: ChainView { base: chain_key@, next: 0, cached: Seq::empty() },
                signing_public: signing_public@,
            }),
    {
        GroupReceiver { chain: ReceivingChain::new(chain_key), signing_public }
    }

    /// Checks the signature, then decrypts the message of the given
    /// iteration. The key is used up only when decryption succeeds; on any
    /// failure the state is left as it was.
    pub fn decrypt(&mut self, iteration: u32, ciphertext: &[u8], signature: &[u8]) -> (r: Result<Vec<u8>, CoreError>)
        requires
            old(self).wf(),
        ensures
            final(self).wf(),
            final(self)@.signing_public == old(self)@.signing_public,
            r is Ok ==> signature@.len() == SIGNATURE_LEN
                && ed25519_accepts(old(self)@.signing_public, ciphertext@, signature@)
                && can_take(old(self)@.chain, iteration),
            r matches Ok(p) ==> ciphertext@ == sealed_message(old(self)@.chain.base, iteration as nat, p@)
                && final(self)@.chain == after_take(old(self)@.chain, iteration),
            r is Err ==> final(self)@ == old(self)@,
            forall|p: Seq<u8>| signature@.len() == SIGNATURE_LEN
                && ed25519_accepts(old(self)@.signing_public, ciphertext@, signature@)
                && can_take(old(self)@.chain, iteration) && p.len() <= AEAD_MAX
                && ciphertext@ == sealed_message(old(self)@.chain.base, iteration as nat, p) ==> (r matches Ok(q) && q@ == p),
            r matches Err(e) ==> e == if signature@.len() != SIGNATURE_LEN
                || !ed25519_accepts(old(self)@.signing_public, ciphertext@, signature@) {
                CoreError::SignatureInvalid
            } else if !can_take(old(self)@.chain, iteration) {
                group_take_error(old(self)@.chain, iteration)
            } else {
                CoreError::DecryptionFailed
            },
    {
        if signature.len() != SIGNATURE_LEN {
            return Err(CoreError::SignatureInvalid);
        }
        if !ed25519_verify(self.signing_public.as_slice(), ciphertext, signature) {
            return Err(CoreError::SignatureInvalid);
        }
        let key = match self.chain.message_key_for(iteration) {
            Ok(k) => k,
            Err(e) => {
                return Err(
                    match e {
                        CoreError::DuplicateOrTooOld => CoreError::TooOld,
                        other => other,
                    },
                );
            },
        };
        let nonce = zero_nonce();
        let empty: Vec<u8> = Vec::new();
        assert(empty@ =~= Seq::<u8>::empty());
        match aead_open(key.as_slice(), nonce.as_slice(), empty.as_slice(), ciphertext) {
            Some(p) => {
                self.chain.advance_past(iteration);
                Ok(p)
            },
            None => Err(CoreError::DecryptionFailed),
        }
    }
}

} // verus!
