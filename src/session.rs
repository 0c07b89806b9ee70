use vstd::prelude::*;
use crate::bytes::bytes_equal;
use crate::chain::{
    after_take, can_take, chain_key_at, chain_ok, chain_step, message_key_at, take_error, ChainView,
    ReceivingChain,
};
use crate::crypto::{aead_open, aead_seal, aead_seal_of, AEAD_MAX, KEY_LEN, NONCE_LEN};
use crate::error::CoreError;

verus! {

/// Each message key encrypts one message only, so the nonce is fixed.
pub open spec fn message_nonce() -> Seq<u8> {
    Seq::new(12, |i: int| 0u8)
}

/// The ciphertext of `plaintext` under the key of message `n` of the chain
/// that starts at `base`.
pub open spec fn sealed_message(base: Seq<u8>, n: nat, plaintext: Seq<u8>) -> Seq<u8> {
    aead_seal_of(message_key_at(base, n), message_nonce(), Seq::empty(), plaintext)
}

pub(crate) fn zero_nonce() -> (r: Vec<u8>)
    ensures
        r@ == message_nonce(),
{
    let mut v: Vec<u8> = Vec::new();
    let mut i: usize = 0;
    while i < NONCE_LEN
        invariant
            0 <= i <= NONCE_LEN,
            v@ == Seq::new(i as nat, |k: int| 0u8),
        decreases NONCE_LEN - i,
    {
        v.push(0u8);
        i = i + 1;
        assert(v@ =~= Seq::new(i as nat, |k: int| 0u8));
    }
    v
}

/// A message as it leaves the sender: its index in the sending chain and
/// its ciphertext.
pub struct EncryptedMessage {
    pub counter: u32,
    pub ciphertext: Vec<u8>,
}

/// What a sending chain is: where it started and the next index it uses.
pub struct SendView {
    pub base: Seq<u8>,
    pub next: nat,
}

/// The sending side of a message chain: each index, and so each message
/// key, is used once.
pub struct SendingChain {
    base: Ghost<Seq<u8>>,
    chain_key: Vec<u8>,
    next: u32,
}

impl View for SendingChain {
    type V = SendView;

    closed spec fn view(&self) -> SendView {
        SendView { base: self.base@, next: self.next as nat }
    }
}

impl SendingChain {
    pub closed spec fn wf(&self) -> bool {
        &&& self.chain_key@ == chain_key_at(self.base@, self.next as nat)
        &&& self.chain_key@.len() == KEY_LEN
    }

    pub fn new(chain_key: Vec<u8>) -> (r: Self)
        requires
            chain_key@.len() == KEY_LEN,
        ensures
            r.wf(),
            r@ == (SendView { base: chain_key@, next: 0 }),
    {
        let ghost b = chain_key@;
        SendingChain { base: Ghost(b), chain_key, next: 0 }
    }

    /// The index the next message will carry.
    pub fn next_counter(&self) -> (r: u32)
        ensures
            r == self@.next,
    {
        self.next
    }

    /// Encrypts one message under the key of the next index and moves the
    /// chain on by one.
    pub fn encrypt(&mut self, plaintext: &[u8]) -> (r: EncryptedMessage)
        requires
            old(self).wf(),
            old(self)@.next < 0xFFFF_FFFF,
            plaintext@.len() <= AEAD_MAX,
        ensures
            final(self).wf(),
            final(self)@ == (SendView { base: old(self)@.base, next: old(self)@.next + 1 }),
            r.counter == old(self)@.next,
            r.ciphertext@ == sealed_message(old(self)@.base, old(self)@.next, plaintext@),
    {
        let (mk, nk) = chain_step(self.chain_key.as_slice());
        let nonce = zero_nonce();
        let empty: Vec<u8> = Vec::new();
        let sealed = aead_seal(mk.as_slice(), nonce.as_slice(), empty.as_slice(), plaintext);
        let ciphertext = match sealed {
            Some(c) => c,
            None => Vec::new(),
        };
        assert(empty@ =~= Seq::<u8>::empty());
        let counter = self.next;
        self.chain_key = nk;
        self.next = self.next + 1;
        EncryptedMessage { counter, ciphertext }
    }
}

/// What a pairwise session is: its sending and its receiving chain.
pub struct SessionView {
    pub send: SendView,
    pub recv: ChainView,
}

/// A pairwise session with one remote device.
pub struct Session {
    sending: SendingChain,
    receiving: ReceivingChain,
}

impl View for Session {
    type V = SessionView;

    closed spec fn view(&self) -> SessionView {
        SessionView { send: self.sending@, recv: self.receiving@ }
    }
}

impl Session {
    pub closed spec fn wf(&self) -> bool {
        self.sending.wf() && self.receiving.wf()
    }

    /// A session from the two chain keys that session setup derived.
    pub fn new(send_chain_key: Vec<u8>, recv_chain_key: Vec<u8>) -> (r: Self)
        requires
            send_chain_key@.len() == KEY_LEN,
            recv_chain_key@.len() == KEY_LEN,
        ensures
            r.wf(),
            r@.send == (SendView { base: send_chain_key@, next: 0 }),
            r@.recv == (ChainView { base: recv_chain_key@, next: 0, cached: Seq::empty() }),
    {
        Session { sending: SendingChain::new(send_chain_key), receiving: ReceivingChain::new(recv_chain_key) }
    }

    pub proof fn lemma_ok(&self)
        requires
            self.wf(),
        ensures
            chain_ok(self@.recv),
    {
        self.receiving.lemma_ok();
    }

    pub fn encrypt(&mut self, plaintext: &[u8]) -> (r: EncryptedMessage)
        requires
            old(self).wf(),
            old(self)@.send.next < 0xFFFF_FFFF,
            plaintext@.len() <= AEAD_MAX,
        ensures
            final(self).wf(),
            final(self)@.recv == old(self)@.recv,
            final(self)@.send == (SendView { base: old(self)@.send.base, next: old(self)@.send.next + 1 }),
            r.counter == old(self)@.send.next,
            r.ciphertext@ == sealed_message(old(self)@.send.base, old(self)@.send.next, plaintext@),
    {
        self.sending.encrypt(plaintext)
    }

    /// Decrypts the message of index `counter`. The key is used up only when
    /// decryption succeeds; on any failure the session is left as it was.
    pub fn decrypt(&mut self, counter: u32, ciphertext: &[u8]) -> (r: Result<Vec<u8>, CoreError>)
        requires
            old(self).wf(),
        ensures
            final(self).wf(),
            final(self)@.send == old(self)@.send,
            r is Ok ==> can_take(old(self)@.recv, counter),
            r matches Ok(p) ==> ciphertext@ == sealed_message(old(self)@.recv.base, counter as nat, p@)
                && final(self)@.recv == after_take(old(self)@.recv, counter),
            forall|p: Seq<u8>| can_take(old(self)@.recv, counter) && p.len() <= AEAD_MAX
                && ciphertext@ == sealed_message(old(self)@.recv.base, counter as nat, p) ==> (r matches Ok(q) && q@ == p),
            r is Err ==> final(self)@ == old(self)@,
            r matches Err(e) ==> e == if can_take(old(self)@.recv, counter) {
                CoreError::DecryptionFailed
            } else {
                take_error(old(self)@.recv, counter)
            },
    {
        let key = match self.receiving.message_key_for(counter) {
            Ok(k) => k,
            Err(e) => return Err(e),
        };
        let nonce = zero_nonce();
        let empty: Vec<u8> = Vec::new();
        assert(empty@ =~= Seq::<u8>::empty());
        match aead_open(key.as_slice(), nonce.as_slice(), empty.as_slice(), ciphertext) {
            Some(p) => {
                self.receiving.advance_past(counter);
                Ok(p)
            },
            None => Err(CoreError::DecryptionFailed),
        }
    }
}

/// The pairwise sessions of the local device, one per remote device.
pub struct SessionManager {
    peers: Vec<Vec<u8>>,
    sessions: Vec<Session>,
    model: Ghost<Map<Seq<u8>, SessionView>>,
}

impl View for SessionManager {
    type V = Map<Seq<u8>, SessionView>;

    closed spec fn view(&self) -> Map<Seq<u8>, SessionView> {
        self.model@
    }
}

impl SessionManager {
    pub closed spec fn wf(&self) -> bool {
        &&& self.peers@.len() == self.sessions@.len()
        &&& forall|i: int, j: int| 0 <= i < j < self.peers@.len() ==> (#[trigger] self.peers@[i])@ != (#[trigger] self.peers@[j])@
        &&& forall|i: int| 0 <= i < self.peers@.len() ==> (#[trigger] self.sessions@[i]).wf()
            && self.model@.contains_key(self.peers@[i]@) && self.model@[self.peers@[i]@] == self.sessions@[i]@
        &&& forall|p: Seq<u8>| #[trigger] self.model@.contains_key(p) ==> exists|i: int| 0 <= i < self.peers@.len() && (#[trigger] self.peers@[i])@ == p
    }

    pub fn new() -> (r: Self)
        ensures
            r.wf(),
            r@ == Map::<Seq<u8>, SessionView>::empty(),
    {
        SessionManager { peers: Vec::new(), sessions: Vec::new(), model: Ghost(Map::empty()) }
    }

    /// Every session the manager holds satisfies the chain invariant.
    pub proof fn lemma_ok(&self, peer: Seq<u8>)
        requires
            self.wf(),
            self@.contains_key(peer),
        ensures
            chain_ok(self@[peer].recv),
    {
        let i = choose|i: int| 0 <= i < self.peers@.len() && (#[trigger] self.peers@[i])@ == peer;
        self.sessions@[i].lemma_ok();
    }

    fn find(&self, peer: &[u8]) -> (r: Option<usize>)
        requires
            self.wf(),
        ensures
            r is None == !self@.contains_key(peer@),
            r matches Some(i) ==> i < self.peers@.len() && self.peers@[i as int]@ == peer@,
    {
        let mut i: usize = 0;
        while i < self.peers.len()
            invariant
                self.wf(),
                0 <= i <= self.peers@.len(),
                forall|j: int| 0 <= j < i ==> (#[trigger] self.peers@[j])@ != peer@,
            decreases self.peers@.len() - i,
        {
            if bytes_equal(self.peers[i].as_slice(), peer) {
                assert(self.sessions@[i as int].wf());
                return Some(i);
            }
            i = i + 1;
        }
        None
    }

    /// Whether a session with `peer` exists.
    pub fn has_session(&self, peer: &[u8]) -> (r: bool)
        requires
            self.wf(),
        ensures
            r == self@.contains_key(peer@),
    {
        self.find(peer).is_some()
    }

    /// Installs the session with `peer` that setup produced, replacing any
    /// earlier one.
    pub fn install(&mut self, peer: Vec<u8>, session: Session)
        requires
            old(self).wf(),
            session.wf(),
        ensures
            final(self).wf(),
            final(self)@ == old(self)@.insert(peer@, session@),
    {
        let ghost sv = session@;
        let ghost pv = peer@;
        match self.find(peer.as_slice()) {
            Some(i) => {
                self.sessions.remove(i);
                self.sessions.insert(i, session);
                self.model = Ghost(self.model@.insert(pv, sv));
                assert forall|j: int| 0 <= j < self.peers@.len() implies (#[trigger] self.sessions@[j]).wf()
                    && self.model@.contains_key(self.peers@[j]@) && self.model@[self.peers@[j]@] == self.sessions@[j]@ by {
                    if j != i {
                        assert(old(self).sessions@[j] == self.sessions@[j]);
                        assert(old(self).peers@[j]@ != pv);
                    }
                }
                assert forall|p: Seq<u8>| #[trigger] self.model@.contains_key(p) implies exists|k: int| 0 <= k < self.peers@.len() && (#[trigger] self.peers@[k])@ == p by {
                    if p == pv {
                        assert(self.peers@[i as int]@ == p);
                    } else {
                        let k = choose|k: int| 0 <= k < old(self).peers@.len() && (#[trigger] old(self).peers@[k])@ == p;
                        assert(self.peers@[k] == old(self).peers@[k]);
                    }
                }
            },
            None => {
                self.peers.push(peer);
                self.sessions.push(session);
                self.model = Ghost(self.model@.insert(pv, sv));
                let n = self.peers.len() - 1;
                assert forall|j: int| 0 <= j < self.peers@.len() implies (#[trigger] self.sessions@[j]).wf()
                    && self.model@.contains_key(self.peers@[j]@) && self.model@[self.peers@[j]@] == self.sessions@[j]@ by {
                    if j < n {
                        assert(old(self).sessions@[j] == self.sessions@[j]);
                        assert(old(self).peers@[j] == self.peers@[j]);
                        assert(old(self).model@.contains_key(old(self).peers@[j]@));
                    }
                }
                assert forall|p: Seq<u8>| #[trigger] self.model@.contains_key(p) implies exists|k: int| 0 <= k < self.peers@.len() && (#[trigger] self.peers@[k])@ == p by {
                    if p == pv {
                        assert(self.peers@[n as int]@ == p);
                    } else {
                        let k = choose|k: int| 0 <= k < old(self).peers@.len() && (#[trigger] old(self).peers@[k])@ == p;
                        assert(self.peers@[k] == old(self).peers@[k]);
                    }
                }
                assert forall|a: int, b: int| 0 <= a < b < self.peers@.len() implies (#[trigger] self.peers@[a])@ != (#[trigger] self.peers@[b])@ by {
                    if b == n {
                        assert(old(self).sessions@[a].wf());
                        assert(old(self).model@.contains_key(old(self).peers@[a]@));
                    } else {
                        assert(old(self).peers@[a] == self.peers@[a]);
                        assert(old(self).peers@[b] == self.peers@[b]);
                    }
                }
            },
        }
    }

    /// Replaces the session at position `i` by `s`, keeping the model in step.
    fn put_back(&mut self, i: usize, s: Session)
        requires
            old(self).peers@.len() == old(self).sessions@.len() + 1,
            i <= old(self).sessions@.len(),
            s.wf(),
            forall|a: int, b: int| 0 <= a < b < old(self).peers@.len() ==> (#[trigger] old(self).peers@[a])@ != (#[trigger] old(self).peers@[b])@,
            forall|j: int| 0 <= j < old(self).peers@.len() && j != i ==>
                (#[trigger] old(self).sessions@.insert(i as int, s)[j]).wf()
                && old(self).model@.contains_key(old(self).peers@[j]@)
                && old(self).model@[old(self).peers@[j]@] == old(self).sessions@.insert(i as int, s)[j]@,
            forall|p: Seq<u8>| #[trigger] old(self).model@.contains_key(p) ==> exists|k: int| 0 <= k < old(self).peers@.len() && (#[trigger] old(self).peers@[k])@ == p,
        ensures
            final(self).wf(),
            final(self)@ == old(self)@.insert(old(self).peers@[i as int]@, s@),
    {
        let ghost sv = s@;
        let ghost pv = self.peers@[i as int]@;
        let ghost olds = self.sessions@;
        self.sessions.insert(i, s);
        self.model = Ghost(self.model@.insert(pv, sv));
        assert forall|j: int| 0 <= j < self.peers@.len() implies (#[trigger] self.sessions@[j]).wf()
            && self.model@.contains_key(self.peers@[j]@) && self.model@[self.peers@[j]@] == self.sessions@[j]@ by {
            if j != i {
                assert(self.sessions@[j] == olds.insert(i as int, s)[j]);
            }
        }
        assert forall|p: Seq<u8>| #[trigger] self.model@.contains_key(p) implies exists|k: int| 0 <= k < self.peers@.len() && (#[trigger] self.peers@[k])@ == p by {
            if p == pv {
                assert(self.peers@[i as int]@ == p);
            } else {
                let k = choose|k: int| 0 <= k < old(self).peers@.len() && (#[trigger] old(self).peers@[k])@ == p;
                assert(self.peers@[k] == old(self).peers@[k]);
            }
        }
    }

    /// Encrypts a message for `peer`; fails with `NoSession` when there is no
    /// session with it.
    pub fn encrypt(&mut self, peer: &[u8], plaintext: &[u8]) -> (r: Result<EncryptedMessage, CoreError>)
        requires
            old(self).wf(),
            old(self)@.contains_key(peer@) ==> old(self)@[peer@].send.next < 0xFFFF_FFFF
                && plaintext@.len() <= AEAD_MAX,
        ensures
            final(self).wf(),
            r is Err == !old(self)@.contains_key(peer@),
            r matches Err(e) ==> e == CoreError::NoSession && final(self)@ == old(self)@,
            r matches Ok(m) ==> {
                let s = old(self)@[peer@];
                &&& m.counter == s.send.next
                &&& m.ciphertext@ == sealed_message(s.send.base, s.send.next, plaintext@)
                &&& final(self)@ == old(self)@.insert(peer@, SessionView {
                    send: SendView { base: s.send.base, next: s.send.next + 1 },
                    recv: s.recv,
                })
            },
    {
        match self.find(peer) {
            None => Err(CoreError::NoSession),
            Some(i) => {
                let ghost olds = self.sessions@;
                let mut s = self.sessions.remove(i);
                assert(s == olds[i as int]);
                let m = s.encrypt(plaintext);
                proof {
                    assert forall|j: int| 0 <= j < self.peers@.len() && j != i implies
                        #[trigger] self.sessions@.insert(i as int, s)[j] == olds[j] by {}
                }
                self.put_back(i, s);
                Ok(m)
            },
        }
    }

    /// Decrypts a message from `peer`; fails with `NoSession` when there is
    /// no session with it, and otherwise as `Session::decrypt` does.
    pub fn decrypt(&mut self, peer: &[u8], counter: u32, ciphertext: &[u8]) -> (r: Result<Vec<u8>, CoreError>)
        requires
            old(self).wf(),
        ensures
            final(self).wf(),
            !old(self)@.contains_key(peer@) ==> r == Err::<Vec<u8>, CoreError>(CoreError::NoSession),
            r is Err ==> final(self)@ == old(self)@,
            r is Ok ==> old(self)@.contains_key(peer@) && can_take(old(self)@[peer@].recv, counter),
            r matches Ok(p) ==> {
                let s = old(self)@[peer@];
                &&& ciphertext@ == sealed_message(s.recv.base, counter as nat, p@)
                &&& final(self)@ == old(self)@.insert(peer@, SessionView {
                    send: s.send,
                    recv: after_take(s.recv, counter),
                })
            },
            forall|p: Seq<u8>| old(self)@.contains_key(peer@) && can_take(old(self)@[peer@].recv, counter)
                && p.len() <= AEAD_MAX && ciphertext@ == sealed_message(old(self)@[peer@].recv.base, counter as nat, p)
                ==> (r matches Ok(q) && q@ == p),
            r matches Err(e) ==> old(self)@.contains_key(peer@) ==> e == if can_take(old(self)@[peer@].recv, counter) {
                CoreError::DecryptionFailed
            } else {
                take_error(old(self)@[peer@].recv, counter)
            },
    {
        match self.find(peer) {
            None => Err(CoreError::NoSession),
            Some(i) => {
                let ghost olds = self.sessions@;
                let mut s = self.sessions.remove(i);
                assert(s == olds[i as int]);
                let r = s.decrypt(counter, ciphertext);
                proof {
                    assert forall|j: int| 0 <= j < self.peers@.len() && j != i implies
                        #[trigger] self.sessions@.insert(i as int, s)[j] == olds[j] by {}
                }
                self.put_back(i, s);
                proof {
                    if r is Err {
                        assert(self@ =~= old(self)@);
                    }
                }
                r
            },
        }
    }
}

} // verus!
