use vstd::prelude::*;
use crate::crypto::{aead_open, aead_seal, aead_seal_of, AEAD_MAX, KEY_LEN, TAG_LEN};
use crate::error::CoreError;

verus! {

/// Width of the big-endian length that prefixes every frame.
pub const LENGTH_PREFIX_LEN: usize = 3;

/// The largest ciphertext a frame can carry.
pub const MAX_FRAME_LEN: usize = 0xFF_FFFF;

/// The nonce of frame number `n`: four zero bytes, then `n` big-endian.
pub open spec fn frame_nonce(n: u64) -> Seq<u8> {
    seq![0u8, 0u8, 0u8, 0u8,
        (n >> 56) as u8, (n >> 48) as u8, (n >> 40) as u8, (n >> 32) as u8,
        (n >> 24) as u8, (n >> 16) as u8, (n >> 8) as u8, n as u8]
}

/// The three-byte big-endian length prefix of a frame body of `len` bytes.
pub open spec fn length_prefix(len: nat) -> Seq<u8> {
    seq![((len / 0x1_0000) % 0x100) as u8, ((len / 0x100) % 0x100) as u8, (len % 0x100) as u8]
}

/// The length a three-byte prefix declares.
pub open spec fn declared_length(p: Seq<u8>) -> nat {
    (p[0] as nat) * 0x1_0000 + (p[1] as nat) * 0x100 + (p[2] as nat)
}

/// The frame that carries `payload` encrypted under `key` as frame number `n`.
pub open spec fn sealed_frame(key: Seq<u8>, n: u64, payload: Seq<u8>) -> Seq<u8> {
    let c = aead_seal_of(key, frame_nonce(n), Seq::empty(), payload);
    length_prefix(c.len()) + c
}

/// Distinct frame numbers have distinct nonces, so a nonce is never reused
/// while the counter only grows.
pub proof fn lemma_nonce_injective(a: u64, b: u64)
    requires
        a != b,
    ensures
        frame_nonce(a) != frame_nonce(b),
{
    if frame_nonce(a) == frame_nonce(b) {
        assert(frame_nonce(a)[4] == frame_nonce(b)[4]);
        assert(frame_nonce(a)[5] == frame_nonce(b)[5]);
        assert(frame_nonce(a)[6] == frame_nonce(b)[6]);
        assert(frame_nonce(a)[7] == frame_nonce(b)[7]);
        assert(frame_nonce(a)[8] == frame_nonce(b)[8]);
        assert(frame_nonce(a)[9] == frame_nonce(b)[9]);
        assert(frame_nonce(a)[10] == frame_nonce(b)[10]);
        assert(frame_nonce(a)[11] == frame_nonce(b)[11]);
        assert(a == b) by (bit_vector)
            requires
                (a >> 56) as u8 == (b >> 56) as u8,
                (a >> 48) as u8 == (b >> 48) as u8,
                (a >> 40) as u8 == (b >> 40) as u8,
                (a >> 32) as u8 == (b >> 32) as u8,
                (a >> 24) as u8 == (b >> 24) as u8,
                (a >> 16) as u8 == (b >> 16) as u8,
                (a >> 8) as u8 == (b >> 8) as u8,
                a as u8 == b as u8,
        ;
    }
}

/// The prefix written for a length is read back as that length.
pub proof fn lemma_prefix_round_trip(len: nat)
    requires
        len <= MAX_FRAME_LEN,
    ensures
        length_prefix(len).len() == LENGTH_PREFIX_LEN,
        declared_length(length_prefix(len)) == len,
{
    let p = length_prefix(len);
    assert(p[0] as nat == (len / 0x1_0000) % 0x100);
    assert(p[1] as nat == (len / 0x100) % 0x100);
    assert(p[2] as nat == len % 0x100);
    assert(len == ((len / 0x1_0000) % 0x100) * 0x1_0000 + ((len / 0x100) % 0x100) * 0x100 + len % 0x100)
        by (nonlinear_arith)
        requires
            len <= 0xFF_FFFF,
    ;
}

pub(crate) fn nonce_of(n: u64) -> (r: Vec<u8>)
    ensures
        r@ == frame_nonce(n),
{
    let v: Vec<u8> = vec![0u8, 0u8, 0u8, 0u8,
        (n >> 56) as u8, (n >> 48) as u8, (n >> 40) as u8, (n >> 32) as u8,
        (n >> 24) as u8, (n >> 16) as u8, (n >> 8) as u8, n as u8];
    assert(v@ =~= frame_nonce(n));
    v
}

/// Reads the body length that a frame's three-byte prefix declares.
pub fn frame_length(prefix: &[u8]) -> (r: Result<usize, CoreError>)
    ensures
        prefix@.len() < LENGTH_PREFIX_LEN ==> r == Err::<usize, CoreError>(CoreError::MalformedFrame),
        prefix@.len() >= LENGTH_PREFIX_LEN ==> r == Ok::<usize, CoreError>(declared_length(prefix@) as usize),
{
    if prefix.len() < LENGTH_PREFIX_LEN {
        return Err(CoreError::MalformedFrame);
    }
    Ok((prefix[0] as usize) * 0x1_0000 + (prefix[1] as usize) * 0x100 + (prefix[2] as usize))
}

/// One direction of the secure channel: a key and a frame counter that only
/// grows. A receiving cipher that failed once stays failed.
pub struct CipherState {
    key: Vec<u8>,
    counter: u64,
    failed: bool,
}

/// What a cipher state is.
pub struct CipherView {
    pub key: Seq<u8>,
    pub counter: u64,
    pub failed: bool,
}

impl View for CipherState {
    type V = CipherView;

    closed spec fn view(&self) -> CipherView {
        CipherView { key: self.key@, counter: self.counter, failed: self.failed }
    }
}

impl CipherState {
    pub closed spec fn wf(&self) -> bool {
        self.key@.len() == KEY_LEN
    }

    /// A cipher with the key the handshake derived, counting from zero.
    pub fn new(key: Vec<u8>) -> (r: Self)
        requires
            key@.len() == KEY_LEN,
        ensures
            r.wf(),
            r@ == (CipherView { key: key@, counter: 0, failed: false }),
    {
        CipherState { key, counter: 0, failed: false }
    }

    pub fn counter(&self) -> (r: u64)
        ensures
            r == self@.counter,
    {
        self.counter
    }

    pub fn is_failed(&self) -> (r: bool)
        ensures
            r == self@.failed,
    {
        self.failed
    }

    /// Encrypts one outbound frame under the current counter, which then
    /// moves on by one. A payload whose ciphertext would not fit a frame
    /// fails with `FrameTooLarge` and leaves the cipher as it was.
    pub fn encrypt_frame(&mut self, payload: &[u8]) -> (r: Result<Vec<u8>, CoreError>)
        requires
            old(self).wf(),
            old(self)@.counter < u64::MAX,
        ensures
            final(self).wf(),
            payload@.len() + TAG_LEN > MAX_FRAME_LEN ==> r == Err::<Vec<u8>, CoreError>(CoreError::FrameTooLarge)
                && final(self)@ == old(self)@,
            payload@.len() + TAG_LEN <= MAX_FRAME_LEN ==> r is Ok,
            r matches Ok(f) ==> f@ == sealed_frame(old(self)@.key, old(self)@.counter, payload@)
                && final(self)@ == (CipherView { counter: (old(self)@.counter + 1) as u64, ..old(self)@ }),
    {
        if payload.len() > MAX_FRAME_LEN - TAG_LEN {
            return Err(CoreError::FrameTooLarge);
        }
        let nonce = nonce_of(self.counter);
        let empty: Vec<u8> = Vec::new();
        assert(empty@ =~= Seq::<u8>::empty());
        let c = match aead_seal(self.key.as_slice(), nonce.as_slice(), empty.as_slice(), payload) {
            Some(c) => c,
            None => Vec::new(),
        };
        let len = c.len();
        let mut out: Vec<u8> = vec![((len / 0x1_0000) % 0x100) as u8, ((len / 0x100) % 0x100) as u8, (len % 0x100) as u8];
        assert(out@ =~= length_prefix(len as nat));
        let mut i: usize = 0;
        while i < c.len()
            invariant
                0 <= i <= c@.len(),
                out@ == length_prefix(len as nat) + c@.subrange(0, i as int),
            decreases c@.len() - i,
        {
            out.push(c[i]);
            i = i + 1;
            assert(out@ =~= length_prefix(len as nat) + c@.subrange(0, i as int));
        }
        assert(c@.subrange(0, c@.len() as int) =~= c@);
        self.counter = self.counter + 1;
        Ok(out)
    }

    /// Decrypts one inbound frame, prefix included, under the current
    /// counter, which then moves on by one. A frame whose prefix does not
    /// match its length fails with `MalformedFrame`; one that does not
    /// authenticate fails with `DecryptionFailed` and leaves the cipher
    /// failed for good.
    pub fn decrypt_frame(&mut self, frame: &[u8]) -> (r: Result<Vec<u8>, CoreError>)
        requires
            old(self).wf(),
            old(self)@.counter < u64::MAX,
        ensures
            final(self).wf(),
            final(self)@.key == old(self)@.key,
            old(self)@.failed ==> r == Err::<Vec<u8>, CoreError>(CoreError::DecryptionFailed) && final(self)@ == old(self)@,
            !old(self)@.failed && (frame@.len() < LENGTH_PREFIX_LEN
                || declared_length(frame@) != frame@.len() - LENGTH_PREFIX_LEN)
                ==> r == Err::<Vec<u8>, CoreError>(CoreError::MalformedFrame) && final(self)@ == old(self)@,
            r is Ok ==> !old(self)@.failed,
            r matches Ok(p) ==> frame@ == sealed_frame(old(self)@.key, old(self)@.counter, p@)
                && final(self)@ == (CipherView { counter: (old(self)@.counter + 1) as u64, ..old(self)@ }),
            r matches Err(e) ==> e == CoreError::DecryptionFailed ==> final(self)@ == (CipherView { failed: true, ..old(self)@ }),
            forall|p: Seq<u8>| !old(self)@.failed && p.len() <= AEAD_MAX
                && aead_seal_of(old(self)@.key, frame_nonce(old(self)@.counter), Seq::empty(), p).len() <= MAX_FRAME_LEN
                && frame@ == sealed_frame(old(self)@.key, old(self)@.counter, p) ==> (r matches Ok(q) && q@ == p),
    {
        if self.failed {
            return Err(CoreError::DecryptionFailed);
        }
        assert forall|p: Seq<u8>| p.len() <= AEAD_MAX
            && aead_seal_of(old(self)@.key, frame_nonce(old(self)@.counter), Seq::empty(), p).len() <= MAX_FRAME_LEN
            && frame@ == sealed_frame(old(self)@.key, old(self)@.counter, p)
            implies frame@.len() >= LENGTH_PREFIX_LEN && declared_length(frame@) == frame@.len() - LENGTH_PREFIX_LEN
                && frame@.subrange(LENGTH_PREFIX_LEN as int, frame@.len() as int)
                == aead_seal_of(old(self)@.key, frame_nonce(old(self)@.counter), Seq::empty(), p) by {
            let c = aead_seal_of(old(self)@.key, frame_nonce(old(self)@.counter), Seq::empty(), p);
            lemma_prefix_round_trip(c.len());
            assert(frame@.subrange(0, 3) =~= length_prefix(c.len()));
            assert(frame@.subrange(LENGTH_PREFIX_LEN as int, frame@.len() as int) =~= c);
        }
        if frame.len() < LENGTH_PREFIX_LEN {
            return Err(CoreError::MalformedFrame);
        }
        let declared = (frame[0] as usize) * 0x1_0000 + (frame[1] as usize) * 0x100 + (frame[2] as usize);
        if declared != frame.len() - LENGTH_PREFIX_LEN {
            return Err(CoreError::MalformedFrame);
        }
        let mut body: Vec<u8> = Vec::new();
        let mut i: usize = LENGTH_PREFIX_LEN;
        while i < frame.len()
            invariant
                LENGTH_PREFIX_LEN <= i <= frame@.len(),
                body@ == frame@.subrange(LENGTH_PREFIX_LEN as int, i as int),
            decreases frame@.len() - i,
        {
            body.push(frame[i]);
            i = i + 1;
            assert(body@ =~= frame@.subrange(LENGTH_PREFIX_LEN as int, i as int));
        }
        let nonce = nonce_of(self.counter);
        let empty: Vec<u8> = Vec::new();
        assert(empty@ =~= Seq::<u8>::empty());
        match aead_open(self.key.as_slice(), nonce.as_slice(), empty.as_slice(), body.as_slice()) {
            Some(p) => {
                proof {
                    lemma_prefix_round_trip(body@.len());
                    assert(frame@ =~= length_prefix(body@.len()) + body@);
                }
                self.counter = self.counter + 1;
                Ok(p)
            },
            None => {
                self.failed = true;
                Err(CoreError::DecryptionFailed)
            },
        }
    }
}

} // verus!
