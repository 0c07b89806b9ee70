use vstd::prelude::*;
use crate::crypto::{hmac_sha256, hmac_sha256_of, KEY_LEN};
use crate::error::CoreError;
use crate::bytes::copy_bytes;

verus! {

/// How far ahead of the next expected index a message may be.
pub const MAX_SKIP: u32 = 2000;

/// How many skipped message keys a chain keeps; the oldest go first.
pub const MAX_CACHED_KEYS: usize = 2000;

/// The message key that a chain key yields.
pub open spec fn message_key_of(ck: Seq<u8>) -> Seq<u8> {
    hmac_sha256_of(ck, seq![1u8])
}

/// The chain key that follows a chain key.
pub open spec fn next_chain_key(ck: Seq<u8>) -> Seq<u8> {
    hmac_sha256_of(ck, seq![2u8])
}

/// The chain key after `n` steps from `base`.
pub open spec fn chain_key_at(base: Seq<u8>, n: nat) -> Seq<u8>
    decreases n,
{
    if n == 0 {
        base
    } else {
        next_chain_key(chain_key_at(base, (n - 1) as nat))
    }
}

/// The key of message `n` of the chain that starts at `base`.
pub open spec fn message_key_at(base: Seq<u8>, n: nat) -> Seq<u8> {
    message_key_of(chain_key_at(base, n))
}

/// Derives the message key of a chain key and the chain key that follows it.
pub fn chain_step(ck: &[u8]) -> (r: (Vec<u8>, Vec<u8>))
    ensures
        r.0@ == message_key_of(ck@),
        r.1@ == next_chain_key(ck@),
        r.0@.len() == KEY_LEN,
        r.1@.len() == KEY_LEN,
{
    let one: [u8; 1] = [1u8];
    let two: [u8; 1] = [2u8];
    assert(one@ =~= seq![1u8]);
    assert(two@ =~= seq![2u8]);
    let mk = hmac_sha256(ck, one.as_slice());
    let next = hmac_sha256(ck, two.as_slice());
    (mk, next)
}

/// The cache after recording `x`, dropping the oldest entry when full.
pub open spec fn push_bounded(s: Seq<u32>, x: u32) -> Seq<u32> {
    if s.len() >= MAX_CACHED_KEYS {
        s.drop_first().push(x)
    } else {
        s.push(x)
    }
}

/// The cache after recording the `k` indices from `from` on, in order.
pub open spec fn fill(s: Seq<u32>, from: nat, k: nat) -> Seq<u32>
    decreases k,
{
    if k == 0 {
        s
    } else {
        push_bounded(fill(s, from, (k - 1) as nat), (from + k - 1) as u32)
    }
}

/// The cache with every occurrence of `x` taken out.
pub open spec fn without(s: Seq<u32>, x: u32) -> Seq<u32>
    decreases s.len(),
{
    if s.len() == 0 {
        s
    } else {
        let rest = without(s.drop_last(), x);
        if s.last() == x {
            rest
        } else {
            rest.push(s.last())
        }
    }
}

/// What a receiving chain is: where it started, the next index it expects,
/// and the indices below that whose keys it still holds, oldest first.
pub struct ChainView {
    pub base: Seq<u8>,
    pub next: nat,
    pub cached: Seq<u32>,
}

/// What every reachable chain satisfies: each cached index lies below the
/// next expected one, which fits in 32 bits plus one.
pub open spec fn chain_ok(v: ChainView) -> bool {
    &&& v.next <= 0x1_0000_0000
    &&& forall|y: u32| #[trigger] v.cached.contains(y) ==> y < v.next
}

/// Whether the key of message `i` can be had from the chain.
pub open spec fn can_take(v: ChainView, i: u32) -> bool {
    if i < v.next {
        v.cached.contains(i)
    } else {
        i - v.next <= MAX_SKIP
    }
}

/// The error when the key of message `i` cannot be had.
pub open spec fn take_error(v: ChainView, i: u32) -> CoreError {
    if i < v.next {
        CoreError::DuplicateOrTooOld
    } else {
        CoreError::TooManySkippedMessages
    }
}

/// The chain moved on to expect index `n`, caching the keys it skips.
pub open spec fn skipped_to(v: ChainView, n: nat) -> ChainView {
    ChainView { base: v.base, next: n, cached: fill(v.cached, v.next, (n - v.next) as nat) }
}

/// The chain after the key of message `i` has been handed out.
pub open spec fn after_take(v: ChainView, i: u32) -> ChainView {
    if !can_take(v, i) {
        v
    } else if i < v.next {
        ChainView { base: v.base, next: v.next, cached: without(v.cached, i) }
    } else {
        ChainView { base: v.base, next: (i + 1) as nat, cached: fill(v.cached, v.next, (i - v.next) as nat) }
    }
}

proof fn lemma_without_step(s: Seq<u32>, x: u32, k: int)
    requires
        0 <= k < s.len(),
    ensures
        without(s.subrange(0, k + 1), x) == if s[k] == x {
            without(s.subrange(0, k), x)
        } else {
            without(s.subrange(0, k), x).push(s[k])
        },
{
    assert(s.subrange(0, k + 1).drop_last() =~= s.subrange(0, k));
}

/// `without(s, x)` holds no `x` and nothing that `s` does not hold.
pub proof fn lemma_without(s: Seq<u32>, x: u32)
    ensures
        !without(s, x).contains(x),
        forall|y: u32| #[trigger] without(s, x).contains(y) ==> s.contains(y),
        without(s, x).len() <= s.len(),
    decreases s.len(),
{
    if s.len() > 0 {
        lemma_without(s.drop_last(), x);
        let r = without(s.drop_last(), x);
        assert forall|y: u32| #[trigger] without(s, x).contains(y) implies s.contains(y) by {
            if r.contains(y) {
                assert(s.drop_last().contains(y));
                let j = choose|j: int| 0 <= j < s.drop_last().len() && s.drop_last()[j] == y;
                assert(s[j] == y);
            } else {
                assert(s[s.len() - 1] == s.last());
            }
        }
        if without(s, x).contains(x) {
            assert(!r.contains(x));
            let j = choose|j: int| 0 <= j < without(s, x).len() && without(s, x)[j] == x;
            if s.last() != x {
                assert(j == r.len());
            }
        }
    }
}

/// What `fill` records lies in `s` or in `[from, from + k)`, and it holds at
/// most `max(s.len(), MAX_CACHED_KEYS)` entries.
pub proof fn lemma_fill(s: Seq<u32>, from: nat, k: nat)
    requires
        from + k <= 0x1_0000_0000,
    ensures
        forall|y: u32| #[trigger] fill(s, from, k).contains(y) ==> s.contains(y) || (from <= y < from + k),
        fill(s, from, k).len() <= if s.len() > MAX_CACHED_KEYS { s.len() as int } else { MAX_CACHED_KEYS as int },
    decreases k,
{
    if k > 0 {
        lemma_fill(s, from, (k - 1) as nat);
        let p = fill(s, from, (k - 1) as nat);
        let x = (from + k - 1) as u32;
        assert forall|y: u32| #[trigger] fill(s, from, k).contains(y) implies s.contains(y) || (from <= y < from + k) by {
            let f = fill(s, from, k);
            let j = choose|j: int| 0 <= j < f.len() && f[j] == y;
            if j == f.len() - 1 {
                assert(y == x);
            } else if p.len() >= MAX_CACHED_KEYS {
                assert(f[j] == p[j + 1]);
                assert(p.contains(y));
            } else {
                assert(f[j] == p[j]);
                assert(p.contains(y));
            }
        }
    }
}

/// A message key, once handed out, cannot be had again: a replayed message
/// fails with `DuplicateOrTooOld`.
pub proof fn lemma_no_replay(v: ChainView, i: u32)
    requires
        chain_ok(v),
        can_take(v, i),
    ensures
        !can_take(after_take(v, i), i),
        take_error(after_take(v, i), i) == CoreError::DuplicateOrTooOld,
{
    if i < v.next {
        lemma_without(v.cached, i);
    } else {
        lemma_fill(v.cached, v.next, (i - v.next) as nat);
    }
}

/// A key once used up stays used up, whatever is taken afterwards: each
/// message decrypts at most once, in any delivery order.
pub proof fn lemma_stays_consumed(v: ChainView, i: u32, j: u32)
    requires
        chain_ok(v),
        i < v.next,
        !can_take(v, i),
    ensures
        i < after_take(v, j).next,
        !can_take(after_take(v, j), i),
        chain_ok(after_take(v, j)),
{
    if can_take(v, j) {
        if j < v.next {
            lemma_without(v.cached, j);
        } else {
            lemma_fill(v.cached, v.next, (j - v.next) as nat);
        }
    }
}

/// A message more than `MAX_SKIP` ahead of the next expected index fails with
/// `TooManySkippedMessages` and leaves the chain as it was.
pub proof fn lemma_skip_bound(v: ChainView, i: u32)
    requires
        i >= v.next,
        i - v.next > MAX_SKIP,
    ensures
        !can_take(v, i),
        take_error(v, i) == CoreError::TooManySkippedMessages,
        after_take(v, i) == v,
{
}

/// A message within `MAX_SKIP` of the next expected index, or one skipped
/// earlier whose key is still cached, can be decrypted.
pub proof fn lemma_reorder_window(v: ChainView, i: u32)
    requires
        chain_ok(v),
        (i >= v.next && i - v.next <= MAX_SKIP) || v.cached.contains(i),
    ensures
        can_take(v, i),
{
}

/// While the cache has room, `fill` only appends the skipped indices.
proof fn lemma_fill_no_evict(s: Seq<u32>, from: nat, k: nat)
    requires
        s.len() + k <= MAX_CACHED_KEYS,
        from + k <= 0x1_0000_0000,
    ensures
        fill(s, from, k) == s + Seq::new(k, |t: int| (from + t) as u32),
    decreases k,
{
    if k > 0 {
        lemma_fill_no_evict(s, from, (k - 1) as nat);
        assert(s + Seq::new(k, |t: int| (from + t) as u32) =~= (s + Seq::new((k - 1) as nat, |t: int| (from + t) as u32)).push((from + k - 1) as u32));
    }
}

/// `without(s, x)` keeps every other entry of `s`.
proof fn lemma_without_keeps(s: Seq<u32>, x: u32, y: u32)
    requires
        s.contains(y),
        y != x,
    ensures
        without(s, x).contains(y),
    decreases s.len(),
{
    let r = without(s.drop_last(), x);
    if s.last() == y {
        assert(without(s, x) == r.push(y));
        assert(without(s, x)[r.len() as int] == y);
    } else {
        let j = choose|j: int| 0 <= j < s.len() && s[j] == y;
        assert(j != s.len() - 1);
        assert(s.drop_last()[j] == y);
        lemma_without_keeps(s.drop_last(), x, y);
        let t = choose|t: int| 0 <= t < r.len() && r[t] == y;
        if s.last() != x {
            assert(without(s, x)[t] == y);
        }
    }
}

/// Messages may arrive in any order: after the key of message `i` is
/// handed out, any other message that could be decrypted before still can,
/// provided the skipped keys fit the cache.
pub proof fn lemma_any_order(v: ChainView, i: u32, j: u32)
    requires
        chain_ok(v),
        can_take(v, i),
        can_take(v, j),
        j != i,
        i >= v.next ==> v.cached.len() + (i - v.next) <= MAX_CACHED_KEYS,
    ensures
        can_take(after_take(v, i), j),
{
    if i < v.next {
        if j < v.next {
            lemma_without_keeps(v.cached, i, j);
        }
    } else {
        lemma_fill_no_evict(v.cached, v.next, (i - v.next) as nat);
        let f = fill(v.cached, v.next, (i - v.next) as nat);
        if j < v.next {
            let t = choose|t: int| 0 <= t < v.cached.len() && v.cached[t] == j;
            assert(f[t] == j);
        } else if j < i {
            assert(f[v.cached.len() + (j - v.next)] == j);
        }
    }
}

/// The receiving side of a message chain. The key of each index is handed
/// out at most once; keys of skipped indices are kept, up to a bound, for
/// messages that arrive late.
pub struct ReceivingChain {
    base: Ghost<Seq<u8>>,
    chain_key: Vec<u8>,
    next: u64,
    skipped_index: Vec<u32>,
    skipped_key: Vec<Vec<u8>>,
}

impl View for ReceivingChain {
    type V = ChainView;

    closed spec fn view(&self) -> ChainView {
        ChainView { base: self.base@, next: self.next as nat, cached: self.skipped_index@ }
    }
}

impl ReceivingChain {
    /// The chain's internal invariant.
    pub closed spec fn wf(&self) -> bool {
        &&& self.chain_key@ == chain_key_at(self.base@, self.next as nat)
        &&& self.chain_key@.len() == KEY_LEN
        &&& self.next <= 0x1_0000_0000
        &&& self.skipped_index@.len() == self.skipped_key@.len()
        &&& self.skipped_index@.len() <= MAX_CACHED_KEYS
        &&& forall|j: int| 0 <= j < self.skipped_index@.len() ==>
            (#[trigger] self.skipped_key@[j])@ == message_key_at(self.base@, self.skipped_index@[j] as nat)
            && self.skipped_key@[j]@.len() == KEY_LEN
        &&& forall|y: u32| #[trigger] self.skipped_index@.contains(y) ==> y < self.next
    }

    /// A chain that starts at `chain_key` and expects index 0 first.
    pub fn new(chain_key: Vec<u8>) -> (r: Self)
        requires
            chain_key@.len() == KEY_LEN,
        ensures
            r.wf(),
            chain_ok(r@),
            r@ == (ChainView { base: chain_key@, next: 0, cached: Seq::empty() }),
    {
        let ghost b = chain_key@;
        let r = ReceivingChain {
            base: Ghost(b),
            chain_key,
            next: 0,
            skipped_index: Vec::new(),
            skipped_key: Vec::new(),
        };
        assert(r@.cached =~= Seq::<u32>::empty());
        r
    }

    /// The invariant as seen from outside.
    pub proof fn lemma_ok(&self)
        requires
            self.wf(),
        ensures
            chain_ok(self@),
    {
    }

    /// The next index the chain expects.
    pub fn next_index(&self) -> (r: u64)
        ensures
            r == self@.next,
    {
        self.next
    }

    /// How many skipped keys the chain holds.
    pub fn cached_count(&self) -> (r: usize)
        requires
            self.wf(),
        ensures
            r == self@.cached.len(),
    {
        self.skipped_index.len()
    }

    /// The key of message `index`, without using it up.
    pub fn message_key_for(&self, index: u32) -> (r: Result<Vec<u8>, CoreError>)
        requires
            self.wf(),
        ensures
            r is Ok == can_take(self@, index),
            r matches Ok(k) ==> k@ == message_key_at(self@.base, index as nat) && k@.len() == KEY_LEN,
            r matches Err(e) ==> e == take_error(self@, index),
    {
        if (index as u64) < self.next {
            let mut j: usize = 0;
            while j < self.skipped_index.len()
                invariant
                    self.wf(),
                    0 <= j <= self.skipped_index@.len(),
                    forall|t: int| 0 <= t < j ==> self.skipped_index@[t] != index,
                decreases self.skipped_index@.len() - j,
            {
                if self.skipped_index[j] == index {
                    let k = copy_bytes(&self.skipped_key[j]);
                    assert(self@.cached[j as int] == index);
                    assert(self@.cached.contains(index));
                    return Ok(k);
                }
                j = j + 1;
            }
            Err(CoreError::DuplicateOrTooOld)
        } else if index as u64 - self.next > MAX_SKIP as u64 {
            Err(CoreError::TooManySkippedMessages)
        } else {
            let mut ck = copy_bytes(&self.chain_key);
            let mut n: u64 = self.next;
            while n < index as u64
                invariant
                    self.wf(),
                    self.next <= n <= index,
                    ck@ == chain_key_at(self@.base, n as nat),
                    ck@.len() == KEY_LEN,
                decreases index - n,
            {
                let (_mk, nk) = chain_step(ck.as_slice());
                ck = nk;
                n = n + 1;
            }
            let (mk, _nk) = chain_step(ck.as_slice());
            Ok(mk)
        }
    }

    /// Uses up the key of message `index`: forgets it if it was cached, or
    /// moves the chain past it, caching the keys it skips.
    pub fn advance_past(&mut self, index: u32)
        requires
            old(self).wf(),
            can_take(old(self)@, index),
        ensures
            final(self).wf(),
            chain_ok(final(self)@),
            final(self)@ == after_take(old(self)@, index),
    {
        if (index as u64) < self.next {
            let ghost s = self.skipped_index@;
            let mut ni: Vec<u32> = Vec::new();
            let mut nk: Vec<Vec<u8>> = Vec::new();
            let mut j: usize = 0;
            while j < self.skipped_index.len()
                invariant
                    self.wf(),
                    self.skipped_index@ == s,
                    0 <= j <= s.len(),
                    ni@ == without(s.subrange(0, j as int), index),
                    ni@.len() == nk@.len(),
                    ni@.len() <= j,
                    forall|t: int| 0 <= t < ni@.len() ==>
                        (#[trigger] nk@[t])@ == message_key_at(self@.base, ni@[t] as nat)
                        && nk@[t]@.len() == KEY_LEN,
                    forall|y: u32| #[trigger] ni@.contains(y) ==> s.contains(y),
                decreases s.len() - j,
            {
                proof {
                    lemma_without_step(s, index, j as int);
                }
                if self.skipped_index[j] != index {
                    let ghost before = ni@;
                    ni.push(self.skipped_index[j]);
                    nk.push(copy_bytes(&self.skipped_key[j]));
                    proof {
                        assert forall|y: u32| #[trigger] ni@.contains(y) implies s.contains(y) by {
                            if !before.contains(y) {
                                assert(y == s[j as int]);
                            }
                        }
                    }
                }
                j = j + 1;
            }
            assert(s.subrange(0, s.len() as int) =~= s);
            self.skipped_index = ni;
            self.skipped_key = nk;
        } else {
            self.skip_to(index as u64);
            let (_mk, nk) = chain_step(self.chain_key.as_slice());
            self.chain_key = nk;
            self.next = self.next + 1;
        }
    }

    /// Moves the chain on to expect index `n`, caching the keys of the
    /// indices it skips (the oldest go first when the cache is full).
    pub fn skip_to(&mut self, n: u64)
        requires
            old(self).wf(),
            old(self)@.next <= n,
            n - old(self)@.next <= MAX_SKIP,
            n < 0x1_0000_0000,
        ensures
            final(self).wf(),
            chain_ok(final(self)@),
            final(self)@ == skipped_to(old(self)@, n as nat),
    {
        let index = n;
        let ghost s0 = self.skipped_index@;
        let ghost n0 = self.next as nat;
        while self.next < index
            invariant
                self.wf(),
                n0 <= self.next <= index,
                index < 0x1_0000_0000,
                self@.base == old(self)@.base,
                self.skipped_index@ == fill(s0, n0, (self.next - n0) as nat),
            decreases index - self.next,
        {
            let (mk, nk) = chain_step(self.chain_key.as_slice());
            let ghost before = self.skipped_index@;
            if self.skipped_index.len() >= MAX_CACHED_KEYS {
                self.skipped_index.remove(0);
                self.skipped_key.remove(0);
            }
            let ghost mid = self.skipped_index@;
            self.skipped_index.push(self.next as u32);
            self.skipped_key.push(mk);
            proof {
                let k = (self.next - n0) as nat;
                assert((n0 + (k + 1) - 1) as u32 == self.next as u32);
                assert(self.skipped_index@ =~= push_bounded(before, self.next as u32));
                assert forall|y: u32| #[trigger] self.skipped_index@.contains(y) implies y < self.next + 1 by {
                    let t = choose|t: int| 0 <= t < self.skipped_index@.len() && self.skipped_index@[t] == y;
                    if t < mid.len() {
                        if before.len() >= MAX_CACHED_KEYS {
                            assert(before[t + 1] == y);
                            assert(before.contains(y));
                        } else {
                            assert(before[t] == y);
                            assert(before.contains(y));
                        }
                    }
                }
            }
            self.chain_key = nk;
            self.next = self.next + 1;
        }
        proof {
            lemma_fill(s0, n0, (index - n0) as nat);
        }
    }
}

} // verus!
