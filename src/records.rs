use vstd::prelude::*;
use crate::bytes::bytes_equal;
use crate::group::GroupReceiver;
use crate::ratchet::RatchetSession;

verus! {

/// Records keyed by byte strings, each satisfying the store's record
/// invariant: per-peer sessions, per-(group, sender) sender keys.
#[verifier::reject_recursive_types(T)]
pub struct RecordStore<T> {
    keys: Vec<Vec<u8>>,
    records: Vec<T>,
    model: Ghost<Map<Seq<u8>, T>>,
    inv: Ghost<spec_fn(T) -> bool>,
}

impl<T> View for RecordStore<T> {
    type V = Map<Seq<u8>, T>;

    closed spec fn view(&self) -> Map<Seq<u8>, T> {
        self.model@
    }
}

/// The key of the sender key of `sender` in `group`: the group's length in
/// four bytes, the group, then the sender.
pub open spec fn sender_key_id(group: Seq<u8>, sender: Seq<u8>) -> Seq<u8> {
    seq![((group.len() / 0x100_0000) % 0x100) as u8, ((group.len() / 0x1_0000) % 0x100) as u8,
        ((group.len() / 0x100) % 0x100) as u8, (group.len() % 0x100) as u8] + group + sender
}

/// The key under which the sender key of `sender` in `group` is stored.
pub fn sender_key_id_bytes(group: &[u8], sender: &[u8]) -> (r: Vec<u8>)
    ensures
        r@ == sender_key_id(group@, sender@),
{
    let n = group.len();
    let mut v: Vec<u8> = vec![((n / 0x100_0000) % 0x100) as u8, ((n / 0x1_0000) % 0x100) as u8,
        ((n / 0x100) % 0x100) as u8, (n % 0x100) as u8];
    let ghost start = v@;
    let mut i: usize = 0;
    while i < group.len()
        invariant
            0 <= i <= group@.len(),
            v@ == start + group@.subrange(0, i as int),
        decreases group@.len() - i,
    {
        v.push(group[i]);
        i = i + 1;
        assert(v@ =~= start + group@.subrange(0, i as int));
    }
    assert(group@.subrange(0, group@.len() as int) =~= group@);
    let ghost mid = v@;
    let mut j: usize = 0;
    while j < sender.len()
        invariant
            0 <= j <= sender@.len(),
            v@ == mid + sender@.subrange(0, j as int),
        decreases sender@.len() - j,
    {
        v.push(sender[j]);
        j = j + 1;
        assert(v@ =~= mid + sender@.subrange(0, j as int));
    }
    assert(sender@.subrange(0, sender@.len() as int) =~= sender@);
    assert(v@ =~= sender_key_id(group@, sender@));
    v
}

impl<T> RecordStore<T> {
    /// Whether `x` satisfies the store's record invariant.
    pub closed spec fn holds(&self, x: T) -> bool {
        (self.inv@)(x)
    }

    pub closed spec fn wf(&self) -> bool {
        &&& self.keys@.len() == self.records@.len()
        &&& forall|i: int, j: int| 0 <= i < j < self.keys@.len() ==> (#[trigger] self.keys@[i])@ != (#[trigger] self.keys@[j])@
        &&& forall|i: int| 0 <= i < self.keys@.len() ==> self.model@.contains_key((#[trigger] self.keys@[i])@)
            && self.model@[self.keys@[i]@] == self.records@[i] && (self.inv@)(self.records@[i])
        &&& forall|k: Seq<u8>| #[trigger] self.model@.contains_key(k) ==> exists|i: int| 0 <= i < self.keys@.len() && (#[trigger] self.keys@[i])@ == k
    }

    fn find(&self, key: &[u8]) -> (r: Option<usize>)
        requires
            self.wf(),
        ensures
            r is None == !self@.contains_key(key@),
            r matches Some(i) ==> i < self.keys@.len() && self.keys@[i as int]@ == key@,
    {
        let mut i: usize = 0;
        while i < self.keys.len()
            invariant
                self.wf(),
                0 <= i <= self.keys@.len(),
                forall|j: int| 0 <= j < i ==> (#[trigger] self.keys@[j])@ != key@,
            decreases self.keys@.len() - i,
        {
            if bytes_equal(self.keys[i].as_slice(), key) {
                return Some(i);
            }
            i = i + 1;
        }
        None
    }

    /// Whether a record is stored under `key`.
    pub fn contains(&self, key: &[u8]) -> (r: bool)
        requires
            self.wf(),
        ensures
            r == self@.contains_key(key@),
    {
        self.find(key).is_some()
    }

    /// Takes the record stored under `key` out of the store.
    pub fn take(&mut self, key: &[u8]) -> (r: Option<T>)
        requires
            old(self).wf(),
        ensures
            final(self).wf(),
            forall|x: T| final(self).holds(x) == old(self).holds(x),
            r is Some == old(self)@.contains_key(key@),
            r matches Some(x) ==> x == old(self)@[key@] && old(self).holds(x),
            final(self)@ == old(self)@.remove(key@),
    {
        match self.find(key) {
            None => {
                assert(self@ =~= old(self)@.remove(key@));
                None
            },
            Some(i) => {
                let ghost ok = old(self).keys@;
                let ghost orec = old(self).records@;
                self.keys.remove(i);
                let x = self.records.remove(i);
                self.model = Ghost(self.model@.remove(key@));
                assert forall|a: int| 0 <= a < self.keys@.len() implies self.model@.contains_key((#[trigger] self.keys@[a])@)
                    && self.model@[self.keys@[a]@] == self.records@[a] && (self.inv@)(self.records@[a]) by {
                    let b = if a < i { a } else { a + 1 };
                    assert(self.keys@[a] == ok[b]);
                    assert(self.records@[a] == orec[b]);
                    assert(ok[b]@ != key@);
                }
                assert forall|k: Seq<u8>| #[trigger] self.model@.contains_key(k) implies exists|a: int| 0 <= a < self.keys@.len() && (#[trigger] self.keys@[a])@ == k by {
                    let b = choose|b: int| 0 <= b < ok.len() && (#[trigger] ok[b])@ == k;
                    assert(b != i);
                    let a = if b < i { b } else { b - 1 };
                    assert(self.keys@[a] == ok[b]);
                }
                assert forall|a: int, c: int| 0 <= a < c < self.keys@.len() implies (#[trigger] self.keys@[a])@ != (#[trigger] self.keys@[c])@ by {
                    let a2 = if a < i { a } else { a + 1 };
                    let c2 = if c < i { c } else { c + 1 };
                    assert(self.keys@[a] == ok[a2]);
                    assert(self.keys@[c] == ok[c2]);
                }
                Some(x)
            },
        }
    }

    /// Stores `value` under `key`, replacing any earlier record.
    pub fn put(&mut self, key: Vec<u8>, value: T)
        requires
            old(self).wf(),
            old(self).holds(value),
        ensures
            final(self).wf(),
            forall|x: T| final(self).holds(x) == old(self).holds(x),
            final(self)@ == old(self)@.insert(key@, value),
    {
        let _ = self.take(key.as_slice());
        let ghost mid = self@;
        let ghost ok = self.keys@;
        let ghost kv = key@;
        self.keys.push(key);
        self.records.push(value);
        self.model = Ghost(self.model@.insert(kv, value));
        let n = self.keys.len() - 1;
        assert forall|a: int| 0 <= a < self.keys@.len() implies self.model@.contains_key((#[trigger] self.keys@[a])@)
            && self.model@[self.keys@[a]@] == self.records@[a] && (self.inv@)(self.records@[a]) by {
            if a < n {
                assert(self.keys@[a] == ok[a]);
                assert(mid.contains_key(ok[a]@));
            }
        }
        assert forall|k: Seq<u8>| #[trigger] self.model@.contains_key(k) implies exists|a: int| 0 <= a < self.keys@.len() && (#[trigger] self.keys@[a])@ == k by {
            if k == kv {
                assert(self.keys@[n as int]@ == k);
            } else {
                let b = choose|b: int| 0 <= b < ok.len() && (#[trigger] ok[b])@ == k;
                assert(self.keys@[b] == ok[b]);
            }
        }
        assert forall|a: int, c: int| 0 <= a < c < self.keys@.len() implies (#[trigger] self.keys@[a])@ != (#[trigger] self.keys@[c])@ by {
            if c == n {
                assert(self.keys@[a] == ok[a]);
                assert(mid.contains_key(ok[a]@));
            } else {
                assert(self.keys@[a] == ok[a]);
                assert(self.keys@[c] == ok[c]);
            }
        }
        assert(self@ =~= old(self)@.insert(kv, value));
    }
}

impl RecordStore<RatchetSession> {
    /// An empty store of pairwise sessions, keyed by peer.
    pub fn new_sessions() -> (r: Self)
        ensures
            r.wf(),
            r@ == Map::<Seq<u8>, RatchetSession>::empty(),
            forall|s: RatchetSession| r.holds(s) == s.wf(),
    {
        RecordStore { keys: Vec::new(), records: Vec::new(), model: Ghost(Map::empty()), inv: Ghost(|s: RatchetSession| s.wf()) }
    }
}

impl RecordStore<GroupReceiver> {
    /// An empty store of sender keys, keyed by `sender_key_id`.
    pub fn new_sender_keys() -> (r: Self)
        ensures
            r.wf(),
            r@ == Map::<Seq<u8>, GroupReceiver>::empty(),
            forall|s: GroupReceiver| r.holds(s) == s.wf(),
    {
        RecordStore { keys: Vec::new(), records: Vec::new(), model: Ghost(Map::empty()), inv: Ghost(|s: GroupReceiver| s.wf()) }
    }
}

} // verus!
