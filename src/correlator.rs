use vstd::prelude::*;
use crate::bytes::{bytes_equal, copy_bytes};
use crate::tables::{has_key, lemma_without_key, lemma_without_key_step, without_key};

verus! {

/// An outstanding request: its identifier and the instant after which it has
/// timed out.
pub struct PendingRequest {
    pub id: Vec<u8>,
    pub deadline: u64,
}

/// The pending table as a sequence of (identifier, deadline) pairs.
pub type TableView = Seq<(Seq<u8>, u64)>;

/// The table with every entry whose deadline has passed at `now` taken out.
pub open spec fn live_at(t: TableView, now: u64) -> TableView
    decreases t.len(),
{
    if t.len() == 0 {
        t
    } else {
        let rest = live_at(t.drop_last(), now);
        if t.last().1 <= now {
            rest
        } else {
            rest.push(t.last())
        }
    }
}

/// The identifiers of the entries whose deadline has passed at `now`, in order.
pub open spec fn expired_at(t: TableView, now: u64) -> Seq<Seq<u8>>
    decreases t.len(),
{
    if t.len() == 0 {
        Seq::empty()
    } else {
        let rest = expired_at(t.drop_last(), now);
        if t.last().1 <= now {
            rest.push(t.last().0)
        } else {
            rest
        }
    }
}

proof fn lemma_live_step(t: TableView, now: u64, k: int)
    requires
        0 <= k < t.len(),
    ensures
        live_at(t.subrange(0, k + 1), now) == if t[k].1 <= now {
            live_at(t.subrange(0, k), now)
        } else {
            live_at(t.subrange(0, k), now).push(t[k])
        },
        expired_at(t.subrange(0, k + 1), now) == if t[k].1 <= now {
            expired_at(t.subrange(0, k), now).push(t[k].0)
        } else {
            expired_at(t.subrange(0, k), now)
        },
{
    assert(t.subrange(0, k + 1).drop_last() =~= t.subrange(0, k));
}

/// A request registered under a fresh identifier is resolved by the first
/// response that carries it and not by a second one; without a response it
/// times out once its deadline has passed.
pub proof fn lemma_resolves_once(t: TableView, id: Seq<u8>, deadline: u64, now: u64)
    requires
        !has_key(t, id),
    ensures
        has_key(t.push((id, deadline)), id),
        !has_key(without_key(t.push((id, deadline)), id), id),
        deadline <= now ==> expired_at(t.push((id, deadline)), now).contains(id),
        deadline <= now ==> !has_key(live_at(t.push((id, deadline)), now), id),
{
    let t2 = t.push((id, deadline));
    assert(t2[t.len() as int].0 == id);
    lemma_without_key(t2, id);
    assert(t2.drop_last() =~= t);
    if deadline <= now {
        assert(expired_at(t2, now) == expired_at(t, now).push(id));
        assert(expired_at(t2, now)[expired_at(t, now).len() as int] == id);
        lemma_live_sub(t, now);
        assert(live_at(t2, now) == live_at(t, now));
        if has_key(live_at(t, now), id) {
            let j = choose|j: int| 0 <= j < live_at(t, now).len() && (#[trigger] live_at(t, now)[j]).0 == id;
            let k = choose|k: int| 0 <= k < t.len() && t[k] == live_at(t, now)[j];
            assert(t[k].0 == id);
        }
    }
}

/// Entries of `live_at(t, now)` are entries of `t`.
pub proof fn lemma_live_sub(t: TableView, now: u64)
    ensures
        forall|i: int| 0 <= i < live_at(t, now).len() ==> t.contains(#[trigger] live_at(t, now)[i]),
    decreases t.len(),
{
    if t.len() > 0 {
        lemma_live_sub(t.drop_last(), now);
        let r = live_at(t.drop_last(), now);
        assert forall|i: int| 0 <= i < live_at(t, now).len() implies t.contains(#[trigger] live_at(t, now)[i]) by {
            if i < r.len() {
                assert(t.drop_last().contains(r[i]));
                let j = choose|j: int| 0 <= j < t.drop_last().len() && t.drop_last()[j] == r[i];
                assert(t[j] == r[i]);
            } else {
                assert(t[t.len() - 1] == t.last());
            }
        }
    }
}

/// Tracks outstanding requests by caller-chosen identifier.
pub struct RequestCorrelator {
    pending: Vec<PendingRequest>,
}

impl View for RequestCorrelator {
    type V = TableView;

    closed spec fn view(&self) -> TableView {
        self.pending@.map_values(|p: PendingRequest| (p.id@, p.deadline))
    }
}

impl RequestCorrelator {
    pub fn new() -> (r: Self)
        ensures
            r@ == Seq::<(Seq<u8>, u64)>::empty(),
    {
        let r = RequestCorrelator { pending: Vec::new() };
        assert(r@ =~= Seq::<(Seq<u8>, u64)>::empty());
        r
    }

    pub fn len(&self) -> (r: usize)
        ensures
            r == self@.len(),
    {
        self.pending.len()
    }

    /// Whether a request with identifier `id` is outstanding.
    pub fn is_pending(&self, id: &[u8]) -> (r: bool)
        ensures
            r == has_key(self@, id@),
    {
        let mut i: usize = 0;
        while i < self.pending.len()
            invariant
                0 <= i <= self.pending@.len(),
                forall|j: int| 0 <= j < i ==> (#[trigger] self@[j]).0 != id@,
            decreases self.pending@.len() - i,
        {
            if bytes_equal(self.pending[i].id.as_slice(), id) {
                assert(self@[i as int].0 == id@);
                return true;
            }
            i = i + 1;
        }
        false
    }

    /// Registers a request. The identifier must not be outstanding already.
    pub fn send(&mut self, id: Vec<u8>, deadline: u64)
        requires
            !has_key(old(self)@, id@),
        ensures
            final(self)@ == old(self)@.push((id@, deadline)),
    {
        let ghost idv = id@;
        self.pending.push(PendingRequest { id, deadline });
        assert(self@ =~= old(self)@.push((idv, deadline)));
    }

    /// Takes out the entry of identifier `id`, if any; returns whether there
    /// was one.
    fn take(&mut self, id: &[u8]) -> (r: bool)
        ensures
            r == has_key(old(self)@, id@),
            final(self)@ == without_key(old(self)@, id@),
    {
        let ghost t = self@;
        let mut kept: Vec<PendingRequest> = Vec::new();
        let mut found = false;
        let mut i: usize = 0;
        while i < self.pending.len()
            invariant
                self@ == t,
                0 <= i <= t.len(),
                kept@.map_values(|p: PendingRequest| (p.id@, p.deadline)) == without_key(t.subrange(0, i as int), id@),
                found == has_key(t.subrange(0, i as int), id@),
            decreases t.len() - i,
        {
            proof {
                lemma_without_key_step(t, id@, i as int);
            }
            let ghost before = kept@;
            let same = bytes_equal(self.pending[i].id.as_slice(), id);
            assert(t[i as int] == (self.pending@[i as int].id@, self.pending@[i as int].deadline));
            if same {
                assert(t.subrange(0, i + 1)[i as int].0 == id@);
            } else {
                let c = copy_bytes(&self.pending[i].id);
                kept.push(PendingRequest { id: c, deadline: self.pending[i].deadline });
                assert(kept@.map_values(|p: PendingRequest| (p.id@, p.deadline))
                    =~= before.map_values(|p: PendingRequest| (p.id@, p.deadline)).push(t[i as int]));
            }
            assert(has_key(t.subrange(0, i + 1), id@) == (found || same)) by {
                if has_key(t.subrange(0, i + 1), id@) && !same {
                    let j = choose|j: int| 0 <= j < i + 1 && (#[trigger] t.subrange(0, i + 1)[j]).0 == id@;
                    assert(t.subrange(0, i as int)[j].0 == id@);
                }
                if found {
                    let j = choose|j: int| 0 <= j < i && (#[trigger] t.subrange(0, i as int)[j]).0 == id@;
                    assert(t.subrange(0, i + 1)[j].0 == id@);
                }
                if same {
                    assert(t.subrange(0, i + 1)[i as int].0 == id@);
                }
            }
            found = found || same;
            i = i + 1;
        }
        assert(t.subrange(0, t.len() as int) =~= t);
        self.pending = kept;
        found
    }

    /// Delivers a response: resolves and removes the outstanding request of
    /// the same identifier. Returns whether one was resolved; a response that
    /// matches nothing is ignored.
    pub fn on_incoming(&mut self, id: &[u8]) -> (r: bool)
        ensures
            r == has_key(old(self)@, id@),
            final(self)@ == without_key(old(self)@, id@),
    {
        self.take(id)
    }

    /// Takes out every request whose deadline has passed at `now` and
    /// returns their identifiers, in the order they were sent: each of them
    /// has failed with a timeout.
    pub fn expire(&mut self, now: u64) -> (r: Vec<Vec<u8>>)
        ensures
            r@.map_values(|v: Vec<u8>| v@) == expired_at(old(self)@, now),
            final(self)@ == live_at(old(self)@, now),
    {
        let ghost t = self@;
        let mut kept: Vec<PendingRequest> = Vec::new();
        let mut gone: Vec<Vec<u8>> = Vec::new();
        let mut i: usize = 0;
        while i < self.pending.len()
            invariant
                self@ == t,
                0 <= i <= t.len(),
                kept@.map_values(|p: PendingRequest| (p.id@, p.deadline)) == live_at(t.subrange(0, i as int), now),
                gone@.map_values(|v: Vec<u8>| v@) == expired_at(t.subrange(0, i as int), now),
            decreases t.len() - i,
        {
            proof {
                lemma_live_step(t, now, i as int);
            }
            let ghost kb = kept@;
            let ghost gb = gone@;
            assert(t[i as int] == (self.pending@[i as int].id@, self.pending@[i as int].deadline));
            let c = copy_bytes(&self.pending[i].id);
            if self.pending[i].deadline <= now {
                gone.push(c);
                assert(gone@.map_values(|v: Vec<u8>| v@) =~= gb.map_values(|v: Vec<u8>| v@).push(t[i as int].0));
            } else {
                kept.push(PendingRequest { id: c, deadline: self.pending[i].deadline });
                assert(kept@.map_values(|p: PendingRequest| (p.id@, p.deadline))
                    =~= kb.map_values(|p: PendingRequest| (p.id@, p.deadline)).push(t[i as int]));
            }
            i = i + 1;
        }
        assert(t.subrange(0, t.len() as int) =~= t);
        self.pending = kept;
        gone
    }

    /// Cancels an outstanding request. Returns whether one was cancelled.
    pub fn cancel(&mut self, id: &[u8]) -> (r: bool)
        ensures
            r == has_key(old(self)@, id@),
            final(self)@ == without_key(old(self)@, id@),
    {
        self.take(id)
    }
}

} // verus!
