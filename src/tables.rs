use vstd::prelude::*;

verus! {

/// Whether some entry of `t` has key `k`.
pub open spec fn has_key<K, V>(t: Seq<(K, V)>, k: K) -> bool {
    exists|i: int| 0 <= i < t.len() && (#[trigger] t[i]).0 == k
}

/// The entries of `t` whose key is not `k`, in order.
pub open spec fn without_key<K, V>(t: Seq<(K, V)>, k: K) -> Seq<(K, V)>
    decreases t.len(),
{
    if t.len() == 0 {
        t
    } else {
        let rest = without_key(t.drop_last(), k);
        if t.last().0 == k {
            rest
        } else {
            rest.push(t.last())
        }
    }
}

/// `without_key` over a prefix grows by one entry at a time.
pub proof fn lemma_without_key_step<K, V>(t: Seq<(K, V)>, k: K, i: int)
    requires
        0 <= i < t.len(),
    ensures
        without_key(t.subrange(0, i + 1), k) == if t[i].0 == k {
            without_key(t.subrange(0, i), k)
        } else {
            without_key(t.subrange(0, i), k).push(t[i])
        },
{
    assert(t.subrange(0, i + 1).drop_last() =~= t.subrange(0, i));
}

/// What `without_key` keeps lies in `t` and has another key.
pub proof fn lemma_without_key<K, V>(t: Seq<(K, V)>, k: K)
    ensures
        forall|i: int| 0 <= i < without_key(t, k).len() ==> (#[trigger] without_key(t, k)[i]).0 != k
            && t.contains(without_key(t, k)[i]),
        !has_key(without_key(t, k), k),
        without_key(t, k).len() <= t.len(),
    decreases t.len(),
{
    if t.len() > 0 {
        lemma_without_key(t.drop_last(), k);
        let r = without_key(t.drop_last(), k);
        assert forall|i: int| 0 <= i < without_key(t, k).len() implies (#[trigger] without_key(t, k)[i]).0 != k
            && t.contains(without_key(t, k)[i]) by {
            if i < r.len() {
                assert(t.drop_last().contains(r[i]));
                let j = choose|j: int| 0 <= j < t.drop_last().len() && t.drop_last()[j] == r[i];
                assert(t[j] == r[i]);
            } else {
                assert(t[t.len() - 1] == t.last());
            }
        }
    }
}

/// Without an entry of key `k`, `without_key` changes nothing.
pub proof fn lemma_without_key_absent<K, V>(t: Seq<(K, V)>, k: K)
    requires
        !has_key(t, k),
    ensures
        without_key(t, k) == t,
    decreases t.len(),
{
    if t.len() > 0 {
        assert(!has_key(t.drop_last(), k)) by {
            if has_key(t.drop_last(), k) {
                let j = choose|j: int| 0 <= j < t.drop_last().len() && (#[trigger] t.drop_last()[j]).0 == k;
                assert(t[j].0 == k);
            }
        }
        lemma_without_key_absent(t.drop_last(), k);
        assert(t.last() == t[t.len() - 1]);
        assert(t.drop_last().push(t.last()) =~= t);
    }
}

} // verus!
