//! Lookup in a sequence of entries keyed by public key, where the latest entry wins.
use vstd::prelude::*;

verus! {

/// The value of the latest entry with key `k`; `None` where there is none.
pub open spec fn lookup<V>(s: Seq<(Seq<u8>, V)>, k: Seq<u8>) -> Option<V>
    decreases s.len(),
{
    if s.len() == 0 {
        None
    } else if s.last().0 == k {
        Some(s.last().1)
    } else {
        lookup(s.drop_last(), k)
    }
}

/// Keys are unique.
pub open spec fn keys_unique<V>(s: Seq<(Seq<u8>, V)>) -> bool {
    forall|a: int, b: int| 0 <= a < b < s.len() ==> (#[trigger] s[a]).0 != (#[trigger] s[b]).0
}

pub proof fn lemma_lookup_at<V>(s: Seq<(Seq<u8>, V)>, i: int)
    requires
        0 <= i < s.len(),
        keys_unique(s),
    ensures
        lookup(s, s[i].0) == Some(s[i].1),
    decreases s.len(),
{
    if i < s.len() - 1 {
        assert(s[s.len() - 1].0 != s[i].0);
        assert(s.drop_last()[i] == s[i]);
        lemma_lookup_at(s.drop_last(), i);
    }
}

pub proof fn lemma_lookup_absent<V>(s: Seq<(Seq<u8>, V)>, k: Seq<u8>)
    requires
        forall|j: int| 0 <= j < s.len() ==> (#[trigger] s[j]).0 != k,
    ensures
        lookup(s, k) is None,
    decreases s.len(),
{
    if s.len() > 0 {
        assert(s[s.len() - 1].0 != k);
        lemma_lookup_absent(s.drop_last(), k);
    }
}

/// Setting the entry at `i`, whose key is `k`, to `v` changes the lookup of `k` alone.
pub proof fn lemma_lookup_update<V>(s: Seq<(Seq<u8>, V)>, i: int, k: Seq<u8>, v: V)
    requires
        0 <= i < s.len(),
        s[i].0 == k,
        keys_unique(s),
    ensures
        keys_unique(s.update(i, (k, v))),
        lookup(s.update(i, (k, v)), k) == Some(v),
        forall|w: Seq<u8>| w != k ==> lookup(s.update(i, (k, v)), w) == lookup(s, w),
    decreases s.len(),
{
    let u = s.update(i, (k, v));
    assert forall|a: int, b: int| 0 <= a < b < u.len() implies (#[trigger] u[a]).0 != (
    #[trigger] u[b]).0 by {
        assert(s[a].0 != s[b].0);
    }
    lemma_lookup_at(u, i);
    if i == s.len() - 1 {
        assert(u.drop_last() =~= s.drop_last());
        assert forall|w: Seq<u8>| w != k implies lookup(u, w) == lookup(s, w) by {
            assert(u.last().0 == k && s.last().0 == k);
        }
    } else {
        assert(s.drop_last()[i] == s[i]);
        lemma_lookup_update(s.drop_last(), i, k, v);
        assert(u.drop_last() =~= s.drop_last().update(i, (k, v)));
        assert forall|w: Seq<u8>| w != k implies lookup(u, w) == lookup(s, w) by {
            assert(u.last() == s.last());
            assert(lookup(s.drop_last().update(i, (k, v)), w) == lookup(s.drop_last(), w));
        }
    }
}

/// Adding an entry for a key not yet present changes the lookup of that key alone.
pub proof fn lemma_lookup_push<V>(s: Seq<(Seq<u8>, V)>, k: Seq<u8>, v: V)
    requires
        keys_unique(s),
        forall|j: int| 0 <= j < s.len() ==> (#[trigger] s[j]).0 != k,
    ensures
        keys_unique(s.push((k, v))),
        lookup(s.push((k, v)), k) == Some(v),
        forall|w: Seq<u8>| w != k ==> lookup(s.push((k, v)), w) == lookup(s, w),
{
    let u = s.push((k, v));
    assert(u.drop_last() =~= s);
    assert forall|a: int, b: int| 0 <= a < b < u.len() implies (#[trigger] u[a]).0 != (
    #[trigger] u[b]).0 by {
        if b == s.len() {
            assert(u[a] == s[a]);
        } else {
            assert(u[a] == s[a] && u[b] == s[b]);
        }
    }
}

} // verus!
