//! Association lists keyed by text: the configuration's maps, looked up by
//! their first matching entry.
use vstd::prelude::*;

verus! {

/// `i` is the first index of `s` whose key is `k`.
pub open spec fn is_first_key<E, K>(s: Seq<E>, key_of: spec_fn(E) -> K, k: K, i: int) -> bool {
    &&& 0 <= i < s.len()
    &&& key_of(s[i]) == k
    &&& forall|j: int| 0 <= j < i ==> key_of(#[trigger] s[j]) != k
}

/// Some entry of `s` has key `k`.
pub open spec fn has_key<E, K>(s: Seq<E>, key_of: spec_fn(E) -> K, k: K) -> bool {
    exists|i: int| 0 <= i < s.len() && key_of(#[trigger] s[i]) == k
}

/// The index of the first entry of `s` with key `k` (meaningful when
/// `has_key(s, key_of, k)`).
pub open spec fn key_index<E, K>(s: Seq<E>, key_of: spec_fn(E) -> K, k: K) -> int {
    choose|i: int| is_first_key(s, key_of, k, i)
}

proof fn lemma_first_key_below<E, K>(s: Seq<E>, key_of: spec_fn(E) -> K, k: K, i: int)
    requires
        0 <= i < s.len(),
        key_of(s[i]) == k,
    ensures
        exists|j: int| is_first_key(s, key_of, k, j),
    decreases i,
{
    if exists|j: int| 0 <= j < i && key_of(#[trigger] s[j]) == k {
        let j = choose|j: int| 0 <= j < i && key_of(#[trigger] s[j]) == k;
        lemma_first_key_below(s, key_of, k, j);
    } else {
        assert(is_first_key(s, key_of, k, i));
    }
}

/// When a key is present, `key_index` is its first index.
pub proof fn lemma_key_index<E, K>(s: Seq<E>, key_of: spec_fn(E) -> K, k: K)
    requires
        has_key(s, key_of, k),
    ensures
        is_first_key(s, key_of, k, key_index(s, key_of, k)),
{
    let i = choose|i: int| 0 <= i < s.len() && key_of(#[trigger] s[i]) == k;
    lemma_first_key_below(s, key_of, k, i);
}

/// The first index with a given key is unique.
pub proof fn lemma_first_key_unique<E, K>(s: Seq<E>, key_of: spec_fn(E) -> K, k: K, i: int)
    requires
        is_first_key(s, key_of, k, i),
    ensures
        has_key(s, key_of, k),
        key_index(s, key_of, k) == i,
{
    assert(key_of(s[i]) == k);
    lemma_key_index(s, key_of, k);
    let c = key_index(s, key_of, k);
    if c < i {
        assert(key_of(s[c]) != k);
    } else if c > i {
        assert(key_of(s[i]) != k);
    }
}

/// `s` with `e` written under its key: the entry holding that key is
/// replaced in place, or `e` is appended when no entry holds it.
pub open spec fn upsert<E, K>(s: Seq<E>, key_of: spec_fn(E) -> K, e: E) -> Seq<E> {
    if has_key(s, key_of, key_of(e)) {
        s.update(key_index(s, key_of, key_of(e)), e)
    } else {
        s.push(e)
    }
}

/// The entries of `s` written one after another into an empty list: one
/// entry per key, at the position where the key first occurs, holding the
/// last entry written under it.
pub open spec fn upsert_all<E, K>(s: Seq<E>, key_of: spec_fn(E) -> K) -> Seq<E>
    decreases s.len(),
{
    if s.len() == 0 {
        seq![]
    } else {
        upsert(upsert_all(s.drop_last(), key_of), key_of, s.last())
    }
}

/// No two entries of `s` share a key.
pub open spec fn keys_distinct<E, K>(s: Seq<E>, key_of: spec_fn(E) -> K) -> bool {
    forall|i: int, j: int| 0 <= i < j < s.len() ==> key_of(#[trigger] s[i]) != key_of(#[trigger] s[j])
}

/// After `upsert`, the written key holds `e`, every other key holds what it
/// held before, and distinct keys stay distinct.
pub proof fn lemma_upsert<E, K>(s: Seq<E>, key_of: spec_fn(E) -> K, e: E)
    ensures
        has_key(upsert(s, key_of, e), key_of, key_of(e)),
        upsert(s, key_of, e)[key_index(upsert(s, key_of, e), key_of, key_of(e))] == e,
        forall|k: K| k != key_of(e) ==> (has_key(upsert(s, key_of, e), key_of, k) <==> has_key(s, key_of, k)),
        forall|k: K| k != key_of(e) && has_key(s, key_of, k) ==> upsert(s, key_of, e)[key_index(upsert(s, key_of, e), key_of, k)] == s[key_index(s, key_of, k)],
        keys_distinct(s, key_of) ==> keys_distinct(upsert(s, key_of, e), key_of),
{
    let t = upsert(s, key_of, e);
    let ke = key_of(e);
    if has_key(s, key_of, ke) {
        let i = key_index(s, key_of, ke);
        lemma_key_index(s, key_of, ke);
        assert(is_first_key(t, key_of, ke, i));
        lemma_first_key_unique(t, key_of, ke, i);
        assert forall|k: K| k != ke implies (has_key(t, key_of, k) <==> has_key(s, key_of, k)) by {
            if has_key(t, key_of, k) {
                let j = choose|j: int| 0 <= j < t.len() && key_of(#[trigger] t[j]) == k;
                assert(j != i);
                assert(s[j] == t[j]);
            }
            if has_key(s, key_of, k) {
                let j = choose|j: int| 0 <= j < s.len() && key_of(#[trigger] s[j]) == k;
                assert(j != i);
                assert(s[j] == t[j]);
            }
        }
        assert forall|k: K| k != ke && has_key(s, key_of, k) implies t[key_index(t, key_of, k)] == s[key_index(s, key_of, k)] by {
            lemma_key_index(s, key_of, k);
            let j = key_index(s, key_of, k);
            assert(j != i);
            assert(is_first_key(t, key_of, k, j));
            lemma_first_key_unique(t, key_of, k, j);
        }
    } else {
        let i = s.len() as int;
        assert(is_first_key(t, key_of, ke, i));
        lemma_first_key_unique(t, key_of, ke, i);
        assert forall|k: K| k != ke implies (has_key(t, key_of, k) <==> has_key(s, key_of, k)) by {
            if has_key(t, key_of, k) {
                let j = choose|j: int| 0 <= j < t.len() && key_of(#[trigger] t[j]) == k;
                assert(j < s.len());
                assert(s[j] == t[j]);
            }
            if has_key(s, key_of, k) {
                let j = choose|j: int| 0 <= j < s.len() && key_of(#[trigger] s[j]) == k;
                assert(s[j] == t[j]);
            }
        }
        assert forall|k: K| k != ke && has_key(s, key_of, k) implies t[key_index(t, key_of, k)] == s[key_index(s, key_of, k)] by {
            lemma_key_index(s, key_of, k);
            let j = key_index(s, key_of, k);
            assert(is_first_key(t, key_of, k, j));
            lemma_first_key_unique(t, key_of, k, j);
        }
    }
}

/// The list `upsert_all` builds has distinct keys.
pub proof fn lemma_upsert_all_distinct<E, K>(s: Seq<E>, key_of: spec_fn(E) -> K)
    ensures
        keys_distinct(upsert_all(s, key_of), key_of),
    decreases s.len(),
{
    if s.len() > 0 {
        lemma_upsert_all_distinct(s.drop_last(), key_of);
        lemma_upsert(upsert_all(s.drop_last(), key_of), key_of, s.last());
    }
}

/// Where no two entries share a key, each entry is the one found under its
/// key.
pub proof fn lemma_distinct_key_index<E, K>(s: Seq<E>, key_of: spec_fn(E) -> K, i: int)
    requires
        keys_distinct(s, key_of),
        0 <= i < s.len(),
    ensures
        has_key(s, key_of, key_of(s[i])),
        key_index(s, key_of, key_of(s[i])) == i,
{
    assert forall|j: int| 0 <= j < i implies key_of(#[trigger] s[j]) != key_of(s[i]) by {
        assert(key_of(s[j]) != key_of(s[i]));
    }
    assert(is_first_key(s, key_of, key_of(s[i]), i));
    lemma_first_key_unique(s, key_of, key_of(s[i]), i);
}

} // verus!
