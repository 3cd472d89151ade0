//! Stable sorting of vectors under a total preorder.
use vstd::prelude::*;
use crate::text::{lemma_text_le_reflexive, lemma_text_le_total, lemma_text_le_transitive, str_le, text_le};

verus! {

/// `p` witnesses that `r` is `s` stably sorted by `le`: `r[k]` is `s[p[k]]`,
/// `p` picks each index of `s` at most once, `r` is ordered by `le`, and
/// elements that `le` ranks alike keep their order from `s`.
pub open spec fn is_sort_witness<A>(r: Seq<A>, s: Seq<A>, le: spec_fn(A, A) -> bool, p: Seq<int>) -> bool {
    &&& p.len() == r.len()
    &&& forall|k: int| 0 <= k < p.len() ==> 0 <= #[trigger] p[k] < s.len() && r[k] == s[p[k]]
    &&& forall|k1: int, k2: int| 0 <= k1 < k2 < p.len() ==> #[trigger] p[k1] != #[trigger] p[k2]
    &&& forall|k1: int, k2: int| 0 <= k1 < k2 < r.len() ==> le(#[trigger] r[k1], #[trigger] r[k2])
    &&& forall|k1: int, k2: int|
        0 <= k1 < k2 < r.len() && le(#[trigger] r[k2], #[trigger] r[k1]) ==> p[k1] < p[k2]
}

/// `r` is the stable sort of `s` by `le`.
pub open spec fn is_stable_sort<A>(r: Seq<A>, s: Seq<A>, le: spec_fn(A, A) -> bool) -> bool {
    &&& r.len() == s.len()
    &&& exists|p: Seq<int>| #[trigger] is_sort_witness(r, s, le, p)
}

/// `le` is a total preorder.
pub open spec fn total_preorder<A>(le: spec_fn(A, A) -> bool) -> bool {
    &&& forall|a: A| #[trigger] le(a, a)
    &&& forall|a: A, b: A, c: A| #[trigger] le(a, b) && #[trigger] le(b, c) ==> le(a, c)
    &&& forall|a: A, b: A| #[trigger] le(a, b) || #[trigger] le(b, a)
}

/// Mapping both sides of a stable sort through `f` gives a stable sort of the
/// images, when `f` preserves the order.
pub proof fn lemma_stable_sort_map<A, B>(
    r: Seq<A>,
    s: Seq<A>,
    le_a: spec_fn(A, A) -> bool,
    f: spec_fn(A) -> B,
    le_b: spec_fn(B, B) -> bool,
)
    requires
        is_stable_sort(r, s, le_a),
        forall|x: A, y: A| #[trigger] le_a(x, y) == le_b(f(x), f(y)),
    ensures
        is_stable_sort(r.map_values(f), s.map_values(f), le_b),
{
    let p = choose|p: Seq<int>| #[trigger] is_sort_witness(r, s, le_a, p);
    let rm = r.map_values(f);
    let sm = s.map_values(f);
    assert forall|k1: int, k2: int| 0 <= k1 < k2 < rm.len() implies le_b(#[trigger] rm[k1], #[trigger] rm[k2]) by {
        assert(le_a(r[k1], r[k2]));
    }
    assert forall|k1: int, k2: int| 0 <= k1 < k2 < rm.len() && le_b(#[trigger] rm[k2], #[trigger] rm[k1]) implies p[k1] < p[k2] by {
        assert(le_a(r[k2], r[k1]));
    }
    assert forall|k: int| 0 <= k < p.len() implies 0 <= #[trigger] p[k] < sm.len() && rm[k] == sm[p[k]] by {
    }
    assert(is_sort_witness(rm, sm, le_b, p));
}

/// Every element of a stable sort comes from the sorted sequence.
pub proof fn lemma_sorted_elements<A>(r: Seq<A>, s: Seq<A>, le: spec_fn(A, A) -> bool)
    requires
        is_stable_sort(r, s, le),
    ensures
        forall|k: int| 0 <= k < r.len() ==> s.contains(#[trigger] r[k]),
{
    let p = choose|p: Seq<int>| #[trigger] is_sort_witness(r, s, le, p);
    assert forall|k: int| 0 <= k < r.len() implies s.contains(#[trigger] r[k]) by {
        let j = p[k];
        assert(0 <= j < s.len());
        assert(r[k] == s[j]);
    }
}

/// `e` inserted into `out` before the first element it ranks at or before.
pub open spec fn insert_sorted<A>(out: Seq<A>, e: A, le: spec_fn(A, A) -> bool) -> Seq<A>
    decreases out.len(),
{
    if out.len() == 0 {
        seq![e]
    } else if le(e, out[0]) {
        seq![e] + out
    } else {
        seq![out[0]] + insert_sorted(out.drop_first(), e, le)
    }
}

/// `s` sorted by inserting its elements, last first, each before the first
/// element it ranks at or before: the stable sort of `s` by `le`, as one
/// definite sequence.
pub open spec fn insertion_sort<A>(s: Seq<A>, le: spec_fn(A, A) -> bool) -> Seq<A>
    decreases s.len(),
{
    if s.len() == 0 {
        seq![]
    } else {
        insert_sorted(insertion_sort(s.drop_first(), le), s[0], le)
    }
}

/// Inserting at the first position whose element `e` ranks at or before is
/// `insert_sorted`.
proof fn lemma_insert_at_first<A>(out: Seq<A>, e: A, le: spec_fn(A, A) -> bool, pos: int)
    requires
        0 <= pos <= out.len(),
        forall|j: int| 0 <= j < pos ==> !le(e, #[trigger] out[j]),
        pos < out.len() ==> le(e, out[pos]),
    ensures
        insert_sorted(out, e, le) == out.insert(pos, e),
    decreases pos,
{
    if pos == 0 {
        if out.len() == 0 {
            assert(out.insert(0, e) =~= seq![e]);
        } else {
            assert(out.insert(0, e) =~= seq![e] + out);
        }
    } else {
        assert(!le(e, out[0]));
        let rest = out.drop_first();
        assert forall|j: int| 0 <= j < pos - 1 implies !le(e, #[trigger] rest[j]) by {
            assert(rest[j] == out[j + 1]);
        }
        if pos - 1 < rest.len() {
            assert(rest[pos - 1] == out[pos]);
        }
        lemma_insert_at_first(rest, e, le, pos - 1);
        assert(out.insert(pos, e) =~= seq![out[0]] + rest.insert(pos - 1, e));
    }
}

/// Mapping through an order-preserving `f` commutes with `insert_sorted`.
proof fn lemma_insert_sorted_map<A, B>(out: Seq<A>, e: A, le_a: spec_fn(A, A) -> bool, f: spec_fn(A) -> B, le_b: spec_fn(B, B) -> bool)
    requires
        forall|x: A, y: A| #[trigger] le_a(x, y) == le_b(f(x), f(y)),
    ensures
        insert_sorted(out, e, le_a).map_values(f) == insert_sorted(out.map_values(f), f(e), le_b),
    decreases out.len(),
{
    let om = out.map_values(f);
    if out.len() == 0 {
        assert(insert_sorted(out, e, le_a).map_values(f) =~= seq![f(e)]);
    } else {
        assert(om[0] == f(out[0]));
        assert(le_a(e, out[0]) == le_b(f(e), om[0]));
        if le_a(e, out[0]) {
            assert((seq![e] + out).map_values(f) =~= seq![f(e)] + om);
        } else {
            lemma_insert_sorted_map(out.drop_first(), e, le_a, f, le_b);
            assert(out.drop_first().map_values(f) =~= om.drop_first());
            assert((seq![out[0]] + insert_sorted(out.drop_first(), e, le_a)).map_values(f)
                =~= seq![om[0]] + insert_sorted(out.drop_first(), e, le_a).map_values(f));
        }
    }
}

/// Mapping through an order-preserving `f` commutes with `insertion_sort`.
pub proof fn lemma_insertion_sort_map<A, B>(s: Seq<A>, le_a: spec_fn(A, A) -> bool, f: spec_fn(A) -> B, le_b: spec_fn(B, B) -> bool)
    requires
        forall|x: A, y: A| #[trigger] le_a(x, y) == le_b(f(x), f(y)),
    ensures
        insertion_sort(s, le_a).map_values(f) == insertion_sort(s.map_values(f), le_b),
    decreases s.len(),
{
    if s.len() > 0 {
        lemma_insertion_sort_map(s.drop_first(), le_a, f, le_b);
        assert(s.drop_first().map_values(f) =~= s.map_values(f).drop_first());
        lemma_insert_sorted_map(insertion_sort(s.drop_first(), le_a), s[0], le_a, f, le_b);
    } else {
        assert(s.map_values(f) =~= Seq::<B>::empty());
    }
}

/// Ranks by `key`, highest first.
pub open spec fn by_key_desc<A>(key: spec_fn(A) -> int) -> spec_fn(A, A) -> bool {
    |a: A, b: A| key(b) <= key(a)
}

/// `i` is the first of the elements of `s` satisfying `p` whose key is
/// highest.
pub open spec fn is_first_max<A>(s: Seq<A>, key: spec_fn(A) -> int, p: spec_fn(A) -> bool, i: int) -> bool {
    &&& 0 <= i < s.len()
    &&& p(s[i])
    &&& forall|j: int| 0 <= j < s.len() && p(#[trigger] s[j]) ==> key(s[j]) <= key(s[i])
    &&& forall|j: int| 0 <= j < i && p(#[trigger] s[j]) ==> key(s[j]) < key(s[i])
}

/// `k` is the first position of `s` whose element satisfies `p`.
pub open spec fn is_first_with<A>(s: Seq<A>, p: spec_fn(A) -> bool, k: int) -> bool {
    &&& 0 <= k < s.len()
    &&& p(s[k])
    &&& forall|j: int| 0 <= j < k ==> !p(#[trigger] s[j])
}

/// Where `insert_sorted` puts `e`.
proof fn lemma_insert_position<A>(out: Seq<A>, e: A, le: spec_fn(A, A) -> bool) -> (q: int)
    ensures
        0 <= q <= out.len(),
        forall|j: int| 0 <= j < q ==> !le(e, #[trigger] out[j]),
        q < out.len() ==> le(e, out[q]),
        insert_sorted(out, e, le) == out.insert(q, e),
    decreases out.len(),
{
    let q = if out.len() == 0 || le(e, out[0]) {
        0
    } else {
        let rest = out.drop_first();
        let q1 = lemma_insert_position(rest, e, le);
        assert forall|j: int| 0 <= j < q1 + 1 implies !le(e, #[trigger] out[j]) by {
            if j > 0 {
                assert(out[j] == rest[j - 1]);
            }
        }
        if q1 < rest.len() {
            assert(rest[q1] == out[q1 + 1]);
        }
        q1 + 1
    };
    lemma_insert_at_first(out, e, le, q);
    q
}

/// A sort keeps the length, and every element it holds comes from `s`.
proof fn lemma_sort_members<A>(s: Seq<A>, le: spec_fn(A, A) -> bool)
    ensures
        insertion_sort(s, le).len() == s.len(),
        forall|k: int| 0 <= k < s.len() ==> exists|j: int| 0 <= j < s.len() && #[trigger] insertion_sort(s, le)[k] == s[j],
    decreases s.len(),
{
    if s.len() > 0 {
        let rest = s.drop_first();
        let out = insertion_sort(rest, le);
        lemma_sort_members(rest, le);
        let q = lemma_insert_position(out, s[0], le);
        let r = insertion_sort(s, le);
        assert forall|k: int| 0 <= k < s.len() implies exists|j: int| 0 <= j < s.len() && #[trigger] r[k] == s[j] by {
            if k < q {
                assert(r[k] == out[k]);
                let j = choose|j: int| 0 <= j < rest.len() && out[k] == rest[j];
                assert(r[k] == s[j + 1]);
            } else if k == q {
                assert(r[k] == s[0]);
            } else {
                assert(r[k] == out[k - 1]);
                let j = choose|j: int| 0 <= j < rest.len() && #[trigger] out[k - 1] == rest[j];
                assert(r[k] == s[j + 1]);
            }
        }
    }
}

/// Sorting by a key, highest first, orders the keys.
proof fn lemma_sort_desc_ordered<A>(s: Seq<A>, key: spec_fn(A) -> int)
    ensures
        forall|k1: int, k2: int| 0 <= k1 < k2 < s.len() ==> key(#[trigger] insertion_sort(s, by_key_desc(key))[k2]) <= key(#[trigger] insertion_sort(s, by_key_desc(key))[k1]),
    decreases s.len(),
{
    let le = by_key_desc(key);
    if s.len() > 0 {
        let rest = s.drop_first();
        let out = insertion_sort(rest, le);
        lemma_sort_desc_ordered(rest, key);
        lemma_sort_members(rest, le);
        lemma_sort_members(s, le);
        let q = lemma_insert_position(out, s[0], le);
        let r = insertion_sort(s, le);
        assert forall|k1: int, k2: int| 0 <= k1 < k2 < s.len() implies key(#[trigger] r[k2]) <= key(#[trigger] r[k1]) by {
            let a = if k1 < q { out[k1] } else if k1 == q { s[0] } else { out[k1 - 1] };
            let b = if k2 < q { out[k2] } else if k2 == q { s[0] } else { out[k2 - 1] };
            assert(r[k1] == a);
            assert(r[k2] == b);
            if k1 == q {
                if k2 - 1 > q {
                    assert(key(out[k2 - 1]) <= key(out[q]));
                }
            } else if k2 == q {
                assert(!le(s[0], out[k1]));
            }
        }
    }
}

/// Sorting by a key, highest first, and taking the first element that
/// satisfies `p` gives the first of those elements with the highest key: a
/// stable sort keeps the earliest of equals in front.
pub proof fn lemma_first_max_leads_sort<A>(s: Seq<A>, key: spec_fn(A) -> int, p: spec_fn(A) -> bool, i: int)
    requires
        is_first_max(s, key, p, i),
    ensures
        exists|k: int| #[trigger] is_first_with(insertion_sort(s, by_key_desc(key)), p, k) && insertion_sort(s, by_key_desc(key))[k] == s[i],
    decreases s.len(),
{
    let le = by_key_desc(key);
    let rest = s.drop_first();
    let out = insertion_sort(rest, le);
    let e = s[0];
    lemma_sort_members(rest, le);
    lemma_sort_desc_ordered(rest, key);
    let q = lemma_insert_position(out, e, le);
    let r = insertion_sort(s, le);
    assert(r == out.insert(q, e));
    if i > 0 {
        assert(is_first_max(rest, key, p, i - 1)) by {
            assert(rest[i - 1] == s[i]);
            assert forall|j: int| 0 <= j < rest.len() && p(#[trigger] rest[j]) implies key(rest[j]) <= key(rest[i - 1]) by {
                assert(rest[j] == s[j + 1]);
            }
            assert forall|j: int| 0 <= j < i - 1 && p(#[trigger] rest[j]) implies key(rest[j]) < key(rest[i - 1]) by {
                assert(rest[j] == s[j + 1]);
            }
        }
        lemma_first_max_leads_sort(rest, key, p, i - 1);
        let k = choose|k: int| #[trigger] is_first_with(out, p, k) && out[k] == rest[i - 1];
        if k < q {
            assert(r[k] == out[k]);
            assert forall|j: int| 0 <= j < k implies !p(#[trigger] r[j]) by {
                assert(r[j] == out[j]);
            }
            assert(is_first_with(r, p, k));
        } else {
            if p(e) {
                assert(key(e) < key(s[i]));
                assert(le(e, out[q]));
                if k > q {
                    assert(key(out[k]) <= key(out[q]));
                }
                assert(false);
            }
            assert(r[k + 1] == out[k]);
            assert forall|j: int| 0 <= j < k + 1 implies !p(#[trigger] r[j]) by {
                if j < q {
                    assert(r[j] == out[j]);
                } else if j == q {
                    assert(r[j] == e);
                } else {
                    assert(r[j] == out[j - 1]);
                }
            }
            assert(is_first_with(r, p, k + 1));
        }
    } else {
        assert(r[q] == e);
        assert forall|j: int| 0 <= j < q implies !p(#[trigger] r[j]) by {
            assert(r[j] == out[j]);
            if p(out[j]) {
                let m = choose|m: int| 0 <= m < rest.len() && out[j] == rest[m];
                assert(rest[m] == s[m + 1]);
                assert(key(out[j]) <= key(e));
                assert(!le(e, out[j]));
            }
        }
        assert(is_first_with(r, p, q));
    }
}

/// Types that can be stably sorted by a total preorder on their values.
pub trait SortKey: Sized {
    spec fn spec_le(a: Self, b: Self) -> bool;

    proof fn lemma_total_preorder()
        ensures
            total_preorder(|a: Self, b: Self| Self::spec_le(a, b)),
    ;

    fn le(&self, other: &Self) -> (r: bool)
        ensures
            r == Self::spec_le(*self, *other),
    ;
}

/// Sorts `v` stably by `T::spec_le`.
pub fn stable_sort<T: SortKey>(v: Vec<T>) -> (r: Vec<T>)
    ensures
        is_stable_sort(r@, v@, |a: T, b: T| T::spec_le(a, b)),
        r@ == insertion_sort(v@, |a: T, b: T| T::spec_le(a, b)),
{
    let ghost le = |a: T, b: T| T::spec_le(a, b);
    let ghost s = v@;
    let ghost n = v@.len();
    proof {
        T::lemma_total_preorder();
    }
    let mut rest = v;
    let mut out: Vec<T> = Vec::new();
    let ghost mut p: Seq<int> = Seq::empty();
    while rest.len() > 0
        invariant
            total_preorder(le),
            le == (|a: T, b: T| T::spec_le(a, b)),
            s.len() == n,
            rest@ == s.take(rest@.len() as int),
            rest@.len() + out@.len() == n,
            p.len() == out@.len(),
            out@ == insertion_sort(s.skip(rest@.len() as int), le),
            forall|k: int|
                0 <= k < p.len() ==> rest@.len() <= #[trigger] p[k] < n && out@[k] == s[p[k]],
            forall|k1: int, k2: int| 0 <= k1 < k2 < p.len() ==> #[trigger] p[k1] != #[trigger] p[k2],
            forall|k1: int, k2: int| 0 <= k1 < k2 < out@.len() ==> le(#[trigger] out@[k1], #[trigger] out@[k2]),
            forall|k1: int, k2: int|
                0 <= k1 < k2 < out@.len() && le(#[trigger] out@[k2], #[trigger] out@[k1]) ==> p[k1] < p[k2],
        decreases rest@.len(),
    {
        let ghost i = rest@.len() - 1;
        let e = rest.pop().unwrap();
        assert(e == s[i]);
        // first position whose element is ranked at or after e
        let mut pos: usize = 0;
        while pos < out.len() && !e.le(&out[pos])
            invariant
                pos <= out@.len(),
                le == (|a: T, b: T| T::spec_le(a, b)),
                forall|j: int| 0 <= j < pos ==> !le(e, #[trigger] out@[j]),
            decreases out@.len() - pos,
        {
            pos = pos + 1;
        }
        let ghost old_out = out@;
        let ghost old_p = p;
        proof {
            lemma_insert_at_first(old_out, e, le, pos as int);
            assert(s.skip(i).drop_first() =~= s.skip(i + 1));
            assert(s.skip(i)[0] == e);
        }
        out.insert(pos, e);
        proof {
            p = old_p.insert(pos as int, i);
            assert(rest@ =~= s.take(rest@.len() as int));
            assert forall|k: int| 0 <= k < p.len() implies rest@.len() <= #[trigger] p[k] < n
                && out@[k] == s[p[k]] by {
                if k < pos {
                    assert(p[k] == old_p[k]);
                } else if k > pos {
                    assert(p[k] == old_p[k - 1]);
                }
            }
            assert forall|k1: int, k2: int| 0 <= k1 < k2 < p.len() implies #[trigger] p[k1] != #[trigger] p[k2] by {
                if k1 != pos as int && k2 != pos as int {
                    let a = if k1 < pos { k1 } else { k1 - 1 };
                    let b = if k2 < pos { k2 } else { k2 - 1 };
                    assert(old_p[a] != old_p[b]);
                }
            }
            assert forall|k1: int, k2: int| 0 <= k1 < k2 < out@.len() implies le(#[trigger] out@[k1], #[trigger] out@[k2]) by {
                if k1 == pos as int {
                    // e before everything at or after pos
                    assert(pos < old_out.len());
                    assert(le(e, old_out[pos as int]));
                    if k2 - 1 > pos {
                        assert(le(old_out[pos as int], old_out[k2 - 1]));
                    }
                } else if k2 == pos as int {
                    assert(!le(e, old_out[k1]));
                } else {
                    let a = if k1 < pos { k1 } else { k1 - 1 };
                    let b = if k2 < pos { k2 } else { k2 - 1 };
                    assert(le(old_out[a], old_out[b]));
                }
            }
            assert forall|k1: int, k2: int|
                0 <= k1 < k2 < out@.len() && le(#[trigger] out@[k2], #[trigger] out@[k1]) implies p[k1] < p[k2] by {
                if k1 == pos as int {
                    assert(p[k1] == i);
                    assert(p[k2] == old_p[k2 - 1]);
                } else if k2 == pos as int {
                    assert(!le(e, old_out[k1]));
                } else {
                    let a = if k1 < pos { k1 } else { k1 - 1 };
                    let b = if k2 < pos { k2 } else { k2 - 1 };
                    assert(le(old_out[b], old_out[a]));
                }
            }
        }
    }
    proof {
        assert(is_sort_witness(out@, s, le, p));
        assert(s.skip(0) =~= s);
    }
    out
}

/// Strings sort by code point, as `str`'s `Ord` orders them.
impl SortKey for String {
    open spec fn spec_le(a: Self, b: Self) -> bool {
        text_le(a@, b@)
    }

    proof fn lemma_total_preorder() {
        let le = |a: Self, b: Self| Self::spec_le(a, b);
        assert forall|a: Self| #[trigger] le(a, a) by {
            lemma_text_le_reflexive(a@);
        }
        assert forall|a: Self, b: Self, c: Self| #[trigger] le(a, b) && #[trigger] le(b, c) implies le(a, c) by {
            lemma_text_le_transitive(a@, b@, c@);
        }
        assert forall|a: Self, b: Self| #[trigger] le(a, b) || #[trigger] le(b, a) by {
            lemma_text_le_total(a@, b@);
        }
    }

    fn le(&self, other: &Self) -> (r: bool) {
        str_le(self.as_str(), other.as_str())
    }
}

} // verus!
