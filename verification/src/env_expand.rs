//! `${NAME}` references in configuration text, replaced by the values of
//! environment variables before the text is parsed.
use vstd::prelude::*;
use crate::text::{chars_of, push_str, str_eq, substring};

verus! {

/// The first `}` of `t` at or after `from`.
pub open spec fn first_close(t: Seq<char>, from: int) -> Option<int>
    decreases t.len() - from,
{
    if from < 0 || from >= t.len() {
        None
    } else if t[from] == '}' {
        Some(from)
    } else {
        first_close(t, from + 1)
    }
}

/// The end (exclusive) of the reference `${NAME}` starting at `i`, NAME
/// being one or more characters other than `}`; `None` when none starts
/// there.
pub open spec fn reference_end(t: Seq<char>, i: int) -> Option<int> {
    if 0 <= i && i + 1 < t.len() && t[i] == '$' && t[i + 1] == '{' {
        match first_close(t, i + 2) {
            Some(j) => if j > i + 2 { Some(j + 1) } else { None },
            None => None,
        }
    } else {
        None
    }
}

/// The value of variable `name` in `env`, by its first entry.
pub open spec fn env_value(env: Seq<(String, String)>, name: Seq<char>) -> Option<Seq<char>> {
    if exists|k: int| 0 <= k < env.len() && (#[trigger] env[k]).0@ == name {
        Some(env[choose|k: int| 0 <= k < env.len() && env[k].0@ == name && forall|m: int| 0 <= m < k ==> (#[trigger] env[m]).0@ != name].1@)
    } else {
        None
    }
}

/// `t` from position `i` on with every reference replaced, left to right
/// and without overlap, by its variable's value; a reference to an unset
/// variable stays as written.
pub open spec fn expanded_from(t: Seq<char>, env: Seq<(String, String)>, i: int) -> Seq<char>
    decreases t.len() - i,
{
    if i < 0 || i >= t.len() {
        seq![]
    } else {
        match reference_end(t, i) {
            Some(e) => {
                proof {
                    lemma_first_close_bounds(t, i + 2);
                }
                let name = t.subrange(i + 2, e - 1);
                (match env_value(env, name) {
                    Some(v) => v,
                    None => t.subrange(i, e),
                }) + expanded_from(t, env, e)
            },
            None => seq![t[i]] + expanded_from(t, env, i + 1),
        }
    }
}

/// A `}` found from `from` on lies at or after `from`.
pub proof fn lemma_first_close_bounds(t: Seq<char>, from: int)
    ensures
        first_close(t, from) matches Some(j) ==> from <= j < t.len() && t[j] == '}',
    decreases t.len() - from,
{
    if 0 <= from < t.len() && t[from] != '}' {
        lemma_first_close_bounds(t, from + 1);
    }
}

proof fn lemma_first_close(t: Seq<char>, from: int, j: int)
    requires
        0 <= from <= j < t.len(),
        t[j] == '}',
        forall|k: int| from <= k < j ==> t[k] != '}',
    ensures
        first_close(t, from) == Some(j),
    decreases j - from,
{
    if from < j {
        lemma_first_close(t, from + 1, j);
    }
}

proof fn lemma_no_close(t: Seq<char>, from: int)
    requires
        0 <= from,
        forall|k: int| from <= k < t.len() ==> t[k] != '}',
    ensures
        first_close(t, from) is None,
    decreases t.len() - from,
{
    if from < t.len() {
        lemma_no_close(t, from + 1);
    }
}

fn lookup<'a>(env: &'a Vec<(String, String)>, name: &str) -> (r: Option<&'a String>)
    ensures
        match r {
            Some(v) => env_value(env@, name@) == Some(v@),
            None => env_value(env@, name@) is None,
        },
{
    let mut k: usize = 0;
    while k < env.len()
        invariant
            k <= env@.len(),
            forall|m: int| 0 <= m < k ==> (#[trigger] env@[m]).0@ != name@,
        decreases env@.len() - k,
    {
        if str_eq(env[k].0.as_str(), name) {
            proof {
                let c = choose|c: int| 0 <= c < env@.len() && env@[c].0@ == name@ && forall|m: int| 0 <= m < c ==> (#[trigger] env@[m]).0@ != name@;
                if c < k {
                    assert(env@[c].0@ != name@);
                } else if c > k {
                    assert(env@[k as int].0@ != name@);
                }
            }
            return Some(&env[k].1);
        }
        k = k + 1;
    }
    None
}

/// `text` with each `${NAME}` replaced by the value of `NAME` in `env` (the
/// environment, as name and value pairs); references to unset variables are
/// kept as written.
pub fn expand_env_vars(text: &str, env: &Vec<(String, String)>) -> (r: String)
    ensures
        r@ == expanded_from(text@, env@, 0),
{
    let c = chars_of(text);
    let n = c.len();
    let mut out = String::new();
    let mut i: usize = 0;
    while i < n
        invariant
            c@ == text@,
            n == c@.len(),
            i <= n,
            out@ + expanded_from(text@, env@, i as int) == expanded_from(text@, env@, 0),
        decreases n - i,
    {
        let mut handled = false;
        if c[i] == '$' && i + 1 < n && c[i + 1] == '{' {
            let mut j: usize = i + 2;
            while j < n && c[j] != '}'
                invariant
                    c@ == text@,
                    n == c@.len(),
                    i + 2 <= j <= n,
                    forall|k: int| i + 2 <= k < j ==> c@[k] != '}',
                decreases n - j,
            {
                j = j + 1;
            }
            if j < n && j > i + 2 {
                proof {
                    lemma_first_close(text@, i + 2, j as int);
                }
                let name = substring(text, i + 2, j);
                match lookup(env, name.as_str()) {
                    Some(v) => push_str(&mut out, v.as_str()),
                    None => {
                        let raw = substring(text, i, j + 1);
                        push_str(&mut out, raw.as_str());
                    },
                }
                proof {
                    assert(reference_end(text@, i as int) == Some(j + 1));
                }
                i = j + 1;
                handled = true;
            } else {
                proof {
                    if j < n {
                        lemma_first_close(text@, i + 2, j as int);
                    } else {
                        lemma_no_close(text@, i + 2);
                    }
                    assert(reference_end(text@, i as int) is None);
                }
            }
        }
        if !handled {
            let ghost before = out@;
            let piece = substring(text, i, i + 1);
            push_str(&mut out, piece.as_str());
            proof {
                assert(reference_end(text@, i as int) is None);
                assert(piece@ =~= seq![text@[i as int]]);
                assert(before + expanded_from(text@, env@, i as int) == before + (seq![text@[i as int]]
                    + expanded_from(text@, env@, i + 1)));
                assert(out@ + expanded_from(text@, env@, i + 1) =~= before + (seq![text@[i as int]]
                    + expanded_from(text@, env@, i + 1)));
            }
            i = i + 1;
        }
    }
    proof {
        assert(out@ + expanded_from(text@, env@, i as int) =~= out@);
    }
    out
}

/// Text with no `${` in it is left as it is.
pub proof fn lemma_plain_text_unchanged(t: Seq<char>, env: Seq<(String, String)>, i: int)
    requires
        0 <= i <= t.len(),
        forall|k: int| 0 <= k < t.len() - 1 ==> !(t[k] == '$' && #[trigger] t[k + 1] == '{'),
    ensures
        expanded_from(t, env, i) == t.skip(i),
    decreases t.len() - i,
{
    if i < t.len() {
        lemma_plain_text_unchanged(t, env, i + 1);
        assert(reference_end(t, i) is None);
        assert(t.skip(i) =~= seq![t[i]] + t.skip(i + 1));
    } else {
        assert(t.skip(i) =~= Seq::<char>::empty());
    }
}

proof fn lemma_first_close_gap(t: Seq<char>, from: int)
    ensures
        first_close(t, from) matches Some(j) ==> forall|k: int| from <= k < j ==> t[k] != '}',
        first_close(t, from) is None && 0 <= from ==> forall|k: int| from <= k < t.len() ==> t[k] != '}',
    decreases t.len() - from,
{
    if 0 <= from < t.len() && t[from] != '}' {
        lemma_first_close_gap(t, from + 1);
    }
}

proof fn lemma_first_close_shift(a: Seq<char>, b: Seq<char>, f: int)
    requires
        0 <= f,
    ensures
        first_close(a + b, a.len() + f) == match first_close(b, f) {
            Some(j) => Some(j + a.len()),
            None => None,
        },
    decreases b.len() - f,
{
    if f < b.len() {
        assert((a + b)[a.len() + f] == b[f]);
        if b[f] != '}' {
            lemma_first_close_shift(a, b, f + 1);
        }
    }
}

proof fn lemma_reference_shift(a: Seq<char>, b: Seq<char>, j: int)
    requires
        0 <= j,
    ensures
        reference_end(a + b, a.len() + j) == match reference_end(b, j) {
            Some(e) => Some(e + a.len()),
            None => None,
        },
{
    let s = a + b;
    let i = a.len() + j;
    if j + 1 < b.len() {
        assert(s[i] == b[j]);
        assert(s[i + 1] == b[j + 1]);
    }
    lemma_first_close_shift(a, b, j + 2);
}

/// Where no reference that starts in `a` runs past it, `a + b` and `a`
/// have the same references in `a`.
proof fn lemma_reference_prefix(a: Seq<char>, b: Seq<char>, i: int)
    requires
        0 <= i < a.len(),
        reference_end(a + b, i) matches Some(e) ==> e <= a.len(),
    ensures
        reference_end(a + b, i) == reference_end(a, i),
{
    let s = a + b;
    lemma_first_close_gap(s, i + 2);
    lemma_first_close_gap(a, i + 2);
    lemma_first_close_bounds(s, i + 2);
    lemma_first_close_bounds(a, i + 2);
    match reference_end(s, i) {
        Some(e) => {
            let j = e - 1;
            assert(s[i] == a[i] && s[i + 1] == a[i + 1]);
            assert forall|k: int| i + 2 <= k < j implies a[k] != '}' by {
                assert(s[k] == a[k]);
            }
            assert(s[j] == a[j]);
            lemma_first_close(a, i + 2, j);
        },
        None => {
            if reference_end(a, i) is Some {
                let j = first_close(a, i + 2)->0;
                assert(s[i] == a[i] && s[i + 1] == a[i + 1]);
                assert forall|k: int| i + 2 <= k < j implies s[k] != '}' by {
                    assert(s[k] == a[k]);
                }
                assert(s[j] == a[j]);
                lemma_first_close(s, i + 2, j);
            }
        },
    }
}

proof fn lemma_expanded_suffix(a: Seq<char>, b: Seq<char>, env: Seq<(String, String)>, j: int)
    requires
        0 <= j <= b.len(),
    ensures
        expanded_from(a + b, env, a.len() + j) == expanded_from(b, env, j),
    decreases b.len() - j,
{
    let s = a + b;
    let i = a.len() + j;
    if j < b.len() {
        lemma_reference_shift(a, b, j);
        lemma_first_close_bounds(b, j + 2);
        match reference_end(b, j) {
            Some(e) => {
                lemma_expanded_suffix(a, b, env, e);
                assert(s.subrange(i + 2, e + a.len() - 1) =~= b.subrange(j + 2, e - 1));
                assert(s.subrange(i, e + a.len()) =~= b.subrange(j, e));
            },
            None => {
                lemma_expanded_suffix(a, b, env, j + 1);
                assert(s[i] == b[j]);
            },
        }
    }
}

proof fn lemma_expanded_prefix(a: Seq<char>, b: Seq<char>, env: Seq<(String, String)>, i: int)
    requires
        0 <= i <= a.len(),
        forall|k: int| 0 <= k < a.len() ==> (#[trigger] reference_end(a + b, k) matches Some(e) ==> e <= a.len()),
    ensures
        expanded_from(a + b, env, i) == expanded_from(a, env, i) + expanded_from(b, env, 0),
    decreases a.len() - i,
{
    let s = a + b;
    if i == a.len() {
        lemma_expanded_suffix(a, b, env, 0);
        assert(expanded_from(a, env, i) =~= Seq::<char>::empty());
        assert(Seq::<char>::empty() + expanded_from(b, env, 0) =~= expanded_from(b, env, 0));
    } else {
        assert(reference_end(s, i) matches Some(e) ==> e <= a.len());
        lemma_reference_prefix(a, b, i);
        lemma_first_close_bounds(a, i + 2);
        match reference_end(a, i) {
            Some(e) => {
                lemma_expanded_prefix(a, b, env, e);
                assert(s.subrange(i + 2, e - 1) =~= a.subrange(i + 2, e - 1));
                assert(s.subrange(i, e) =~= a.subrange(i, e));
                let head = match env_value(env, a.subrange(i + 2, e - 1)) {
                    Some(v) => v,
                    None => a.subrange(i, e),
                };
                assert(head + (expanded_from(a, env, e) + expanded_from(b, env, 0)) =~= (head + expanded_from(a, env, e))
                    + expanded_from(b, env, 0));
            },
            None => {
                lemma_expanded_prefix(a, b, env, i + 1);
                assert(s[i] == a[i]);
                assert(seq![a[i]] + (expanded_from(a, env, i + 1) + expanded_from(b, env, 0)) =~= (seq![a[i]]
                    + expanded_from(a, env, i + 1)) + expanded_from(b, env, 0));
            },
        }
    }
}

/// Expansion is compositional: when no reference that starts in `a` runs
/// past its end, expanding `a + b` gives the expansion of `a` followed by
/// the expansion of `b`.
pub proof fn lemma_expansion_compositional(a: Seq<char>, b: Seq<char>, env: Seq<(String, String)>)
    requires
        forall|k: int| 0 <= k < a.len() ==> (#[trigger] reference_end(a + b, k) matches Some(e) ==> e <= a.len()),
    ensures
        expanded_from(a + b, env, 0) == expanded_from(a, env, 0) + expanded_from(b, env, 0),
{
    lemma_expanded_prefix(a, b, env, 0);
}

/// A lone reference `${NAME}` to a set variable expands to its value, and
/// one to an unset variable stays as written.
pub proof fn lemma_single_reference(name: Seq<char>, env: Seq<(String, String)>)
    requires
        name.len() > 0,
        forall|k: int| 0 <= k < name.len() ==> name[k] != '}',
    ensures
        expanded_from("${"@ + name + "}"@, env, 0) == match env_value(env, name) {
            Some(v) => v,
            None => "${"@ + name + "}"@,
        },
{
    reveal_strlit("${");
    reveal_strlit("}");
    let t = "${"@ + name + "}"@;
    let n: int = t.len() as int;
    assert(t[0] == '$' && t[1] == '{');
    assert(t[n - 1] == '}');
    assert forall|k: int| 2 <= k < n - 1 implies t[k] != '}' by {
        assert(t[k] == name[k - 2]);
    }
    lemma_first_close(t, 2, n - 1);
    assert(reference_end(t, 0) == Some(n));
    assert(t.subrange(2, n - 1) =~= name);
    assert(t.subrange(0, n) =~= t);
    assert(expanded_from(t, env, n) =~= Seq::<char>::empty());
    match env_value(env, name) {
        Some(v) => assert(v + Seq::<char>::empty() =~= v),
        None => assert(t + Seq::<char>::empty() =~= t),
    }
}

} // verus!
