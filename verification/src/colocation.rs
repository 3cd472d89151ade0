//! The llama-swap `matrix` block: colocation sets written in a small
//! expression language over model ids (`&` colocates, `|` offers
//! alternatives, parentheses group), and the loadouts they admit.
use vstd::prelude::*;
use crate::model::ModelId;
use crate::text::{chars_of, is_white_space, str_eq, substring, white_space};

verus! {

/// The `matrix` block of a llama-swap configuration. The numeric `vars` and
/// `evict_costs` are kept verbatim as `(name, value)` entries.
#[derive(Debug, PartialEq, Eq, Default)]
pub struct LlamaSwapMatrixConfig {
    /// Free-form numeric variables (e.g. `gpu: 24576` for total VRAM in MB).
    pub vars: Vec<(String, u64)>,
    /// Per-model cold-load cost estimates in milliseconds, keyed by model id.
    pub evict_costs: Vec<(String, u64)>,
    /// Declared colocation sets.
    pub sets: Vec<ColocationSet>,
}

/// One named colocation set; `models` is an expression over model ids such
/// as `qwen9b & qwen35_a3b` or `(qwen9b | qwen4b) & gemma`.
#[derive(Debug, PartialEq, Eq)]
pub struct ColocationSet {
    pub name: String,
    pub models: String,
}

/// A token of a colocation expression.
#[derive(Debug, PartialEq, Eq)]
pub enum MatrixToken {
    Ident(String),
    And,
    Or,
    Open,
    Close,
}

/// The plain content of a token.
pub enum TokenView {
    Ident(Seq<char>),
    And,
    Or,
    Open,
    Close,
}

impl View for MatrixToken {
    type V = TokenView;

    open spec fn view(&self) -> TokenView {
        match self {
            MatrixToken::Ident(s) => TokenView::Ident(s@),
            MatrixToken::And => TokenView::And,
            MatrixToken::Or => TokenView::Or,
            MatrixToken::Open => TokenView::Open,
            MatrixToken::Close => TokenView::Close,
        }
    }
}

pub open spec fn token_view_of() -> spec_fn(MatrixToken) -> TokenView {
    |t: MatrixToken| t@
}

pub open spec fn operator_of(c: char) -> Option<TokenView> {
    if c == '&' {
        Some(TokenView::And)
    } else if c == '|' {
        Some(TokenView::Or)
    } else if c == '(' {
        Some(TokenView::Open)
    } else if c == ')' {
        Some(TokenView::Close)
    } else {
        None
    }
}

/// Ends the identifier being read, if any.
pub open spec fn flush(tokens: Seq<TokenView>, pending: Seq<char>) -> Seq<TokenView> {
    if pending.len() > 0 {
        tokens.push(TokenView::Ident(pending))
    } else {
        tokens
    }
}

/// The tokens completed after the first `n` characters of `s`, and the
/// identifier still being read.
pub open spec fn tok_state(s: Seq<char>, n: int) -> (Seq<TokenView>, Seq<char>)
    decreases n,
{
    if n <= 0 {
        (seq![], seq![])
    } else {
        let p = tok_state(s, n - 1);
        let c = s[n - 1];
        match operator_of(c) {
            Some(op) => (flush(p.0, p.1).push(op), seq![]),
            None => if is_white_space(c) {
                (flush(p.0, p.1), seq![])
            } else {
                (p.0, p.1.push(c))
            },
        }
    }
}

/// The tokens of an expression: `&`, `|`, `(` and `)` stand alone,
/// whitespace separates, and every other run of characters is an identifier.
pub open spec fn tokens_of(s: Seq<char>) -> Seq<TokenView> {
    let st = tok_state(s, s.len() as int);
    flush(st.0, st.1)
}

/// Splits a colocation expression into tokens.
pub fn tokenize_colocation_expr(expr: &str) -> (r: Vec<MatrixToken>)
    ensures
        r@.map_values(token_view_of()) == tokens_of(expr@),
{
    let chars = chars_of(expr);
    let ghost s = expr@;
    let mut tokens: Vec<MatrixToken> = Vec::new();
    let mut start: usize = 0;
    let mut i: usize = 0;
    while i < chars.len()
        invariant
            chars@ == s,
            s == expr@,
            start <= i <= s.len(),
            tokens@.map_values(token_view_of()) == tok_state(s, i as int).0,
            s.subrange(start as int, i as int) == tok_state(s, i as int).1,
        decreases s.len() - i,
    {
        let ch = chars[i];
        let ghost before = tokens@.map_values(token_view_of());
        let op = if ch == '&' {
            Some(MatrixToken::And)
        } else if ch == '|' {
            Some(MatrixToken::Or)
        } else if ch == '(' {
            Some(MatrixToken::Open)
        } else if ch == ')' {
            Some(MatrixToken::Close)
        } else {
            None
        };
        match op {
            Some(t) => {
                if start < i {
                    tokens.push(MatrixToken::Ident(substring(expr, start, i)));
                }
                tokens.push(t);
                start = i + 1;
            },
            None => {
                if white_space(ch) {
                    if start < i {
                        tokens.push(MatrixToken::Ident(substring(expr, start, i)));
                    }
                    start = i + 1;
                }
            },
        }
        proof {
            let st = tok_state(s, i + 1);
            assert(tokens@.map_values(token_view_of()) =~= st.0);
            assert(s.subrange(start as int, i + 1) =~= st.1);
        }
        i = i + 1;
    }
    if start < i {
        tokens.push(MatrixToken::Ident(substring(expr, start, i)));
    }
    proof {
        assert(tokens@.map_values(token_view_of()) =~= tokens_of(s));
    }
    tokens
}


/// A loadout: model ids that may be resident together, as a set.
pub type Loadout = Set<Seq<char>>;

/// The set of model ids a loadout vector holds.
pub open spec fn loadout_of(v: Seq<String>) -> Loadout {
    Set::new(|x: Seq<char>| exists|i: int| 0 <= i < v.len() && (#[trigger] v[i])@ == x)
}

pub open spec fn loadouts_of(v: Seq<Vec<String>>) -> Seq<Loadout> {
    v.map_values(|l: Vec<String>| loadout_of(l@))
}

/// Every pairing of a left loadout with a right one, left-major, unioned.
pub open spec fn cross(lhs: Seq<Loadout>, rhs: Seq<Loadout>) -> Seq<Loadout>
    decreases lhs.len(),
{
    if lhs.len() == 0 {
        seq![]
    } else {
        cross(lhs.drop_last(), rhs) + rhs.map_values(|r: Loadout| lhs.last().union(r))
    }
}

/// The `&` of two loadout lists; an empty side leaves the other unchanged.
pub open spec fn cross_union_spec(lhs: Seq<Loadout>, rhs: Seq<Loadout>) -> Seq<Loadout> {
    if lhs.len() == 0 {
        rhs
    } else if rhs.len() == 0 {
        lhs
    } else {
        cross(lhs, rhs)
    }
}

/// The first `n` loadouts of `s` with repeats dropped, first occurrences kept.
pub open spec fn dedup_spec(s: Seq<Loadout>, n: int) -> Seq<Loadout>
    decreases n,
{
    if n <= 0 {
        seq![]
    } else {
        let d = dedup_spec(s, n - 1);
        if d.contains(s[n - 1]) {
            d
        } else {
            d.push(s[n - 1])
        }
    }
}

pub open spec fn tok_at(t: Seq<TokenView>, pos: int) -> Option<TokenView> {
    if 0 <= pos < t.len() {
        Some(t[pos])
    } else {
        None
    }
}

pub open spec fn moved_on(before: int, after: int, len: int) -> bool {
    before <= after <= len
}

/// `factor := IDENT | '(' expr ')'`; a `)` that does not directly follow the
/// inner expression is left unread, and anything else yields no loadouts
/// without consuming a token.
pub open spec fn p_factor(t: Seq<TokenView>, pos: int) -> (Seq<Loadout>, int)
    decreases t.len() - pos, 0int,
{
    match tok_at(t, pos) {
        Some(TokenView::Ident(id)) => (seq![set![id]], pos + 1),
        Some(TokenView::Open) => {
            let inner = p_or(t, pos + 1);
            if tok_at(t, inner.1) matches Some(TokenView::Close) {
                (inner.0, inner.1 + 1)
            } else {
                inner
            }
        },
        _ => (seq![], pos),
    }
}

/// The `('&' factor)*` tail of a term whose loadouts so far are `acc`.
pub open spec fn p_and_rest(t: Seq<TokenView>, pos: int, acc: Seq<Loadout>) -> (Seq<Loadout>, int)
    decreases t.len() - pos, 1int,
{
    if tok_at(t, pos) matches Some(TokenView::And) {
        let r = p_factor(t, pos + 1);
        let next = cross_union_spec(acc, r.0);
        if moved_on(pos + 1, r.1, t.len() as int) {
            p_and_rest(t, r.1, next)
        } else {
            (next, r.1)
        }
    } else {
        (acc, pos)
    }
}

/// `term := factor ('&' factor)*`.
pub open spec fn p_and(t: Seq<TokenView>, pos: int) -> (Seq<Loadout>, int)
    decreases t.len() - pos, 2int,
{
    let f = p_factor(t, pos);
    if moved_on(pos, f.1, t.len() as int) {
        p_and_rest(t, f.1, f.0)
    } else {
        f
    }
}

/// The `('|' term)*` tail of an expression whose loadouts so far are `acc`.
pub open spec fn p_or_rest(t: Seq<TokenView>, pos: int, acc: Seq<Loadout>) -> (Seq<Loadout>, int)
    decreases t.len() - pos, 3int,
{
    if tok_at(t, pos) matches Some(TokenView::Or) {
        let r = p_and(t, pos + 1);
        if moved_on(pos + 1, r.1, t.len() as int) {
            p_or_rest(t, r.1, acc + r.0)
        } else {
            (acc + r.0, r.1)
        }
    } else {
        (acc, pos)
    }
}

/// `expr := term ('|' term)*`.
pub open spec fn p_or(t: Seq<TokenView>, pos: int) -> (Seq<Loadout>, int)
    decreases t.len() - pos, 4int,
{
    let a = p_and(t, pos);
    if moved_on(pos, a.1, t.len() as int) {
        p_or_rest(t, a.1, a.0)
    } else {
        a
    }
}

/// The nesting depth of parentheses after the first `n` tokens of `t`;
/// `None` once a `)` has closed nothing.
pub open spec fn paren_depth(t: Seq<TokenView>, n: int) -> Option<nat>
    decreases n,
{
    if n <= 0 {
        Some(0nat)
    } else {
        match paren_depth(t, n - 1) {
            None => None,
            Some(d) => match t[n - 1] {
                TokenView::Open => Some(d + 1),
                TokenView::Close => if d == 0 {
                    None
                } else {
                    Some((d - 1) as nat)
                },
                _ => Some(d),
            },
        }
    }
}

/// Every `(` of `t` is closed by a later `)`, and every `)` closes one.
pub open spec fn parens_balanced(t: Seq<TokenView>) -> bool {
    paren_depth(t, t.len() as int) == Some(0nat)
}

/// The loadouts an expression admits: `&` unions loadouts, `|` lists
/// alternatives, repeats are dropped. An expression whose parentheses do not
/// balance admits none; otherwise parsing is lenient: an operand that cannot
/// be parsed contributes nothing.
pub open spec fn expr_loadouts(expr: Seq<char>) -> Seq<Loadout> {
    let t = tokens_of(expr);
    if !parens_balanced(t) {
        seq![]
    } else {
        let r = p_or(t, 0).0;
        dedup_spec(r, r.len() as int)
    }
}

/// Whether the loadout vector holds `x`.
fn loadout_contains(l: &Vec<String>, x: &str) -> (r: bool)
    ensures
        r == loadout_of(l@).contains(x@),
{
    let mut i: usize = 0;
    while i < l.len()
        invariant
            i <= l@.len(),
            forall|j: int| 0 <= j < i ==> (#[trigger] l@[j])@ != x@,
        decreases l@.len() - i,
    {
        if str_eq(l[i].as_str(), x) {
            assert(loadout_of(l@).contains(x@));
            return true;
        }
        i = i + 1;
    }
    false
}

/// The union of two loadouts.
fn union_loadout(a: &Vec<String>, b: &Vec<String>) -> (r: Vec<String>)
    ensures
        loadout_of(r@) == loadout_of(a@).union(loadout_of(b@)),
{
    let mut out = a.clone();
    let mut j: usize = 0;
    while j < b.len()
        invariant
            j <= b@.len(),
            loadout_of(out@) == loadout_of(a@).union(loadout_of(b@.take(j as int))),
        decreases b@.len() - j,
    {
        let ghost before = out@;
        if !loadout_contains(&out, b[j].as_str()) {
            out.push(b[j].clone());
        }
        proof {
            let x0 = b@[j as int]@;
            assert forall|x: Seq<char>| loadout_of(b@.take(j + 1)).contains(x) <==> loadout_of(b@.take(j as int)).insert(x0).contains(x) by {
                if loadout_of(b@.take(j + 1)).contains(x) {
                    let k = choose|k: int| 0 <= k < j + 1 && (#[trigger] b@.take(j + 1)[k])@ == x;
                    if k < j {
                        assert(b@.take(j as int)[k] == b@.take(j + 1)[k]);
                    }
                }
                if loadout_of(b@.take(j as int)).contains(x) {
                    let k = choose|k: int| 0 <= k < j && (#[trigger] b@.take(j as int)[k])@ == x;
                    assert(b@.take(j + 1)[k] == b@.take(j as int)[k]);
                }
                if x == x0 {
                    assert(b@.take(j + 1)[j as int] == b@[j as int]);
                }
            }
            assert(loadout_of(b@.take(j + 1)) =~= loadout_of(b@.take(j as int)).insert(x0));
            assert forall|x: Seq<char>| loadout_of(out@).contains(x) <==> loadout_of(before).insert(x0).contains(x) by {
                if loadout_of(out@).contains(x) {
                    let k = choose|k: int| 0 <= k < out@.len() && (#[trigger] out@[k])@ == x;
                    if k < before.len() {
                        assert(out@[k] == before[k]);
                    }
                }
                if loadout_of(before).contains(x) {
                    let k = choose|k: int| 0 <= k < before.len() && (#[trigger] before[k])@ == x;
                    assert(out@[k] == before[k]);
                }
                if x == x0 && out@.len() > before.len() {
                    assert(out@[before.len() as int] == b@[j as int]);
                }
            }
            assert(loadout_of(out@) =~= loadout_of(before).insert(x0));
            assert(loadout_of(out@) =~= loadout_of(a@).union(loadout_of(b@.take(j + 1))));
        }
        j = j + 1;
    }
    proof {
        assert(b@.take(b@.len() as int) =~= b@);
    }
    out
}

pub open spec fn token_views(tokens: Seq<MatrixToken>) -> Seq<TokenView> {
    tokens.map_values(token_view_of())
}

proof fn lemma_cross_step(lhs: Seq<Loadout>, rhs: Seq<Loadout>, i: int)
    requires
        0 <= i < lhs.len(),
    ensures
        cross(lhs.take(i + 1), rhs) == cross(lhs.take(i), rhs) + rhs.map_values(|r: Loadout| lhs[i].union(r)),
{
    assert(lhs.take(i + 1).drop_last() =~= lhs.take(i));
    assert(lhs.take(i + 1).last() == lhs[i]);
}

/// The `&` of two loadout lists: each left loadout unioned with each right
/// one (left-major); when one side is empty the other is returned unchanged,
/// so a trailing or malformed operand cannot erase models.
pub fn cross_union(lhs: Vec<Vec<String>>, rhs: Vec<Vec<String>>) -> (r: Vec<Vec<String>>)
    ensures
        loadouts_of(r@) == cross_union_spec(loadouts_of(lhs@), loadouts_of(rhs@)),
{
    if lhs.len() == 0 {
        return rhs;
    }
    if rhs.len() == 0 {
        return lhs;
    }
    let ghost l = loadouts_of(lhs@);
    let ghost rr = loadouts_of(rhs@);
    let mut out: Vec<Vec<String>> = Vec::new();
    let mut i: usize = 0;
    assert(lhs@.len() > 0);
    assert(l.take(0) =~= Seq::<Loadout>::empty());
    while i < lhs.len()
        invariant
            l == loadouts_of(lhs@),
            rr == loadouts_of(rhs@),
            i <= lhs@.len(),
            loadouts_of(out@) == cross(l.take(i as int), rr),
        decreases lhs@.len() - i,
    {
        let mut j: usize = 0;
        let ghost base = loadouts_of(out@);
        assert(rr.take(0).map_values(|r: Loadout| l[i as int].union(r)) =~= Seq::<Loadout>::empty());
        assert(loadouts_of(out@) =~= base + rr.take(0).map_values(|r: Loadout| l[i as int].union(r)));
        while j < rhs.len()
            invariant
                l == loadouts_of(lhs@),
                rr == loadouts_of(rhs@),
                i < lhs@.len(),
                j <= rhs@.len(),
                loadouts_of(out@) == base + rr.take(j as int).map_values(|r: Loadout| l[i as int].union(r)),
            decreases rhs@.len() - j,
        {
            let u = union_loadout(&lhs[i], &rhs[j]);
            let ghost before = out@;
            out.push(u);
            proof {
                assert(loadouts_of(out@) =~= loadouts_of(before).push(loadout_of(u@)));
                assert(rr.take(j + 1).map_values(|r: Loadout| l[i as int].union(r)) =~= rr.take(j as int).map_values(|r: Loadout| l[i as int].union(r)).push(l[i as int].union(rr[j as int])));
                assert(loadouts_of(out@) =~= base + rr.take(j + 1).map_values(|r: Loadout| l[i as int].union(r)));
            }
            j = j + 1;
        }
        proof {
            assert(rr.take(rhs@.len() as int) =~= rr);
            lemma_cross_step(l, rr, i as int);
        }
        i = i + 1;
    }
    proof {
        assert(l.take(lhs@.len() as int) =~= l);
    }
    out
}

/// Whether two loadouts hold the same model ids.
fn same_loadout(a: &Vec<String>, b: &Vec<String>) -> (r: bool)
    ensures
        r == (loadout_of(a@) == loadout_of(b@)),
{
    let mut i: usize = 0;
    while i < a.len()
        invariant
            i <= a@.len(),
            forall|k: int| 0 <= k < i ==> loadout_of(b@).contains((#[trigger] a@[k])@),
        decreases a@.len() - i,
    {
        if !loadout_contains(b, a[i].as_str()) {
            proof {
                assert(loadout_of(a@).contains(a@[i as int]@));
            }
            return false;
        }
        i = i + 1;
    }
    let mut j: usize = 0;
    while j < b.len()
        invariant
            j <= b@.len(),
            forall|k: int| 0 <= k < a@.len() ==> loadout_of(b@).contains((#[trigger] a@[k])@),
            forall|k: int| 0 <= k < j ==> loadout_of(a@).contains((#[trigger] b@[k])@),
        decreases b@.len() - j,
    {
        if !loadout_contains(a, b[j].as_str()) {
            proof {
                assert(loadout_of(b@).contains(b@[j as int]@));
            }
            return false;
        }
        j = j + 1;
    }
    proof {
        assert forall|x: Seq<char>| loadout_of(a@).contains(x) <==> loadout_of(b@).contains(x) by {
            if loadout_of(a@).contains(x) {
                let k = choose|k: int| 0 <= k < a@.len() && (#[trigger] a@[k])@ == x;
                assert(loadout_of(b@).contains(a@[k]@));
            }
            if loadout_of(b@).contains(x) {
                let k = choose|k: int| 0 <= k < b@.len() && (#[trigger] b@[k])@ == x;
                assert(loadout_of(a@).contains(b@[k]@));
            }
        }
        assert(loadout_of(a@) =~= loadout_of(b@));
    }
    true
}

/// The loadouts with repeats dropped, first occurrences kept in order.
pub fn dedup_loadouts(loadouts: Vec<Vec<String>>) -> (r: Vec<Vec<String>>)
    ensures
        loadouts_of(r@) == dedup_spec(loadouts_of(loadouts@), loadouts@.len() as int),
{
    let ghost s = loadouts_of(loadouts@);
    let mut out: Vec<Vec<String>> = Vec::new();
    let mut i: usize = 0;
    while i < loadouts.len()
        invariant
            s == loadouts_of(loadouts@),
            i <= loadouts@.len(),
            loadouts_of(out@) == dedup_spec(s, i as int),
        decreases loadouts@.len() - i,
    {
        let mut seen = false;
        let mut k: usize = 0;
        while k < out.len()
            invariant
                k <= out@.len(),
                i < loadouts@.len(),
                s == loadouts_of(loadouts@),
                seen == exists|m: int| 0 <= m < k && loadouts_of(out@)[m] == s[i as int],
            decreases out@.len() - k,
        {
            assert(loadouts_of(out@)[k as int] == loadout_of(out@[k as int]@));
            assert(s[i as int] == loadout_of(loadouts@[i as int]@));
            if same_loadout(&out[k], &loadouts[i]) {
                seen = true;
            }
            k = k + 1;
        }
        let ghost before = out@;
        proof {
            if seen {
                let m = choose|m: int| 0 <= m < out@.len() && loadouts_of(out@)[m] == s[i as int];
                assert(loadouts_of(out@).contains(s[i as int]));
            } else {
                assert(!loadouts_of(out@).contains(s[i as int]));
            }
        }
        if !seen {
            let c = loadouts[i].clone();
            assert(c@ =~= loadouts@[i as int]@);
            out.push(c);
            proof {
                assert(loadouts_of(out@) =~= loadouts_of(before).push(s[i as int]));
            }
        }
        i = i + 1;
    }
    out
}

/// Parses a factor at `pos`.
fn parse_factor(tokens: &Vec<MatrixToken>, pos: usize) -> (r: (Vec<Vec<String>>, usize))
    requires
        pos <= tokens@.len(),
    ensures
        loadouts_of(r.0@) == p_factor(token_views(tokens@), pos as int).0,
        r.1 as int == p_factor(token_views(tokens@), pos as int).1,
        moved_on(pos as int, r.1 as int, tokens@.len() as int),
    decreases tokens@.len() - pos, 0int,
{
    let ghost t = token_views(tokens@);
    if pos < tokens.len() {
        assert(t[pos as int] == tokens@[pos as int]@);
        match &tokens[pos] {
            MatrixToken::Ident(id) => {
                let mut l: Vec<String> = Vec::new();
                l.push(id.clone());
                let mut out: Vec<Vec<String>> = Vec::new();
                out.push(l);
                proof {
                    assert(l@[0] == *id);
                    assert forall|x: Seq<char>| loadout_of(l@).contains(x) <==> x == id@ by {
                        if x == id@ {
                            assert(l@[0]@ == x);
                        }
                    }
                    assert(loadout_of(l@) =~= set![id@]);
                    assert(loadouts_of(out@) =~= seq![set![id@]]);
                }
                return (out, pos + 1);
            },
            MatrixToken::Open => {
                let (inner, p1) = parse_or(tokens, pos + 1);
                if p1 < tokens.len() && matches!(tokens[p1], MatrixToken::Close) {
                    assert(t[p1 as int] == tokens@[p1 as int]@);
                    return (inner, p1 + 1);
                }
                proof {
                    if p1 < tokens@.len() {
                        assert(t[p1 as int] == tokens@[p1 as int]@);
                    }
                }
                return (inner, p1);
            },
            _ => {},
        }
    }
    (Vec::new(), pos)
}

/// Parses `('&' factor)*` after a term whose loadouts so far are `acc`.
fn parse_and(tokens: &Vec<MatrixToken>, pos: usize) -> (r: (Vec<Vec<String>>, usize))
    requires
        pos <= tokens@.len(),
    ensures
        loadouts_of(r.0@) == p_and(token_views(tokens@), pos as int).0,
        r.1 as int == p_and(token_views(tokens@), pos as int).1,
        moved_on(pos as int, r.1 as int, tokens@.len() as int),
    decreases tokens@.len() - pos, 2int,
{
    let ghost t = token_views(tokens@);
    let (mut loadouts, mut p) = parse_factor(tokens, pos);
    while p < tokens.len() && matches!(tokens[p], MatrixToken::And)
        invariant
            t == token_views(tokens@),
            pos <= p <= tokens@.len(),
            p_and_rest(t, p as int, loadouts_of(loadouts@)) == p_and(t, pos as int),
        decreases tokens@.len() - p,
    {
        assert(t[p as int] == tokens@[p as int]@);
        let (rhs, p2) = parse_factor(tokens, p + 1);
        loadouts = cross_union(loadouts, rhs);
        p = p2;
    }
    proof {
        if p < tokens@.len() {
            assert(t[p as int] == tokens@[p as int]@);
        }
    }
    (loadouts, p)
}

/// Parses an expression at `pos`.
fn parse_or(tokens: &Vec<MatrixToken>, pos: usize) -> (r: (Vec<Vec<String>>, usize))
    requires
        pos <= tokens@.len(),
    ensures
        loadouts_of(r.0@) == p_or(token_views(tokens@), pos as int).0,
        r.1 as int == p_or(token_views(tokens@), pos as int).1,
        moved_on(pos as int, r.1 as int, tokens@.len() as int),
    decreases tokens@.len() - pos, 4int,
{
    let ghost t = token_views(tokens@);
    let (mut loadouts, mut p) = parse_and(tokens, pos);
    while p < tokens.len() && matches!(tokens[p], MatrixToken::Or)
        invariant
            t == token_views(tokens@),
            pos <= p <= tokens@.len(),
            p_or_rest(t, p as int, loadouts_of(loadouts@)) == p_or(t, pos as int),
        decreases tokens@.len() - p,
    {
        assert(t[p as int] == tokens@[p as int]@);
        let (mut more, p2) = parse_and(tokens, p + 1);
        let ghost a = loadouts@;
        let ghost b = more@;
        loadouts.append(&mut more);
        proof {
            assert(loadouts_of(loadouts@) =~= loadouts_of(a) + loadouts_of(b));
        }
        p = p2;
    }
    proof {
        if p < tokens@.len() {
            assert(t[p as int] == tokens@[p as int]@);
        }
    }
    (loadouts, p)
}

/// Whether the parentheses of `tokens` balance.
fn parens_balance(tokens: &Vec<MatrixToken>) -> (r: bool)
    ensures
        r == parens_balanced(token_views(tokens@)),
{
    let ghost t = token_views(tokens@);
    let mut depth: usize = 0;
    let mut i: usize = 0;
    while i < tokens.len()
        invariant
            t == token_views(tokens@),
            i <= tokens@.len(),
            depth <= i,
            paren_depth(t, i as int) == Some(depth as nat),
        decreases tokens@.len() - i,
    {
        assert(t[i as int] == tokens@[i as int]@);
        match &tokens[i] {
            MatrixToken::Open => {
                depth = depth + 1;
            },
            MatrixToken::Close => {
                if depth == 0 {
                    proof {
                        lemma_depth_lost(t, i as int + 1);
                    }
                    return false;
                }
                depth = depth - 1;
            },
            _ => {},
        }
        i = i + 1;
    }
    depth == 0
}

/// Once a `)` has closed nothing, the depth stays lost.
proof fn lemma_depth_lost(t: Seq<TokenView>, n: int)
    requires
        0 <= n <= t.len(),
        paren_depth(t, n) is None,
    ensures
        paren_depth(t, t.len() as int) is None,
    decreases t.len() - n,
{
    if n < t.len() {
        lemma_depth_lost(t, n + 1);
    }
}

/// The loadouts a colocation expression admits; none when its parentheses
/// do not balance.
pub fn parse_colocation_expr(expr: &str) -> (r: Vec<Vec<String>>)
    ensures
        loadouts_of(r@) == expr_loadouts(expr@),
{
    let tokens = tokenize_colocation_expr(expr);
    if !parens_balance(&tokens) {
        proof {
            assert(loadouts_of(Seq::<Vec<String>>::empty()) =~= seq![]);
        }
        return Vec::new();
    }
    let (loadouts, _) = parse_or(&tokens, 0);
    dedup_loadouts(loadouts)
}

impl ColocationSet {
    /// The loadouts this set admits: an all-`&` expression gives one, each
    /// `|` branch another; a malformed expression may give none.
    pub fn loadouts(&self) -> (r: Vec<Vec<String>>)
        ensures
            loadouts_of(r@) == expr_loadouts(self.models@),
    {
        parse_colocation_expr(self.models.as_str())
    }
}

/// Some loadout of some set holds both `a` and `b`.
pub open spec fn colocates(sets: Seq<ColocationSet>, a: Seq<char>, b: Seq<char>) -> bool {
    exists|i: int, j: int|
        0 <= i < sets.len() && 0 <= j < expr_loadouts(sets[i].models@).len()
            && (#[trigger] expr_loadouts(sets[i].models@)[j]).contains(a) && expr_loadouts(sets[i].models@)[j].contains(b)
}

impl LlamaSwapMatrixConfig {
    /// Whether `a` and `b` may be GPU-resident at the same time: some
    /// colocation set admits a loadout holding both. Models joined only by
    /// `|` are alternatives and do not colocate on that basis.
    pub fn can_colocate(&self, a: &ModelId, b: &ModelId) -> (r: bool)
        ensures
            r == colocates(self.sets@, a.0@, b.0@),
    {
        let mut i: usize = 0;
        while i < self.sets.len()
            invariant
                i <= self.sets@.len(),
                forall|k: int, j: int|
                    0 <= k < i && 0 <= j < expr_loadouts(self.sets@[k].models@).len() ==> !((#[trigger] expr_loadouts(self.sets@[k].models@)[j]).contains(a.0@) && expr_loadouts(self.sets@[k].models@)[j].contains(b.0@)),
            decreases self.sets@.len() - i,
        {
            let loadouts = self.sets[i].loadouts();
            let mut j: usize = 0;
            while j < loadouts.len()
                invariant
                    i < self.sets@.len(),
                    loadouts_of(loadouts@) == expr_loadouts(self.sets@[i as int].models@),
                    j <= loadouts@.len(),
                    forall|m: int| 0 <= m < j ==> !((#[trigger] loadouts_of(loadouts@)[m]).contains(a.0@) && loadouts_of(loadouts@)[m].contains(b.0@)),
                decreases loadouts@.len() - j,
            {
                if loadout_contains(&loadouts[j], a.0.as_str()) && loadout_contains(&loadouts[j], b.0.as_str()) {
                    proof {
                        assert(expr_loadouts(self.sets@[i as int].models@)[j as int].contains(a.0@));
                    }
                    return true;
                }
                j = j + 1;
            }
            i = i + 1;
        }
        false
    }
}
/// Colocation is symmetric: `a` may sit beside `b` exactly when `b` may
/// sit beside `a`.
pub proof fn lemma_colocates_symmetric(sets: Seq<ColocationSet>, a: Seq<char>, b: Seq<char>)
    ensures
        colocates(sets, a, b) == colocates(sets, b, a),
{
    if colocates(sets, a, b) {
        let (i, j) = choose|i: int, j: int|
            0 <= i < sets.len() && 0 <= j < expr_loadouts(sets[i].models@).len()
                && (#[trigger] expr_loadouts(sets[i].models@)[j]).contains(a) && expr_loadouts(sets[i].models@)[j].contains(b);
        assert(expr_loadouts(sets[i].models@)[j].contains(b) && expr_loadouts(sets[i].models@)[j].contains(a));
    }
    if colocates(sets, b, a) {
        let (i, j) = choose|i: int, j: int|
            0 <= i < sets.len() && 0 <= j < expr_loadouts(sets[i].models@).len()
                && (#[trigger] expr_loadouts(sets[i].models@)[j]).contains(b) && expr_loadouts(sets[i].models@)[j].contains(a);
        assert(expr_loadouts(sets[i].models@)[j].contains(a) && expr_loadouts(sets[i].models@)[j].contains(b));
    }
}

/// The expression names `x`: one of its tokens is the identifier `x`.
pub open spec fn names(expr: Seq<char>, x: Seq<char>) -> bool {
    exists|k: int| 0 <= k < tokens_of(expr).len() && #[trigger] tokens_of(expr)[k] == TokenView::Ident(x)
}

/// Every model id held by a loadout of `ls` is an identifier of `t`.
pub open spec fn idents_only(ls: Seq<Loadout>, t: Seq<TokenView>) -> bool {
    forall|j: int, x: Seq<char>|
        0 <= j < ls.len() && #[trigger] ls[j].contains(x) ==> exists|k: int| 0 <= k < t.len() && #[trigger] t[k] == TokenView::Ident(x)
}

proof fn lemma_idents_concat(a: Seq<Loadout>, b: Seq<Loadout>, t: Seq<TokenView>)
    requires
        idents_only(a, t),
        idents_only(b, t),
    ensures
        idents_only(a + b, t),
{
    assert forall|j: int, x: Seq<char>| 0 <= j < (a + b).len() && #[trigger] (a + b)[j].contains(x) implies exists|k: int| 0 <= k < t.len() && #[trigger] t[k] == TokenView::Ident(x) by {
        if j < a.len() {
            assert(a[j].contains(x));
        } else {
            assert(b[j - a.len()].contains(x));
        }
    }
}

proof fn lemma_idents_cross(l: Seq<Loadout>, r: Seq<Loadout>, t: Seq<TokenView>)
    requires
        idents_only(l, t),
        idents_only(r, t),
    ensures
        idents_only(cross(l, r), t),
    decreases l.len(),
{
    if l.len() > 0 {
        let front = l.drop_last();
        assert forall|j: int, x: Seq<char>| 0 <= j < front.len() && #[trigger] front[j].contains(x) implies exists|k: int| 0 <= k < t.len() && #[trigger] t[k] == TokenView::Ident(x) by {
            assert(l[j].contains(x));
        }
        lemma_idents_cross(front, r, t);
        let tail = r.map_values(|s: Loadout| l.last().union(s));
        assert forall|j: int, x: Seq<char>| 0 <= j < tail.len() && #[trigger] tail[j].contains(x) implies exists|k: int| 0 <= k < t.len() && #[trigger] t[k] == TokenView::Ident(x) by {
            if l.last().contains(x) {
                assert(l[l.len() - 1].contains(x));
            } else {
                assert(r[j].contains(x));
            }
        }
        lemma_idents_concat(cross(front, r), tail, t);
    }
}

proof fn lemma_idents_dedup(s: Seq<Loadout>, n: int, t: Seq<TokenView>)
    requires
        idents_only(s, t),
        n <= s.len(),
    ensures
        idents_only(dedup_spec(s, n), t),
    decreases n,
{
    if n > 0 {
        lemma_idents_dedup(s, n - 1, t);
        let d = dedup_spec(s, n - 1);
        if !d.contains(s[n - 1]) {
            assert forall|j: int, x: Seq<char>| 0 <= j < d.push(s[n - 1]).len() && #[trigger] d.push(s[n - 1])[j].contains(x) implies exists|k: int| 0 <= k < t.len() && #[trigger] t[k] == TokenView::Ident(x) by {
                if j < d.len() {
                    assert(d[j].contains(x));
                } else {
                    assert(s[n - 1].contains(x));
                }
            }
        }
    }
}

proof fn lemma_idents_factor(t: Seq<TokenView>, pos: int)
    ensures
        idents_only(p_factor(t, pos).0, t),
    decreases t.len() - pos, 0int,
{
    match tok_at(t, pos) {
        Some(TokenView::Ident(id)) => {
            let ls = seq![set![id]];
            assert forall|j: int, x: Seq<char>| 0 <= j < ls.len() && #[trigger] ls[j].contains(x) implies exists|k: int| 0 <= k < t.len() && #[trigger] t[k] == TokenView::Ident(x) by {
                assert(t[pos] == TokenView::Ident(x));
            }
        },
        Some(TokenView::Open) => {
            lemma_idents_or(t, pos + 1);
        },
        _ => {},
    }
}

proof fn lemma_idents_and_rest(t: Seq<TokenView>, pos: int, acc: Seq<Loadout>)
    requires
        idents_only(acc, t),
    ensures
        idents_only(p_and_rest(t, pos, acc).0, t),
    decreases t.len() - pos, 1int,
{
    if tok_at(t, pos) matches Some(TokenView::And) {
        let r = p_factor(t, pos + 1);
        lemma_idents_factor(t, pos + 1);
        lemma_idents_cross(acc, r.0, t);
        let next = cross_union_spec(acc, r.0);
        if moved_on(pos + 1, r.1, t.len() as int) {
            lemma_idents_and_rest(t, r.1, next);
        }
    }
}

proof fn lemma_idents_and(t: Seq<TokenView>, pos: int)
    ensures
        idents_only(p_and(t, pos).0, t),
    decreases t.len() - pos, 2int,
{
    let f = p_factor(t, pos);
    lemma_idents_factor(t, pos);
    if moved_on(pos, f.1, t.len() as int) {
        lemma_idents_and_rest(t, f.1, f.0);
    }
}

proof fn lemma_idents_or_rest(t: Seq<TokenView>, pos: int, acc: Seq<Loadout>)
    requires
        idents_only(acc, t),
    ensures
        idents_only(p_or_rest(t, pos, acc).0, t),
    decreases t.len() - pos, 3int,
{
    if tok_at(t, pos) matches Some(TokenView::Or) {
        let r = p_and(t, pos + 1);
        lemma_idents_and(t, pos + 1);
        lemma_idents_concat(acc, r.0, t);
        if moved_on(pos + 1, r.1, t.len() as int) {
            lemma_idents_or_rest(t, r.1, acc + r.0);
        }
    }
}

proof fn lemma_idents_or(t: Seq<TokenView>, pos: int)
    ensures
        idents_only(p_or(t, pos).0, t),
    decreases t.len() - pos, 4int,
{
    let a = p_and(t, pos);
    lemma_idents_and(t, pos);
    if moved_on(pos, a.1, t.len() as int) {
        lemma_idents_or_rest(t, a.1, a.0);
    }
}

/// Every model id in a loadout of an expression is named by that expression.
pub proof fn lemma_loadouts_named(expr: Seq<char>, j: int, x: Seq<char>)
    requires
        0 <= j < expr_loadouts(expr).len(),
        expr_loadouts(expr)[j].contains(x),
    ensures
        names(expr, x),
{
    let t = tokens_of(expr);
    if parens_balanced(t) {
        let r = p_or(t, 0).0;
        lemma_idents_or(t, 0);
        lemma_idents_dedup(r, r.len() as int, t);
        assert(dedup_spec(r, r.len() as int)[j].contains(x));
    }
}

/// Colocated models are named together: when `a` may sit beside `b`, some
/// colocation set's expression names both, so a matrix without sets
/// colocates nothing.
pub proof fn lemma_colocated_models_are_named(sets: Seq<ColocationSet>, a: Seq<char>, b: Seq<char>)
    ensures
        colocates(sets, a, b) ==> exists|i: int| 0 <= i < sets.len() && #[trigger] names(sets[i].models@, a) && names(sets[i].models@, b),
        sets.len() == 0 ==> !colocates(sets, a, b),
{
    if colocates(sets, a, b) {
        let (i, j) = choose|i: int, j: int|
            0 <= i < sets.len() && 0 <= j < expr_loadouts(sets[i].models@).len()
                && (#[trigger] expr_loadouts(sets[i].models@)[j]).contains(a) && expr_loadouts(sets[i].models@)[j].contains(b);
        lemma_loadouts_named(sets[i].models@, j, a);
        lemma_loadouts_named(sets[i].models@, j, b);
    }
}

/// The tokens are identifiers joined by `&`: identifier, `&`,
/// identifier, ..., identifier.
pub open spec fn and_chain(t: Seq<TokenView>) -> bool {
    &&& t.len() % 2 == 1
    &&& forall|i: int| 0 <= i < t.len() ==> (if i % 2 == 0 { #[trigger] t[i] is Ident } else { t[i] is And })
}

pub open spec fn ident_of(t: TokenView) -> Seq<char> {
    match t {
        TokenView::Ident(x) => x,
        _ => seq![],
    }
}

proof fn lemma_and_chain_depth(t: Seq<TokenView>, n: int)
    requires
        and_chain(t),
        0 <= n <= t.len(),
    ensures
        paren_depth(t, n) == Some(0nat),
    decreases n,
{
    if n > 0 {
        lemma_and_chain_depth(t, n - 1);
        assert(t[n - 1] is Ident || t[n - 1] is And);
    }
}

proof fn lemma_and_chain_rest(t: Seq<TokenView>, pos: int, acc: Seq<Loadout>)
    requires
        and_chain(t),
        1 <= pos <= t.len(),
        pos % 2 == 1,
        acc.len() == 1,
    ensures
        p_and_rest(t, pos, acc).1 == t.len(),
        p_and_rest(t, pos, acc).0.len() == 1,
        acc[0].subset_of(p_and_rest(t, pos, acc).0[0]),
        forall|j: int| pos < j < t.len() && j % 2 == 0 ==> p_and_rest(t, pos, acc).0[0].contains(ident_of(#[trigger] t[j])),
    decreases t.len() - pos,
{
    if pos < t.len() {
        assert(t[pos] is And);
        assert(t[pos + 1] is Ident);
        let id = ident_of(t[pos + 1]);
        let r = p_factor(t, pos + 1);
        assert(r == (seq![set![id]], pos + 2));
        let next = cross_union_spec(acc, r.0);
        assert(acc.drop_last() =~= Seq::<Loadout>::empty());
        assert(cross(acc.drop_last(), r.0) =~= Seq::<Loadout>::empty());
        assert(next =~= seq![acc[0].union(set![id])]);
        lemma_and_chain_rest(t, pos + 2, next);
        let out = p_and_rest(t, pos + 2, next).0[0];
        assert forall|j: int| pos < j < t.len() && j % 2 == 0 implies out.contains(ident_of(#[trigger] t[j])) by {
            if j == pos + 1 {
                assert(next[0].contains(id));
            }
        }
    }
}

/// An expression of identifiers joined by `&` admits exactly one loadout,
/// and it holds every model the expression names.
pub proof fn lemma_and_chain_single_loadout(expr: Seq<char>)
    requires
        and_chain(tokens_of(expr)),
    ensures
        expr_loadouts(expr).len() == 1,
        forall|x: Seq<char>| names(expr, x) ==> #[trigger] expr_loadouts(expr)[0].contains(x),
{
    let t = tokens_of(expr);
    lemma_and_chain_depth(t, t.len() as int);
    assert(t[0] is Ident);
    let id0 = ident_of(t[0]);
    assert(p_factor(t, 0) == (seq![set![id0]], 1int));
    lemma_and_chain_rest(t, 1, seq![set![id0]]);
    let r = p_and_rest(t, 1, seq![set![id0]]);
    assert(p_and(t, 0) == r);
    assert(p_or(t, 0) == r);
    let d = dedup_spec(r.0, 1);
    assert(dedup_spec(r.0, 0) =~= Seq::<Loadout>::empty());
    assert(d =~= seq![r.0[0]]);
    assert forall|x: Seq<char>| names(expr, x) implies #[trigger] expr_loadouts(expr)[0].contains(x) by {
        let k = choose|k: int| 0 <= k < t.len() && #[trigger] t[k] == TokenView::Ident(x);
        assert(k % 2 == 0);
        assert(ident_of(t[k]) == x);
        if k == 0 {
            assert(set![id0].contains(x));
        }
    }
}

/// Any two models named by a set written as identifiers joined by `&` may
/// be resident together.
pub proof fn lemma_and_set_colocates(sets: Seq<ColocationSet>, i: int, a: Seq<char>, b: Seq<char>)
    requires
        0 <= i < sets.len(),
        and_chain(tokens_of(sets[i].models@)),
        names(sets[i].models@, a),
        names(sets[i].models@, b),
    ensures
        colocates(sets, a, b),
{
    lemma_and_chain_single_loadout(sets[i].models@);
    assert(expr_loadouts(sets[i].models@)[0].contains(a));
    assert(expr_loadouts(sets[i].models@)[0].contains(b));
}

} // verus!
