//! Static checks over parsed Rust source that catch tests which look green
//! but verify nothing, and public functions hidden in test-only modules.
//!
//! A check fires unless the function carries a comment holding
//! `anemoi-guard:allow` within its span or in the run of comments and
//! attributes directly above it.
use vstd::prelude::*;
use crate::rust_source::{
    group_source, ident_text, group_text, inner_text, is_punct, item_view_of, leading_attr_texts, lines_from_one,
    inner_attr_texts, outer_attr_texts, rust_file_items, parse_rust_file, strip_delims, RustItem, RustItemView, rust_tokens, lex_rust, token_view_of, RustToken, RustTokenView,
};
use crate::llama_swap::{lines_of, lines_state, strip_cr};
use crate::text::{chars_of, substring, contains_str, owned, push_str, starts_with_str, str_eq, text_contains, text_starts_with, trim_text, trimmed};

verus! {

/// The checks the guard runs.
#[derive(Clone, Copy, Debug, PartialEq, Eq, Structural)]
pub enum Rule {
    /// A `pub` or `pub(...)` function declared inside a `#[cfg(test)]`
    /// module: production logic hiding where the shipped binary cannot
    /// reach it.
    PubFnInTestModule,
    /// A test whose only assertions are `is_ok`/`is_some` probes with no
    /// value comparison. Refusals and absences (`is_err`/`is_none`) are not
    /// probes.
    VacuousTest,
}

pub open spec fn rule_code(r: Rule) -> Seq<char> {
    match r {
        Rule::PubFnInTestModule => "pub-fn-in-test-module"@,
        Rule::VacuousTest => "vacuous-test"@,
    }
}

impl Rule {
    /// The rule's name in reports.
    pub fn code(self) -> (r: &'static str)
        ensures
            r@ == rule_code(self),
    {
        match self {
            Rule::PubFnInTestModule => "pub-fn-in-test-module",
            Rule::VacuousTest => "vacuous-test",
        }
    }
}

/// One finding: the rule, the function it names, the function's first line
/// and a message.
#[derive(Debug, PartialEq, Eq)]
pub struct Violation {
    pub rule: Rule,
    pub item: String,
    pub line: usize,
    pub message: String,
}

/// An attribute as written: its path segments, whether the path is a bare
/// identifier (one segment, no leading `::`, no arguments), and the tokens
/// of its list form when it has one (`#[cfg(test)]` has the tokens `test`).
#[derive(Debug, PartialEq, Eq)]
pub struct AttrSummary {
    pub segments: Vec<String>,
    pub bare_ident: bool,
    pub list_tokens: Option<String>,
}

/// A macro call inside a function body: the last segment of its path (empty
/// when it has none) and its tokens as text.
#[derive(Debug, PartialEq, Eq)]
pub struct MacroSummary {
    pub name: String,
    pub tokens: String,
}

/// A function item: its name, whether it is public in any form, the lines
/// its span starts and ends on (from 1), its attributes, the macro calls of
/// its body in visiting order, and the attributes of each module it sits
/// in, outermost first.
#[derive(Debug, PartialEq, Eq)]
pub struct FnSummary {
    pub name: String,
    pub is_public: bool,
    pub start_line: usize,
    pub end_line: usize,
    pub attrs: Vec<AttrSummary>,
    pub macros: Vec<MacroSummary>,
    pub module_attrs: Vec<Vec<AttrSummary>>,
}

pub open spec fn marker() -> Seq<char> {
    "anemoi-guard:allow"@
}

/// Line `line` (counted from 1) of `lines` holds the allow marker.
pub open spec fn marker_at(lines: Seq<String>, line: int) -> bool {
    1 <= line <= lines.len() && text_contains(lines[line - 1]@, marker())
}

/// Whether `lines` has line `line` holding the allow marker.
pub fn line_contains_marker(lines: &Vec<String>, line: usize) -> (r: bool)
    requires
        line >= 1,
    ensures
        r == marker_at(lines@, line as int),
{
    if line - 1 < lines.len() {
        contains_str(lines[line - 1].as_str(), "anemoi-guard:allow")
    } else {
        false
    }
}

/// A trimmed line that may sit between a function and its allow marker:
/// empty, a comment, or an attribute.
pub open spec fn is_decorator(t: Seq<char>) -> bool {
    t.len() == 0 || text_starts_with(t, "//"@) || text_starts_with(t, "#["@) || text_starts_with(t, "#!"@)
}

/// The text of line `line`, or nothing past the end.
pub open spec fn line_text(lines: Seq<String>, line: int) -> Seq<char> {
    if 1 <= line <= lines.len() {
        lines[line - 1]@
    } else {
        seq![]
    }
}

/// Whether the run of decorator lines directly above line `line` holds the
/// allow marker.
pub open spec fn marked_above(lines: Seq<String>, line: int) -> bool
    decreases line,
{
    if line <= 1 {
        false
    } else {
        let l = line - 1;
        if !is_decorator(trimmed(line_text(lines, l))) {
            false
        } else if marker_at(lines, l) {
            true
        } else {
            marked_above(lines, l)
        }
    }
}

/// A function spanning lines `start..=end` is suppressed.
pub open spec fn allowed(lines: Seq<String>, start: int, end: int) -> bool {
    (exists|line: int| start <= line <= end && #[trigger] marker_at(lines, line)) || marked_above(lines, start)
}

/// Whether a function spanning lines `start..=end` carries the allow
/// marker within its span or in the comments and attributes above it.
pub fn is_allowed(lines: &Vec<String>, start: usize, end: usize) -> (r: bool)
    requires
        start >= 1,
    ensures
        r == allowed(lines@, start as int, end as int),
{
    let hi = if end < lines.len() {
        end
    } else {
        lines.len()
    };
    let mut k: usize = start - 1;
    while k < hi
        invariant
            start >= 1,
            hi <= lines@.len(),
            hi <= end,
            start - 1 <= k,
            forall|line: int| start <= line <= k ==> !#[trigger] marker_at(lines@, line),
        decreases hi - k,
    {
        if line_contains_marker(lines, k + 1) {
            proof {
                assert(start <= k + 1 <= end && marker_at(lines@, k + 1));
            }
            return true;
        }
        k = k + 1;
    }
    proof {
        assert forall|line: int| start <= line <= end implies !#[trigger] marker_at(lines@, line) by {
            if line <= k {
            } else {
                assert(line > lines@.len());
            }
        }
    }
    proof {
        reveal_strlit("//");
        reveal_strlit("#[");
        reveal_strlit("#!");
    }
    let mut line: usize = start;
    while line > 1
        invariant
            1 <= line <= start,
            marked_above(lines@, start as int) == marked_above(lines@, line as int),
            forall|l: int| start <= l <= end ==> !#[trigger] marker_at(lines@, l),
        decreases line,
    {
        let ghost prev = line;
        line = line - 1;
        let text = if line - 1 < lines.len() {
            trim_text(lines[line - 1].as_str())
        } else {
            String::new()
        };
        proof {
            assert(text@ == trimmed(line_text(lines@, line as int)));
        }
        let t = text.as_str();
        let decorator = t.unicode_len() == 0 || starts_with_str(t, "//") || starts_with_str(t, "#[")
            || starts_with_str(t, "#!");
        if !decorator {
            proof {
                reveal_strlit("");
                assert(!is_decorator(trimmed(line_text(lines@, line as int))));
                assert(!marked_above(lines@, prev as int));
            }
            return false;
        }
        if line_contains_marker(lines, line) {
            proof {
                assert(marked_above(lines@, prev as int));
            }
            return true;
        }
    }
    false
}

/// Whether an assertion's tokens only probe `is_ok`/`is_some` without
/// comparing a value.
pub open spec fn weak_condition(tokens: Seq<char>) -> bool {
    (text_contains(tokens, "is_ok"@) || text_contains(tokens, "is_some"@)) && !(text_contains(tokens, "=="@)
        || text_contains(tokens, "!="@))
}

/// Whether an assertion's tokens only probe `is_ok`/`is_some` without
/// comparing a value.
pub fn is_weak_condition(tokens: &str) -> (r: bool)
    ensures
        r == weak_condition(tokens@),
{
    let has_probe = contains_str(tokens, "is_ok") || contains_str(tokens, "is_some");
    let has_comparison = contains_str(tokens, "==") || contains_str(tokens, "!=");
    has_probe && !has_comparison
}

/// How a macro call counts: `Some(true)` a strong assertion (one that
/// compares a value), `Some(false)` a weak probe, `None` no assertion.
pub open spec fn assertion_kind(m: MacroSummary) -> Option<bool> {
    let n = m.name@;
    if n == "assert_eq"@ || n == "assert_ne"@ || n == "assert_matches"@ || n == "debug_assert_eq"@ || n
        == "debug_assert_ne"@ {
        Some(true)
    } else if n == "assert"@ || n == "debug_assert"@ {
        Some(!weak_condition(m.tokens@))
    } else {
        None
    }
}

fn classify(m: &MacroSummary) -> (r: Option<bool>)
    ensures
        r == assertion_kind(*m),
{
    let n = m.name.as_str();
    if str_eq(n, "assert_eq") || str_eq(n, "assert_ne") || str_eq(n, "assert_matches") || str_eq(n, "debug_assert_eq")
        || str_eq(n, "debug_assert_ne") {
        Some(true)
    } else if str_eq(n, "assert") || str_eq(n, "debug_assert") {
        Some(!is_weak_condition(m.tokens.as_str()))
    } else {
        None
    }
}

/// A body is vacuous when it makes at least one weak probe and no strong
/// assertion.
pub open spec fn vacuous(macros: Seq<MacroSummary>) -> bool {
    &&& exists|i: int| 0 <= i < macros.len() && assertion_kind(#[trigger] macros[i]) == Some(false)
    &&& forall|i: int| 0 <= i < macros.len() ==> assertion_kind(#[trigger] macros[i]) != Some(true)
}

fn is_vacuous(macros: &Vec<MacroSummary>) -> (r: bool)
    ensures
        r == vacuous(macros@),
{
    let mut weak = false;
    let mut strong = false;
    let mut i: usize = 0;
    while i < macros.len()
        invariant
            i <= macros@.len(),
            weak == exists|k: int| 0 <= k < i && assertion_kind(#[trigger] macros@[k]) == Some(false),
            strong == exists|k: int| 0 <= k < i && assertion_kind(#[trigger] macros@[k]) == Some(true),
        decreases macros@.len() - i,
    {
        match classify(&macros[i]) {
            Some(true) => strong = true,
            Some(false) => weak = true,
            None => {},
        }
        i = i + 1;
    }
    weak && !strong
}

/// `#[cfg(..)]` whose tokens mention `test`.
pub open spec fn is_cfg_test(a: AttrSummary) -> bool {
    &&& a.bare_ident
    &&& a.segments@.len() == 1
    &&& a.segments@[0]@ == "cfg"@
    &&& a.list_tokens matches Some(t) && text_contains(t@, "test"@)
}

pub open spec fn has_cfg_test(attrs: Seq<AttrSummary>) -> bool {
    exists|i: int| 0 <= i < attrs.len() && is_cfg_test(#[trigger] attrs[i])
}

/// An attribute whose last path segment is `test` (`#[test]`,
/// `#[tokio::test]`).
pub open spec fn is_test_attr(a: AttrSummary) -> bool {
    a.segments@.len() > 0 && a.segments@.last()@ == "test"@
}

pub open spec fn has_test_attr(attrs: Seq<AttrSummary>) -> bool {
    exists|i: int| 0 <= i < attrs.len() && is_test_attr(#[trigger] attrs[i])
}

fn cfg_test_in(attrs: &Vec<AttrSummary>) -> (r: bool)
    ensures
        r == has_cfg_test(attrs@),
{
    let mut i: usize = 0;
    while i < attrs.len()
        invariant
            i <= attrs@.len(),
            forall|k: int| 0 <= k < i ==> !is_cfg_test(#[trigger] attrs@[k]),
        decreases attrs@.len() - i,
    {
        let a = &attrs[i];
        if a.bare_ident && a.segments.len() == 1 && str_eq(a.segments[0].as_str(), "cfg") {
            match &a.list_tokens {
                Some(t) => {
                    if contains_str(t.as_str(), "test") {
                        return true;
                    }
                },
                None => {},
            }
        }
        i = i + 1;
    }
    false
}

fn test_attr_in(attrs: &Vec<AttrSummary>) -> (r: bool)
    ensures
        r == has_test_attr(attrs@),
{
    let mut i: usize = 0;
    while i < attrs.len()
        invariant
            i <= attrs@.len(),
            forall|k: int| 0 <= k < i ==> !is_test_attr(#[trigger] attrs@[k]),
        decreases attrs@.len() - i,
    {
        let a = &attrs[i];
        let n = a.segments.len();
        if n > 0 && str_eq(a.segments[n - 1].as_str(), "test") {
            return true;
        }
        i = i + 1;
    }
    false
}

/// Whether a function sits in a `#[cfg(test)]` module, at any depth.
pub open spec fn in_test_module(f: FnSummary) -> bool {
    exists|i: int| 0 <= i < f.module_attrs@.len() && has_cfg_test(#[trigger] f.module_attrs@[i]@)
}

/// A finding by its content: rule, function name, line, message.
pub type ViolationView = (Rule, Seq<char>, usize, Seq<char>);

pub open spec fn violation_view(v: Violation) -> ViolationView {
    (v.rule, v.item@, v.line, v.message@)
}

/// The findings for one function, in rule order.
pub open spec fn fn_violations(f: FnSummary, lines: Seq<String>) -> Seq<ViolationView> {
    let ok = allowed(lines, f.start_line as int, f.end_line as int);
    let a: Seq<ViolationView> = if in_test_module(f) && !ok && f.is_public {
        seq![(
            Rule::PubFnInTestModule,
            f.name@,
            f.start_line,
            "`"@ + f.name@
                + "` is public inside a #[cfg(test)] module; production code reached only from tests is unreachable from the binary"@,
        )]
    } else {
        seq![]
    };
    let b: Seq<ViolationView> = if has_test_attr(f.attrs@) && !ok && vacuous(f.macros@) {
        seq![(
            Rule::VacuousTest,
            f.name@,
            f.start_line,
            "test `"@ + f.name@
                + "` only asserts is_ok/is_some; assert the observed value, not just that a call succeeded or produced something"@,
        )]
    } else {
        seq![]
    };
    a + b
}

/// The findings for `fns`, in order.
pub open spec fn all_violations(fns: Seq<FnSummary>, lines: Seq<String>) -> Seq<ViolationView>
    decreases fns.len(),
{
    if fns.len() == 0 {
        seq![]
    } else {
        all_violations(fns.drop_last(), lines) + fn_violations(fns.last(), lines)
    }
}

/// Runs both checks over every function of a source file whose lines are
/// `lines`.
pub fn check_fns(fns: &Vec<FnSummary>, lines: &Vec<String>) -> (r: Vec<Violation>)
    requires
        forall|i: int| 0 <= i < fns@.len() ==> (#[trigger] fns@[i]).start_line >= 1,
    ensures
        r@.map_values(|v: Violation| violation_view(v)) == all_violations(fns@, lines@),
{
    let mut out: Vec<Violation> = Vec::new();
    let mut i: usize = 0;
    while i < fns.len()
        invariant
            i <= fns@.len(),
            forall|k: int| 0 <= k < fns@.len() ==> (#[trigger] fns@[k]).start_line >= 1,
            out@.map_values(|v: Violation| violation_view(v)) == all_violations(fns@.take(i as int), lines@),
        decreases fns@.len() - i,
    {
        let f = &fns[i];
        let ghost before = out@.map_values(|v: Violation| violation_view(v));
        proof {
            assert(fns@.take(i + 1).drop_last() =~= fns@.take(i as int));
        }
        let ok = is_allowed(lines, f.start_line, f.end_line);
        let mut in_test = false;
        let mut j: usize = 0;
        while j < f.module_attrs.len()
            invariant
                j <= f.module_attrs@.len(),
                in_test == exists|k: int| 0 <= k < j && has_cfg_test(#[trigger] f.module_attrs@[k]@),
            decreases f.module_attrs@.len() - j,
        {
            if cfg_test_in(&f.module_attrs[j]) {
                in_test = true;
            }
            j = j + 1;
        }
        let ghost mid = out@;
        if in_test && !ok && f.is_public {
            let mut message = owned("`");
            push_str(&mut message, f.name.as_str());
            push_str(
                &mut message,
                "` is public inside a #[cfg(test)] module; production code reached only from tests is unreachable from the binary",
            );
            out.push(Violation { rule: Rule::PubFnInTestModule, item: f.name.clone(), line: f.start_line, message });
        }
        let ghost mid2 = out@;
        if test_attr_in(&f.attrs) && !ok && is_vacuous(&f.macros) {
            let mut message = owned("test `");
            push_str(&mut message, f.name.as_str());
            push_str(
                &mut message,
                "` only asserts is_ok/is_some; assert the observed value, not just that a call succeeded or produced something",
            );
            out.push(Violation { rule: Rule::VacuousTest, item: f.name.clone(), line: f.start_line, message });
        }
        proof {
            assert(out@.map_values(|v: Violation| violation_view(v)) =~= before + fn_violations(*f, lines@));
        }
        i = i + 1;
    }
    proof {
        assert(fns@.take(fns@.len() as int) =~= fns@);
    }
    out
}

/// An attribute by its content: path segments, whether the path is one
/// plain identifier, and the printed tokens of its list form.
pub type AttrView = (Seq<Seq<char>>, bool, Option<Seq<char>>);

pub open spec fn attr_view(a: AttrSummary) -> AttrView {
    (
        a.segments@.map_values(|s: String| s@),
        a.bare_ident,
        match a.list_tokens {
            Some(t) => Some(t@),
            None => None,
        },
    )
}

pub open spec fn attr_view_of() -> spec_fn(AttrSummary) -> AttrView {
    |a: AttrSummary| attr_view(a)
}

/// A macro call by its content: name and printed tokens.
pub type MacroView = (Seq<char>, Seq<char>);

pub open spec fn macro_view_of() -> spec_fn(MacroSummary) -> MacroView {
    |m: MacroSummary| (m.name@, m.tokens@)
}

/// The path segments of an attribute read from `toks[i]` on (identifiers
/// joined by `::`), and the index just after them.
pub open spec fn path_from(toks: Seq<RustTokenView>, i: int) -> (Seq<Seq<char>>, int)
    decreases toks.len() - i,
{
    if 0 <= i < toks.len() && toks[i] is Ident {
        if i + 3 < toks.len() && is_punct(toks[i + 1], ':') && is_punct(toks[i + 2], ':') && toks[i + 3] is Ident {
            let r = path_from(toks, i + 3);
            (seq![ident_text(toks[i])] + r.0, r.1)
        } else {
            (seq![ident_text(toks[i])], i + 1)
        }
    } else {
        (seq![], i)
    }
}

/// The attribute whose bracketed tokens are `toks`: its path (after an
/// optional leading `::`), whether that path is one plain identifier, and
/// the printed tokens of the group that follows the path, if one does.
pub open spec fn attr_of_tokens(toks: Seq<RustTokenView>) -> AttrView {
    let lead = toks.len() >= 2 && is_punct(toks[0], ':') && is_punct(toks[1], ':');
    let p = path_from(toks, if lead { 2 } else { 0 });
    let list = if p.0.len() > 0 && 0 <= p.1 < toks.len() && toks[p.1] is Group {
        Some(group_text(toks[p.1]))
    } else {
        None
    };
    (p.0, !lead && p.0.len() == 1, list)
}

/// The attribute whose bracketed text is printed as `d`.
pub open spec fn attr_of(d: Seq<char>) -> Option<AttrView> {
    match rust_tokens(d) {
        Some(t) => Some(attr_of_tokens(t)),
        None => None,
    }
}

/// The attributes printed as the first `n` of `texts`.
pub open spec fn attrs_of(texts: Seq<Seq<char>>, n: int) -> Option<Seq<AttrView>>
    decreases n,
{
    if n <= 0 {
        Some(seq![])
    } else {
        match (attrs_of(texts, n - 1), attr_of(texts[n - 1])) {
            (Some(p), Some(a)) => Some(p.push(a)),
            _ => None,
        }
    }
}

fn token_is_punct(t: &RustToken, c: char) -> (r: bool)
    ensures
        r == is_punct(t@, c),
{
    match t {
        RustToken::Punct(x, _) => *x == c,
        _ => false,
    }
}

/// The attribute whose bracketed tokens are `toks`.
fn attr_from_tokens(toks: &Vec<RustToken>) -> (r: AttrSummary)
    ensures
        attr_view(r) == attr_of_tokens(toks@.map_values(token_view_of())),
{
    let ghost t = toks@.map_values(token_view_of());
    let n = toks.len();
    let lead = n >= 2 && token_is_punct(&toks[0], ':') && token_is_punct(&toks[1], ':');
    proof {
        if n >= 2 {
            assert(t[0] == toks@[0]@);
            assert(t[1] == toks@[1]@);
        }
    }
    let start: usize = if lead { 2 } else { 0 };
    let ghost whole = path_from(t, start as int);
    let mut segments: Vec<String> = Vec::new();
    let mut i: usize = start;
    loop
        invariant_except_break
            segments@.map_values(|s: String| s@) + path_from(t, i as int).0 == whole.0,
            path_from(t, i as int).1 == whole.1,
        invariant
            t == toks@.map_values(token_view_of()),
            n == toks@.len(),
            whole == path_from(t, start as int),
            start <= i <= n,
        ensures
            segments@.map_values(|s: String| s@) == whole.0,
            i as int == whole.1,
            i <= n,
        decreases n - i,
    {
        let ghost so_far = segments@.map_values(|s: String| s@);
        let ghost here = path_from(t, i as int);
        if i >= n {
            proof {
                assert(so_far + here.0 =~= so_far);
            }
            break;
        }
        proof {
            assert(t[i as int] == toks@[i as int]@);
        }
        let name = match &toks[i] {
            RustToken::Ident(x) => Some(x.clone()),
            _ => None,
        };
        if name.is_none() {
            proof {
                assert(so_far + here.0 =~= so_far);
            }
            break;
        }
        let x = name.unwrap();
        segments.push(x);
        proof {
            assert(segments@.map_values(|s: String| s@) =~= so_far.push(x@));
        }
        let more = n - i > 3 && token_is_punct(&toks[i + 1], ':') && token_is_punct(&toks[i + 2], ':')
            && match &toks[i + 3] {
            RustToken::Ident(_) => true,
            _ => false,
        };
        proof {
            if n - i > 3 {
                assert(t[i + 1] == toks@[i + 1]@);
                assert(t[i + 2] == toks@[i + 2]@);
                assert(t[i + 3] == toks@[i + 3]@);
            }
        }
        if more {
            proof {
                assert(so_far.push(x@) + path_from(t, i + 3).0 =~= so_far + here.0);
            }
            i = i + 3;
        } else {
            proof {
                assert(so_far.push(x@) =~= so_far + here.0);
            }
            i = i + 1;
            break;
        }
    }
    let list_tokens = if segments.len() > 0 && i < n {
        match &toks[i] {
            RustToken::Group(_, d) => Some(d.clone()),
            _ => None,
        }
    } else {
        None
    };
    proof {
        if i < n {
            assert(t[i as int] == toks@[i as int]@);
        }
    }
    let bare_ident = !lead && segments.len() == 1;
    AttrSummary { segments, bare_ident, list_tokens }
}

proof fn lemma_attrs_none(texts: Seq<Seq<char>>, k: int, n: int)
    requires
        0 <= k <= n,
        attrs_of(texts, k) is None,
    ensures
        attrs_of(texts, n) is None,
    decreases n - k,
{
    if k < n {
        lemma_attrs_none(texts, k + 1, n);
    }
}

/// The attributes printed as `texts`; `None` when one of them does not lex.
fn attrs_from_texts(texts: &Vec<String>) -> (r: Option<Vec<AttrSummary>>)
    ensures
        r is None <==> attrs_of(texts@.map_values(|s: String| s@), texts@.len() as int) is None,
        r matches Some(v) ==> attrs_of(texts@.map_values(|s: String| s@), texts@.len() as int) == Some(
            v@.map_values(attr_view_of()),
        ),
{
    let ghost ts = texts@.map_values(|s: String| s@);
    let mut out: Vec<AttrSummary> = Vec::new();
    let mut i: usize = 0;
    while i < texts.len()
        invariant
            ts == texts@.map_values(|s: String| s@),
            i <= texts@.len(),
            attrs_of(ts, i as int) == Some(out@.map_values(attr_view_of())),
        decreases texts@.len() - i,
    {
        proof {
            assert(ts[i as int] == texts@[i as int]@);
        }
        match lex_rust(texts[i].as_str()) {
            Some(toks) => {
                let a = attr_from_tokens(&toks);
                let ghost before = out@.map_values(attr_view_of());
                out.push(a);
                proof {
                    assert(out@.map_values(attr_view_of()) =~= before.push(attr_view(a)));
                }
            },
            None => {
                proof {
                    lemma_attrs_none(ts, i + 1, texts@.len() as int);
                }
                return None;
            },
        }
        i = i + 1;
    }
    Some(out)
}

/// A Rust keyword (strict or reserved), which no macro is named after.
pub open spec fn is_keyword(s: Seq<char>) -> bool {
    s == "as"@ || s == "break"@ || s == "const"@ || s == "continue"@ || s == "crate"@
    || s == "else"@ || s == "enum"@ || s == "extern"@ || s == "false"@ || s == "fn"@ || s == "for"@
    || s == "if"@ || s == "impl"@ || s == "in"@ || s == "let"@ || s == "loop"@ || s == "match"@
    || s == "mod"@ || s == "move"@ || s == "mut"@ || s == "pub"@ || s == "ref"@ || s == "return"@
    || s == "self"@ || s == "Self"@ || s == "static"@ || s == "struct"@ || s == "super"@
    || s == "trait"@ || s == "true"@ || s == "type"@ || s == "unsafe"@ || s == "use"@
    || s == "where"@ || s == "while"@ || s == "async"@ || s == "await"@ || s == "dyn"@
    || s == "abstract"@ || s == "become"@ || s == "box"@ || s == "do"@ || s == "final"@
    || s == "macro"@ || s == "override"@ || s == "priv"@ || s == "typeof"@ || s == "unsized"@
    || s == "virtual"@ || s == "yield"@ || s == "try"@
}

/// Whether `s` is a Rust keyword.
fn keyword(s: &str) -> (r: bool)
    ensures
        r == is_keyword(s@),
{
    str_eq(s, "as") || str_eq(s, "break") || str_eq(s, "const") || str_eq(s, "continue")
    || str_eq(s, "crate") || str_eq(s, "else") || str_eq(s, "enum") || str_eq(s, "extern")
    || str_eq(s, "false") || str_eq(s, "fn") || str_eq(s, "for") || str_eq(s, "if")
    || str_eq(s, "impl") || str_eq(s, "in") || str_eq(s, "let") || str_eq(s, "loop")
    || str_eq(s, "match") || str_eq(s, "mod") || str_eq(s, "move") || str_eq(s, "mut")
    || str_eq(s, "pub") || str_eq(s, "ref") || str_eq(s, "return") || str_eq(s, "self")
    || str_eq(s, "Self") || str_eq(s, "static") || str_eq(s, "struct") || str_eq(s, "super")
    || str_eq(s, "trait") || str_eq(s, "true") || str_eq(s, "type") || str_eq(s, "unsafe")
    || str_eq(s, "use") || str_eq(s, "where") || str_eq(s, "while") || str_eq(s, "async")
    || str_eq(s, "await") || str_eq(s, "dyn") || str_eq(s, "abstract") || str_eq(s, "become")
    || str_eq(s, "box") || str_eq(s, "do") || str_eq(s, "final") || str_eq(s, "macro")
    || str_eq(s, "override") || str_eq(s, "priv") || str_eq(s, "typeof") || str_eq(s, "unsized")
    || str_eq(s, "virtual") || str_eq(s, "yield") || str_eq(s, "try")
}

/// The macro call named by the token at `k`: an identifier that is not a
/// keyword, a lone `!`, then the call's group, or, as in
/// `macro_rules! name { .. }`, an identifier and then the group.
pub open spec fn macro_at(toks: Seq<RustTokenView>, k: int) -> Option<MacroView> {
    if 0 <= k && k + 2 < toks.len() && toks[k] is Ident && !is_keyword(ident_text(toks[k]))
        && toks[k + 1] == RustTokenView::Punct('!', false) {
        if toks[k + 2] is Group {
            Some((ident_text(toks[k]), group_text(toks[k + 2])))
        } else if k + 3 < toks.len() && toks[k + 2] is Ident && toks[k + 3] is Group {
            Some((ident_text(toks[k]), group_text(toks[k + 3])))
        } else {
            None
        }
    } else {
        None
    }
}

/// The group at `k` is the body of a macro call or of an attribute; its
/// tokens are not searched for further calls.
pub open spec fn claimed_group(toks: Seq<RustTokenView>, k: int) -> bool {
    ||| (k >= 2 && macro_at(toks, k - 2) is Some)
    ||| (k >= 3 && macro_at(toks, k - 3) is Some && toks[k - 1] is Ident)
    ||| (k >= 1 && is_punct(toks[k - 1], '#'))
    ||| (k >= 2 && is_punct(toks[k - 1], '!') && is_punct(toks[k - 2], '#'))
}

/// The macro calls in the code `t`, in the order they are written, the
/// calls nested in other calls' or attributes' tokens left out; `None`
/// when some part does not lex.
pub open spec fn macros_in(t: Seq<char>) -> Option<Seq<MacroView>>
    decreases t.len(), 1int, 0int,
{
    match rust_tokens(t) {
        Some(toks) => macros_from(t, toks, toks.len() as int),
        None => None,
    }
}

/// The macro calls among the first `n` tokens `toks` of the code `t`.
pub open spec fn macros_from(t: Seq<char>, toks: Seq<RustTokenView>, n: int) -> Option<Seq<MacroView>>
    decreases t.len(), 0int, n,
{
    if n <= 0 {
        Some(seq![])
    } else {
        match macros_from(t, toks, n - 1) {
            None => None,
            Some(prev) => match macro_at(toks, n - 1) {
                Some(m) => Some(prev.push(m)),
                None => if toks[n - 1] is Group && !claimed_group(toks, n - 1) {
                    let inner = strip_delims(group_source(toks[n - 1]));
                    if inner.len() < t.len() {
                        match macros_in(inner) {
                            Some(ms) => Some(prev + ms),
                            None => None,
                        }
                    } else {
                        None
                    }
                } else {
                    Some(prev)
                },
            },
        }
    }
}

proof fn lemma_macros_none(t: Seq<char>, toks: Seq<RustTokenView>, k: int, n: int)
    requires
        0 <= k <= n,
        macros_from(t, toks, k) is None,
    ensures
        macros_from(t, toks, n) is None,
    decreases n - k,
{
    if k < n {
        lemma_macros_none(t, toks, k + 1, n);
    }
}

fn token_is_ident(t: &RustToken) -> (r: bool)
    ensures
        r == (t@ is Ident),
{
    match t {
        RustToken::Ident(_) => true,
        _ => false,
    }
}

fn token_is_group(t: &RustToken) -> (r: bool)
    ensures
        r == (t@ is Group),
{
    match t {
        RustToken::Group(_, _) => true,
        _ => false,
    }
}

fn token_text(t: &RustToken) -> (r: String)
    ensures
        t@ is Ident ==> r@ == ident_text(t@),
        t@ is Group ==> r@ == group_text(t@),
{
    match t {
        RustToken::Ident(x) => x.clone(),
        RustToken::Group(_, d) => d.clone(),
        _ => String::new(),
    }
}

/// The macro call named by the token at `k`.
fn macro_call_at(toks: &Vec<RustToken>, k: usize) -> (r: Option<MacroSummary>)
    ensures
        match macro_at(toks@.map_values(token_view_of()), k as int) {
            Some(m) => r matches Some(x) && x.name@ == m.0 && x.tokens@ == m.1,
            None => r is None,
        },
{
    let ghost t = toks@.map_values(token_view_of());
    let n = toks.len();
    if k >= n || n - k <= 2 {
        return None;
    }
    proof {
        assert(t[k as int] == toks@[k as int]@);
        assert(t[k + 1] == toks@[k + 1]@);
        assert(t[k + 2] == toks@[k + 2]@);
        if n - k > 3 {
            assert(t[k + 3] == toks@[k + 3]@);
        }
    }
    if !token_is_ident(&toks[k]) {
        return None;
    }
    let name = token_text(&toks[k]);
    if keyword(name.as_str()) {
        return None;
    }
    let bang = match &toks[k + 1] {
        RustToken::Punct(c, joint) => *c == '!' && !*joint,
        _ => false,
    };
    if !bang {
        return None;
    }
    if token_is_group(&toks[k + 2]) {
        Some(MacroSummary { name, tokens: token_text(&toks[k + 2]) })
    } else if n - k > 3 && token_is_ident(&toks[k + 2]) && token_is_group(&toks[k + 3]) {
        Some(MacroSummary { name, tokens: token_text(&toks[k + 3]) })
    } else {
        None
    }
}

/// Whether the group at `k` is the body of a macro call or an attribute.
fn group_claimed(toks: &Vec<RustToken>, k: usize) -> (r: bool)
    requires
        k < toks@.len(),
    ensures
        r == claimed_group(toks@.map_values(token_view_of()), k as int),
{
    let ghost t = toks@.map_values(token_view_of());
    proof {
        if k >= 1 {
            assert(t[k - 1] == toks@[k - 1]@);
        }
        if k >= 2 {
            assert(t[k - 2] == toks@[k - 2]@);
        }
    }
    (k >= 2 && macro_call_at(toks, k - 2).is_some())
        || (k >= 3 && macro_call_at(toks, k - 3).is_some() && token_is_ident(&toks[k - 1]))
        || (k >= 1 && token_is_punct(&toks[k - 1], '#'))
        || (k >= 2 && token_is_punct(&toks[k - 1], '!') && token_is_punct(&toks[k - 2], '#'))
}

/// The macro calls in the code `t`, in the order they are written; the
/// tokens of a call or an attribute are not searched. `None` when some part
/// does not lex.
pub fn code_macros(t: &str) -> (r: Option<Vec<MacroSummary>>)
    ensures
        r is None <==> macros_in(t@) is None,
        r matches Some(v) ==> macros_in(t@) == Some(v@.map_values(macro_view_of())),
    decreases t@.len(),
{
    let toks = match lex_rust(t) {
        Some(x) => x,
        None => return None,
    };
    let ghost tv = toks@.map_values(token_view_of());
    let mut out: Vec<MacroSummary> = Vec::new();
    let mut k: usize = 0;
    while k < toks.len()
        invariant
            tv == toks@.map_values(token_view_of()),
            rust_tokens(t@) == Some(tv),
            k <= toks@.len(),
            macros_from(t@, tv, k as int) == Some(out@.map_values(macro_view_of())),
        decreases toks@.len() - k,
    {
        let ghost before = out@.map_values(macro_view_of());
        proof {
            assert(tv[k as int] == toks@[k as int]@);
        }
        match macro_call_at(&toks, k) {
            Some(m) => {
                out.push(m);
                proof {
                    assert(out@.map_values(macro_view_of()) =~= before.push((m.name@, m.tokens@)));
                }
            },
            None => {
                if token_is_group(&toks[k]) && !group_claimed(&toks, k) {
                    let src = match &toks[k] {
                        RustToken::Group(s, _) => s.clone(),
                        _ => String::new(),
                    };
                    let inner = inner_text(src.as_str());
                    if inner.unicode_len() < t.unicode_len() {
                        match code_macros(inner.as_str()) {
                            Some(ms) => {
                                let mut ms = ms;
                                let ghost more = ms@.map_values(macro_view_of());
                                out.append(&mut ms);
                                proof {
                                    assert(out@.map_values(macro_view_of()) =~= before + more);
                                }
                            },
                            None => {
                                proof {
                                    lemma_macros_none(t@, tv, k + 1, tv.len() as int);
                                }
                                return None;
                            },
                        }
                    } else {
                        proof {
                            lemma_macros_none(t@, tv, k + 1, tv.len() as int);
                        }
                        return None;
                    }
                }
            },
        }
        k = k + 1;
    }
    Some(out)
}

/// The attributes and the macro calls of the function whose source text is
/// `item`: its outer attributes, then the inner ones that open its body,
/// and the calls of its body.
pub open spec fn fn_parts(item: Seq<char>) -> Option<(Seq<AttrView>, Seq<MacroView>)> {
    match rust_tokens(item) {
        None => None,
        Some(toks) => if toks.len() > 0 && toks.last() is Group {
            let body = strip_delims(group_source(toks.last()));
            match rust_tokens(body) {
                None => None,
                Some(btoks) => {
                    let texts = outer_attr_texts(toks, 0) + inner_attr_texts(btoks, 0);
                    match (attrs_of(texts, texts.len() as int), macros_in(body)) {
                        (Some(a), Some(m)) => Some((a, m)),
                        _ => None,
                    }
                },
            }
        } else {
            None
        },
    }
}

/// The attributes of the module whose source text is `item` and whose body
/// (braces left out) is `inner`: its outer attributes, then the inner ones
/// that open its body.
pub open spec fn mod_attrs(item: Seq<char>, inner: Seq<char>) -> Option<Seq<AttrView>> {
    match (rust_tokens(item), rust_tokens(inner)) {
        (Some(t), Some(it)) => {
            let texts = outer_attr_texts(t, 0) + inner_attr_texts(it, 0);
            attrs_of(texts, texts.len() as int)
        },
        _ => None,
    }
}

/// A function summary by its content.
pub type FnSummaryView = (Seq<char>, bool, usize, usize, Seq<AttrView>, Seq<MacroView>, Seq<Seq<AttrView>>);

pub open spec fn attr_list_view_of() -> spec_fn(Vec<AttrSummary>) -> Seq<AttrView> {
    |m: Vec<AttrSummary>| m@.map_values(attr_view_of())
}

pub open spec fn summary_view_of() -> spec_fn(FnSummary) -> FnSummaryView {
    |f: FnSummary|
        (
            f.name@,
            f.is_public,
            f.start_line,
            f.end_line,
            f.attrs@.map_values(attr_view_of()),
            f.macros@.map_values(macro_view_of()),
            f.module_attrs@.map_values(attr_list_view_of()),
        )
}

/// The summaries of the functions of the Rust code `t`, whose first line is
/// line `base` of its file, inside the modules whose attributes are `mods`;
/// `None` when some part does not parse.
pub open spec fn summaries_in(t: Seq<char>, base: int, mods: Seq<Seq<AttrView>>) -> Option<Seq<FnSummaryView>>
    decreases t.len(), 1int, 0int,
{
    match rust_file_items(t) {
        Some(items) => summaries_from(t, base, mods, items, items.len() as int),
        None => None,
    }
}

/// The summaries of the functions among the first `n` items `items` of `t`,
/// those of inline modules included, in the order they are written.
pub open spec fn summaries_from(
    t: Seq<char>,
    base: int,
    mods: Seq<Seq<AttrView>>,
    items: Seq<RustItemView>,
    n: int,
) -> Option<Seq<FnSummaryView>>
    decreases t.len(), 0int, n,
{
    if n <= 0 {
        Some(seq![])
    } else {
        match summaries_from(t, base, mods, items, n - 1) {
            None => None,
            Some(prev) => match items[n - 1] {
                RustItemView::Fn(name, is_public, start, end) => {
                    let first = base + start.0 - 1;
                    let last = base + end - 1;
                    if 0 <= first <= usize::MAX && 0 <= last <= usize::MAX {
                        match fn_parts(start.1) {
                            Some(p) => Some(prev.push((name, is_public, first as usize, last as usize, p.0, p.1, mods))),
                            None => None,
                        }
                    } else {
                        None
                    }
                },
                RustItemView::Mod(item, Some(c)) => {
                    let inner = strip_delims(c.1);
                    if inner.len() < t.len() && base + c.0 - 1 <= usize::MAX {
                        match mod_attrs(item, inner) {
                            Some(a) => match summaries_in(inner, base + c.0 - 1, mods.push(a)) {
                                Some(s) => Some(prev + s),
                                None => None,
                            },
                            None => None,
                        }
                    } else {
                        None
                    }
                },
                _ => Some(prev),
            },
        }
    }
}

/// The summaries of the functions of the Rust file `source`, those inside
/// inline modules included; `None` when it does not parse.
pub open spec fn fn_summaries(source: Seq<char>) -> Option<Seq<FnSummaryView>> {
    summaries_in(source, 1, seq![])
}

proof fn lemma_summaries_none(t: Seq<char>, base: int, mods: Seq<Seq<AttrView>>, items: Seq<RustItemView>, k: int, n: int)
    requires
        0 <= k <= n,
        summaries_from(t, base, mods, items, k) is None,
    ensures
        summaries_from(t, base, mods, items, n) is None,
    decreases n - k,
{
    if k < n {
        lemma_summaries_none(t, base, mods, items, k + 1, n);
    }
}

/// A copy of an attribute summary.
fn copy_attr(a: &AttrSummary) -> (r: AttrSummary)
    ensures
        attr_view(r) == attr_view(*a),
{
    let mut segments: Vec<String> = Vec::new();
    let mut i: usize = 0;
    while i < a.segments.len()
        invariant
            i <= a.segments@.len(),
            segments@.map_values(|s: String| s@) == a.segments@.take(i as int).map_values(|s: String| s@),
        decreases a.segments@.len() - i,
    {
        let ghost before = segments@.map_values(|s: String| s@);
        segments.push(a.segments[i].clone());
        proof {
            assert(a.segments@.take(i + 1).map_values(|s: String| s@) =~= a.segments@.take(i as int).map_values(
                |s: String| s@,
            ).push(a.segments@[i as int]@));
            assert(segments@.map_values(|s: String| s@) =~= before.push(a.segments@[i as int]@));
        }
        i = i + 1;
    }
    proof {
        assert(a.segments@.take(a.segments@.len() as int) =~= a.segments@);
    }
    let list_tokens = match &a.list_tokens {
        Some(t) => Some(t.clone()),
        None => None,
    };
    AttrSummary { segments, bare_ident: a.bare_ident, list_tokens }
}

/// A copy of a list of attribute summaries.
fn copy_attrs(v: &Vec<AttrSummary>) -> (r: Vec<AttrSummary>)
    ensures
        r@.map_values(attr_view_of()) == v@.map_values(attr_view_of()),
{
    let mut out: Vec<AttrSummary> = Vec::new();
    let mut i: usize = 0;
    while i < v.len()
        invariant
            i <= v@.len(),
            out@.map_values(attr_view_of()) == v@.take(i as int).map_values(attr_view_of()),
        decreases v@.len() - i,
    {
        let ghost before = out@.map_values(attr_view_of());
        let a = copy_attr(&v[i]);
        out.push(a);
        proof {
            assert(v@.take(i + 1).map_values(attr_view_of()) =~= v@.take(i as int).map_values(attr_view_of()).push(
                attr_view(v@[i as int]),
            ));
            assert(out@.map_values(attr_view_of()) =~= before.push(attr_view(a)));
        }
        i = i + 1;
    }
    proof {
        assert(v@.take(v@.len() as int) =~= v@);
    }
    out
}

/// A copy of the attribute lists of nested modules.
fn copy_attr_lists(v: &Vec<Vec<AttrSummary>>) -> (r: Vec<Vec<AttrSummary>>)
    ensures
        r@.map_values(attr_list_view_of()) == v@.map_values(attr_list_view_of()),
{
    let mut out: Vec<Vec<AttrSummary>> = Vec::new();
    let mut i: usize = 0;
    while i < v.len()
        invariant
            i <= v@.len(),
            out@.map_values(attr_list_view_of()) == v@.take(i as int).map_values(attr_list_view_of()),
        decreases v@.len() - i,
    {
        let ghost before = out@.map_values(attr_list_view_of());
        let a = copy_attrs(&v[i]);
        out.push(a);
        proof {
            assert(v@.take(i + 1).map_values(attr_list_view_of()) =~= v@.take(i as int).map_values(
                attr_list_view_of(),
            ).push(v@[i as int]@.map_values(attr_view_of())));
            assert(out@.map_values(attr_list_view_of()) =~= before.push(a@.map_values(attr_view_of())));
        }
        i = i + 1;
    }
    proof {
        assert(v@.take(v@.len() as int) =~= v@);
    }
    out
}

/// The attributes of an item whose leading tokens are `toks` and whose body
/// (braces left out) lexes to `body`.
fn item_attrs(toks: &Vec<RustToken>, body: &Vec<RustToken>) -> (r: Option<Vec<AttrSummary>>)
    ensures
        ({
            let texts = outer_attr_texts(toks@.map_values(token_view_of()), 0) + inner_attr_texts(
                body@.map_values(token_view_of()),
                0,
            );
            &&& r is None <==> attrs_of(texts, texts.len() as int) is None
            &&& r matches Some(v) ==> attrs_of(texts, texts.len() as int) == Some(v@.map_values(attr_view_of()))
        }),
{
    let mut texts = leading_attr_texts(toks, false);
    let mut inner = leading_attr_texts(body, true);
    let ghost a = texts@.map_values(|s: String| s@);
    let ghost b = inner@.map_values(|s: String| s@);
    texts.append(&mut inner);
    proof {
        assert(texts@.map_values(|s: String| s@) =~= a + b);
    }
    attrs_from_texts(&texts)
}

/// The summary of the function `name` whose source text is `item`.
fn fn_summary(
    name: &String,
    is_public: bool,
    start_line: usize,
    end_line: usize,
    item: &str,
    mods: &Vec<Vec<AttrSummary>>,
) -> (r: Option<FnSummary>)
    ensures
        r is None <==> fn_parts(item@) is None,
        r matches Some(f) ==> fn_parts(item@) matches Some(p) && (summary_view_of())(f) == (
            name@,
            is_public,
            start_line,
            end_line,
            p.0,
            p.1,
            mods@.map_values(attr_list_view_of()),
        ),
{
    let toks = match lex_rust(item) {
        Some(t) => t,
        None => return None,
    };
    let ghost tv = toks@.map_values(token_view_of());
    let n = toks.len();
    if n == 0 || !token_is_group(&toks[n - 1]) {
        proof {
            if n > 0 {
                assert(tv.last() == toks@[n - 1]@);
            }
        }
        return None;
    }
    proof {
        assert(tv.last() == toks@[n - 1]@);
    }
    let src = match &toks[n - 1] {
        RustToken::Group(s, _) => s.clone(),
        _ => String::new(),
    };
    let body = inner_text(src.as_str());
    let btoks = match lex_rust(body.as_str()) {
        Some(t) => t,
        None => return None,
    };
    let attrs = item_attrs(&toks, &btoks);
    let macros = code_macros(body.as_str());
    match (attrs, macros) {
        (Some(attrs), Some(macros)) => Some(
            FnSummary {
                name: name.clone(),
                is_public,
                start_line,
                end_line,
                attrs,
                macros,
                module_attrs: copy_attr_lists(mods),
            },
        ),
        _ => None,
    }
}

/// The summaries of the functions of the Rust code `t`, whose first line is
/// line `base` of its file, inside the modules whose attributes are `mods`;
/// `None` when some part does not parse.
fn summaries_of(t: &str, base: usize, mods: &Vec<Vec<AttrSummary>>) -> (r: Option<Vec<FnSummary>>)
    requires
        base >= 1,
    ensures
        r is None <==> summaries_in(t@, base as int, mods@.map_values(attr_list_view_of())) is None,
        r matches Some(v) ==> summaries_in(t@, base as int, mods@.map_values(attr_list_view_of())) == Some(
            v@.map_values(summary_view_of()),
        ),
        r matches Some(v) ==> forall|i: int| 0 <= i < v@.len() ==> (#[trigger] v@[i]).start_line >= 1,
    decreases t@.len(),
{
    let ghost mv = mods@.map_values(attr_list_view_of());
    let items = match parse_rust_file(t) {
        Some(items) => items,
        None => return None,
    };
    let ghost iv = items@.map_values(item_view_of());
    let mut out: Vec<FnSummary> = Vec::new();
    let mut k: usize = 0;
    while k < items.len()
        invariant
            base >= 1,
            mv == mods@.map_values(attr_list_view_of()),
            iv == items@.map_values(item_view_of()),
            rust_file_items(t@) == Some(iv),
            forall|i: int| 0 <= i < items@.len() ==> lines_from_one(#[trigger] items@[i]@),
            k <= items@.len(),
            summaries_from(t@, base as int, mv, iv, k as int) == Some(out@.map_values(summary_view_of())),
            forall|i: int| 0 <= i < out@.len() ==> (#[trigger] out@[i]).start_line >= 1,
        decreases items@.len() - k,
    {
        let ghost before = out@.map_values(summary_view_of());
        proof {
            assert(iv[k as int] == items@[k as int]@);
            assert(lines_from_one(items@[k as int]@));
        }
        match &items[k] {
            RustItem::Fn(name, is_public, start, end) => {
                let first = base.checked_add(start.0 - 1);
                let last = if *end >= 1 {
                    base.checked_add(*end - 1)
                } else {
                    Some(base - 1)
                };
                match (first, last) {
                    (Some(first), Some(last)) => {
                        match fn_summary(name, *is_public, first, last, start.1.as_str(), mods) {
                            Some(f) => {
                                out.push(f);
                                proof {
                                    assert(out@.map_values(summary_view_of()) =~= before.push((summary_view_of())(f)));
                                }
                            },
                            None => {
                                proof {
                                    lemma_summaries_none(t@, base as int, mv, iv, k + 1, iv.len() as int);
                                }
                                return None;
                            },
                        }
                    },
                    _ => {
                        proof {
                            lemma_summaries_none(t@, base as int, mv, iv, k + 1, iv.len() as int);
                        }
                        return None;
                    },
                }
            },
            RustItem::Mod(item, Some(content)) => {
                let inner = inner_text(content.1.as_str());
                let fail = if inner.unicode_len() < t.unicode_len() {
                    match base.checked_add(content.0 - 1) {
                        Some(nested_base) => {
                            let itoks = lex_rust(item.as_str());
                            let btoks = lex_rust(inner.as_str());
                            match (itoks, btoks) {
                                (Some(itoks), Some(btoks)) => match item_attrs(&itoks, &btoks) {
                                    Some(attrs) => {
                                        let mut nested_mods = copy_attr_lists(mods);
                                        let ghost a = attrs@.map_values(attr_view_of());
                                        nested_mods.push(attrs);
                                        proof {
                                            assert(nested_mods@.map_values(attr_list_view_of()) =~= mv.push(a));
                                        }
                                        match summaries_of(inner.as_str(), nested_base, &nested_mods) {
                                            Some(nested) => {
                                                let mut nested = nested;
                                                let ghost more = nested@.map_values(summary_view_of());
                                                let ghost nested_all = nested@;
                                                out.append(&mut nested);
                                                proof {
                                                    assert(out@.map_values(summary_view_of()) =~= before + more);
                                                    assert forall|i: int| 0 <= i < out@.len() implies (#[trigger] out@[i]).start_line >= 1 by {
                                                        if i >= before.len() {
                                                            assert(out@[i] == nested_all[i - before.len()]);
                                                        }
                                                    }
                                                }
                                                false
                                            },
                                            None => true,
                                        }
                                    },
                                    None => true,
                                },
                                _ => true,
                            }
                        },
                        None => true,
                    }
                } else {
                    true
                };
                if fail {
                    proof {
                        lemma_summaries_none(t@, base as int, mv, iv, k + 1, iv.len() as int);
                    }
                    return None;
                }
            },
            _ => {},
        }
        k = k + 1;
    }
    Some(out)
}

pub open spec fn line_view_of() -> spec_fn(String) -> Seq<char> {
    |l: String| l@
}

/// The lines of `s` as `str::lines` yields them.
pub fn source_lines(s: &str) -> (r: Vec<String>)
    ensures
        r@.map_values(line_view_of()) == lines_of(s@),
{
    let chars = chars_of(s);
    let ghost t = s@;
    let mut out: Vec<String> = Vec::new();
    let mut start: usize = 0;
    let mut i: usize = 0;
    while i < chars.len()
        invariant
            chars@ == t,
            t == s@,
            start <= i <= t.len(),
            out@.map_values(line_view_of()) == lines_state(t, i as int).0,
            lines_state(t, i as int).1 == t.subrange(start as int, i as int),
        decreases t.len() - i,
    {
        let ghost st = lines_state(t, i as int);
        if chars[i] == '\n' {
            let end = if i > start && chars[i - 1] == '\r' {
                i - 1
            } else {
                i
            };
            let line = substring(s, start, end);
            let ghost before = out@.map_values(line_view_of());
            out.push(line);
            proof {
                assert(strip_cr(st.1) =~= t.subrange(start as int, end as int));
                assert(out@.map_values(line_view_of()) =~= before.push(line@));
                assert(lines_state(t, i + 1).1 =~= t.subrange(i + 1, i + 1));
            }
            start = i + 1;
        } else {
            proof {
                assert(lines_state(t, i + 1).1 =~= t.subrange(start as int, i + 1));
            }
        }
        i = i + 1;
    }
    if start < chars.len() {
        let line = substring(s, start, chars.len());
        let ghost before = out@.map_values(line_view_of());
        out.push(line);
        proof {
            assert(out@.map_values(line_view_of()) =~= before.push(line@));
        }
    }
    out
}

/// Every finding in the Rust file `source`: the checks of `check_fns` on
/// the summaries of its functions (those of inline modules included) and
/// its lines; `None` when it does not parse as Rust.
pub fn analyze_source(source: &str) -> (r: Option<Vec<Violation>>)
    ensures
        r is None <==> fn_summaries(source@) is None,
        r matches Some(v) ==> exists|fns: Seq<FnSummary>, lines: Seq<String>|
            #![trigger all_violations(fns, lines)]
            fns.map_values(summary_view_of()) == fn_summaries(source@)->0
                && lines.map_values(line_view_of()) == lines_of(source@)
                && v@.map_values(|x: Violation| violation_view(x)) == all_violations(fns, lines),
{
    let mods: Vec<Vec<AttrSummary>> = Vec::new();
    proof {
        assert(mods@.map_values(attr_list_view_of()) =~= Seq::<Seq<AttrView>>::empty());
    }
    match summaries_of(source, 1, &mods) {
        Some(fns) => {
            let lines = source_lines(source);
            let v = check_fns(&fns, &lines);
            proof {
                assert(all_violations(fns@, lines@) == all_violations(fns@, lines@));
            }
            Some(v)
        },
        None => None,
    }
}

proof fn lemma_marked_above_by_content(lines1: Seq<String>, lines2: Seq<String>, line: int)
    requires
        lines1.map_values(line_view_of()) == lines2.map_values(line_view_of()),
    ensures
        marked_above(lines1, line) == marked_above(lines2, line),
    decreases line,
{
    assert(lines1.len() == lines2.len()) by {
        assert(lines1.map_values(line_view_of()).len() == lines1.len());
        assert(lines2.map_values(line_view_of()).len() == lines2.len());
        assert(lines1.map_values(line_view_of()).len() == lines2.map_values(line_view_of()).len());
    }
    if line > 1 {
        let l = line - 1;
        if 1 <= l <= lines1.len() {
            assert(lines1.map_values(line_view_of())[l - 1] == lines2.map_values(line_view_of())[l - 1]);
        }
        assert(line_text(lines1, l) == line_text(lines2, l));
        assert(marker_at(lines1, l) == marker_at(lines2, l));
        lemma_marked_above_by_content(lines1, lines2, l);
    }
}

proof fn lemma_attr_checks_by_content(a1: AttrSummary, a2: AttrSummary)
    requires
        attr_view(a1) == attr_view(a2),
    ensures
        is_cfg_test(a1) == is_cfg_test(a2),
        is_test_attr(a1) == is_test_attr(a2),
{
    let s1 = a1.segments@.map_values(|s: String| s@);
    let s2 = a2.segments@.map_values(|s: String| s@);
    assert(s1 == s2);
    assert(a1.segments@.len() == a2.segments@.len()) by {
        assert(s1.len() == s2.len());
    }
    if a1.segments@.len() > 0 {
        assert(s1[0] == s2[0]);
        assert(s1[a1.segments@.len() - 1] == s2[a1.segments@.len() - 1]);
    }
}

proof fn lemma_attrs_checks_by_content(attrs1: Seq<AttrSummary>, attrs2: Seq<AttrSummary>)
    requires
        attrs1.map_values(attr_view_of()) == attrs2.map_values(attr_view_of()),
    ensures
        has_cfg_test(attrs1) == has_cfg_test(attrs2),
        has_test_attr(attrs1) == has_test_attr(attrs2),
{
    assert(attrs1.len() == attrs2.len()) by {
        assert(attrs1.map_values(attr_view_of()).len() == attrs1.len());
        assert(attrs2.map_values(attr_view_of()).len() == attrs2.len());
        assert(attrs1.map_values(attr_view_of()).len() == attrs2.map_values(attr_view_of()).len());
    }
    assert forall|i: int| 0 <= i < attrs1.len() implies is_cfg_test(#[trigger] attrs1[i]) == is_cfg_test(attrs2[i])
        && is_test_attr(attrs1[i]) == is_test_attr(attrs2[i]) by {
        assert(attrs1.map_values(attr_view_of())[i] == attrs2.map_values(attr_view_of())[i]);
        lemma_attr_checks_by_content(attrs1[i], attrs2[i]);
    }
    if has_cfg_test(attrs1) {
        let i = choose|i: int| 0 <= i < attrs1.len() && is_cfg_test(#[trigger] attrs1[i]);
        assert(is_cfg_test(attrs2[i]));
    }
    if has_cfg_test(attrs2) {
        let i = choose|i: int| 0 <= i < attrs2.len() && is_cfg_test(#[trigger] attrs2[i]);
        assert(is_cfg_test(attrs1[i]));
    }
    if has_test_attr(attrs1) {
        let i = choose|i: int| 0 <= i < attrs1.len() && is_test_attr(#[trigger] attrs1[i]);
        assert(is_test_attr(attrs2[i]));
    }
    if has_test_attr(attrs2) {
        let i = choose|i: int| 0 <= i < attrs2.len() && is_test_attr(#[trigger] attrs2[i]);
        assert(is_test_attr(attrs1[i]));
    }
}

proof fn lemma_fn_violations_by_content(f1: FnSummary, f2: FnSummary, lines1: Seq<String>, lines2: Seq<String>)
    requires
        (summary_view_of())(f1) == (summary_view_of())(f2),
        lines1.map_values(line_view_of()) == lines2.map_values(line_view_of()),
    ensures
        fn_violations(f1, lines1) == fn_violations(f2, lines2),
{
    assert(lines1.len() == lines2.len()) by {
        assert(lines1.map_values(line_view_of()).len() == lines1.len());
        assert(lines2.map_values(line_view_of()).len() == lines2.len());
        assert(lines1.map_values(line_view_of()).len() == lines2.map_values(line_view_of()).len());
    }
    assert forall|line: int| marker_at(lines1, line) == marker_at(lines2, line) by {
        if 1 <= line <= lines1.len() {
            assert(lines1.map_values(line_view_of())[line - 1] == lines2.map_values(line_view_of())[line - 1]);
        }
    }
    lemma_marked_above_by_content(lines1, lines2, f1.start_line as int);
    if allowed(lines1, f1.start_line as int, f1.end_line as int) {
        if !marked_above(lines1, f1.start_line as int) {
            let l = choose|line: int| f1.start_line <= line <= f1.end_line && #[trigger] marker_at(lines1, line);
            assert(marker_at(lines2, l));
        }
    }
    if allowed(lines2, f2.start_line as int, f2.end_line as int) {
        if !marked_above(lines2, f2.start_line as int) {
            let l = choose|line: int| f2.start_line <= line <= f2.end_line && #[trigger] marker_at(lines2, line);
            assert(marker_at(lines1, l));
        }
    }
    let m1 = f1.module_attrs@;
    let m2 = f2.module_attrs@;
    assert(m1.len() == m2.len()) by {
        assert(m1.map_values(attr_list_view_of()).len() == m2.map_values(attr_list_view_of()).len());
    }
    assert forall|i: int| 0 <= i < m1.len() implies has_cfg_test(#[trigger] m1[i]@) == has_cfg_test(m2[i]@) by {
        assert(m1.map_values(attr_list_view_of())[i] == m2.map_values(attr_list_view_of())[i]);
        lemma_attrs_checks_by_content(m1[i]@, m2[i]@);
    }
    if in_test_module(f1) {
        let i = choose|i: int| 0 <= i < m1.len() && has_cfg_test(#[trigger] m1[i]@);
        assert(has_cfg_test(m2[i]@));
    }
    if in_test_module(f2) {
        let i = choose|i: int| 0 <= i < m2.len() && has_cfg_test(#[trigger] m2[i]@);
        assert(has_cfg_test(m1[i]@));
    }
    lemma_attrs_checks_by_content(f1.attrs@, f2.attrs@);
    let ms1 = f1.macros@;
    let ms2 = f2.macros@;
    assert(ms1.len() == ms2.len()) by {
        assert(ms1.map_values(macro_view_of()).len() == ms2.map_values(macro_view_of()).len());
    }
    assert forall|i: int| 0 <= i < ms1.len() implies assertion_kind(#[trigger] ms1[i]) == assertion_kind(ms2[i]) by {
        assert(ms1.map_values(macro_view_of())[i] == ms2.map_values(macro_view_of())[i]);
    }
    if vacuous(ms1) {
        let i = choose|i: int| 0 <= i < ms1.len() && assertion_kind(#[trigger] ms1[i]) == Some(false);
        assert(assertion_kind(ms2[i]) == Some(false));
        assert forall|j: int| 0 <= j < ms2.len() implies assertion_kind(#[trigger] ms2[j]) != Some(true) by {
            assert(assertion_kind(ms1[j]) != Some(true));
        }
    }
    if vacuous(ms2) {
        let i = choose|i: int| 0 <= i < ms2.len() && assertion_kind(#[trigger] ms2[i]) == Some(false);
        assert(assertion_kind(ms1[i]) == Some(false));
        assert forall|j: int| 0 <= j < ms1.len() implies assertion_kind(#[trigger] ms1[j]) != Some(true) by {
            assert(assertion_kind(ms2[j]) != Some(true));
        }
    }
}

/// The findings for a file depend only on what its function summaries and
/// its lines hold, so the findings `analyze_source` states are one list.
pub proof fn lemma_violations_by_content(fns1: Seq<FnSummary>, fns2: Seq<FnSummary>, lines1: Seq<String>, lines2: Seq<String>)
    requires
        fns1.map_values(summary_view_of()) == fns2.map_values(summary_view_of()),
        lines1.map_values(line_view_of()) == lines2.map_values(line_view_of()),
    ensures
        all_violations(fns1, lines1) == all_violations(fns2, lines2),
    decreases fns1.len(),
{
    assert(fns1.len() == fns2.len()) by {
        assert(fns1.map_values(summary_view_of()).len() == fns1.len());
        assert(fns2.map_values(summary_view_of()).len() == fns2.len());
        assert(fns1.map_values(summary_view_of()).len() == fns2.map_values(summary_view_of()).len());
    }
    if fns1.len() > 0 {
        assert(fns1.drop_last().map_values(summary_view_of()) =~= fns2.drop_last().map_values(summary_view_of())) by {
            assert forall|i: int| 0 <= i < fns1.len() - 1 implies (summary_view_of())(fns1[i]) == (summary_view_of())(fns2[i]) by {
                assert(fns1.map_values(summary_view_of())[i] == fns2.map_values(summary_view_of())[i]);
            }
        }
        lemma_violations_by_content(fns1.drop_last(), fns2.drop_last(), lines1, lines2);
        assert(fns1.map_values(summary_view_of())[fns1.len() - 1] == fns2.map_values(summary_view_of())[fns1.len() - 1]);
        lemma_fn_violations_by_content(fns1.last(), fns2.last(), lines1, lines2);
    }
}

/// A suppressed function draws no finding.
pub proof fn lemma_allowed_fn_is_clean(f: FnSummary, lines: Seq<String>)
    requires
        allowed(lines, f.start_line as int, f.end_line as int),
    ensures
        fn_violations(f, lines).len() == 0,
{
}

/// A test with a strong assertion is never vacuous, whatever probes it
/// also makes.
pub proof fn lemma_strong_assertion_not_vacuous(macros: Seq<MacroSummary>, i: int)
    requires
        0 <= i < macros.len(),
        assertion_kind(macros[i]) == Some(true),
    ensures
        !vacuous(macros),
{
}

} // verus!
