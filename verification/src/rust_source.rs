//! Rust source as `syn` and `proc-macro2` read it: the items of a file and
//! the tokens of a text, and what the guard takes from them, the attributes
//! of an item and the macro calls of a function body.
use vstd::prelude::*;
use proc_macro2::{Spacing, Span, TokenStream, TokenTree};
use syn::spanned::Spanned;
use syn::{Item, Visibility};
use crate::text::substring;

verus! {

/// An item of a Rust file, as `syn::parse_file` reads it.
pub enum RustItem {
    /// A module: its source text (attributes included) and, when its body is
    /// written inline, the line its `{` stands on and the braced body.
    Mod(String, Option<(usize, String)>),
    /// A free function: its name, whether it is public in any form, the line
    /// it starts on with its source text (attributes included), and the line
    /// it ends on.
    Fn(String, bool, (usize, String), usize),
    /// Any other item.
    Other,
}

/// The plain content of an item.
pub enum RustItemView {
    Mod(Seq<char>, Option<(usize, Seq<char>)>),
    Fn(Seq<char>, bool, (usize, Seq<char>), usize),
    Other,
}

impl View for RustItem {
    type V = RustItemView;

    open spec fn view(&self) -> RustItemView {
        match self {
            RustItem::Mod(t, c) => RustItemView::Mod(
                t@,
                match c {
                    Some(x) => Some((x.0, x.1@)),
                    None => None,
                },
            ),
            RustItem::Fn(n, p, s, e) => RustItemView::Fn(n@, *p, (s.0, s.1@), *e),
            RustItem::Other => RustItemView::Other,
        }
    }
}

/// A token tree, as `proc_macro2` lexes it.
pub enum RustToken {
    /// A delimited group: its source text, delimiters included, and its inner
    /// tokens as `proc_macro2` prints them.
    Group(String, String),
    Ident(String),
    /// A punctuation character, and whether it is joined to the next one.
    Punct(char, bool),
    Literal(String),
}

/// The plain content of a token tree.
pub enum RustTokenView {
    Group(Seq<char>, Seq<char>),
    Ident(Seq<char>),
    Punct(char, bool),
    Literal(Seq<char>),
}

impl View for RustToken {
    type V = RustTokenView;

    open spec fn view(&self) -> RustTokenView {
        match self {
            RustToken::Group(s, d) => RustTokenView::Group(s@, d@),
            RustToken::Ident(s) => RustTokenView::Ident(s@),
            RustToken::Punct(c, j) => RustTokenView::Punct(*c, *j),
            RustToken::Literal(s) => RustTokenView::Literal(s@),
        }
    }
}

pub open spec fn item_view_of() -> spec_fn(RustItem) -> RustItemView {
    |i: RustItem| i@
}

pub open spec fn token_view_of() -> spec_fn(RustToken) -> RustTokenView {
    |t: RustToken| t@
}

/// The items of `text` read as a Rust file by `syn::parse_file`; `None`
/// when it does not parse.
pub uninterp spec fn rust_file_items(text: Seq<char>) -> Option<Seq<RustItemView>>;

/// The token trees of `text` as `proc_macro2` lexes it; `None` when it does
/// not lex.
pub uninterp spec fn rust_tokens(text: Seq<char>) -> Option<Seq<RustTokenView>>;

/// The lines an item names count from 1.
pub open spec fn lines_from_one(i: RustItemView) -> bool {
    match i {
        RustItemView::Mod(_, Some(c)) => c.0 >= 1,
        RustItemView::Fn(_, _, s, _) => s.0 >= 1,
        _ => true,
    }
}

/// Reads `text` as a Rust file with `syn::parse_file` and describes its
/// top-level items. The texts are `Span::source_text` of each span, the
/// lines `LineColumn::line` of its start (or end), which proc-macro2
/// documents as counting from 1. What the items are is left to the name
/// `rust_file_items`.
#[verifier::external_body]
pub(crate) fn parse_rust_file(text: &str) -> (r: Option<Vec<RustItem>>)
    ensures
        r is None <==> rust_file_items(text@) is None,
        r matches Some(v) ==> rust_file_items(text@) == Some(v@.map_values(item_view_of())),
        r matches Some(v) ==> forall|i: int| 0 <= i < v@.len() ==> lines_from_one(#[trigger] v@[i]@),
{
    let file = syn::parse_file(text).ok()?;
    let at = |s: Span| (s.start().line, s.source_text().unwrap_or_default());
    Some(file.items.iter().map(|item| match item {
        Item::Mod(m) => RustItem::Mod(at(m.span()).1, m.content.as_ref().map(|c| at(c.0.span.join()))),
        Item::Fn(f) => {
            RustItem::Fn(f.sig.ident.to_string(), !matches!(f.vis, Visibility::Inherited), at(f.span()), f.span().end().line)
        },
        _ => RustItem::Other,
    }).collect())
}

/// Lexes `text` into token trees with `proc_macro2` (`TokenStream`'s
/// `FromStr`); a group is given by its `Span::source_text` and its inner
/// stream's `Display`. What the tokens are is left to the name
/// `rust_tokens`.
#[verifier::external_body]
pub(crate) fn lex_rust(text: &str) -> (r: Option<Vec<RustToken>>)
    ensures
        r is None <==> rust_tokens(text@) is None,
        r matches Some(v) ==> rust_tokens(text@) == Some(v@.map_values(token_view_of())),
{
    let stream: TokenStream = text.parse().ok()?;
    Some(stream.into_iter().map(|t| match t {
        TokenTree::Group(g) => RustToken::Group(g.span().source_text().unwrap_or_default(), g.stream().to_string()),
        TokenTree::Ident(i) => RustToken::Ident(i.to_string()),
        TokenTree::Punct(p) => RustToken::Punct(p.as_char(), p.spacing() == Spacing::Joint),
        TokenTree::Literal(l) => RustToken::Literal(l.to_string()),
    }).collect())
}

/// A group's text without its delimiters.
pub open spec fn strip_delims(s: Seq<char>) -> Seq<char> {
    if s.len() >= 2 {
        s.subrange(1, s.len() - 1)
    } else {
        seq![]
    }
}

/// The text of `s` without its first and last characters.
pub fn inner_text(s: &str) -> (r: String)
    ensures
        r@ == strip_delims(s@),
{
    let n = s.unicode_len();
    if n >= 2 {
        substring(s, 1, n - 1)
    } else {
        String::new()
    }
}

pub open spec fn is_punct(t: RustTokenView, c: char) -> bool {
    t matches RustTokenView::Punct(x, _) && x == c
}

pub open spec fn group_source(t: RustTokenView) -> Seq<char> {
    match t {
        RustTokenView::Group(s, _) => s,
        _ => seq![],
    }
}

pub open spec fn group_text(t: RustTokenView) -> Seq<char> {
    match t {
        RustTokenView::Group(_, d) => d,
        _ => seq![],
    }
}

pub open spec fn ident_text(t: RustTokenView) -> Seq<char> {
    match t {
        RustTokenView::Ident(s) => s,
        _ => seq![],
    }
}

/// The printed texts of the `#[...]` attributes that lead `toks` from `i`.
pub open spec fn outer_attr_texts(toks: Seq<RustTokenView>, i: int) -> Seq<Seq<char>>
    decreases toks.len() - i,
{
    if 0 <= i && i + 1 < toks.len() && is_punct(toks[i], '#') && toks[i + 1] is Group {
        seq![group_text(toks[i + 1])] + outer_attr_texts(toks, i + 2)
    } else {
        seq![]
    }
}

/// The printed texts of the `#![...]` attributes that lead `toks` from `i`.
pub open spec fn inner_attr_texts(toks: Seq<RustTokenView>, i: int) -> Seq<Seq<char>>
    decreases toks.len() - i,
{
    if 0 <= i && i + 2 < toks.len() && is_punct(toks[i], '#') && is_punct(toks[i + 1], '!') && toks[i + 2] is Group {
        seq![group_text(toks[i + 2])] + inner_attr_texts(toks, i + 3)
    } else {
        seq![]
    }
}

/// The printed texts of the leading outer (`#[...]`, `inner` false) or
/// inner (`#![...]`) attributes of `toks`.
pub fn leading_attr_texts(toks: &Vec<RustToken>, inner: bool) -> (r: Vec<String>)
    ensures
        r@.map_values(|s: String| s@) == if inner {
            inner_attr_texts(toks@.map_values(token_view_of()), 0)
        } else {
            outer_attr_texts(toks@.map_values(token_view_of()), 0)
        },
{
    let ghost t = toks@.map_values(token_view_of());
    let ghost all = if inner { inner_attr_texts(t, 0) } else { outer_attr_texts(t, 0) };
    let step: usize = if inner { 3 } else { 2 };
    let mut out: Vec<String> = Vec::new();
    let mut i: usize = 0;
    loop
        invariant
            t == toks@.map_values(token_view_of()),
            step == if inner { 3usize } else { 2usize },
            all == if inner { inner_attr_texts(t, 0) } else { outer_attr_texts(t, 0) },
            i <= toks@.len(),
            out@.map_values(|s: String| s@) + (if inner { inner_attr_texts(t, i as int) } else { outer_attr_texts(t, i as int) }) == all,
        ensures
            out@.map_values(|s: String| s@) == all,
        decreases toks@.len() - i,
    {
        let ghost rest = if inner { inner_attr_texts(t, i as int) } else { outer_attr_texts(t, i as int) };
        let ghost so_far = out@.map_values(|s: String| s@);
        if toks.len() - i < step {
            proof {
                assert(rest =~= Seq::<Seq<char>>::empty());
                assert(so_far + rest =~= so_far);
            }
            break;
        }
        proof {
            assert(t[i as int] == toks@[i as int]@);
            assert(t[i + 1] == toks@[i + 1]@);
            assert(t[i + step - 1] == toks@[i + step - 1]@);
        }
        let hash = match &toks[i] {
            RustToken::Punct(c, _) => *c == '#',
            _ => false,
        };
        let bang = !inner || match &toks[i + 1] {
            RustToken::Punct(c, _) => *c == '!',
            _ => false,
        };
        let text = match &toks[i + step - 1] {
            RustToken::Group(_, d) => Some(d.clone()),
            _ => None,
        };
        if !hash || !bang || text.is_none() {
            proof {
                assert(rest =~= Seq::<Seq<char>>::empty());
                assert(so_far + rest =~= so_far);
            }
            break;
        }
        let d = text.unwrap();
        out.push(d);
        proof {
            assert(out@.map_values(|s: String| s@) =~= so_far.push(d@));
            let next = if inner { inner_attr_texts(t, i + step) } else { outer_attr_texts(t, i + step) };
            assert(rest == seq![d@] + next);
            assert(so_far.push(d@) + next =~= so_far + rest);
        }
        i = i + step;
    }
    out
}

} // verus!
