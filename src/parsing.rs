//! The textual form of platform conditions:
//! `expr := any(expr,*) | all(expr,*) | not(expr) | ident ['=' "text"]`.
use vstd::prelude::*;

use crate::ast::{Expr, Tree};
use crate::cfg::Pred;
use crate::domain::PredView;

verus! {

broadcast use {vstd::seq::group_seq_axioms, vstd::std_specs::vec::group_vec_axioms, vstd::string::group_string_axioms};

/// A parse failure: the input from the place where parsing stopped.
pub struct Error {
    pub input: String,
}

/// Relies on `String::push`: the character is appended.
#[verifier::external_body]
fn push_char(s: &mut String, c: char)
    ensures
        final(s)@ == old(s)@.push(c),
{
    s.push(c)
}

/// The characters of `s`, in order.
#[verifier::loop_isolation(false)]
fn chars_of(s: &str) -> (r: Vec<char>)
    ensures
        r@ == s@,
{
    let mut it = s.chars();
    let mut r: Vec<char> = Vec::new();
    loop
        invariant
            r@ + vstd::std_specs::iter::IteratorSpec::remaining(&it) == s@,
            vstd::std_specs::iter::IteratorSpec::decrease(&it) is Some,
        decreases vstd::std_specs::iter::IteratorSpec::decrease(&it)->0,
    {
        match it.next() {
            Some(c) => r.push(c),
            None => break,
        }
    }
    r
}

/// White space as `char::is_whitespace` defines it.
pub open spec fn is_ws(c: char) -> bool {
    ('\u{9}' <= c && c <= '\u{d}') || c == ' ' || c == '\u{85}' || c == '\u{a0}' || c == '\u{1680}' || (
    '\u{2000}' <= c && c <= '\u{200a}') || c == '\u{2028}' || c == '\u{2029}' || c == '\u{202f}' || c
        == '\u{205f}' || c == '\u{3000}'
}

pub open spec fn is_ident_start(c: char) -> bool {
    ('a' <= c && c <= 'z') || ('A' <= c && c <= 'Z') || c == '_'
}

pub open spec fn is_ident_char(c: char) -> bool {
    is_ident_start(c) || ('0' <= c && c <= '9')
}

/// The first place at or after `i` that is not white space.
pub open spec fn skip_ws(s: Seq<char>, i: int) -> int
    decreases s.len() - i,
{
    if i < 0 || i >= s.len() || !is_ws(s[i]) {
        i
    } else {
        skip_ws(s, i + 1)
    }
}

/// The first place at or after `i` that does not continue an identifier.
pub open spec fn ident_end(s: Seq<char>, i: int) -> int
    decreases s.len() - i,
{
    if i < 0 || i >= s.len() || !is_ident_char(s[i]) {
        i
    } else {
        ident_end(s, i + 1)
    }
}

/// The first place at or after `i` that holds a double quote, or the end.
pub open spec fn quote_end(s: Seq<char>, i: int) -> int
    decreases s.len() - i,
{
    if i < 0 || i >= s.len() || s[i] == '"' {
        i
    } else {
        quote_end(s, i + 1)
    }
}

/// `s` holds `tag` at `i`.
pub open spec fn has_tag(s: Seq<char>, i: int, tag: Seq<char>) -> bool {
    0 <= i && i + tag.len() <= s.len() && s.subrange(i, i + tag.len()) == tag
}

/// `s` holds the character `c` at `i`.
pub open spec fn has_char(s: Seq<char>, i: int, c: char) -> bool {
    0 <= i < s.len() && s[i] == c
}

/// A predicate at `i`: the predicate and the place after it, or the place of the failure.
pub open spec fn parse_pred(s: Seq<char>, i: int) -> Result<(PredView, int), int> {
    if !(0 <= i < s.len() && is_ident_start(s[i])) {
        Err(i)
    } else {
        let e = ident_end(s, i);
        let key = s.subrange(i, e);
        let j = skip_ws(s, e);
        if !has_char(s, j, '=') {
            Ok(((key, None), e))
        } else {
            let k = skip_ws(s, j + 1);
            if !has_char(s, k, '"') {
                Err(k)
            } else {
                let m = quote_end(s, k + 1);
                if m == k + 1 {
                    Err(k + 1)
                } else if m >= s.len() {
                    Err(m)
                } else {
                    Ok(((key, Some(s.subrange(k + 1, m))), m + 1))
                }
            }
        }
    }
}

/// An expression at `i`: the tree and the place after it, or the place of the failure.
pub open spec fn parse_expr(s: Seq<char>, i: int) -> Result<(Tree<PredView>, int), int>
    decreases s.len() - i, 1nat,
    via parse_expr_decreases
{
    if i < 0 || i > s.len() {
        Err(i)
    } else if has_tag(s, i, "any"@) || has_tag(s, i, "all"@) {
        let j = skip_ws(s, i + 3);
        if !has_char(s, j, '(') {
            Err(j)
        } else {
            match parse_list(s, j + 1, Seq::empty()) {
                Err(e) => Err(e),
                Ok((items, k)) => {
                    let k2 = skip_ws(s, k);
                    if !has_char(s, k2, ')') {
                        Err(k2)
                    } else if has_tag(s, i, "any"@) {
                        Ok((Tree::Any(items), k2 + 1))
                    } else {
                        Ok((Tree::All(items), k2 + 1))
                    }
                },
            }
        }
    } else if has_tag(s, i, "not"@) {
        let j = skip_ws(s, i + 3);
        if !has_char(s, j, '(') {
            Err(j)
        } else {
            match parse_expr(s, skip_ws(s, j + 1)) {
                Err(e) => Err(e),
                Ok((x, k)) => {
                    let k2 = skip_ws(s, k);
                    if !has_char(s, k2, ')') {
                        Err(k2)
                    } else {
                        Ok((Tree::Not(Box::new(x)), k2 + 1))
                    }
                },
            }
        }
    } else {
        match parse_pred(s, i) {
            Err(e) => Err(e),
            Ok((p, k)) => Ok((Tree::Var(p), k)),
        }
    }
}

/// The members of a list from `i` on, after the members `acc`: up to the `)` that ends it,
/// each member followed by optional white space and an optional `,`.
pub open spec fn parse_list(s: Seq<char>, i: int, acc: Seq<Tree<PredView>>) -> Result<(Seq<Tree<PredView>>, int), int>
    decreases s.len() - i, 2nat,
    via parse_list_decreases
{
    if i < 0 || i > s.len() {
        Err(i)
    } else if has_char(s, i, ')') {
        Ok((acc, i))
    } else {
        let j = skip_ws(s, i);
        match parse_expr(s, j) {
            Err(e) => Err(e),
            Ok((x, k)) => {
                let k2 = skip_ws(s, k);
                let k3 = if has_char(s, k2, ',') {
                    k2 + 1
                } else {
                    k2
                };
                if k3 <= i || k3 > s.len() {
                    Err(k3)
                } else {
                    parse_list(s, k3, acc.push(x))
                }
            },
        }
    }
}

/// The whole text: an expression between optional white space.
pub open spec fn parse_text(s: Seq<char>) -> Result<Tree<PredView>, int> {
    match parse_expr(s, skip_ws(s, 0)) {
        Err(e) => Err(e),
        Ok((x, k)) => if skip_ws(s, k) == s.len() {
            Ok(x)
        } else {
            Err(skip_ws(s, k))
        },
    }
}

#[via_fn]
proof fn parse_expr_decreases(s: Seq<char>, i: int) {
    if 0 <= i <= s.len() {
        if i + 3 <= s.len() {
            lemma_skip_ws(s, i + 3);
            let j = skip_ws(s, i + 3);
            if j + 1 <= s.len() {
                lemma_skip_ws(s, j + 1);
            }
        }
    }
}

#[via_fn]
proof fn parse_list_decreases(s: Seq<char>, i: int, acc: Seq<Tree<PredView>>) {
    if 0 <= i <= s.len() {
        lemma_skip_ws(s, i);
    }
}

proof fn lemma_skip_ws(s: Seq<char>, i: int)
    requires
        0 <= i <= s.len(),
    ensures
        i <= skip_ws(s, i) <= s.len(),
    decreases s.len() - i,
{
    if i < s.len() && is_ws(s[i]) {
        lemma_skip_ws(s, i + 1);
    }
}

fn is_ws_exec(c: char) -> (r: bool)
    ensures
        r == is_ws(c),
{
    ('\u{9}' <= c && c <= '\u{d}') || c == ' ' || c == '\u{85}' || c == '\u{a0}' || c == '\u{1680}' || (
    '\u{2000}' <= c && c <= '\u{200a}') || c == '\u{2028}' || c == '\u{2029}' || c == '\u{202f}' || c
        == '\u{205f}' || c == '\u{3000}'
}

/// Skips white space.
fn skip_space0(s: &Vec<char>, i: usize) -> (r: usize)
    requires
        i <= s@.len(),
    ensures
        r == skip_ws(s@, i as int),
        i <= r <= s@.len(),
{
    let mut j = i;
    while j < s.len() && is_ws_exec(s[j])
        invariant
            i <= j <= s@.len(),
            skip_ws(s@, i as int) == skip_ws(s@, j as int),
        decreases s.len() - j,
    {
        j += 1;
    }
    j
}

#[verifier::loop_isolation(false)]
fn skip_tag(s: &Vec<char>, i: usize, tag: &str) -> (r: bool)
    requires
        i <= s@.len(),
    ensures
        r == has_tag(s@, i as int, tag@),
{
    let t = chars_of(tag);
    if t.len() > s.len() - i {
        return false;
    }
    let mut k: usize = 0;
    while k < t.len()
        invariant
            k <= t@.len(),
            t@ == tag@,
            i + t@.len() <= s@.len(),
            forall|q: int| 0 <= q < k ==> s@[i + q] == t@[q],
        decreases t.len() - k,
    {
        if s[i + k] != t[k] {
            assert(s@.subrange(i as int, i + t@.len())[k as int] != t@[k as int]);
            return false;
        }
        k += 1;
    }
    assert(s@.subrange(i as int, i + t@.len()) =~= t@);
    true
}

fn has_char_exec(s: &Vec<char>, i: usize, c: char) -> (r: bool)
    ensures
        r == has_char(s@, i as int, c),
{
    i < s.len() && s[i] == c
}

fn is_ident_start_exec(c: char) -> (r: bool)
    ensures
        r == is_ident_start(c),
{
    ('a' <= c && c <= 'z') || ('A' <= c && c <= 'Z') || c == '_'
}

fn is_ident_char_exec(c: char) -> (r: bool)
    ensures
        r == is_ident_char(c),
{
    is_ident_start_exec(c) || ('0' <= c && c <= '9')
}

/// The text of `s` from `i` up to `j`.
fn text_between(s: &Vec<char>, i: usize, j: usize) -> (r: String)
    requires
        i <= j <= s@.len(),
    ensures
        r@ == s@.subrange(i as int, j as int),
{
    let mut r = String::new();
    let mut k = i;
    while k < j
        invariant
            i <= k <= j <= s@.len(),
            r@ == s@.subrange(i as int, k as int),
        decreases j - k,
    {
        push_char(&mut r, s[k]);
        assert(s@.subrange(i as int, k + 1) =~= s@.subrange(i as int, k as int).push(s@[k as int]));
        k += 1;
    }
    r
}

/// A predicate: an identifier, optionally followed by `=` and a string literal.
#[verifier::loop_isolation(false)]
fn parse_pred_exec(s: &Vec<char>, i: usize) -> (r: Result<(Pred, usize), usize>)
    requires
        i <= s@.len(),
    ensures
        match r {
            Ok((p, k)) => parse_pred(s@, i as int) == Ok::<(PredView, int), int>((p@, k as int)) && k
                <= s@.len(),
            Err(e) => parse_pred(s@, i as int) == Err::<(PredView, int), int>(e as int) && e <= s@.len(),
        },
{
    if !(i < s.len() && is_ident_start_exec(s[i])) {
        return Err(i);
    }
    let mut e = i;
    while e < s.len() && is_ident_char_exec(s[e])
        invariant
            i <= e <= s@.len(),
            ident_end(s@, i as int) == ident_end(s@, e as int),
        decreases s.len() - e,
    {
        e += 1;
    }
    let key = text_between(s, i, e);
    let j = skip_space0(s, e);
    if !has_char_exec(s, j, '=') {
        return Ok((Pred { key, value: None }, e));
    }
    let k = skip_space0(s, j + 1);
    if !has_char_exec(s, k, '"') {
        return Err(k);
    }
    let mut m = k + 1;
    while m < s.len() && s[m] != '"'
        invariant
            k + 1 <= m <= s@.len(),
            quote_end(s@, k + 1) == quote_end(s@, m as int),
        decreases s.len() - m,
    {
        m += 1;
    }
    if m == k + 1 {
        return Err(k + 1);
    }
    if m >= s.len() {
        return Err(m);
    }
    let value = text_between(s, k + 1, m);
    Ok((Pred { key, value: Some(value) }, m + 1))
}

} // verus!

verus! {

/// An expression: a list node, a negation or a predicate.
fn parse_expr_exec(s: &Vec<char>, i: usize) -> (r: Result<(Expr<Pred>, usize), usize>)
    requires
        i <= s@.len(),
    ensures
        match r {
            Ok((x, k)) => parse_expr(s@, i as int) == Ok::<(Tree<PredView>, int), int>((x@, k as int))
                && k <= s@.len(),
            Err(e) => parse_expr(s@, i as int) == Err::<(Tree<PredView>, int), int>(e as int) && e
                <= s@.len(),
        },
    decreases s@.len() - i, 1nat,
{
    proof {
        reveal_strlit("any");
        reveal_strlit("all");
        reveal_strlit("not");
        assert(s@.len() == s.len());
    }
    let is_any = skip_tag(s, i, "any");
    let is_all = !is_any && skip_tag(s, i, "all");
    if is_any || is_all {
        let j = skip_space0(s, i + 3);
        if !has_char_exec(s, j, '(') {
            return Err(j);
        }
        let mut items: Vec<Expr<Pred>> = Vec::new();
        proof {
            assert(crate::ast::model_list(items@) =~= Seq::<Tree<PredView>>::empty());
        }
        match parse_list_exec(s, j + 1, items) {
            Err(e) => Err(e),
            Ok((items, k)) => {
                let k2 = skip_space0(s, k);
                if !has_char_exec(s, k2, ')') {
                    return Err(k2);
                }
                if is_any {
                    Ok((Expr::Any(crate::ast::Any(items)), k2 + 1))
                } else {
                    Ok((Expr::All(crate::ast::All(items)), k2 + 1))
                }
            },
        }
    } else if skip_tag(s, i, "not") {
        let j = skip_space0(s, i + 3);
        if !has_char_exec(s, j, '(') {
            return Err(j);
        }
        let j2 = skip_space0(s, j + 1);
        match parse_expr_exec(s, j2) {
            Err(e) => Err(e),
            Ok((x, k)) => {
                let k2 = skip_space0(s, k);
                if !has_char_exec(s, k2, ')') {
                    return Err(k2);
                }
                Ok((Expr::Not(crate::ast::Not(Box::new(x))), k2 + 1))
            },
        }
    } else {
        match parse_pred_exec(s, i) {
            Err(e) => Err(e),
            Ok((p, k)) => Ok((Expr::Var(crate::ast::Var(p)), k)),
        }
    }
}

/// The members of a list, up to the `)` that ends it.
fn parse_list_exec(s: &Vec<char>, i: usize, acc: Vec<Expr<Pred>>) -> (r: Result<(Vec<Expr<Pred>>, usize), usize>)
    requires
        i <= s@.len(),
    ensures
        match r {
            Ok((items, k)) => parse_list(s@, i as int, crate::ast::model_list(acc@)) == Ok::<
                (Seq<Tree<PredView>>, int),
                int,
            >((crate::ast::model_list(items@), k as int)) && k <= s@.len(),
            Err(e) => parse_list(s@, i as int, crate::ast::model_list(acc@)) == Err::<
                (Seq<Tree<PredView>>, int),
                int,
            >(e as int) && e <= s@.len(),
        },
    decreases s@.len() - i, 2nat,
{
    proof {
        assert(s@.len() == s.len());
    }
    if has_char_exec(s, i, ')') {
        return Ok((acc, i));
    }
    let j = skip_space0(s, i);
    match parse_expr_exec(s, j) {
        Err(e) => Err(e),
        Ok((x, k)) => {
            let k2 = skip_space0(s, k);
            let k3 = if has_char_exec(s, k2, ',') {
                k2 + 1
            } else {
                k2
            };
            if k3 <= i || k3 > s.len() {
                return Err(k3);
            }
            let mut acc = acc;
            let ghost pre = acc@;
            acc.push(x);
            proof {
                crate::ast::lemma_model_push(pre, x);
            }
            parse_list_exec(s, k3, acc)
        },
    }
}

/// Parses the textual form of a condition; white space around it is ignored.
pub fn parse(s: &str) -> (r: Result<Expr<Pred>, Error>)
    ensures
        match r {
            Ok(x) => parse_text(s@) == Ok::<Tree<PredView>, int>(x@),
            Err(e) => parse_text(s@) is Err && 0 <= parse_text(s@)->Err_0 <= s@.len() && e.input@
                == s@.subrange(parse_text(s@)->Err_0, s@.len() as int),
        },
{
    let cs = chars_of(s);
    let i = skip_space0(&cs, 0);
    match parse_expr_exec(&cs, i) {
        Err(e) => {
            let input = text_between(&cs, e, cs.len());
            Err(Error { input })
        },
        Ok((x, k)) => {
            let k2 = skip_space0(&cs, k);
            if k2 == cs.len() {
                Ok(x)
            } else {
                let input = text_between(&cs, k2, cs.len());
                Err(Error { input })
            }
        },
    }
}

} // verus!

verus! {

/// An identifier that the grammar reads back as a predicate key: it does not begin with a
/// keyword of the grammar.
pub open spec fn is_key(k: Seq<char>) -> bool {
    &&& k.len() > 0
    &&& is_ident_start(k[0])
    &&& forall|i: int| 0 <= i < k.len() ==> is_ident_char(#[trigger] k[i])
    &&& !has_tag(k, 0, "any"@)
    &&& !has_tag(k, 0, "all"@)
    &&& !has_tag(k, 0, "not"@)
}

/// A value that a string literal can hold.
pub open spec fn is_literal_text(v: Seq<char>) -> bool {
    v.len() > 0 && !v.contains('"')
}

/// A tree that the text form can express: no literals, keys and values as above.
pub open spec fn renderable(t: Tree<PredView>) -> bool
    decreases t,
{
    match t {
        Tree::Any(l) => renderable_list(l),
        Tree::All(l) => renderable_list(l),
        Tree::Not(b) => renderable(*b),
        Tree::Var(p) => is_key(p.0) && match p.1 {
            Some(v) => is_literal_text(v),
            None => true,
        },
        Tree::Const(_) => false,
    }
}

pub open spec fn renderable_list(l: Seq<Tree<PredView>>) -> bool
    decreases l,
{
    l.len() == 0 || (renderable_list(l.drop_last()) && renderable(l.last()))
}

/// White space only.
pub open spec fn all_ws(s: Seq<char>) -> bool {
    forall|i: int| 0 <= i < s.len() ==> is_ws(#[trigger] s[i])
}

pub open spec fn text_of(t: Tree<PredView>) -> Seq<char> {
    crate::ast::render::<Pred>(t)
}

pub open spec fn text_of_list(l: Seq<Tree<PredView>>) -> Seq<char> {
    crate::ast::render_list::<Pred>(l)
}

/// What may follow an expression without changing how it is read.
pub open spec fn stops(s: Seq<char>, p: int) -> bool {
    &&& 0 <= p <= s.len()
    &&& (p == s.len() || !is_ident_char(s[p]))
    &&& !has_char(s, skip_ws(s, p), '=')
}

proof fn lemma_renderable_list(l: Seq<Tree<PredView>>)
    ensures
        renderable_list(l) == forall|i: int| 0 <= i < l.len() ==> renderable(#[trigger] l[i]),
    decreases l.len(),
{
    if l.len() > 0 {
        lemma_renderable_list(l.drop_last());
        if forall|i: int| 0 <= i < l.len() ==> renderable(#[trigger] l[i]) {
            assert forall|i: int| 0 <= i < l.drop_last().len() implies renderable(#[trigger] l.drop_last()[i]) by {
                assert(l.drop_last()[i] == l[i]);
            }
        }
        if renderable_list(l) {
            assert forall|i: int| 0 <= i < l.len() implies renderable(#[trigger] l[i]) by {
                if i < l.len() - 1 {
                    assert(l.drop_last()[i] == l[i]);
                }
            }
        }
    }
}

/// The text of a list, read from the front: the first member, then `", "` and the rest.
proof fn lemma_render_list_front(l: Seq<Tree<PredView>>)
    requires
        l.len() >= 2,
    ensures
        text_of_list(l) == text_of(l[0]) + ", "@ + text_of_list(l.drop_first()),
    decreases l.len(),
{
    if l.len() == 2 {
        assert(l.drop_last() =~= seq![l[0]]);
        assert(l.drop_first() =~= seq![l[1]]);
        assert(text_of_list(seq![l[1]]) == text_of(l[1]));
        assert(text_of_list(seq![l[0]]) == text_of(l[0]));
    } else {
        let p = l.drop_last();
        lemma_render_list_front(p);
        assert(p.drop_first() =~= l.drop_first().drop_last());
        assert(l.drop_first().last() == l.last());
        assert(p[0] == l[0]);
    }
}

/// A rendered tree starts with an identifier character and is not empty.
proof fn lemma_text_start(t: Tree<PredView>)
    requires
        renderable(t),
    ensures
        text_of(t).len() > 0,
        is_ident_start(text_of(t)[0]),
{
    reveal_strlit("any(");
    reveal_strlit("all(");
    reveal_strlit("not(");
    match t {
        Tree::Var(p) => {
            if let Some(v) = p.1 {
                assert(text_of(t) == crate::cfg::pred_text(p));
                assert(text_of(t)[0] == p.0[0]);
            }
        },
        _ => {},
    }
}

proof fn lemma_skip_all_ws(s: Seq<char>, i: int)
    requires
        0 <= i <= s.len(),
        forall|k: int| i <= k < s.len() ==> is_ws(#[trigger] s[k]),
    ensures
        skip_ws(s, i) == s.len(),
    decreases s.len() - i,
{
    if i < s.len() {
        lemma_skip_all_ws(s, i + 1);
    }
}

proof fn lemma_ident_end(s: Seq<char>, i: int, n: int)
    requires
        0 <= i,
        0 <= n,
        i + n <= s.len(),
        forall|k: int| i <= k < i + n ==> is_ident_char(#[trigger] s[k]),
        i + n == s.len() || !is_ident_char(s[i + n]),
    ensures
        ident_end(s, i) == i + n,
    decreases n,
{
    if n > 0 {
        lemma_ident_end(s, i + 1, n - 1);
    }
}

proof fn lemma_quote_end(s: Seq<char>, i: int, n: int)
    requires
        0 <= i,
        0 <= n,
        i + n < s.len(),
        forall|k: int| i <= k < i + n ==> #[trigger] s[k] != '"',
        s[i + n] == '"',
    ensures
        quote_end(s, i) == i + n,
    decreases n,
{
    if n > 0 {
        lemma_quote_end(s, i + 1, n - 1);
    }
}

} // verus!

verus! {

proof fn lemma_skip_to(s: Seq<char>, i: int, m: int)
    requires
        0 <= i <= m <= s.len(),
        forall|k: int| i <= k < m ==> is_ws(#[trigger] s[k]),
        m == s.len() || !is_ws(s[m]),
    ensures
        skip_ws(s, i) == m,
    decreases m - i,
{
    if i < m {
        lemma_skip_to(s, i + 1, m);
    }
}

/// `s` holds `piece` at `i`.
pub open spec fn holds_at(s: Seq<char>, i: int, piece: Seq<char>) -> bool {
    0 <= i && i + piece.len() <= s.len() && s.subrange(i, i + piece.len()) == piece
}

proof fn lemma_holds_at_index(s: Seq<char>, i: int, piece: Seq<char>, q: int)
    requires
        holds_at(s, i, piece),
        0 <= q < piece.len(),
    ensures
        s[i + q] == piece[q],
{
    assert(s.subrange(i, i + piece.len())[q] == s[i + q]);
}

proof fn lemma_holds_at_split(s: Seq<char>, i: int, a: Seq<char>, b: Seq<char>)
    requires
        holds_at(s, i, a + b),
    ensures
        holds_at(s, i, a),
        holds_at(s, i + a.len(), b),
{
    assert(s.subrange(i, i + a.len()) =~= (a + b).subrange(0, a.len() as int));
    assert((a + b).subrange(0, a.len() as int) =~= a);
    assert(s.subrange(i + a.len(), i + a.len() + b.len()) =~= (a + b).subrange(a.len() as int, (a + b).len() as int));
    assert((a + b).subrange(a.len() as int, (a + b).len() as int) =~= b);
}

/// A keyword cannot be read at the start of a key that is followed by a non-identifier.
proof fn lemma_no_keyword(s: Seq<char>, i: int, k: Seq<char>, kw: Seq<char>)
    requires
        is_key(k),
        holds_at(s, i, k),
        kw.len() == 3,
        forall|q: int| 0 <= q < 3 ==> is_ident_char(#[trigger] kw[q]),
        !has_tag(k, 0, kw),
        i + k.len() == s.len() || !is_ident_char(s[i + k.len()]),
    ensures
        !has_tag(s, i, kw),
{
    if has_tag(s, i, kw) {
        if k.len() >= 3 {
            assert forall|q: int| 0 <= q < 3 implies k[q] == kw[q] by {
                lemma_holds_at_index(s, i, k, q);
                assert(s.subrange(i, i + 3)[q] == s[i + q]);
            }
            assert(k.subrange(0, 3) =~= kw);
        } else {
            let q = k.len() as int;
            assert(s.subrange(i, i + 3)[q] == s[i + q]);
            assert(is_ident_char(kw[q]));
        }
    }
}

proof fn lemma_keywords()
    ensures
        "any"@.len() == 3 && "all"@.len() == 3 && "not"@.len() == 3,
        forall|q: int| 0 <= q < 3 ==> is_ident_char(#[trigger] "any"@[q]),
        forall|q: int| 0 <= q < 3 ==> is_ident_char(#[trigger] "all"@[q]),
        forall|q: int| 0 <= q < 3 ==> is_ident_char(#[trigger] "not"@[q]),
{
    reveal_strlit("any");
    reveal_strlit("all");
    reveal_strlit("not");
}

/// Reading a flag where its text stands gives it back.
proof fn lemma_parse_flag_text(s: Seq<char>, i: int, t: Tree<PredView>)
    requires
        t is Var,
        t->Var_0.1 is None,
        renderable(t),
        holds_at(s, i, text_of(t)),
        stops(s, i + text_of(t).len()),
    ensures
        parse_expr(s, i) == Ok::<(Tree<PredView>, int), int>((t, i + text_of(t).len())),
{
    lemma_keywords();
    let k = t->Var_0.0;
    assert(text_of(t) == k);
    lemma_no_keyword(s, i, k, "any"@);
    lemma_no_keyword(s, i, k, "all"@);
    lemma_no_keyword(s, i, k, "not"@);
    assert forall|q: int| i <= q < i + k.len() implies is_ident_char(#[trigger] s[q]) by {
        lemma_holds_at_index(s, i, k, q - i);
    }
    lemma_holds_at_index(s, i, k, 0);
    lemma_ident_end(s, i, k.len() as int);
}

/// Reading a keyed predicate where its text stands gives it back.
#[verifier::rlimit(50)]
proof fn lemma_parse_keyed_text(s: Seq<char>, i: int, t: Tree<PredView>)
    requires
        t is Var,
        t->Var_0.1 is Some,
        renderable(t),
        holds_at(s, i, text_of(t)),
        stops(s, i + text_of(t).len()),
    ensures
        parse_expr(s, i) == Ok::<(Tree<PredView>, int), int>((t, i + text_of(t).len())),
{
    lemma_keywords();
    reveal_strlit(" = \"");
    reveal_strlit("\"");
    let k = t->Var_0.0;
    let v = t->Var_0.1->0;
    let tail = " = \""@ + v + "\""@;
    assert(text_of(t) =~= k + tail);
    lemma_holds_at_split(s, i, k, tail);
    let e = i + k.len();
    lemma_holds_at_index(s, e, tail, 0);
    lemma_holds_at_index(s, e, tail, 1);
    lemma_holds_at_index(s, e, tail, 2);
    lemma_holds_at_index(s, e, tail, 3);
    lemma_no_keyword(s, i, k, "any"@);
    lemma_no_keyword(s, i, k, "all"@);
    lemma_no_keyword(s, i, k, "not"@);
    assert forall|q: int| i <= q < e implies is_ident_char(#[trigger] s[q]) by {
        lemma_holds_at_index(s, i, k, q - i);
    }
    lemma_holds_at_index(s, i, k, 0);
    lemma_ident_end(s, i, k.len() as int);
    lemma_skip_to(s, e, e + 1);
    lemma_skip_to(s, e + 2, e + 3);
    assert forall|q: int| e + 4 <= q < e + 4 + v.len() implies #[trigger] s[q] != '"' by {
        lemma_holds_at_index(s, e, tail, q - e);
        assert(tail[q - e] == v[q - e - 4]);
        if s[q] == '"' {
            assert(v.contains(v[q - e - 4]));
        }
    }
    lemma_holds_at_index(s, e, tail, 4 + v.len() as int);
    lemma_quote_end(s, e + 4, v.len() as int);
    assert(s.subrange(e + 4, e + 4 + v.len()) =~= v) by {
        assert forall|q: int| 0 <= q < v.len() implies s.subrange(e + 4, e + 4 + v.len())[q] == v[q] by {
            lemma_holds_at_index(s, e, tail, q + 4);
        }
    }
    assert(s.subrange(i, e) =~= k);
}

/// Where `head` (`any(` or `all(`) stands, only its own keyword is read.
proof fn lemma_list_head(s: Seq<char>, i: int, head: Seq<char>, disj: bool)
    requires
        head == (if disj { "any("@ } else { "all("@ }),
        holds_at(s, i, head),
    ensures
        has_tag(s, i, "any"@) == disj,
        has_tag(s, i, "all"@) == !disj,
        !has_tag(s, i, "not"@),
        has_char(s, i + 3, '('),
{
    reveal_strlit("any");
    reveal_strlit("all");
    reveal_strlit("not");
    reveal_strlit("any(");
    reveal_strlit("all(");
    assert forall|q: int| 0 <= q < 4 implies s[i + q] == head[q] by {
        lemma_holds_at_index(s, i, head, q);
    }
    assert(s.subrange(i, i + 3)[0] == s[i]);
    assert(s.subrange(i, i + 3)[1] == s[i + 1]);
    assert(s.subrange(i, i + 3)[2] == s[i + 2]);
    if disj {
        assert(s.subrange(i, i + 3) =~= "any"@);
    } else {
        assert(s.subrange(i, i + 3) =~= "all"@);
    }
    assert(head[3] == '(');
    assert(s[i + 3] == '(');
}

/// Where `not(` stands, only `not` is read.
proof fn lemma_not_head(s: Seq<char>, i: int)
    requires
        holds_at(s, i, "not("@),
    ensures
        !has_tag(s, i, "any"@),
        !has_tag(s, i, "all"@),
        has_tag(s, i, "not"@),
        has_char(s, i + 3, '('),
{
    reveal_strlit("any");
    reveal_strlit("all");
    reveal_strlit("not");
    reveal_strlit("not(");
    assert forall|q: int| 0 <= q < 4 implies s[i + q] == "not("@[q] by {
        lemma_holds_at_index(s, i, "not("@, q);
    }
    assert(s.subrange(i, i + 3)[0] == s[i]);
    assert(s.subrange(i, i + 3) =~= "not"@);
    assert("not("@[3] == '(');
    assert(s[i + 3] == '(');
}

/// Reading an expression where its text stands gives it back.
proof fn lemma_parse_expr_text(s: Seq<char>, i: int, t: Tree<PredView>)
    requires
        renderable(t),
        holds_at(s, i, text_of(t)),
        stops(s, i + text_of(t).len()),
    ensures
        parse_expr(s, i) == Ok::<(Tree<PredView>, int), int>((t, i + text_of(t).len())),
    decreases t, 1nat,
{
    reveal_strlit(")");
    match t {
        Tree::Var(p) => {
            if p.1 is None {
                lemma_parse_flag_text(s, i, t);
            } else {
                lemma_parse_keyed_text(s, i, t);
            }
        },
        Tree::Any(l) | Tree::All(l) => {
            let rl = text_of_list(l);
            let disj = t is Any;
            let head = if disj { "any("@ } else { "all("@ };
            assert(head.len() == 4) by {
                reveal_strlit("any(");
                reveal_strlit("all(");
            }
            assert(text_of(t) =~= head + rl + ")"@);
            lemma_holds_at_split(s, i, head + rl, ")"@);
            lemma_holds_at_split(s, i, head, rl);
            lemma_list_head(s, i, head, disj);
            lemma_skip_to(s, i + 3, i + 3);
            lemma_holds_at_index(s, i + 4 + rl.len(), ")"@, 0);
            lemma_parse_list_text(s, i + 4, 0, l, Seq::empty());
            assert(Seq::<Tree<PredView>>::empty() + l =~= l);
            lemma_skip_to(s, i + 4 + rl.len(), i + 4 + rl.len());
        },
        Tree::Not(b) => {
            let tb = text_of(*b);
            assert("not("@.len() == 4) by {
                reveal_strlit("not(");
            }
            assert(text_of(t) =~= "not("@ + tb + ")"@);
            lemma_holds_at_split(s, i, "not("@ + tb, ")"@);
            lemma_holds_at_split(s, i, "not("@, tb);
            lemma_not_head(s, i);
            lemma_skip_to(s, i + 3, i + 3);
            lemma_text_start(*b);
            lemma_holds_at_index(s, i + 4, tb, 0);
            lemma_skip_to(s, i + 4, i + 4);
            lemma_holds_at_index(s, i + 4 + tb.len(), ")"@, 0);
            lemma_skip_to(s, i + 4 + tb.len(), i + 4 + tb.len());
            lemma_parse_expr_text(s, i + 4, *b);
        },
        Tree::Const(_) => {},
    }
}

/// Reading the members of a list where their text stands, before its `)`, gives them back;
/// `lead` is the one space that follows a `,`.
proof fn lemma_parse_list_text(s: Seq<char>, i: int, lead: int, l: Seq<Tree<PredView>>, acc: Seq<Tree<PredView>>)
    requires
        renderable_list(l),
        lead == 0 || (lead == 1 && l.len() > 0 && has_char(s, i, ' ')),
        0 <= i,
        holds_at(s, i + lead, text_of_list(l)),
        has_char(s, i + lead + text_of_list(l).len(), ')'),
    ensures
        parse_list(s, i, acc) == Ok::<(Seq<Tree<PredView>>, int), int>(
            (acc + l, i + lead + text_of_list(l).len()),
        ),
    decreases l, 0nat,
{
    let rl = text_of_list(l);
    lemma_renderable_list(l);
    reveal_strlit(", ");
    if l.len() == 0 {
        assert(acc + l =~= acc);
    } else {
        let x = l[0];
        let tx = text_of(x);
        lemma_text_start(x);
        let j = i + lead;
        if l.len() == 1 {
            assert(rl == tx);
        } else {
            lemma_render_list_front(l);
        }
        assert(tx + rl.subrange(tx.len() as int, rl.len() as int) =~= rl);
        lemma_holds_at_split(s, j, tx, rl.subrange(tx.len() as int, rl.len() as int));
        lemma_holds_at_index(s, j, tx, 0);
        lemma_skip_to(s, i, j);
        let p = j + tx.len();
        if l.len() == 1 {
            lemma_skip_to(s, p, p);
            lemma_parse_expr_text(s, j, x);
            assert(acc.push(x) + Seq::<Tree<PredView>>::empty() =~= acc + l);
            assert(l.drop_first() =~= Seq::<Tree<PredView>>::empty());
            assert(text_of_list(l.drop_first()) =~= Seq::<char>::empty());
            assert(s.subrange(p, p) =~= Seq::<char>::empty());
            lemma_parse_list_text(s, p, 0, l.drop_first(), acc.push(x));
        } else {
            let rest = text_of_list(l.drop_first());
            let after = ", "@ + rest;
            assert(rl =~= tx + after);
            lemma_holds_at_split(s, j, tx, after);
            lemma_holds_at_index(s, p, after, 0);
            lemma_holds_at_index(s, p, after, 1);
            lemma_holds_at_split(s, p, ", "@, rest);
            lemma_skip_to(s, p, p);
            lemma_parse_expr_text(s, j, x);
            assert(l.drop_first().len() > 0);
            lemma_renderable_list(l.drop_first());
            lemma_parse_list_text(s, p + 1, 1, l.drop_first(), acc.push(x));
            assert(acc.push(x) + l.drop_first() =~= acc + l);
        }
    }
}

/// Parsing the text of a tree, with any white space around it, gives the tree back; so
/// rendering what `parse` returns on such a text gives the text without that white space.
pub proof fn lemma_parse_render(t: Tree<PredView>, pre: Seq<char>, post: Seq<char>)
    requires
        renderable(t),
        all_ws(pre),
        all_ws(post),
    ensures
        parse_text(pre + text_of(t) + post) == Ok::<Tree<PredView>, int>(t),
{
    let s = pre + text_of(t) + post;
    let n = text_of(t).len() as int;
    let b = pre.len() as int;
    lemma_text_start(t);
    assert(s.subrange(b, b + n) =~= text_of(t));
    assert(s[b] == text_of(t)[0]);
    assert forall|k: int| 0 <= k < b implies is_ws(#[trigger] s[k]) by {
        assert(s[k] == pre[k]);
    }
    lemma_skip_to(s, 0, b);
    assert forall|k: int| b + n <= k < s.len() implies is_ws(#[trigger] s[k]) by {
        assert(s[k] == post[k - b - n]);
    }
    lemma_skip_all_ws(s, b + n);
    lemma_parse_expr_text(s, b, t);
}

} // verus!
