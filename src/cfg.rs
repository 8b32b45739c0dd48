//! Configuration predicates: the atom type of platform conditions and its constructors.
use vstd::prelude::*;
use vstd::string::StringExecFns;

use crate::ast::{Atom, Expr, IntoExpr, Render, Var};

verus! {

/// A flag (`unix`) or a keyed predicate (`target_os = "linux"`).
#[derive(Debug, Clone, PartialEq, Eq)]
pub struct Pred {
    pub key: String,
    pub value: Option<String>,
}

/// The model of an optional string.
pub open spec fn opt_view(v: Option<String>) -> Option<Seq<char>> {
    match v {
        Some(s) => Some(s@),
        None => None,
    }
}

impl View for Pred {
    type V = (Seq<char>, Option<Seq<char>>);

    open spec fn view(&self) -> (Seq<char>, Option<Seq<char>>) {
        (self.key@, opt_view(self.value))
    }
}

impl Atom for Pred {
    fn same(&self, other: &Self) -> (r: bool) {
        if self.key != other.key {
            return false;
        }
        match (&self.value, &other.value) {
            (Some(a), Some(b)) => *a == *b,
            (None, None) => true,
            _ => false,
        }
    }

    fn duplicate(&self) -> (r: Self) {
        let value = match &self.value {
            Some(v) => Some(v.clone()),
            None => None,
        };
        Pred { key: self.key.clone(), value }
    }
}

/// The text of a predicate: `key`, or `key = "value"`.
pub open spec fn pred_text(v: (Seq<char>, Option<Seq<char>>)) -> Seq<char> {
    match v.1 {
        Some(value) => v.0 + " = \""@ + value + "\""@,
        None => v.0,
    }
}

impl Render for Pred {
    open spec fn text_of(v: (Seq<char>, Option<Seq<char>>)) -> Seq<char> {
        pred_text(v)
    }

    fn render(&self) -> (r: String) {
        let mut r = self.key.clone();
        if let Some(value) = &self.value {
            r.append(" = \"");
            r.append(value.as_str());
            r.append("\"");
        }
        r
    }
}

impl IntoExpr<Pred> for Pred {
    open spec fn spec_into_expr(self) -> Expr<Pred> {
        Expr::Var(Var(self))
    }

    fn into_expr(self) -> (r: Expr<Pred>) {
        Expr::Var(Var(self))
    }
}

/// Wraps a predicate, a list node, a negation or a literal as an expression.
pub fn expr<X: IntoExpr<Pred>>(x: X) -> (r: Expr<Pred>)
    ensures
        r == x.spec_into_expr(),
{
    x.into_expr()
}

/// The disjunction of `list`.
pub fn any(list: Vec<Expr<Pred>>) -> (r: crate::ast::Any<Pred>)
    ensures
        r.0 == list,
{
    crate::ast::Any(list)
}

/// The conjunction of `list`.
pub fn all(list: Vec<Expr<Pred>>) -> (r: crate::ast::All<Pred>)
    ensures
        r.0 == list,
{
    crate::ast::All(list)
}

/// The negation of `x`.
pub fn not<X: IntoExpr<Pred>>(x: X) -> (r: crate::ast::Not<Pred>)
    ensures
        *r.0 == x.spec_into_expr(),
{
    crate::ast::Not(Box::new(x.into_expr()))
}

/// The flag `s`.
pub fn flag(s: &str) -> (r: Pred)
    ensures
        r@ == (s@, None::<Seq<char>>),
{
    Pred { key: String::from_str(s), value: None }
}

/// The keyed predicate `s = "v"`.
pub fn key_value(s: &str, v: &str) -> (r: Pred)
    ensures
        r@ == (s@, Some(v@)),
{
    Pred { key: String::from_str(s), value: Some(String::from_str(v)) }
}

pub fn target_family(s: &str) -> (r: Pred)
    ensures
        r@ == ("target_family"@, Some(s@)),
{
    key_value("target_family", s)
}

pub fn target_vendor(s: &str) -> (r: Pred)
    ensures
        r@ == ("target_vendor"@, Some(s@)),
{
    key_value("target_vendor", s)
}

pub fn target_arch(s: &str) -> (r: Pred)
    ensures
        r@ == ("target_arch"@, Some(s@)),
{
    key_value("target_arch", s)
}

pub fn target_os(s: &str) -> (r: Pred)
    ensures
        r@ == ("target_os"@, Some(s@)),
{
    key_value("target_os", s)
}

pub fn target_env(s: &str) -> (r: Pred)
    ensures
        r@ == ("target_env"@, Some(s@)),
{
    key_value("target_env", s)
}

pub fn target_pointer_width(s: &str) -> (r: Pred)
    ensures
        r@ == ("target_pointer_width"@, Some(s@)),
{
    key_value("target_pointer_width", s)
}

} // verus!
