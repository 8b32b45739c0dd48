//! Reference semantics of expressions.
use vstd::prelude::*;

use crate::ast::{All, Any, Expr, Not, Tree, Var};

verus! {

broadcast use {vstd::seq::group_seq_axioms, vstd::std_specs::vec::group_vec_axioms};

/// The truth value of `t` when each atom `a` has the value `env(a)`.
pub open spec fn eval<A>(t: Tree<A>, env: spec_fn(A) -> bool) -> bool
    decreases t,
{
    match t {
        Tree::Any(l) => eval_or(l, env),
        Tree::All(l) => eval_and(l, env),
        Tree::Not(b) => !eval(*b, env),
        Tree::Var(a) => env(a),
        Tree::Const(b) => b,
    }
}

/// Whether some member of `s` holds.
pub open spec fn eval_or<A>(s: Seq<Tree<A>>, env: spec_fn(A) -> bool) -> bool
    decreases s,
{
    if s.len() == 0 {
        false
    } else {
        eval_or(s.drop_last(), env) || eval(s.last(), env)
    }
}

/// Whether every member of `s` holds.
pub open spec fn eval_and<A>(s: Seq<Tree<A>>, env: spec_fn(A) -> bool) -> bool
    decreases s,
{
    if s.len() == 0 {
        true
    } else {
        eval_and(s.drop_last(), env) && eval(s.last(), env)
    }
}

/// A disjunction holds exactly when one of its members does.
pub broadcast proof fn lemma_eval_or<A>(s: Seq<Tree<A>>, env: spec_fn(A) -> bool)
    ensures
        #[trigger] eval_or(s, env) == exists|i: int| 0 <= i < s.len() && eval(#[trigger] s[i], env),
    decreases s.len(),
{
    if s.len() > 0 {
        lemma_eval_or(s.drop_last(), env);
        if eval_or(s.drop_last(), env) {
            let i = choose|i: int| 0 <= i < s.drop_last().len() && eval(#[trigger] s.drop_last()[i], env);
            assert(eval(s[i], env));
        }
        if exists|i: int| 0 <= i < s.len() && eval(#[trigger] s[i], env) {
            let i = choose|i: int| 0 <= i < s.len() && eval(#[trigger] s[i], env);
            if i < s.len() - 1 {
                assert(eval(s.drop_last()[i], env));
            }
        }
    }
}

/// A conjunction holds exactly when all of its members do.
pub broadcast proof fn lemma_eval_and<A>(s: Seq<Tree<A>>, env: spec_fn(A) -> bool)
    ensures
        #[trigger] eval_and(s, env) == forall|i: int| 0 <= i < s.len() ==> eval(#[trigger] s[i], env),
    decreases s.len(),
{
    if s.len() > 0 {
        lemma_eval_or(s.drop_last(), env);
        lemma_eval_and(s.drop_last(), env);
        if !eval_and(s.drop_last(), env) {
            let i = choose|i: int| 0 <= i < s.drop_last().len() && !eval(#[trigger] s.drop_last()[i], env);
            assert(!eval(s[i], env));
        }
        if eval_and(s, env) {
            assert forall|i: int| 0 <= i < s.len() implies eval(#[trigger] s[i], env) by {
                if i < s.len() - 1 {
                    assert(eval(s.drop_last()[i], env));
                }
            }
        }
    }
}

pub broadcast group group_eval {
    lemma_eval_or,
    lemma_eval_and,
}

/// Two trees are equivalent when they agree under every assignment of their atoms.
pub open spec fn equivalent<A>(a: Tree<A>, b: Tree<A>) -> bool {
    forall|env: spec_fn(A) -> bool| #[trigger] eval(a, env) == eval(b, env)
}

} // verus!

verus! {

/// The truth value of `e` when each atom `x` has the value that `f` returns on it.
pub open spec fn holds<T, F: Fn(&T) -> bool>(e: Expr<T>, f: F) -> bool
    decreases e,
{
    match e {
        Expr::Any(Any(l)) => exists|i: int| 0 <= i < l.len() && holds(#[trigger] l@[i], f),
        Expr::All(All(l)) => forall|i: int| 0 <= i < l.len() ==> holds(#[trigger] l@[i], f),
        Expr::Not(Not(b)) => !holds(*b, f),
        Expr::Var(Var(x)) => f.ensures((&x,), true),
        Expr::Const(b) => b,
    }
}

/// `f` can be called on every atom and answers as a function of it.
pub open spec fn is_assignment<T, F: Fn(&T) -> bool>(f: F) -> bool {
    &&& forall|x: &T| #[trigger] f.requires((x,))
    &&& forall|x: &T, b: bool| #[trigger] f.ensures((x,), b) ==> b == f.ensures((x,), true)
}

/// Evaluates `expr`, asking `f` for the value of each atom.
#[verifier::loop_isolation(false)]
pub fn eval_with<T, F: Fn(&T) -> bool>(expr: &Expr<T>, f: &F) -> (r: bool)
    requires
        is_assignment(*f),
    ensures
        r == holds(*expr, *f),
    decreases expr,
{
    match expr {
        Expr::Any(Any(list)) => {
            let mut i: usize = 0;
            while i < list.len()
                invariant
                    i <= list.len(),
                    is_assignment(*f),
                    *expr == Expr::Any(Any(*list)),
                    forall|j: int| 0 <= j < i ==> !holds(#[trigger] list@[j], *f),
                decreases list.len() - i,
            {
                if eval_with(&list[i], f) {
                    assert(holds(list@[i as int], *f));
                    return true;
                }
                i += 1;
            }
            false
        },
        Expr::All(All(list)) => {
            let mut i: usize = 0;
            while i < list.len()
                invariant
                    i <= list.len(),
                    is_assignment(*f),
                    *expr == Expr::All(All(*list)),
                    forall|j: int| 0 <= j < i ==> holds(#[trigger] list@[j], *f),
                decreases list.len() - i,
            {
                if !eval_with(&list[i], f) {
                    assert(!holds(list@[i as int], *f));
                    return false;
                }
                i += 1;
            }
            true
        },
        Expr::Not(Not(not)) => !eval_with(not, f),
        Expr::Var(Var(x)) => f(x),
        Expr::Const(b) => *b,
    }
}

} // verus!

verus! {

/// A disjunction or a conjunction of two lists joined is that of each list combined.
pub proof fn lemma_eval_add<A>(a: Seq<Tree<A>>, b: Seq<Tree<A>>, env: spec_fn(A) -> bool)
    ensures
        eval_or(a + b, env) == (eval_or(a, env) || eval_or(b, env)),
        eval_and(a + b, env) == (eval_and(a, env) && eval_and(b, env)),
{
    broadcast use group_eval;

    let c = a + b;
    if eval_or(c, env) {
        let i = choose|i: int| 0 <= i < c.len() && eval(#[trigger] c[i], env);
        if i < a.len() {
            assert(eval(a[i], env));
        } else {
            assert(eval(b[i - a.len()], env));
        }
    }
    if eval_or(a, env) {
        let i = choose|i: int| 0 <= i < a.len() && eval(#[trigger] a[i], env);
        assert(eval(c[i], env));
    }
    if eval_or(b, env) {
        let i = choose|i: int| 0 <= i < b.len() && eval(#[trigger] b[i], env);
        assert(eval(c[i + a.len()], env));
    }
    if !eval_and(c, env) {
        let i = choose|i: int| 0 <= i < c.len() && !eval(#[trigger] c[i], env);
        if i < a.len() {
            assert(!eval(a[i], env));
        } else {
            assert(!eval(b[i - a.len()], env));
        }
    }
    if !eval_and(a, env) {
        let i = choose|i: int| 0 <= i < a.len() && !eval(#[trigger] a[i], env);
        assert(!eval(c[i], env));
    }
    if !eval_and(b, env) {
        let i = choose|i: int| 0 <= i < b.len() && !eval(#[trigger] b[i], env);
        assert(!eval(c[i + a.len()], env));
    }
}

/// Lists whose members agree place by place agree as disjunctions and as conjunctions.
pub proof fn lemma_eval_pointwise<A>(a: Seq<Tree<A>>, b: Seq<Tree<A>>, env: spec_fn(A) -> bool)
    requires
        a.len() == b.len(),
        forall|i: int| 0 <= i < a.len() ==> eval(#[trigger] a[i], env) == eval(b[i], env),
    ensures
        eval_or(a, env) == eval_or(b, env),
        eval_and(a, env) == eval_and(b, env),
{
    broadcast use group_eval;

    if eval_or(a, env) {
        let i = choose|i: int| 0 <= i < a.len() && eval(#[trigger] a[i], env);
        assert(eval(b[i], env));
    }
    if eval_or(b, env) {
        let i = choose|i: int| 0 <= i < b.len() && eval(#[trigger] b[i], env);
        assert(eval(a[i], env));
    }
    if !eval_and(a, env) {
        let i = choose|i: int| 0 <= i < a.len() && !eval(#[trigger] a[i], env);
        assert(!eval(b[i], env));
    }
    if !eval_and(b, env) {
        let i = choose|i: int| 0 <= i < b.len() && !eval(#[trigger] b[i], env);
        assert(!eval(a[i], env));
    }
}

/// A one-member list is that member, as a disjunction and as a conjunction.
pub proof fn lemma_eval_single<A>(x: Tree<A>, env: spec_fn(A) -> bool)
    ensures
        eval_or(seq![x], env) == eval(x, env),
        eval_and(seq![x], env) == eval(x, env),
{
    let e = Seq::<Tree<A>>::empty();
    assert(seq![x].drop_last() =~= e);
    assert(!eval_or(e, env));
    assert(eval_and(e, env));
    assert(seq![x].last() == x);
}

} // verus!
