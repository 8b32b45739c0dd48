//! Generic rewrite passes: each one is stated as a function on the model and proved to
//! preserve the truth value of the expression under every assignment.
use vstd::prelude::*;

use crate::ast::{
    Atom,
    group_model, height, lemma_model_add, lemma_model_list, lemma_model_push, lemma_model_remove, max_height, lemma_model_update, model, model_list, All, Any, Expr, Not, Tree, Var,
};
use crate::eval::{eval, eval_and, eval_or, group_eval, lemma_eval_and, lemma_eval_or};

verus! {

broadcast use {
    vstd::seq::group_seq_axioms,
    vstd::std_specs::vec::group_vec_axioms,
    group_model,
    group_eval,
};

/// `s` without the members equal to the literal `b`.
pub open spec fn drop_const<A>(s: Seq<Tree<A>>, b: bool) -> Seq<Tree<A>> {
    s.filter(|x: Tree<A>| x != Tree::<A>::Const(b))
}

/// Moves the expression out of `e`, leaving a literal behind.
pub(crate) fn take<T>(e: &mut Expr<T>) -> (r: Expr<T>)
    ensures
        r == *old(e),
        *final(e) == Expr::<T>::Const(false),
{
    let mut t = Expr::Const(false);
    std::mem::swap(e, &mut t);
    t
}

/// Removes from `list` every member that is the literal `b`.
fn remove_const<T: View>(list: &mut Vec<Expr<T>>, b: bool)
    ensures
        model_list(final(list)@) == drop_const(model_list(old(list)@), b),
{
    let ghost orig = model_list(list@);
    let ghost pred = |x: Tree<T::V>| x != Tree::<T::V>::Const(b);
    let mut i: usize = 0;
    let ghost mut k: int = 0;
    while i < list.len()
        invariant
            0 <= k <= orig.len(),
            list.len() == i + (orig.len() - k),
            orig == model_list(old(list)@),
            pred == (|x: Tree<T::V>| x != Tree::<T::V>::Const(b)),
            model_list(list@) == orig.take(k).filter(pred) + orig.skip(k),
            orig.take(k).filter(pred).len() == i,
        decreases list.len() - i,
    {
        proof {
            assert(orig.take(k + 1).drop_last() =~= orig.take(k));
            assert(orig.skip(k) =~= seq![orig[k]] + orig.skip(k + 1));
            reveal(Seq::filter);
            lemma_model_list(list@);
            assert(model_list(list@)[i as int] == orig[k]);
            assert(model(list@[i as int]) == orig[k]);
            assert(orig.take(k + 1).last() == orig[k]);
        }
        let is_b = match &list[i] {
            Expr::Const(c) => *c == b,
            _ => false,
        };
        let ghost before = list@;
        if is_b {
            list.remove(i);
            proof {
                lemma_model_list(before);
                lemma_model_list(list@);
                let m = model_list(list@);
                let pre = orig.take(k).filter(pred);
                assert(!pred(orig[k]));
                assert(orig.take(k + 1).filter(pred) == pre);
                let whole = model_list(before);
                assert(whole == pre + orig.skip(k));
                assert forall|j: int| 0 <= j < m.len() implies m[j] == (pre + orig.skip(k + 1))[j] by {
                    if j < i {
                        assert(list@[j] == before[j]);
                        assert(whole[j] == (pre + orig.skip(k))[j]);
                    } else {
                        assert(list@[j] == before[j + 1]);
                        assert(whole[j + 1] == (pre + orig.skip(k))[j + 1]);
                    }
                }
                assert(m =~= pre + orig.skip(k + 1));
            }
        } else {
            proof {
                let m = model_list(list@);
                assert(pred(orig[k]));
                assert(orig.take(k + 1).filter(pred) == orig.take(k).filter(pred).push(orig[k]));
                assert(m =~= orig.take(k + 1).filter(pred) + orig.skip(k + 1));
            }
            i += 1;
        }
        proof {
            k = k + 1;
        }
    }
    proof {
        assert(orig.take(orig.len() as int) =~= orig);
        assert(orig.skip(orig.len() as int) =~= Seq::<Tree<T::V>>::empty());
        assert(model_list(list@) =~= drop_const(orig, b));
    }
}

/// What a disjunction of already folded members folds to.
pub open spec fn fold_any<A>(s: Seq<Tree<A>>) -> Tree<A> {
    let f = drop_const(s, false);
    if f.len() == 0 {
        Tree::Const(false)
    } else if f.contains(Tree::Const(true)) {
        Tree::Const(true)
    } else {
        Tree::Any(f)
    }
}

/// What a conjunction of already folded members folds to.
pub open spec fn fold_all<A>(s: Seq<Tree<A>>) -> Tree<A> {
    let f = drop_const(s, true);
    if f.len() == 0 {
        Tree::Const(true)
    } else if f.contains(Tree::Const(false)) {
        Tree::Const(false)
    } else {
        Tree::All(f)
    }
}

/// Literal folding, bottom-up.
pub open spec fn eval_const<A>(t: Tree<A>) -> Tree<A>
    decreases t,
{
    match t {
        Tree::Any(l) => fold_any(eval_const_list(l)),
        Tree::All(l) => fold_all(eval_const_list(l)),
        Tree::Not(b) => match eval_const(*b) {
            Tree::Const(v) => Tree::Const(!v),
            c => Tree::Not(Box::new(c)),
        },
        _ => t,
    }
}

pub open spec fn eval_const_list<A>(s: Seq<Tree<A>>) -> Seq<Tree<A>>
    decreases s,
{
    if s.len() == 0 {
        s
    } else {
        eval_const_list(s.drop_last()).push(eval_const(s.last()))
    }
}

pub proof fn lemma_eval_const_list<A>(s: Seq<Tree<A>>)
    ensures
        eval_const_list(s).len() == s.len(),
        forall|i: int| 0 <= i < s.len() ==> #[trigger] eval_const_list(s)[i] == eval_const(s[i]),
    decreases s.len(),
{
    if s.len() > 0 {
        lemma_eval_const_list(s.drop_last());
    }
}

/// The literal that `t` is, if it is one.
pub open spec fn as_const<A>(t: Tree<A>) -> Option<bool> {
    match t {
        Tree::Const(b) => Some(b),
        _ => None,
    }
}

/// Folds literals: `false` members leave a disjunction and `true` members a conjunction;
/// a list that is left empty, or that holds the absorbing literal, becomes that literal;
/// the negation of a literal becomes the other literal.
pub struct EvalConst;

impl EvalConst {
    #[verifier::loop_isolation(false)]
    fn eval_any<T: View>(any: &mut Vec<Expr<T>>) -> (r: Option<bool>)
        ensures
            model_list(final(any)@) == drop_const(model_list(old(any)@), false),
            r == as_const(fold_any(model_list(old(any)@))),
    {
        remove_const(any, false);
        if any.len() == 0 {
            return Some(false);
        }
        let mut i: usize = 0;
        while i < any.len()
            invariant
                i <= any.len(),
                forall|j: int| 0 <= j < i ==> model_list(any@)[j] != Tree::<T::V>::Const(true),
            decreases any.len() - i,
        {
            if any[i].is_const_true() {
                assert(model_list(any@)[i as int] == Tree::<T::V>::Const(true));
                return Some(true);
            }
            i += 1;
        }
        None
    }

    #[verifier::loop_isolation(false)]
    fn eval_all<T: View>(all: &mut Vec<Expr<T>>) -> (r: Option<bool>)
        ensures
            model_list(final(all)@) == drop_const(model_list(old(all)@), true),
            r == as_const(fold_all(model_list(old(all)@))),
    {
        remove_const(all, true);
        if all.len() == 0 {
            return Some(true);
        }
        let mut i: usize = 0;
        while i < all.len()
            invariant
                i <= all.len(),
                forall|j: int| 0 <= j < i ==> model_list(all@)[j] != Tree::<T::V>::Const(false),
            decreases all.len() - i,
        {
            if all[i].is_const_false() {
                assert(model_list(all@)[i as int] == Tree::<T::V>::Const(false));
                return Some(false);
            }
            i += 1;
        }
        None
    }

    fn eval_not<T: View>(not: &Expr<T>) -> (r: Option<bool>)
        ensures
            r == (match as_const(not@) {
                Some(b) => Some(!b),
                None => None,
            }),
    {
        if let Expr::Const(val) = not {
            return Some(!*val);
        }
        None
    }

    #[verifier::loop_isolation(false)]
    pub fn visit_mut_expr<T: View>(&mut self, expr: &mut Expr<T>)
        ensures
            final(expr)@ == eval_const(old(expr)@),
        decreases *old(expr),
    {
        let ghost e0 = *expr;
        match expr {
            Expr::Any(Any(list)) => {
                let ghost v0 = *list;
                let ghost orig = list@;
                let mut i: usize = 0;
                while i < list.len()
                    invariant
                        e0 == Expr::Any(Any(v0)),
                        orig == v0@,
                        list.len() == orig.len(),
                        i <= list.len(),
                        forall|j: int| i <= j < orig.len() ==> list@[j] == orig[j],
                        forall|j: int| 0 <= j < i ==> model(#[trigger] list@[j]) == eval_const(model(orig[j])),
                    decreases list.len() - i,
                {
                    proof {
                        assert(decreases_to!(e0 => v0));
                        assert(decreases_to!(v0 => v0@));
                        assert(decreases_to!(v0@ => v0@[i as int]));
                        assert(decreases_to!(e0 => v0@[i as int]));
                    }
                    self.visit_mut_expr(&mut list[i]);
                    i += 1;
                }
                let ghost done = model_list(list@);
                proof {
                    let l = model_list(orig);
                    assert(e0@ == Tree::<T::V>::Any(l));
                    lemma_eval_const_list(l);
                    assert(done =~= eval_const_list(l));
                    assert(eval_const(e0@) == fold_any(done));
                }
                if let Some(val) = Self::eval_any(list) {
                    *expr = Expr::Const(val);
                }
            },
            Expr::All(All(list)) => {
                let ghost v0 = *list;
                let ghost orig = list@;
                let mut i: usize = 0;
                while i < list.len()
                    invariant
                        e0 == Expr::All(All(v0)),
                        orig == v0@,
                        list.len() == orig.len(),
                        i <= list.len(),
                        forall|j: int| i <= j < orig.len() ==> list@[j] == orig[j],
                        forall|j: int| 0 <= j < i ==> model(#[trigger] list@[j]) == eval_const(model(orig[j])),
                    decreases list.len() - i,
                {
                    proof {
                        assert(decreases_to!(e0 => v0));
                        assert(decreases_to!(v0 => v0@));
                        assert(decreases_to!(v0@ => v0@[i as int]));
                        assert(decreases_to!(e0 => v0@[i as int]));
                    }
                    self.visit_mut_expr(&mut list[i]);
                    i += 1;
                }
                let ghost done = model_list(list@);
                proof {
                    let l = model_list(orig);
                    assert(e0@ == Tree::<T::V>::All(l));
                    lemma_eval_const_list(l);
                    assert(done =~= eval_const_list(l));
                    assert(eval_const(e0@) == fold_all(done));
                }
                if let Some(val) = Self::eval_all(list) {
                    *expr = Expr::Const(val);
                }
            },
            Expr::Not(Not(not)) => {
                self.visit_mut_expr(not);
                if let Some(val) = Self::eval_not(not) {
                    *expr = Expr::Const(val);
                }
            },
            _ => {},
        }
    }
}

} // verus!

verus! {

/// What is left after dropping a literal: every other member stays, and nothing new comes.
pub proof fn lemma_drop_const<A>(s: Seq<Tree<A>>, b: bool)
    ensures
        forall|i: int|
            0 <= i < s.len() ==> s[i] == Tree::<A>::Const(b) || drop_const(s, b).contains(
                #[trigger] s[i],
            ),
        forall|j: int|
            0 <= j < drop_const(s, b).len() ==> #[trigger] drop_const(s, b)[j] != Tree::<A>::Const(b)
                && s.contains(drop_const(s, b)[j]),
{
    broadcast use vstd::seq_lib::group_filter_ensures, Seq::lemma_filter_contains_rev;

    let f = drop_const(s, b);
    assert forall|j: int| 0 <= j < f.len() implies #[trigger] f[j] != Tree::<A>::Const(b) && s.contains(
        f[j],
    ) by {
        assert(f.contains(f[j]));
    }
}

/// Dropping `false` from a disjunction keeps its truth value.
pub proof fn lemma_eval_drop_false<A>(s: Seq<Tree<A>>, env: spec_fn(A) -> bool)
    ensures
        (exists|i: int| 0 <= i < s.len() && eval(#[trigger] s[i], env)) == (exists|j: int|
            0 <= j < drop_const(s, false).len() && eval(#[trigger] drop_const(s, false)[j], env)),
{
    lemma_drop_const(s, false);
    let f = drop_const(s, false);
    if exists|i: int| 0 <= i < s.len() && eval(#[trigger] s[i], env) {
        let i = choose|i: int| 0 <= i < s.len() && eval(#[trigger] s[i], env);
        assert(s[i] != Tree::<A>::Const(false));
        assert(f.contains(s[i]));
        let j = choose|j: int| 0 <= j < f.len() && f[j] == s[i];
        assert(eval(f[j], env));
    }
    if exists|j: int| 0 <= j < f.len() && eval(#[trigger] f[j], env) {
        let j = choose|j: int| 0 <= j < f.len() && eval(#[trigger] f[j], env);
        assert(s.contains(f[j]));
        let i = choose|i: int| 0 <= i < s.len() && s[i] == f[j];
        assert(eval(s[i], env));
    }
}

/// Dropping `true` from a conjunction keeps its truth value.
pub proof fn lemma_eval_drop_true<A>(s: Seq<Tree<A>>, env: spec_fn(A) -> bool)
    ensures
        (forall|i: int| 0 <= i < s.len() ==> eval(#[trigger] s[i], env)) == (forall|j: int|
            0 <= j < drop_const(s, true).len() ==> eval(#[trigger] drop_const(s, true)[j], env)),
{
    lemma_drop_const(s, true);
    let f = drop_const(s, true);
    if forall|i: int| 0 <= i < s.len() ==> eval(#[trigger] s[i], env) {
        assert forall|j: int| 0 <= j < f.len() implies eval(#[trigger] f[j], env) by {
            assert(s.contains(f[j]));
        }
    }
    if forall|j: int| 0 <= j < f.len() ==> eval(#[trigger] f[j], env) {
        assert forall|i: int| 0 <= i < s.len() implies eval(#[trigger] s[i], env) by {
            if s[i] != Tree::<A>::Const(true) {
                assert(f.contains(s[i]));
                let j = choose|j: int| 0 <= j < f.len() && f[j] == s[i];
                assert(eval(f[j], env));
            }
        }
    }
}

/// Folding literals keeps the truth value under every assignment.
pub proof fn lemma_eval_const_sound<A>(t: Tree<A>, env: spec_fn(A) -> bool)
    ensures
        eval(eval_const(t), env) == eval(t, env),
    decreases t,
{
    match t {
        Tree::Any(l) => {
            lemma_eval_const_list(l);
            assert forall|i: int| 0 <= i < l.len() implies eval(eval_const(#[trigger] l[i]), env)
                == eval(l[i], env) by {
                lemma_eval_const_sound(l[i], env);
            }
            lemma_eval_const_any(l, env);
            assert(t == Tree::<A>::Any(l));
            assert(eval(eval_const(t), env) == eval(t, env));
        },
        Tree::All(l) => {
            lemma_eval_const_list(l);
            assert forall|i: int| 0 <= i < l.len() implies eval(eval_const(#[trigger] l[i]), env)
                == eval(l[i], env) by {
                lemma_eval_const_sound(l[i], env);
            }
            lemma_eval_const_all(l, env);
        },
        Tree::Not(b) => {
            lemma_eval_const_sound(*b, env);
            assert(eval(eval_const(t), env) == eval(t, env));
        },
        Tree::Var(_) => {
            assert(eval(eval_const(t), env) == eval(t, env));
        },
        Tree::Const(_) => {
            assert(eval(eval_const(t), env) == eval(t, env));
        },
    }
}

} // verus!

verus! {

proof fn lemma_eval_const_any<A>(l: Seq<Tree<A>>, env: spec_fn(A) -> bool)
    requires
        forall|i: int| 0 <= i < l.len() ==> eval(eval_const(#[trigger] l[i]), env) == eval(l[i], env),
    ensures
        eval(eval_const(Tree::<A>::Any(l)), env) == eval(Tree::<A>::Any(l), env),
{
            let m = eval_const_list(l);
    lemma_eval_const_list(l);
    assert forall|i: int| 0 <= i < l.len() implies eval(#[trigger] m[i], env) == eval(
        l[i],
        env,
    ) by {
        assert(m[i] == eval_const(l[i]));
    }
    assert(eval(Tree::<A>::Any(l), env) == eval_or(l, env));
    lemma_eval_or(l, env);
    if exists|i: int| 0 <= i < l.len() && eval(#[trigger] l[i], env) {
        let i = choose|i: int| 0 <= i < l.len() && eval(#[trigger] l[i], env);
        assert(eval(m[i], env));
    }
    if exists|i: int| 0 <= i < m.len() && eval(#[trigger] m[i], env) {
        let i = choose|i: int| 0 <= i < m.len() && eval(#[trigger] m[i], env);
        assert(eval(l[i], env));
    }
    lemma_eval_drop_false(m, env);
    let f = drop_const(m, false);
    lemma_eval_or(f, env);
    assert(eval(Tree::<A>::Any(l), env) == exists|i: int| 0 <= i < m.len() && eval(#[trigger] m[i], env));
    assert(eval(Tree::<A>::Any(l), env) == exists|j: int| 0 <= j < f.len() && eval(#[trigger] f[j], env));
    assert(eval_const(Tree::<A>::Any(l)) == fold_any(m));
    if f.len() == 0 {
        assert(!eval(Tree::<A>::Any(l), env));
        assert(eval(eval_const(Tree::<A>::Any(l)), env) == eval(Tree::<A>::Any(l), env));
    } else if f.contains(Tree::Const(true)) {
        let j = choose|j: int| 0 <= j < f.len() && f[j] == Tree::<A>::Const(true);
        assert(eval(f[j], env));
        assert(eval(Tree::<A>::Any(l), env));
        assert(eval(eval_const(Tree::<A>::Any(l)), env) == eval(Tree::<A>::Any(l), env));
    } else {
        assert(eval(Tree::<A>::Any(f), env) == eval_or(f, env));
        assert(eval(eval_const(Tree::<A>::Any(l)), env) == eval(Tree::<A>::Any(l), env));
    }
        }

} // verus!

verus! {

proof fn lemma_eval_const_all<A>(l: Seq<Tree<A>>, env: spec_fn(A) -> bool)
    requires
        forall|i: int| 0 <= i < l.len() ==> eval(eval_const(#[trigger] l[i]), env) == eval(l[i], env),
    ensures
        eval(eval_const(Tree::<A>::All(l)), env) == eval(Tree::<A>::All(l), env),
{
    let m = eval_const_list(l);
    lemma_eval_const_list(l);
    assert forall|i: int| 0 <= i < l.len() implies eval(#[trigger] m[i], env) == eval(l[i], env) by {
        assert(m[i] == eval_const(l[i]));
    }
    lemma_eval_and(l, env);
    lemma_eval_and(m, env);
    if exists|i: int| 0 <= i < m.len() && !eval(#[trigger] m[i], env) {
        let i = choose|i: int| 0 <= i < m.len() && !eval(#[trigger] m[i], env);
        assert(!eval(l[i], env));
    }
    if exists|i: int| 0 <= i < l.len() && !eval(#[trigger] l[i], env) {
        let i = choose|i: int| 0 <= i < l.len() && !eval(#[trigger] l[i], env);
        assert(!eval(m[i], env));
    }
    lemma_eval_drop_true(m, env);
    let f = drop_const(m, true);
    lemma_eval_and(f, env);
    if f.contains(Tree::Const(false)) {
        let j = choose|j: int| 0 <= j < f.len() && f[j] == Tree::<A>::Const(false);
        assert(!eval(f[j], env));
    } else if f.len() > 0 {
        assert(eval(Tree::<A>::All(f), env) == eval_and(f, env));
    }
}

} // verus!

verus! {

/// The members of `x` if it is a disjunction (`disj`) or a conjunction (`!disj`).
pub open spec fn members_of<A>(x: Tree<A>, disj: bool) -> Option<Seq<Tree<A>>> {
    match x {
        Tree::Any(l) => if disj { Some(l) } else { None },
        Tree::All(l) => if disj { None } else { Some(l) },
        _ => None,
    }
}

/// `s` with each member of the same kind as the list replaced by its own members.
pub open spec fn splice<A>(s: Seq<Tree<A>>, disj: bool) -> Seq<Tree<A>>
    decreases s.len(),
{
    if s.len() == 0 {
        s
    } else {
        splice(s.drop_last(), disj) + match members_of(s.last(), disj) {
            Some(l) => l,
            None => seq![s.last()],
        }
    }
}

/// One level of same-kind nesting lifted into each list, top-down.
pub open spec fn flatten_nested<A>(t: Tree<A>) -> Tree<A>
    decreases t,
{
    match t {
        Tree::Any(l) => Tree::Any(flatten_spliced(l, true)),
        Tree::All(l) => Tree::All(flatten_spliced(l, false)),
        Tree::Not(b) => Tree::Not(Box::new(flatten_nested(*b))),
        _ => t,
    }
}

/// `flatten_nested` on each member of `splice(s, disj)`.
pub open spec fn flatten_spliced<A>(s: Seq<Tree<A>>, disj: bool) -> Seq<Tree<A>>
    decreases s,
{
    if s.len() == 0 {
        s
    } else {
        flatten_spliced(s.drop_last(), disj) + match s.last() {
            Tree::Any(l) => if disj {
                flatten_nested_list(l)
            } else {
                seq![flatten_nested(s.last())]
            },
            Tree::All(l) => if disj {
                seq![flatten_nested(s.last())]
            } else {
                flatten_nested_list(l)
            },
            _ => seq![flatten_nested(s.last())],
        }
    }
}

pub open spec fn flatten_nested_list<A>(s: Seq<Tree<A>>) -> Seq<Tree<A>>
    decreases s,
{
    if s.len() == 0 {
        s
    } else {
        flatten_nested_list(s.drop_last()).push(flatten_nested(s.last()))
    }
}

pub proof fn lemma_flatten_nested_list<A>(s: Seq<Tree<A>>)
    ensures
        flatten_nested_list(s).len() == s.len(),
        forall|i: int| 0 <= i < s.len() ==> #[trigger] flatten_nested_list(s)[i] == flatten_nested(s[i]),
    decreases s.len(),
{
    if s.len() > 0 {
        lemma_flatten_nested_list(s.drop_last());
    }
}

proof fn lemma_flatten_nested_list_add<A>(a: Seq<Tree<A>>, b: Seq<Tree<A>>)
    ensures
        flatten_nested_list(a + b) == flatten_nested_list(a) + flatten_nested_list(b),
{
    lemma_flatten_nested_list(a);
    lemma_flatten_nested_list(b);
    lemma_flatten_nested_list(a + b);
    assert(flatten_nested_list(a + b) =~= flatten_nested_list(a) + flatten_nested_list(b));
}

/// Walking the spliced list is the same as splicing while walking.
proof fn lemma_flatten_spliced<A>(s: Seq<Tree<A>>, disj: bool)
    ensures
        flatten_nested_list(splice(s, disj)) == flatten_spliced(s, disj),
    decreases s.len(),
{
    if s.len() > 0 {
        lemma_flatten_spliced(s.drop_last(), disj);
        let x = s.last();
        let tail = match members_of(x, disj) {
            Some(l) => l,
            None => seq![x],
        };
        lemma_flatten_nested_list_add(splice(s.drop_last(), disj), tail);
        lemma_flatten_nested_list(seq![x]);
        assert(flatten_nested_list(seq![x]) =~= seq![flatten_nested(x)]);
    }
}

/// Splicing a list with no member of its own kind leaves it as it is.
proof fn lemma_splice_id<A>(s: Seq<Tree<A>>, disj: bool)
    requires
        forall|i: int| 0 <= i < s.len() ==> members_of(#[trigger] s[i], disj) is None,
    ensures
        splice(s, disj) == s,
    decreases s.len(),
{
    if s.len() > 0 {
        lemma_splice_id(s.drop_last(), disj);
        assert(s.drop_last() + seq![s.last()] =~= s);
    }
}

/// Every member of a spliced list is lower than the list it came from.
proof fn lemma_splice_height<A>(s: Seq<Tree<A>>, disj: bool)
    ensures
        forall|i: int| 0 <= i < splice(s, disj).len() ==> height(#[trigger] splice(s, disj)[i]) < 1 + max_height(s),
    decreases s.len(),
{
    broadcast use group_model;

    if s.len() > 0 {
        lemma_splice_height(s.drop_last(), disj);
        let x = s.last();
        let a = splice(s.drop_last(), disj);
        let tail = match members_of(x, disj) {
            Some(l) => l,
            None => seq![x],
        };
        assert(height(x) <= max_height(s));
        assert(max_height(s.drop_last()) <= max_height(s));
        assert forall|i: int| 0 <= i < splice(s, disj).len() implies height(
            #[trigger] splice(s, disj)[i],
        ) < 1 + max_height(s) by {
            if i >= a.len() {
                assert(splice(s, disj)[i] == tail[i - a.len()]);
                if let Some(l) = members_of(x, disj) {
                    assert(height(l[i - a.len()]) <= max_height(l));
                }
            }
        }
    }
}

/// Splicing keeps the truth value of a disjunction (`disj`) or of a conjunction.
proof fn lemma_splice_sound<A>(s: Seq<Tree<A>>, disj: bool, env: spec_fn(A) -> bool)
    ensures
        disj ==> eval_or(splice(s, disj), env) == eval_or(s, env),
        !disj ==> eval_and(splice(s, disj), env) == eval_and(s, env),
    decreases s.len(),
{
    if s.len() > 0 {
        lemma_splice_sound(s.drop_last(), disj, env);
        let x = s.last();
        let tail = match members_of(x, disj) {
            Some(l) => l,
            None => seq![x],
        };
        crate::eval::lemma_eval_add(splice(s.drop_last(), disj), tail, env);
        crate::eval::lemma_eval_single(x, env);
    }
}

/// Lifting nested lists keeps the truth value under every assignment.
pub proof fn lemma_flatten_nested_sound<A>(t: Tree<A>, env: spec_fn(A) -> bool)
    ensures
        eval(flatten_nested(t), env) == eval(t, env),
{
    lemma_flatten_nested_sound_h(t, env);
}

/// Soundness on one member of a spliced list, by induction on the height.
proof fn lemma_flatten_nested_sound_member<A>(l: Seq<Tree<A>>, disj: bool, i: int, env: spec_fn(A) -> bool)
    requires
        0 <= i < splice(l, disj).len(),
    ensures
        eval(flatten_nested(splice(l, disj)[i]), env) == eval(splice(l, disj)[i], env),
    decreases 1 + max_height(l), 0nat,
{
    lemma_splice_height(l, disj);
    lemma_flatten_nested_sound_h(splice(l, disj)[i], env);
}

proof fn lemma_flatten_nested_sound_h<A>(t: Tree<A>, env: spec_fn(A) -> bool)
    ensures
        eval(flatten_nested(t), env) == eval(t, env),
    decreases height(t), 1nat,
{
    broadcast use group_model;

    match t {
        Tree::Any(l) => {
            lemma_flatten_spliced(l, true);
            lemma_splice_sound(l, true, env);
            let sp = splice(l, true);
            lemma_flatten_nested_list(sp);
            assert forall|i: int| 0 <= i < sp.len() implies eval(#[trigger] flatten_nested_list(sp)[i], env)
                == eval(sp[i], env) by {
                lemma_flatten_nested_sound_member(l, true, i, env);
            }
            crate::eval::lemma_eval_pointwise(flatten_nested_list(sp), sp, env);
        },
        Tree::All(l) => {
            lemma_flatten_spliced(l, false);
            lemma_splice_sound(l, false, env);
            let sp = splice(l, false);
            lemma_flatten_nested_list(sp);
            assert forall|i: int| 0 <= i < sp.len() implies eval(#[trigger] flatten_nested_list(sp)[i], env)
                == eval(sp[i], env) by {
                lemma_flatten_nested_sound_member(l, false, i, env);
            }
            crate::eval::lemma_eval_pointwise(flatten_nested_list(sp), sp, env);
        },
        Tree::Not(b) => {
            lemma_flatten_nested_sound_h(*b, env);
        },
        _ => {},
    }
}

} // verus!

verus! {

/// Lifts the members of a nested list of the same kind into the list, then goes on
/// into every member.
pub struct FlattenNestedList;

impl FlattenNestedList {
    fn flatten_any<T: View>(list: &mut Vec<Expr<T>>)
        ensures
            model_list(final(list)@) == splice(model_list(old(list)@), true),
    {
        Self::flatten(list, true)
    }

    fn flatten_all<T: View>(list: &mut Vec<Expr<T>>)
        ensures
            model_list(final(list)@) == splice(model_list(old(list)@), false),
    {
        Self::flatten(list, false)
    }

    #[verifier::loop_isolation(false)]
    fn flatten<T: View>(list: &mut Vec<Expr<T>>, disj: bool)
        ensures
            model_list(final(list)@) == splice(model_list(old(list)@), disj),
    {
        let mut i: usize = 0;
        let mut found = false;
        while i < list.len()
            invariant
                i <= list.len(),
                !found ==> forall|j: int| 0 <= j < i ==> members_of(#[trigger] model_list(list@)[j], disj) is None,
            decreases list.len() - i,
        {
            let same = if disj {
                list[i].is_any()
            } else {
                list[i].is_all()
            };
            if same {
                found = true;
                break;
            }
            i += 1;
        }
        if !found {
            proof {
                lemma_splice_id(model_list(list@), disj);
            }
            return;
        }
        let mut src: Vec<Expr<T>> = Vec::new();
        std::mem::swap(list, &mut src);
        let ghost orig = model_list(src@);
        let mut ans: Vec<Expr<T>> = Vec::new();
        let ghost mut k: int = 0;
        proof {
            assert(orig.take(0) =~= Seq::<Tree<T::V>>::empty());
            assert(orig.skip(0) =~= orig);
        }
        while src.len() > 0
            invariant
                0 <= k <= orig.len(),
                model_list(src@) == orig.skip(k),
                model_list(ans@) == splice(orig.take(k), disj),
            decreases src.len(),
        {
            let ghost before = src@;
            let x = src.remove(0);
            proof {
                lemma_model_remove(before, 0);
                assert(orig.skip(k).remove(0) =~= orig.skip(k + 1));
                assert(orig.take(k + 1).drop_last() =~= orig.take(k));
                assert(model_list(before)[0] == model(before[0]));
                assert(orig.skip(k)[0] == orig[k]);
                assert(model(x) == orig[k]);
            }
            let ghost pre = ans@;
            match x {
                Expr::Any(Any(mut inner)) if disj => {
                    let ghost v = inner@;
                    ans.append(&mut inner);
                    proof {
                        lemma_model_add(pre, v);
                    }
                },
                Expr::All(All(mut inner)) if !disj => {
                    let ghost v = inner@;
                    ans.append(&mut inner);
                    proof {
                        lemma_model_add(pre, v);
                    }
                },
                other => {
                    ans.push(other);
                    proof {
                        lemma_model_push(pre, other);
                    }
                },
            }
            proof {
                k = k + 1;
            }
        }
        proof {
            assert(orig.take(k) =~= orig);
        }
        *list = ans;
    }

    #[verifier::loop_isolation(false)]
    pub fn visit_mut_expr<T: View>(&mut self, expr: &mut Expr<T>)
        ensures
            final(expr)@ == flatten_nested(old(expr)@),
        decreases height(old(expr)@),
    {
        let ghost e0 = expr@;
        match expr {
            Expr::Any(Any(list)) => {
                let ghost l = model_list(list@);
                Self::flatten_any(list);
                let ghost sp = model_list(list@);
                proof {
                    lemma_splice_height(l, true);
                }
                let mut i: usize = 0;
                while i < list.len()
                    invariant
                        i <= list.len(),
                        model_list(list@).len() == sp.len(),
                        forall|j: int| 0 <= j < i ==> #[trigger] model_list(list@)[j] == flatten_nested(sp[j]),
                        forall|j: int| i <= j < sp.len() ==> #[trigger] model_list(list@)[j] == sp[j],
                    decreases list.len() - i,
                {
                    let ghost before = list@;
                    assert(model_list(before)[i as int] == sp[i as int]);
                    self.visit_mut_expr(&mut list[i]);
                    proof {
                        lemma_model_update(before, i as int, list@[i as int]);
                    }
                    i += 1;
                }
                proof {
                    lemma_flatten_spliced(l, true);
                    lemma_flatten_nested_list(sp);
                    assert(model_list(list@) =~= flatten_nested_list(sp));
                }
            },
            Expr::All(All(list)) => {
                let ghost l = model_list(list@);
                Self::flatten_all(list);
                let ghost sp = model_list(list@);
                proof {
                    lemma_splice_height(l, false);
                }
                let mut i: usize = 0;
                while i < list.len()
                    invariant
                        i <= list.len(),
                        model_list(list@).len() == sp.len(),
                        forall|j: int| 0 <= j < i ==> #[trigger] model_list(list@)[j] == flatten_nested(sp[j]),
                        forall|j: int| i <= j < sp.len() ==> #[trigger] model_list(list@)[j] == sp[j],
                    decreases list.len() - i,
                {
                    let ghost before = list@;
                    assert(model_list(before)[i as int] == sp[i as int]);
                    self.visit_mut_expr(&mut list[i]);
                    proof {
                        lemma_model_update(before, i as int, list@[i as int]);
                    }
                    i += 1;
                }
                proof {
                    lemma_flatten_spliced(l, false);
                    lemma_flatten_nested_list(sp);
                    assert(model_list(list@) =~= flatten_nested_list(sp));
                }
            },
            Expr::Not(Not(not)) => {
                self.visit_mut_expr(not);
            },
            _ => {},
        }
    }
}

} // verus!

verus! {

/// `s` keeping only the first occurrence of each member, in order.
pub open spec fn dedup<A>(s: Seq<Tree<A>>) -> Seq<Tree<A>>
    decreases s.len(),
{
    if s.len() == 0 {
        s
    } else {
        let d = dedup(s.drop_last());
        if s.drop_last().contains(s.last()) {
            d
        } else {
            d.push(s.last())
        }
    }
}

/// Duplicates removed from each list, top-down.
pub open spec fn dedup_tree<A>(t: Tree<A>) -> Tree<A>
    decreases t,
{
    match t {
        Tree::Any(l) => Tree::Any(dedup_walk(l)),
        Tree::All(l) => Tree::All(dedup_walk(l)),
        Tree::Not(b) => Tree::Not(Box::new(dedup_tree(*b))),
        _ => t,
    }
}

/// `dedup_tree` on each member of `dedup(s)`.
pub open spec fn dedup_walk<A>(s: Seq<Tree<A>>) -> Seq<Tree<A>>
    decreases s,
{
    if s.len() == 0 {
        s
    } else {
        let d = dedup_walk(s.drop_last());
        if s.drop_last().contains(s.last()) {
            d
        } else {
            d.push(dedup_tree(s.last()))
        }
    }
}

pub open spec fn dedup_tree_list<A>(s: Seq<Tree<A>>) -> Seq<Tree<A>>
    decreases s,
{
    if s.len() == 0 {
        s
    } else {
        dedup_tree_list(s.drop_last()).push(dedup_tree(s.last()))
    }
}

pub proof fn lemma_dedup_tree_list<A>(s: Seq<Tree<A>>)
    ensures
        dedup_tree_list(s).len() == s.len(),
        forall|i: int| 0 <= i < s.len() ==> #[trigger] dedup_tree_list(s)[i] == dedup_tree(s[i]),
    decreases s.len(),
{
    if s.len() > 0 {
        lemma_dedup_tree_list(s.drop_last());
    }
}

proof fn lemma_dedup_walk<A>(s: Seq<Tree<A>>)
    ensures
        dedup_walk(s) == dedup_tree_list(dedup(s)),
    decreases s.len(),
{
    if s.len() > 0 {
        lemma_dedup_walk(s.drop_last());
        let d = dedup(s.drop_last());
        lemma_dedup_tree_list(d);
        lemma_dedup_tree_list(d.push(s.last()));
        assert(dedup_tree_list(d.push(s.last())) =~= dedup_tree_list(d).push(dedup_tree(s.last())));
    }
}

/// Removing duplicates keeps exactly the members that were there.
pub proof fn lemma_dedup_members<A>(s: Seq<Tree<A>>)
    ensures
        forall|x: Tree<A>| #[trigger] dedup(s).contains(x) <==> s.contains(x),
        dedup(s).len() <= s.len(),
    decreases s.len(),
{
    if s.len() > 0 {
        let p = s.drop_last();
        lemma_dedup_members(p);
        assert forall|x: Tree<A>| #[trigger] dedup(s).contains(x) <==> s.contains(x) by {
            if s.contains(x) {
                let i = choose|i: int| 0 <= i < s.len() && s[i] == x;
                if i < s.len() - 1 {
                    assert(p[i] == x);
                    assert(p.contains(x));
                    assert(dedup(p).contains(x));
                    let j = choose|j: int| 0 <= j < dedup(p).len() && dedup(p)[j] == x;
                    if !p.contains(s.last()) {
                        assert(dedup(s) == dedup(p).push(s.last()));
                        assert(dedup(s)[j] == x);
                    }
                } else if p.contains(s.last()) {
                    assert(dedup(p).contains(x));
                } else {
                    assert(dedup(s)[dedup(s).len() - 1] == x);
                }
            }
            if dedup(s).contains(x) {
                let j = choose|j: int| 0 <= j < dedup(s).len() && dedup(s)[j] == x;
                if j < dedup(p).len() {
                    assert(dedup(p)[j] == x);
                    assert(dedup(p).contains(x));
                    let i = choose|i: int| 0 <= i < p.len() && p[i] == x;
                    assert(s[i] == x);
                } else {
                    assert(s[s.len() - 1] == x);
                }
            }
        }
    }
}

/// Lists with the same members agree as disjunctions and as conjunctions.
pub proof fn lemma_eval_same_members<A>(a: Seq<Tree<A>>, b: Seq<Tree<A>>, env: spec_fn(A) -> bool)
    requires
        forall|x: Tree<A>| a.contains(x) ==> b.contains(x),
        forall|x: Tree<A>| b.contains(x) ==> a.contains(x),
    ensures
        eval_or(a, env) == eval_or(b, env),
        eval_and(a, env) == eval_and(b, env),
{
    broadcast use group_eval;

    if eval_or(a, env) {
        let i = choose|i: int| 0 <= i < a.len() && eval(#[trigger] a[i], env);
        assert(b.contains(a[i]));
        let j = choose|j: int| 0 <= j < b.len() && b[j] == a[i];
        assert(eval(b[j], env));
    }
    if eval_or(b, env) {
        let i = choose|i: int| 0 <= i < b.len() && eval(#[trigger] b[i], env);
        assert(a.contains(b[i]));
        let j = choose|j: int| 0 <= j < a.len() && a[j] == b[i];
        assert(eval(a[j], env));
    }
    if !eval_and(a, env) {
        let i = choose|i: int| 0 <= i < a.len() && !eval(#[trigger] a[i], env);
        assert(b.contains(a[i]));
        let j = choose|j: int| 0 <= j < b.len() && b[j] == a[i];
        assert(!eval(b[j], env));
    }
    if !eval_and(b, env) {
        let i = choose|i: int| 0 <= i < b.len() && !eval(#[trigger] b[i], env);
        assert(a.contains(b[i]));
        let j = choose|j: int| 0 <= j < a.len() && a[j] == b[i];
        assert(!eval(a[j], env));
    }
}

/// Every member of `dedup(s)` is no higher than `s` allows.
proof fn lemma_dedup_height<A>(s: Seq<Tree<A>>)
    ensures
        forall|i: int| 0 <= i < dedup(s).len() ==> height(#[trigger] dedup(s)[i]) <= max_height(s),
{
    broadcast use group_model;

    lemma_dedup_members(s);
    assert forall|i: int| 0 <= i < dedup(s).len() implies height(#[trigger] dedup(s)[i]) <= max_height(s) by {
        assert(dedup(s).contains(dedup(s)[i]));
        let j = choose|j: int| 0 <= j < s.len() && s[j] == dedup(s)[i];
    }
}

/// Removing duplicates keeps the truth value under every assignment.
pub proof fn lemma_dedup_tree_sound<A>(t: Tree<A>, env: spec_fn(A) -> bool)
    ensures
        eval(dedup_tree(t), env) == eval(t, env),
{
    lemma_dedup_tree_sound_h(t, env);
}

proof fn lemma_dedup_sound_list<A>(l: Seq<Tree<A>>, env: spec_fn(A) -> bool)
    ensures
        eval_or(dedup_walk(l), env) == eval_or(l, env),
        eval_and(dedup_walk(l), env) == eval_and(l, env),
    decreases 1 + max_height(l), 0nat,
{
    let d = dedup(l);
    lemma_dedup_walk(l);
    lemma_dedup_tree_list(d);
    lemma_dedup_members(l);
    lemma_dedup_height(l);
    assert forall|i: int| 0 <= i < d.len() implies eval(#[trigger] dedup_tree_list(d)[i], env) == eval(
        d[i],
        env,
    ) by {
        lemma_dedup_tree_sound_h(d[i], env);
    }
    crate::eval::lemma_eval_pointwise(dedup_tree_list(d), d, env);
    lemma_eval_same_members(d, l, env);
}

proof fn lemma_dedup_tree_sound_h<A>(t: Tree<A>, env: spec_fn(A) -> bool)
    ensures
        eval(dedup_tree(t), env) == eval(t, env),
    decreases height(t), 1nat,
{
    match t {
        Tree::Any(l) => {
            lemma_dedup_sound_list(l, env);
        },
        Tree::All(l) => {
            lemma_dedup_sound_list(l, env);
        },
        Tree::Not(b) => {
            lemma_dedup_tree_sound_h(*b, env);
        },
        _ => {},
    }
}

} // verus!

verus! {

/// Whether the model of `x` is a member of the model of `list`.
fn contains_expr<T: Atom>(list: &Vec<Expr<T>>, x: &Expr<T>) -> (r: bool)
    ensures
        r == model_list(list@).contains(x@),
{
    let mut i: usize = 0;
    while i < list.len()
        invariant
            i <= list.len(),
            forall|j: int| 0 <= j < i ==> model_list(list@)[j] != x@,
        decreases list.len() - i,
    {
        if list[i].equals(x) {
            assert(model_list(list@)[i as int] == x@);
            return true;
        }
        i += 1;
    }
    false
}

/// Removes every member of each list that equals an earlier one, keeping the order of the
/// rest, then goes on into every member.
pub struct DedupList;

impl DedupList {
    #[verifier::loop_isolation(false)]
    fn dedup_list<T: Atom>(list: &mut Vec<Expr<T>>)
        ensures
            model_list(final(list)@) == dedup(model_list(old(list)@)),
    {
        let mut src: Vec<Expr<T>> = Vec::new();
        std::mem::swap(list, &mut src);
        let ghost orig = model_list(src@);
        let mut ans: Vec<Expr<T>> = Vec::new();
        let ghost mut k: int = 0;
        proof {
            assert(orig.take(0) =~= Seq::<Tree<T::V>>::empty());
            assert(orig.skip(0) =~= orig);
        }
        while src.len() > 0
            invariant
                0 <= k <= orig.len(),
                model_list(src@) == orig.skip(k),
                model_list(ans@) == dedup(orig.take(k)),
            decreases src.len(),
        {
            let ghost before = src@;
            let x = src.remove(0);
            proof {
                lemma_model_remove(before, 0);
                assert(orig.skip(k).remove(0) =~= orig.skip(k + 1));
                assert(orig.take(k + 1).drop_last() =~= orig.take(k));
                assert(model_list(before)[0] == model(before[0]));
                assert(orig.skip(k)[0] == orig[k]);
                lemma_dedup_members(orig.take(k));
            }
            let ghost pre = ans@;
            if !contains_expr(&ans, &x) {
                ans.push(x);
                proof {
                    lemma_model_push(pre, x);
                }
            }
            proof {
                k = k + 1;
            }
        }
        proof {
            assert(orig.take(k) =~= orig);
        }
        *list = ans;
    }

    #[verifier::loop_isolation(false)]
    fn visit_list<T: Atom>(&mut self, list: &mut Vec<Expr<T>>)
        ensures
            model_list(final(list)@) == dedup_walk(model_list(old(list)@)),
        decreases 1 + max_height(model_list(old(list)@)), 0nat,
    {
        let ghost l = model_list(list@);
        Self::dedup_list(list);
        let ghost d = model_list(list@);
        proof {
            lemma_dedup_height(l);
        }
        let mut i: usize = 0;
        while i < list.len()
            invariant
                i <= list.len(),
                model_list(list@).len() == d.len(),
                forall|j: int| 0 <= j < i ==> #[trigger] model_list(list@)[j] == dedup_tree(d[j]),
                forall|j: int| i <= j < d.len() ==> #[trigger] model_list(list@)[j] == d[j],
            decreases list.len() - i,
        {
            let ghost before = list@;
            assert(model_list(before)[i as int] == d[i as int]);
            self.visit_mut_expr(&mut list[i]);
            proof {
                lemma_model_update(before, i as int, list@[i as int]);
            }
            i += 1;
        }
        proof {
            lemma_dedup_walk(l);
            lemma_dedup_tree_list(d);
            assert(model_list(list@) =~= dedup_tree_list(d));
        }
    }

    pub fn visit_mut_expr<T: Atom>(&mut self, expr: &mut Expr<T>)
        ensures
            final(expr)@ == dedup_tree(old(expr)@),
        decreases height(old(expr)@), 1nat,
    {
        match expr {
            Expr::Any(Any(list)) => self.visit_list(list),
            Expr::All(All(list)) => self.visit_list(list),
            Expr::Not(Not(not)) => self.visit_mut_expr(not),
            _ => {},
        }
    }
}

} // verus!

verus! {

/// Each member of `s` negated.
pub open spec fn map_not<A>(s: Seq<Tree<A>>) -> Seq<Tree<A>> {
    Seq::new(s.len(), |i: int| Tree::Not(Box::new(s[i])))
}

/// Negation pushed through every disjunction and conjunction, top-down.
pub open spec fn de_morgan<A>(t: Tree<A>) -> Tree<A>
    decreases t, 1nat,
{
    match t {
        Tree::Any(l) => Tree::Any(de_morgan_list(l)),
        Tree::All(l) => Tree::All(de_morgan_list(l)),
        Tree::Not(b) => de_morgan_neg(*b),
        _ => t,
    }
}

/// `de_morgan` of the negation of `t`.
pub open spec fn de_morgan_neg<A>(t: Tree<A>) -> Tree<A>
    decreases t, 2nat,
{
    match t {
        Tree::Any(l) => Tree::All(de_morgan_neg_list(l)),
        Tree::All(l) => Tree::Any(de_morgan_neg_list(l)),
        _ => Tree::Not(Box::new(de_morgan(t))),
    }
}

pub open spec fn de_morgan_list<A>(s: Seq<Tree<A>>) -> Seq<Tree<A>>
    decreases s, 0nat,
{
    if s.len() == 0 {
        s
    } else {
        de_morgan_list(s.drop_last()).push(de_morgan(s.last()))
    }
}

pub open spec fn de_morgan_neg_list<A>(s: Seq<Tree<A>>) -> Seq<Tree<A>>
    decreases s, 0nat,
{
    if s.len() == 0 {
        s
    } else {
        de_morgan_neg_list(s.drop_last()).push(de_morgan_neg(s.last()))
    }
}

pub proof fn lemma_de_morgan_list<A>(s: Seq<Tree<A>>)
    ensures
        de_morgan_list(s).len() == s.len(),
        de_morgan_neg_list(s).len() == s.len(),
        forall|i: int| 0 <= i < s.len() ==> #[trigger] de_morgan_list(s)[i] == de_morgan(s[i]),
        forall|i: int| 0 <= i < s.len() ==> #[trigger] de_morgan_neg_list(s)[i] == de_morgan_neg(s[i]),
    decreases s.len(),
{
    if s.len() > 0 {
        lemma_de_morgan_list(s.drop_last());
    }
}

/// Pushing negations down keeps the truth value under every assignment; the variant for a
/// negated tree gives the opposite value.
pub proof fn lemma_de_morgan_sound<A>(t: Tree<A>, env: spec_fn(A) -> bool)
    ensures
        eval(de_morgan(t), env) == eval(t, env),
        eval(de_morgan_neg(t), env) == !eval(t, env),
    decreases t,
{
    broadcast use group_eval;

    match t {
        Tree::Any(l) => {
            lemma_de_morgan_list(l);
            assert forall|i: int| 0 <= i < l.len() implies eval(#[trigger] de_morgan_list(l)[i], env)
                == eval(l[i], env) by {
                lemma_de_morgan_sound(l[i], env);
            }
            assert forall|i: int| 0 <= i < l.len() implies eval(#[trigger] de_morgan_neg_list(l)[i], env)
                == !eval(l[i], env) by {
                lemma_de_morgan_sound(l[i], env);
            }
            crate::eval::lemma_eval_pointwise(de_morgan_list(l), l, env);
            let n = de_morgan_neg_list(l);
            if eval_and(n, env) {
                if exists|i: int| 0 <= i < l.len() && eval(#[trigger] l[i], env) {
                    let i = choose|i: int| 0 <= i < l.len() && eval(#[trigger] l[i], env);
                    assert(!eval(n[i], env));
                }
            } else {
                let i = choose|i: int| 0 <= i < n.len() && !eval(#[trigger] n[i], env);
                assert(eval(l[i], env));
            }
        },
        Tree::All(l) => {
            lemma_de_morgan_list(l);
            assert forall|i: int| 0 <= i < l.len() implies eval(#[trigger] de_morgan_list(l)[i], env)
                == eval(l[i], env) by {
                lemma_de_morgan_sound(l[i], env);
            }
            assert forall|i: int| 0 <= i < l.len() implies eval(#[trigger] de_morgan_neg_list(l)[i], env)
                == !eval(l[i], env) by {
                lemma_de_morgan_sound(l[i], env);
            }
            crate::eval::lemma_eval_pointwise(de_morgan_list(l), l, env);
            let n = de_morgan_neg_list(l);
            if eval_or(n, env) {
                let i = choose|i: int| 0 <= i < n.len() && eval(#[trigger] n[i], env);
                assert(!eval(l[i], env));
            } else {
                if exists|i: int| 0 <= i < l.len() && !eval(#[trigger] l[i], env) {
                    let i = choose|i: int| 0 <= i < l.len() && !eval(#[trigger] l[i], env);
                    assert(eval(n[i], env));
                }
            }
        },
        Tree::Not(b) => {
            lemma_de_morgan_sound(*b, env);
        },
        _ => {},
    }
}

/// Each member of `list` wrapped in a negation.
#[verifier::loop_isolation(false)]
fn negate_each<T: View>(list: Vec<Expr<T>>) -> (r: Vec<Expr<T>>)
    ensures
        model_list(r@) == map_not(model_list(list@)),
{
    let mut src = list;
    let ghost orig = model_list(src@);
    let mut ans: Vec<Expr<T>> = Vec::new();
    let ghost mut k: int = 0;
    proof {
        assert(orig.skip(0) =~= orig);
    }
    while src.len() > 0
        invariant
            0 <= k <= orig.len(),
            model_list(src@) == orig.skip(k),
            model_list(ans@) == map_not(orig.take(k)),
        decreases src.len(),
    {
        let ghost before = src@;
        let x = src.remove(0);
        proof {
            lemma_model_remove(before, 0);
            assert(orig.skip(k).remove(0) =~= orig.skip(k + 1));
            assert(model_list(before)[0] == model(before[0]));
            assert(orig.skip(k)[0] == orig[k]);
        }
        let ghost pre = ans@;
        let n = Expr::Not(Not(Box::new(x)));
        ans.push(n);
        proof {
            lemma_model_push(pre, n);
            assert(map_not(orig.take(k + 1)) =~= map_not(orig.take(k)).push(model(n)));
            k = k + 1;
        }
    }
    proof {
        assert(orig.take(k) =~= orig);
    }
    ans
}

/// Pushes each negation of a disjunction or a conjunction into its members, top-down.
pub struct FlattenByDeMorgan;

impl FlattenByDeMorgan {
    #[verifier::loop_isolation(false)]
    fn visit_list<T: View>(&mut self, list: &mut Vec<Expr<T>>)
        ensures
            model_list(final(list)@) == de_morgan_list(model_list(old(list)@)),
        decreases 1 + max_height(model_list(old(list)@)), 0nat,
    {
        broadcast use group_model;

        let ghost l = model_list(list@);
        let mut i: usize = 0;
        while i < list.len()
            invariant
                i <= list.len(),
                model_list(list@).len() == l.len(),
                forall|j: int| 0 <= j < i ==> #[trigger] model_list(list@)[j] == de_morgan(l[j]),
                forall|j: int| i <= j < l.len() ==> #[trigger] model_list(list@)[j] == l[j],
            decreases list.len() - i,
        {
            let ghost before = list@;
            assert(model_list(before)[i as int] == l[i as int]);
            self.visit_mut_expr(&mut list[i]);
            proof {
                lemma_model_update(before, i as int, list@[i as int]);
            }
            i += 1;
        }
        proof {
            lemma_de_morgan_list(l);
            assert(model_list(list@) =~= de_morgan_list(l));
        }
    }

    pub fn visit_mut_expr<T: View>(&mut self, expr: &mut Expr<T>)
        ensures
            final(expr)@ == de_morgan(old(expr)@),
        decreases height(old(expr)@), 1nat,
    {
        broadcast use group_model;

        let pushable = match expr {
            Expr::Not(Not(not)) => not.is_any() || not.is_all(),
            _ => false,
        };
        if pushable {
            let ghost e0 = expr@;
            let e = take(expr);
            if let Expr::Not(Not(b)) = e {
                let ghost l = match model(*b) {
                    Tree::Any(l) => l,
                    Tree::All(l) => l,
                    _ => Seq::empty(),
                };
                let ghost mb = model(*b);
                assert(e0 == Tree::<T::V>::Not(Box::new(mb)));
                assert(mb is Any || mb is All);
                assert(height(mb) == 1 + max_height(l));
                proof {
                    lemma_de_morgan_list(l);
                    let m = map_not(l);
                    lemma_de_morgan_list(m);
                    assert forall|i: int| 0 <= i < m.len() implies height(#[trigger] m[i]) <= 1 + max_height(l) by {
                        assert(height(l[i]) <= max_height(l));
                    }
                    crate::ast::lemma_max_height_bound(m, 1 + max_height(l));
                    assert(de_morgan_list(m) =~= de_morgan_neg_list(l));
                }
                match *b {
                    Expr::Any(Any(list)) => {
                        let v = negate_each(list);
                        *expr = Expr::All(All(v));
                        assert(height(expr@) == 1 + max_height(model_list(v@)));
                    },
                    Expr::All(All(list)) => {
                        let v = negate_each(list);
                        *expr = Expr::Any(Any(v));
                        assert(height(expr@) == 1 + max_height(model_list(v@)));
                    },
                    other => {
                        *expr = Expr::Not(Not(Box::new(other)));
                    },
                }
            }
        }
        assert(height(expr@) <= height(old(expr)@));
        match expr {
            Expr::Any(Any(list)) => self.visit_list(list),
            Expr::All(All(list)) => self.visit_list(list),
            Expr::Not(Not(not)) => self.visit_mut_expr(not),
            _ => {},
        }
    }
}

} // verus!

verus! {

/// The rewrite at one node: an empty list becomes its identity literal, a one-member list
/// becomes that member, and a double negation is removed.
pub open spec fn single_top<A>(t: Tree<A>) -> Tree<A> {
    match t {
        Tree::Any(l) => if l.len() == 0 {
            Tree::Const(false)
        } else if l.len() == 1 {
            l[0]
        } else {
            t
        },
        Tree::All(l) => if l.len() == 0 {
            Tree::Const(true)
        } else if l.len() == 1 {
            l[0]
        } else {
            t
        },
        Tree::Not(b) => match *b {
            Tree::Not(c) => *c,
            _ => t,
        },
        _ => t,
    }
}

/// `single_top` applied bottom-up.
pub open spec fn flatten_single<A>(t: Tree<A>) -> Tree<A>
    decreases t,
{
    match t {
        Tree::Any(l) => single_top(Tree::Any(flatten_single_list(l))),
        Tree::All(l) => single_top(Tree::All(flatten_single_list(l))),
        Tree::Not(b) => single_top(Tree::Not(Box::new(flatten_single(*b)))),
        _ => t,
    }
}

pub open spec fn flatten_single_list<A>(s: Seq<Tree<A>>) -> Seq<Tree<A>>
    decreases s,
{
    if s.len() == 0 {
        s
    } else {
        flatten_single_list(s.drop_last()).push(flatten_single(s.last()))
    }
}

/// No list with fewer than two members and no double negation, anywhere in the tree.
pub open spec fn is_flat<A>(t: Tree<A>) -> bool
    decreases t,
{
    match t {
        Tree::Any(l) => l.len() >= 2 && all_flat(l),
        Tree::All(l) => l.len() >= 2 && all_flat(l),
        Tree::Not(b) => !(*b is Not) && is_flat(*b),
        _ => true,
    }
}

pub open spec fn all_flat<A>(s: Seq<Tree<A>>) -> bool
    decreases s,
{
    s.len() == 0 || (all_flat(s.drop_last()) && is_flat(s.last()))
}

pub proof fn lemma_all_flat<A>(s: Seq<Tree<A>>)
    ensures
        all_flat(s) == forall|i: int| 0 <= i < s.len() ==> is_flat(#[trigger] s[i]),
    decreases s.len(),
{
    if s.len() > 0 {
        lemma_all_flat(s.drop_last());
        assert(s.drop_last().len() == s.len() - 1);
        if forall|i: int| 0 <= i < s.len() ==> is_flat(#[trigger] s[i]) {
            assert forall|i: int| 0 <= i < s.drop_last().len() implies is_flat(#[trigger] s.drop_last()[i]) by {
                assert(s.drop_last()[i] == s[i]);
            }
        }
        if all_flat(s) {
            assert forall|i: int| 0 <= i < s.len() implies is_flat(#[trigger] s[i]) by {
                if i < s.len() - 1 {
                    assert(s.drop_last()[i] == s[i]);
                }
            }
        }
    }
}

pub proof fn lemma_flatten_single_list<A>(s: Seq<Tree<A>>)
    ensures
        flatten_single_list(s).len() == s.len(),
        forall|i: int| 0 <= i < s.len() ==> #[trigger] flatten_single_list(s)[i] == flatten_single(s[i]),
    decreases s.len(),
{
    if s.len() > 0 {
        lemma_flatten_single_list(s.drop_last());
    }
}

/// The result of `flatten_single` is flat, no higher than its input, and left as it is by
/// another application.
pub proof fn lemma_flatten_single_flat<A>(t: Tree<A>)
    ensures
        is_flat(flatten_single(t)),
        height(flatten_single(t)) <= height(t),
    decreases t,
{
    broadcast use group_model;

    match t {
        Tree::Any(l) | Tree::All(l) => {
            let m = flatten_single_list(l);
            lemma_flatten_single_list(l);
            assert forall|i: int| 0 <= i < m.len() implies is_flat(#[trigger] m[i]) && height(m[i])
                <= max_height(l) by {
                lemma_flatten_single_flat(l[i]);
            }
            lemma_all_flat(m);
            crate::ast::lemma_max_height_bound(m, max_height(l));
            if m.len() == 1 {
                assert(height(m[0]) <= max_height(m));
            }
        },
        Tree::Not(b) => {
            lemma_flatten_single_flat(*b);
            let c = flatten_single(*b);
            if let Tree::Not(d) = c {
                assert(is_flat(*d));
            }
        },
        _ => {},
    }
}

/// A flat tree is left as it is.
pub proof fn lemma_flatten_single_id<A>(t: Tree<A>)
    requires
        is_flat(t),
    ensures
        flatten_single(t) == t,
    decreases t,
{
    match t {
        Tree::Any(l) | Tree::All(l) => {
            lemma_all_flat(l);
            lemma_flatten_single_list(l);
            assert forall|i: int| 0 <= i < l.len() implies #[trigger] flatten_single_list(l)[i] == l[i] by {
                lemma_flatten_single_id(l[i]);
            }
            assert(flatten_single_list(l) =~= l);
        },
        Tree::Not(b) => {
            lemma_flatten_single_id(*b);
        },
        _ => {},
    }
}

pub proof fn lemma_flatten_single_list_id<A>(s: Seq<Tree<A>>)
    requires
        all_flat(s),
    ensures
        flatten_single_list(s) == s,
{
    lemma_all_flat(s);
    lemma_flatten_single_list(s);
    assert forall|i: int| 0 <= i < s.len() implies #[trigger] flatten_single_list(s)[i] == s[i] by {
        lemma_flatten_single_id(s[i]);
    }
    assert(flatten_single_list(s) =~= s);
}

/// Removing trivial lists and double negations keeps the truth value under every
/// assignment.
pub proof fn lemma_flatten_single_sound<A>(t: Tree<A>, env: spec_fn(A) -> bool)
    ensures
        eval(flatten_single(t), env) == eval(t, env),
    decreases t,
{
    broadcast use group_eval;

    match t {
        Tree::Any(l) | Tree::All(l) => {
            let m = flatten_single_list(l);
            lemma_flatten_single_list(l);
            assert forall|i: int| 0 <= i < m.len() implies eval(#[trigger] m[i], env) == eval(l[i], env) by {
                lemma_flatten_single_sound(l[i], env);
            }
            crate::eval::lemma_eval_pointwise(m, l, env);
            if m.len() == 1 {
                crate::eval::lemma_eval_single(m[0], env);
                assert(m =~= seq![m[0]]);
            }
        },
        Tree::Not(b) => {
            lemma_flatten_single_sound(*b, env);
        },
        _ => {},
    }
}

} // verus!

verus! {

/// The child of a negation.
fn unwrap_not<T>(expr: Expr<T>) -> (r: Expr<T>)
    requires
        expr is Not,
    ensures
        r == *expr->Not_0.0,
{
    match expr {
        Expr::Not(Not(not)) => *not,
        _ => Expr::Const(false),
    }
}

/// Replaces empty lists by their identity literal, one-member lists by that member and
/// double negations by the inner expression, bottom-up.
pub struct FlattenSingle;

impl FlattenSingle {
    #[verifier::loop_isolation(false)]
    fn visit_list<T: View>(&mut self, list: &mut Vec<Expr<T>>)
        ensures
            model_list(final(list)@) == flatten_single_list(model_list(old(list)@)),
        decreases 1 + max_height(model_list(old(list)@)), 0nat,
    {
        broadcast use group_model;

        let ghost l = model_list(list@);
        let mut i: usize = 0;
        while i < list.len()
            invariant
                i <= list.len(),
                model_list(list@).len() == l.len(),
                forall|j: int| 0 <= j < i ==> #[trigger] model_list(list@)[j] == flatten_single(l[j]),
                forall|j: int| i <= j < l.len() ==> #[trigger] model_list(list@)[j] == l[j],
            decreases list.len() - i,
        {
            let ghost before = list@;
            assert(model_list(before)[i as int] == l[i as int]);
            self.visit_mut_expr(&mut list[i]);
            proof {
                lemma_model_update(before, i as int, list@[i as int]);
            }
            i += 1;
        }
        proof {
            lemma_flatten_single_list(l);
            assert(model_list(list@) =~= flatten_single_list(l));
        }
    }

    pub fn visit_mut_expr<T: View>(&mut self, expr: &mut Expr<T>)
        ensures
            final(expr)@ == flatten_single(old(expr)@),
        decreases height(old(expr)@), 1nat,
    {
        broadcast use group_model;

        let ghost e0 = expr@;
        match expr {
            Expr::Any(Any(list)) => self.visit_list(list),
            Expr::All(All(list)) => self.visit_list(list),
            Expr::Not(Not(not)) => self.visit_mut_expr(not),
            _ => {},
        }
        let ghost w = expr@;
        match expr {
            Expr::Any(Any(any)) => {
                if any.len() == 0 {
                    *expr = Expr::Const(false);
                } else if any.len() == 1 {
                    assert(model_list(any@)[0] == model(any@[0]));
                    let x = any.pop().unwrap();
                    *expr = x;
                }
            },
            Expr::All(All(all)) => {
                if all.len() == 0 {
                    *expr = Expr::Const(true);
                } else if all.len() == 1 {
                    assert(model_list(all@)[0] == model(all@[0]));
                    let x = all.pop().unwrap();
                    *expr = x;
                }
            },
            Expr::Not(Not(not_expr)) => {
                if not_expr.is_not() {
                    let e = take(expr);
                    *expr = unwrap_not(unwrap_not(e));
                }
            },
            _ => {},
        }
        proof {
            assert(expr@ == single_top(w));
            assert(expr@ == flatten_single(e0));
            lemma_flatten_single_flat(e0);
        }
        let ghost f = expr@;
        match expr {
            Expr::Any(Any(list)) => {
                proof {
                    lemma_flatten_single_list_id(model_list(list@));
                }
                self.visit_list(list);
            },
            Expr::All(All(list)) => {
                proof {
                    lemma_flatten_single_list_id(model_list(list@));
                }
                self.visit_list(list);
            },
            Expr::Not(Not(not)) => {
                proof {
                    lemma_flatten_single_id(model(**not));
                }
                self.visit_mut_expr(not);
            },
            _ => {},
        }
        assert(expr@ == f);
    }
}

} // verus!

verus! {

/// Some member of `a` is a member of `b`.
pub open spec fn shares<A>(a: Seq<Tree<A>>, b: Seq<Tree<A>>) -> bool {
    exists|i: int| 0 <= i < a.len() && b.contains(#[trigger] a[i])
}

/// Whether `x`, standing in the list `cur` of kind `disj`, is a list of the other kind that
/// shares a member with `cur`.
pub open spec fn is_cross_redundant<A>(x: Tree<A>, cur: Seq<Tree<A>>, disj: bool) -> bool {
    match members_of(x, !disj) {
        Some(inner) => shares(inner, cur),
        None => false,
    }
}

/// The members of `rest` that are kept, scanning left to right; `kept` are the members kept
/// so far, and each decision looks at the list as it stands then.
pub open spec fn cross_scan<A>(kept: Seq<Tree<A>>, rest: Seq<Tree<A>>, disj: bool) -> Seq<Tree<A>>
    decreases rest.len(),
{
    if rest.len() == 0 {
        kept
    } else if is_cross_redundant(rest[0], kept + rest, disj) {
        cross_scan(kept, rest.drop_first(), disj)
    } else {
        cross_scan(kept.push(rest[0]), rest.drop_first(), disj)
    }
}

/// Cross-elimination in each list, top-down: `any(x, all(x, y))` loses `all(x, y)` and
/// `all(x, any(x, y))` loses `any(x, y)`.
pub open spec fn simplify_nested<A>(t: Tree<A>) -> Tree<A>
    decreases t, 1nat,
{
    match t {
        Tree::Any(l) => Tree::Any(cross_walk(Seq::empty(), l, true)),
        Tree::All(l) => Tree::All(cross_walk(Seq::empty(), l, false)),
        Tree::Not(b) => Tree::Not(Box::new(simplify_nested(*b))),
        _ => t,
    }
}

/// `simplify_nested` on each member that `cross_scan` keeps of `rest`.
pub open spec fn cross_walk<A>(kept: Seq<Tree<A>>, rest: Seq<Tree<A>>, disj: bool) -> Seq<Tree<A>>
    decreases rest, 0nat,
{
    if rest.len() == 0 {
        Seq::empty()
    } else if is_cross_redundant(rest[0], kept + rest, disj) {
        cross_walk(kept, rest.drop_first(), disj)
    } else {
        seq![simplify_nested(rest[0])] + cross_walk(kept.push(rest[0]), rest.drop_first(), disj)
    }
}

pub open spec fn simplify_nested_list<A>(s: Seq<Tree<A>>) -> Seq<Tree<A>>
    decreases s,
{
    if s.len() == 0 {
        s
    } else {
        simplify_nested_list(s.drop_last()).push(simplify_nested(s.last()))
    }
}

pub proof fn lemma_simplify_nested_list<A>(s: Seq<Tree<A>>)
    ensures
        simplify_nested_list(s).len() == s.len(),
        forall|i: int| 0 <= i < s.len() ==> #[trigger] simplify_nested_list(s)[i] == simplify_nested(s[i]),
    decreases s.len(),
{
    if s.len() > 0 {
        lemma_simplify_nested_list(s.drop_last());
    }
}

/// Walking what the scan keeps is the walking scan.
proof fn lemma_cross_walk<A>(kept: Seq<Tree<A>>, rest: Seq<Tree<A>>, disj: bool)
    ensures
        simplify_nested_list(cross_scan(kept, rest, disj)) == simplify_nested_list(kept) + cross_walk(
            kept,
            rest,
            disj,
        ),
        forall|i: int|
            0 <= i < cross_scan(kept, rest, disj).len() ==> (kept + rest).contains(
                #[trigger] cross_scan(kept, rest, disj)[i],
            ),
    decreases rest.len(),
{
    if rest.len() == 0 {
        assert(simplify_nested_list(kept) + Seq::<Tree<A>>::empty() =~= simplify_nested_list(kept));
        assert forall|i: int| 0 <= i < kept.len() implies (kept + rest).contains(#[trigger] kept[i]) by {
            assert((kept + rest)[i] == kept[i]);
        }
    } else {
        let x = rest[0];
        let r2 = rest.drop_first();
        if is_cross_redundant(x, kept + rest, disj) {
            lemma_cross_walk(kept, r2, disj);
            assert forall|i: int| 0 <= i < cross_scan(kept, rest, disj).len() implies (kept + rest).contains(
                #[trigger] cross_scan(kept, rest, disj)[i],
            ) by {
                let y = cross_scan(kept, rest, disj)[i];
                assert((kept + r2).contains(y));
                let j = choose|j: int| 0 <= j < (kept + r2).len() && (kept + r2)[j] == y;
                if j < kept.len() {
                    assert((kept + rest)[j] == y);
                } else {
                    assert((kept + rest)[j + 1] == y);
                }
            }
        } else {
            lemma_cross_walk(kept.push(x), r2, disj);
            assert(simplify_nested_list(kept.push(x)) == simplify_nested_list(kept).push(simplify_nested(x))) by {
                assert(kept.push(x).drop_last() =~= kept);
            }
            assert(simplify_nested_list(kept).push(simplify_nested(x)) + cross_walk(kept.push(x), r2, disj)
                =~= simplify_nested_list(kept) + (seq![simplify_nested(x)] + cross_walk(kept.push(x), r2, disj)));
            assert forall|i: int| 0 <= i < cross_scan(kept, rest, disj).len() implies (kept + rest).contains(
                #[trigger] cross_scan(kept, rest, disj)[i],
            ) by {
                let y = cross_scan(kept, rest, disj)[i];
                assert((kept.push(x) + r2).contains(y));
                assert(kept.push(x) + r2 =~= kept + rest);
            }
        }
    }
}

/// Whether some member of `inner` is a member of `a`, is `x`, or is a member of `b`.
fn shares_any<T: Atom>(inner: &Vec<Expr<T>>, a: &Vec<Expr<T>>, x: &Expr<T>, b: &Vec<Expr<T>>) -> (r: bool)
    ensures
        r == shares(model_list(inner@), model_list(a@) + seq![x@] + model_list(b@)),
{
    let ghost cur = model_list(a@) + seq![x@] + model_list(b@);
    let ghost m = model_list(inner@);
    let mut i: usize = 0;
    while i < inner.len()
        invariant
            i <= inner.len(),
            m == model_list(inner@),
            cur == model_list(a@) + seq![x@] + model_list(b@),
            forall|j: int| 0 <= j < i ==> !cur.contains(#[trigger] m[j]),
        decreases inner.len() - i,
    {
        let y = &inner[i];
        let found = contains_expr(a, y) || y.equals(x) || contains_expr(b, y);
        proof {
            let ma = model_list(a@);
            let mb = model_list(b@);
            assert(m[i as int] == y@);
            if found {
                if ma.contains(y@) {
                    let k = choose|k: int| 0 <= k < ma.len() && ma[k] == y@;
                    assert(cur[k] == y@);
                } else if y@ == x@ {
                    assert(cur[ma.len() as int] == y@);
                } else {
                    let k = choose|k: int| 0 <= k < mb.len() && mb[k] == y@;
                    assert(cur[ma.len() + 1 + k] == y@);
                }
            } else {
                if cur.contains(y@) {
                    let k = choose|k: int| 0 <= k < cur.len() && cur[k] == y@;
                    if k < ma.len() {
                        assert(ma[k] == y@);
                    } else if k == ma.len() {
                    } else {
                        assert(mb[k - ma.len() - 1] == y@);
                    }
                }
            }
        }
        if found {
            return true;
        }
        i += 1;
    }
    false
}

} // verus!

verus! {

/// Removes from each disjunction every conjunction that shares a member with it, and from
/// each conjunction every disjunction that shares a member with it, then goes on into every
/// member.
pub struct SimplifyNestedList;

impl SimplifyNestedList {
    #[verifier::loop_isolation(false)]
    fn scan<T: Atom>(list: &mut Vec<Expr<T>>, disj: bool)
        ensures
            model_list(final(list)@) == cross_scan(Seq::empty(), model_list(old(list)@), disj),
    {
        let mut src: Vec<Expr<T>> = Vec::new();
        std::mem::swap(list, &mut src);
        let ghost orig = model_list(src@);
        let mut ans: Vec<Expr<T>> = Vec::new();
        proof {
            assert(model_list(ans@) =~= Seq::<Tree<T::V>>::empty());
        }
        while src.len() > 0
            invariant
                cross_scan(Seq::empty(), orig, disj) == cross_scan(model_list(ans@), model_list(src@), disj),
            decreases src.len(),
        {
            let ghost before = src@;
            let ghost rest = model_list(before);
            let x = src.remove(0);
            proof {
                lemma_model_remove(before, 0);
                assert(rest.remove(0) =~= rest.drop_first());
                assert(rest[0] == model(before[0]));
                assert(model_list(ans@) + rest =~= model_list(ans@) + seq![x@] + model_list(src@));
            }
            let drop = match &x {
                Expr::All(All(inner)) => disj && shares_any(inner, &ans, &x, &src),
                Expr::Any(Any(inner)) => !disj && shares_any(inner, &ans, &x, &src),
                _ => false,
            };
            if !drop {
                let ghost pre = ans@;
                ans.push(x);
                proof {
                    lemma_model_push(pre, x);
                }
            }
        }
        *list = ans;
    }

    #[verifier::loop_isolation(false)]
    fn visit_list<T: Atom>(&mut self, list: &mut Vec<Expr<T>>, disj: bool)
        ensures
            model_list(final(list)@) == cross_walk(Seq::empty(), model_list(old(list)@), disj),
        decreases 1 + max_height(model_list(old(list)@)), 0nat,
    {
        broadcast use group_model;

        let ghost l = model_list(list@);
        Self::scan(list, disj);
        let ghost c = model_list(list@);
        proof {
            lemma_cross_walk(Seq::empty(), l, disj);
            assert(Seq::<Tree<T::V>>::empty() + l =~= l);
            assert forall|j: int| 0 <= j < c.len() implies height(#[trigger] c[j]) <= max_height(l) by {
                assert(l.contains(c[j]));
                let k = choose|k: int| 0 <= k < l.len() && l[k] == c[j];
            }
        }
        let mut i: usize = 0;
        while i < list.len()
            invariant
                i <= list.len(),
                model_list(list@).len() == c.len(),
                forall|j: int| 0 <= j < i ==> #[trigger] model_list(list@)[j] == simplify_nested(c[j]),
                forall|j: int| i <= j < c.len() ==> #[trigger] model_list(list@)[j] == c[j],
            decreases list.len() - i,
        {
            let ghost before = list@;
            assert(model_list(before)[i as int] == c[i as int]);
            self.visit_mut_expr(&mut list[i]);
            proof {
                lemma_model_update(before, i as int, list@[i as int]);
            }
            i += 1;
        }
        proof {
            lemma_simplify_nested_list(c);
            assert(model_list(list@) =~= simplify_nested_list(c));
            assert(simplify_nested_list(Seq::<Tree<T::V>>::empty()) + cross_walk(Seq::empty(), l, disj)
                =~= cross_walk(Seq::empty(), l, disj));
        }
    }

    pub fn visit_mut_expr<T: Atom>(&mut self, expr: &mut Expr<T>)
        ensures
            final(expr)@ == simplify_nested(old(expr)@),
        decreases height(old(expr)@), 1nat,
    {
        match expr {
            Expr::Any(Any(list)) => self.visit_list(list, true),
            Expr::All(All(list)) => self.visit_list(list, false),
            Expr::Not(Not(not)) => self.visit_mut_expr(not),
            _ => {},
        }
    }
}

} // verus!

verus! {

/// The members that `not(n)` excludes: those of `n` if it is a disjunction, else `n`.
pub open spec fn neg_set<A>(n: Tree<A>) -> Seq<Tree<A>> {
    match n {
        Tree::Any(l) => l,
        _ => seq![n],
    }
}

/// `pos` without the members of `neg`.
pub open spec fn counteract<A>(neg: Seq<Tree<A>>, pos: Seq<Tree<A>>) -> Seq<Tree<A>>
    decreases pos.len(),
{
    if pos.len() == 0 {
        pos
    } else if neg.contains(pos.last()) {
        counteract(neg, pos.drop_last())
    } else {
        counteract(neg, pos.drop_last()).push(pos.last())
    }
}

/// In `all(not(n), any(p))`, either order, the members of `p` that `not(n)` excludes are
/// dropped; applied top-down.
pub open spec fn simplify_all_not_any<A>(t: Tree<A>) -> Tree<A>
    decreases t, 1nat,
{
    match t {
        Tree::All(l) => Tree::All(all_not_any_members(l)),
        Tree::Any(l) => Tree::Any(simplify_all_not_any_list(l)),
        Tree::Not(b) => Tree::Not(Box::new(simplify_all_not_any(*b))),
        _ => t,
    }
}

pub open spec fn all_not_any_members<A>(l: Seq<Tree<A>>) -> Seq<Tree<A>>
    decreases l, 1nat,
{
    if l.len() == 2 && l[0] is Not && l[1] is Any {
        seq![
            simplify_all_not_any(l[0]),
            Tree::Any(counteract_walk(neg_set(*l[0]->Not_0), l[1]->Any_0)),
        ]
    } else if l.len() == 2 && l[0] is Any && l[1] is Not {
        seq![
            Tree::Any(counteract_walk(neg_set(*l[1]->Not_0), l[0]->Any_0)),
            simplify_all_not_any(l[1]),
        ]
    } else {
        simplify_all_not_any_list(l)
    }
}

/// `simplify_all_not_any` on each member of `counteract(neg, p)`.
pub open spec fn counteract_walk<A>(neg: Seq<Tree<A>>, p: Seq<Tree<A>>) -> Seq<Tree<A>>
    decreases p, 0nat,
{
    if p.len() == 0 {
        p
    } else if neg.contains(p.last()) {
        counteract_walk(neg, p.drop_last())
    } else {
        counteract_walk(neg, p.drop_last()).push(simplify_all_not_any(p.last()))
    }
}

pub open spec fn simplify_all_not_any_list<A>(s: Seq<Tree<A>>) -> Seq<Tree<A>>
    decreases s, 0nat,
{
    if s.len() == 0 {
        s
    } else {
        simplify_all_not_any_list(s.drop_last()).push(simplify_all_not_any(s.last()))
    }
}

pub proof fn lemma_simplify_all_not_any_list<A>(s: Seq<Tree<A>>)
    ensures
        simplify_all_not_any_list(s).len() == s.len(),
        forall|i: int| 0 <= i < s.len() ==> #[trigger] simplify_all_not_any_list(s)[i] == simplify_all_not_any(s[i]),
    decreases s.len(),
{
    if s.len() > 0 {
        lemma_simplify_all_not_any_list(s.drop_last());
    }
}

proof fn lemma_counteract_walk<A>(neg: Seq<Tree<A>>, p: Seq<Tree<A>>)
    ensures
        counteract_walk(neg, p) == simplify_all_not_any_list(counteract(neg, p)),
        forall|i: int| 0 <= i < counteract(neg, p).len() ==> p.contains(#[trigger] counteract(neg, p)[i]),
    decreases p.len(),
{
    if p.len() > 0 {
        lemma_counteract_walk(neg, p.drop_last());
        let c = counteract(neg, p.drop_last());
        assert(c.push(p.last()).drop_last() =~= c);
        assert forall|i: int| 0 <= i < counteract(neg, p).len() implies p.contains(#[trigger] counteract(neg, p)[i]) by {
            let y = counteract(neg, p)[i];
            if i < c.len() {
                assert(p.drop_last().contains(y));
                let k = choose|k: int| 0 <= k < p.drop_last().len() && p.drop_last()[k] == y;
                assert(p[k] == y);
            } else {
                assert(p[p.len() - 1] == y);
            }
        }
    }
}

/// Whether `y` is among the members that `not(n)` excludes.
fn in_neg_set<T: Atom>(n: &Expr<T>, y: &Expr<T>) -> (r: bool)
    ensures
        r == neg_set(n@).contains(y@),
{
    broadcast use group_model;

    match n {
        Expr::Any(Any(l)) => contains_expr(l, y),
        _ => {
            let r = n.equals(y);
            proof {
                if r {
                    assert(seq![n@][0] == y@);
                }
            }
            r
        },
    }
}

/// Removes from the disjunction `all[p]` what the negation `all[n]` excludes.
#[verifier::loop_isolation(false)]
fn counteract_at<T: Atom>(all: &mut Vec<Expr<T>>, n: usize, p: usize)
    requires
        old(all)@.len() == 2,
        n < 2 && p < 2 && n != p,
        old(all)@[n as int] is Not,
        old(all)@[p as int] is Any,
    ensures
        final(all)@.len() == 2,
        final(all)@[n as int] == old(all)@[n as int],
        model(final(all)@[p as int]) == Tree::Any(
            counteract(neg_set(*model(old(all)@[n as int])->Not_0), model(old(all)@[p as int])->Any_0),
        ),
{
    broadcast use group_model;

    let ghost neg = neg_set(*model(all@[n as int])->Not_0);
    let pos_e = take(&mut all[p]);
    if let Expr::Any(Any(pos)) = pos_e {
        let mut src = pos;
        let ghost orig = model_list(src@);
        let mut ans: Vec<Expr<T>> = Vec::new();
        let ghost mut k: int = 0;
        proof {
            assert(orig.skip(0) =~= orig);
            assert(orig.take(0) =~= Seq::<Tree<T::V>>::empty());
        }
        while src.len() > 0
            invariant
                0 <= k <= orig.len(),
                all@.len() == 2,
                all@[n as int] == old(all)@[n as int],
                model_list(src@) == orig.skip(k),
                model_list(ans@) == counteract(neg, orig.take(k)),
            decreases src.len(),
        {
            let ghost before = src@;
            let x = src.remove(0);
            proof {
                lemma_model_remove(before, 0);
                assert(orig.skip(k).remove(0) =~= orig.skip(k + 1));
                assert(orig.take(k + 1).drop_last() =~= orig.take(k));
                assert(model_list(before)[0] == model(before[0]));
                assert(orig.skip(k)[0] == orig[k]);
            }
            let excluded = match &all[n] {
                Expr::Not(Not(inner)) => in_neg_set(inner, &x),
                _ => false,
            };
            if !excluded {
                let ghost pre = ans@;
                ans.push(x);
                proof {
                    lemma_model_push(pre, x);
                }
            }
            proof {
                k = k + 1;
            }
        }
        proof {
            assert(orig.take(k) =~= orig);
        }
        all.set(p, Expr::Any(Any(ans)));
    }
}

} // verus!

verus! {

/// In a conjunction of exactly a negation and a disjunction, drops from the disjunction what
/// the negation excludes: `all(not(any(a, b)), any(a, c))` becomes
/// `all(not(any(a, b)), any(c))`; then goes on into every member.
pub struct SimplifyAllNotAny;

impl SimplifyAllNotAny {
    #[verifier::loop_isolation(false)]
    fn visit_list<T: Atom>(&mut self, list: &mut Vec<Expr<T>>)
        ensures
            model_list(final(list)@) == simplify_all_not_any_list(model_list(old(list)@)),
        decreases 1 + max_height(model_list(old(list)@)), 0nat,
    {
        broadcast use group_model;

        let ghost l = model_list(list@);
        let mut i: usize = 0;
        while i < list.len()
            invariant
                i <= list.len(),
                model_list(list@).len() == l.len(),
                forall|j: int| 0 <= j < i ==> #[trigger] model_list(list@)[j] == simplify_all_not_any(l[j]),
                forall|j: int| i <= j < l.len() ==> #[trigger] model_list(list@)[j] == l[j],
            decreases list.len() - i,
        {
            let ghost before = list@;
            assert(model_list(before)[i as int] == l[i as int]);
            self.visit_mut_expr(&mut list[i]);
            proof {
                lemma_model_update(before, i as int, list@[i as int]);
            }
            i += 1;
        }
        proof {
            lemma_simplify_all_not_any_list(l);
            assert(model_list(list@) =~= simplify_all_not_any_list(l));
        }
    }

    fn visit_pair<T: Atom>(&mut self, all: &mut Vec<Expr<T>>, n: usize, p: usize)
        requires
            old(all)@.len() == 2,
            n < 2 && p < 2 && n != p,
            old(all)@[n as int] is Not,
            old(all)@[p as int] is Any,
        ensures
            final(all)@.len() == 2,
            model(final(all)@[n as int]) == simplify_all_not_any(model(old(all)@[n as int])),
            model(final(all)@[p as int]) == Tree::Any(
                counteract_walk(neg_set(*model(old(all)@[n as int])->Not_0), model(old(all)@[p as int])->Any_0),
            ),
        decreases 1 + max_height(model_list(old(all)@)), 0nat,
    {
        broadcast use group_model;

        let ghost l = model_list(all@);
        let ghost neg = neg_set(*model(all@[n as int])->Not_0);
        let ghost pos = model(all@[p as int])->Any_0;
        assert(l[n as int] == model(all@[n as int]));
        assert(l[p as int] == model(all@[p as int]));
        counteract_at(all, n, p);
        proof {
            lemma_counteract_walk(neg, pos);
            let c = counteract(neg, pos);
            assert forall|j: int| 0 <= j < c.len() implies height(#[trigger] c[j]) <= max_height(pos) by {
                let k = choose|k: int| 0 <= k < pos.len() && pos[k] == c[j];
            }
            crate::ast::lemma_max_height_bound(c, max_height(pos));
        }
        self.visit_mut_expr(&mut all[n]);
        self.visit_mut_expr(&mut all[p]);
        proof {
            lemma_simplify_all_not_any_list(counteract(neg, pos));
            assert(simplify_all_not_any(Tree::Any(counteract(neg, pos))) == Tree::Any(
                simplify_all_not_any_list(counteract(neg, pos)),
            ));
        }
    }

    fn visit_all<T: Atom>(&mut self, all: &mut Vec<Expr<T>>)
        ensures
            model_list(final(all)@) == all_not_any_members(model_list(old(all)@)),
        decreases 1 + max_height(model_list(old(all)@)), 1nat,
    {
        broadcast use group_model;

        let ghost l = model_list(all@);
        if all.len() == 2 && all[0].is_not() && all[1].is_any() {
            self.visit_pair(all, 0, 1);
            proof {
                assert(model_list(all@) =~= all_not_any_members(l));
            }
        } else if all.len() == 2 && all[0].is_any() && all[1].is_not() {
            self.visit_pair(all, 1, 0);
            proof {
                assert(model_list(all@) =~= all_not_any_members(l));
            }
        } else {
            self.visit_list(all);
        }
    }

    pub fn visit_mut_expr<T: Atom>(&mut self, expr: &mut Expr<T>)
        ensures
            final(expr)@ == simplify_all_not_any(old(expr)@),
        decreases height(old(expr)@), 2nat,
    {
        match expr {
            Expr::All(All(list)) => self.visit_all(list),
            Expr::Any(Any(list)) => self.visit_list(list),
            Expr::Not(Not(not)) => self.visit_mut_expr(not),
            _ => {},
        }
    }
}

} // verus!

verus! {

/// `x` is the negation of a disjunction.
pub open spec fn is_not_any<A>(x: Tree<A>) -> bool {
    x is Not && *x->Not_0 is Any
}

/// The members of the disjunction that `x` negates.
pub open spec fn not_any_members<A>(x: Tree<A>) -> Seq<Tree<A>> {
    (*x->Not_0)->Any_0
}

/// `x` is the negation of an atom.
pub open spec fn is_not_var<A>(x: Tree<A>) -> bool {
    x is Not && *x->Not_0 is Var
}

pub open spec fn not_any_of<A>(members: Seq<Tree<A>>) -> Tree<A> {
    Tree::Not(Box::new(Tree::Any(members)))
}

pub open spec fn count_not_any<A>(l: Seq<Tree<A>>) -> nat
    decreases l.len(),
{
    if l.len() == 0 {
        0
    } else {
        count_not_any(l.drop_last()) + if is_not_any(l.last()) {
            1nat
        } else {
            0nat
        }
    }
}

/// First phase, scanning `rest`: the first negated disjunction takes the place `slot` in
/// `acc` and collects in `merged` the members of every negated disjunction; the others
/// leave; at the end the collected one is dropped if it is empty.
pub open spec fn gather_not_any<A>(acc: Seq<Tree<A>>, slot: int, merged: Seq<Tree<A>>, rest: Seq<Tree<A>>) -> Seq<Tree<A>>
    decreases rest.len(),
{
    if rest.len() == 0 {
        if slot < 0 {
            acc
        } else if merged.len() == 0 {
            acc.remove(slot)
        } else {
            acc.update(slot, not_any_of(merged))
        }
    } else if is_not_any(rest[0]) {
        if slot < 0 {
            gather_not_any(acc.push(Tree::Const(false)), acc.len() as int, not_any_members(rest[0]), rest.drop_first())
        } else {
            gather_not_any(acc, slot, merged + not_any_members(rest[0]), rest.drop_first())
        }
    } else {
        gather_not_any(acc.push(rest[0]), slot, merged, rest.drop_first())
    }
}

/// Second phase, scanning `rest`: negated atoms leave the list and their atoms are collected.
pub open spec fn absorb_not_var<A>(acc: Seq<Tree<A>>, vars: Seq<Tree<A>>, rest: Seq<Tree<A>>) -> (Seq<Tree<A>>, Seq<Tree<A>>)
    decreases rest.len(),
{
    if rest.len() == 0 {
        (acc, vars)
    } else if is_not_var(rest[0]) {
        absorb_not_var(acc, vars.push(*rest[0]->Not_0), rest.drop_first())
    } else {
        absorb_not_var(acc.push(rest[0]), vars, rest.drop_first())
    }
}

/// The place of the first negated disjunction in `l` at or after `i`, or `l.len()`.
pub open spec fn first_not_any<A>(l: Seq<Tree<A>>, i: int) -> int
    decreases l.len() - i,
{
    if i >= l.len() || i < 0 {
        l.len() as int
    } else if is_not_any(l[i]) {
        i
    } else {
        first_not_any(l, i + 1)
    }
}

pub proof fn lemma_first_not_any<A>(l: Seq<Tree<A>>, i: int)
    requires
        0 <= i,
    ensures
        first_not_any(l, i) < l.len() ==> first_not_any(l, i) >= i && is_not_any(l[first_not_any(l, i)]),
    decreases l.len() - i,
{
    if i < l.len() && !is_not_any(l[i]) {
        lemma_first_not_any(l, i + 1);
    }
}

/// The merge in one conjunction: with two or more negated disjunctions, the first one takes
/// the members of all of them and the others leave; then every negated atom moves into the
/// first negated disjunction.
pub open spec fn merge_not_any<A>(l: Seq<Tree<A>>) -> Seq<Tree<A>> {
    if count_not_any(l) == 0 {
        l
    } else {
        let l1 = if count_not_any(l) >= 2 {
            gather_not_any(Seq::empty(), -1, Seq::empty(), l)
        } else {
            l
        };
        let f1 = first_not_any(l1, 0);
        if f1 >= l1.len() {
            l1
        } else {
            let (l2, vars) = absorb_not_var(Seq::empty(), Seq::empty(), l1);
            let f = first_not_any(l2, 0);
            if f < l2.len() {
                l2.update(f, not_any_of(not_any_members(l2[f]) + vars))
            } else {
                l2
            }
        }
    }
}

/// `merge_not_any` on every conjunction reached through disjunctions and negations.
pub open spec fn merge_all_of_not_any<A>(t: Tree<A>) -> Tree<A>
    decreases t,
{
    match t {
        Tree::Any(l) => Tree::Any(merge_all_of_not_any_list(l)),
        Tree::All(l) => Tree::All(merge_not_any(l)),
        Tree::Not(b) => Tree::Not(Box::new(merge_all_of_not_any(*b))),
        _ => t,
    }
}

pub open spec fn merge_all_of_not_any_list<A>(s: Seq<Tree<A>>) -> Seq<Tree<A>>
    decreases s,
{
    if s.len() == 0 {
        s
    } else {
        merge_all_of_not_any_list(s.drop_last()).push(merge_all_of_not_any(s.last()))
    }
}

pub proof fn lemma_merge_all_of_not_any_list<A>(s: Seq<Tree<A>>)
    ensures
        merge_all_of_not_any_list(s).len() == s.len(),
        forall|i: int| 0 <= i < s.len() ==> #[trigger] merge_all_of_not_any_list(s)[i] == merge_all_of_not_any(s[i]),
    decreases s.len(),
{
    if s.len() > 0 {
        lemma_merge_all_of_not_any_list(s.drop_last());
    }
}

} // verus!

verus! {

fn is_not_any_expr<T: View>(e: &Expr<T>) -> (r: bool)
    ensures
        r == is_not_any(e@),
{
    broadcast use group_model;

    match e {
        Expr::Not(Not(b)) => b.is_any(),
        _ => false,
    }
}

fn count_not_any_exec<T: View>(l: &Vec<Expr<T>>) -> (r: usize)
    ensures
        r == count_not_any(model_list(l@)),
{
    broadcast use group_model;

    let ghost m = model_list(l@);
    let mut i: usize = 0;
    let mut r: usize = 0;
    proof {
        assert(m.take(0) =~= Seq::<Tree<T::V>>::empty());
    }
    while i < l.len()
        invariant
            i <= l.len() == m.len(),
            m == model_list(l@),
            r <= i,
            r == count_not_any(m.take(i as int)),
        decreases l.len() - i,
    {
        proof {
            assert(m.take(i + 1).drop_last() =~= m.take(i as int));
            assert(m[i as int] == model(l@[i as int]));
        }
        if is_not_any_expr(&l[i]) {
            r += 1;
        }
        i += 1;
    }
    assert(m.take(l.len() as int) =~= m);
    r
}

fn first_not_any_exec<T: View>(l: &Vec<Expr<T>>) -> (r: usize)
    ensures
        r == first_not_any(model_list(l@), 0),
{
    broadcast use group_model;

    let ghost m = model_list(l@);
    let mut i: usize = 0;
    while i < l.len()
        invariant
            i <= l.len() == m.len(),
            m == model_list(l@),
            first_not_any(m, 0) == first_not_any(m, i as int),
        decreases l.len() - i,
    {
        assert(m[i as int] == model(l@[i as int]));
        if is_not_any_expr(&l[i]) {
            return i;
        }
        i += 1;
    }
    i
}

/// Merges the members of a conjunction that are negations of disjunctions, and moves the
/// negated atoms of the conjunction into the first of them:
/// `all(not(any(a)), not(any(b)), not(c))` becomes `all(not(any(a, b, c)))`.
pub struct MergeAllOfNotAny;

impl MergeAllOfNotAny {
    #[verifier::loop_isolation(false)]
    fn gather<T: View>(all: &mut Vec<Expr<T>>)
        ensures
            model_list(final(all)@) == gather_not_any(Seq::empty(), -1, Seq::empty(), model_list(old(all)@)),
    {
        broadcast use group_model;

        let mut src: Vec<Expr<T>> = Vec::new();
        std::mem::swap(all, &mut src);
        let ghost orig = model_list(src@);
        let mut ans: Vec<Expr<T>> = Vec::new();
        let mut merged: Vec<Expr<T>> = Vec::new();
        let mut slot: usize = 0;
        let mut has_slot = false;
        proof {
            assert(model_list(ans@) =~= Seq::<Tree<T::V>>::empty());
            assert(model_list(merged@) =~= Seq::<Tree<T::V>>::empty());
        }
        while src.len() > 0
            invariant
                has_slot ==> slot < ans.len(),
                gather_not_any(Seq::empty(), -1, Seq::empty(), orig) == gather_not_any(
                    model_list(ans@),
                    if has_slot { slot as int } else { -1 },
                    model_list(merged@),
                    model_list(src@),
                ),
            decreases src.len(),
        {
            let ghost before = src@;
            let ghost rest = model_list(before);
            let x = src.remove(0);
            proof {
                lemma_model_remove(before, 0);
                assert(rest.remove(0) =~= rest.drop_first());
                assert(rest[0] == model(before[0]));
            }
            let ghost pre = ans@;
            let ghost pm = merged@;
            if is_not_any_expr(&x) {
                if let Expr::Not(Not(b)) = x {
                    if let Expr::Any(Any(mut inner)) = *b {
                        let ghost iv = inner@;
                        if !has_slot {
                            slot = ans.len();
                            ans.push(Expr::Const(false));
                            merged = inner;
                            has_slot = true;
                            proof {
                                lemma_model_push(pre, Expr::Const(false));
                            }
                        } else {
                            merged.append(&mut inner);
                            proof {
                                lemma_model_add(pm, iv);
                            }
                        }
                    }
                }
            } else {
                ans.push(x);
                proof {
                    lemma_model_push(pre, x);
                }
            }
        }
        if has_slot {
            if merged.len() == 0 {
                let ghost pre = ans@;
                ans.remove(slot);
                proof {
                    lemma_model_remove(pre, slot as int);
                }
            } else {
                let ghost pre = ans@;
                let ghost mm = model_list(merged@);
                ans.set(slot, Expr::Not(Not(Box::new(Expr::Any(Any(merged))))));
                proof {
                    lemma_model_update(pre, slot as int, ans@[slot as int]);
                }
            }
        }
        *all = ans;
    }

    #[verifier::loop_isolation(false)]
    fn absorb<T: View>(all: &mut Vec<Expr<T>>) -> (vars: Vec<Expr<T>>)
        ensures
            (model_list(final(all)@), model_list(vars@)) == absorb_not_var(
                Seq::empty(),
                Seq::empty(),
                model_list(old(all)@),
            ),
    {
        broadcast use group_model;

        let mut src: Vec<Expr<T>> = Vec::new();
        std::mem::swap(all, &mut src);
        let ghost orig = model_list(src@);
        let mut ans: Vec<Expr<T>> = Vec::new();
        let mut vars: Vec<Expr<T>> = Vec::new();
        proof {
            assert(model_list(ans@) =~= Seq::<Tree<T::V>>::empty());
            assert(model_list(vars@) =~= Seq::<Tree<T::V>>::empty());
        }
        while src.len() > 0
            invariant
                absorb_not_var(Seq::empty(), Seq::empty(), orig) == absorb_not_var(
                    model_list(ans@),
                    model_list(vars@),
                    model_list(src@),
                ),
            decreases src.len(),
        {
            let ghost before = src@;
            let ghost rest = model_list(before);
            let x = src.remove(0);
            proof {
                lemma_model_remove(before, 0);
                assert(rest.remove(0) =~= rest.drop_first());
                assert(rest[0] == model(before[0]));
            }
            let ghost pre = ans@;
            let ghost pv = vars@;
            if x.is_expr_not_var() {
                let v = unwrap_not(x);
                vars.push(v);
                proof {
                    lemma_model_push(pv, v);
                }
            } else {
                ans.push(x);
                proof {
                    lemma_model_push(pre, x);
                }
            }
        }
        *all = ans;
        vars
    }

    #[verifier::loop_isolation(false)]
    fn merge<T: View>(all: &mut Vec<Expr<T>>)
        ensures
            model_list(final(all)@) == merge_not_any(model_list(old(all)@)),
    {
        broadcast use group_model;

        let ghost l = model_list(all@);
        let c = count_not_any_exec(all);
        if c == 0 {
            return;
        }
        if c >= 2 {
            Self::gather(all);
        }
        let ghost l1 = model_list(all@);
        let f1 = first_not_any_exec(all);
        if f1 >= all.len() {
            return;
        }
        let mut vars = Self::absorb(all);
        let ghost l2 = model_list(all@);
        let ghost mv = model_list(vars@);
        let f = first_not_any_exec(all);
        assert(l1 == if count_not_any(l) >= 2 {
            gather_not_any(Seq::empty(), -1, Seq::empty(), l)
        } else {
            l
        });
        assert((l2, mv) == absorb_not_var(Seq::empty(), Seq::empty(), l1));
        proof {
            lemma_first_not_any(l2, 0);
        }
        if f < all.len() {
            let ghost pre = all@;
            assert(l2[f as int] == model(pre[f as int]));
            let e = take(&mut all[f]);
            if let Expr::Not(Not(b)) = e {
                if let Expr::Any(Any(mut list)) = *b {
                    let ghost lv = list@;
                    let ghost vv = vars@;
                    list.append(&mut vars);
                    all.set(f, Expr::Not(Not(Box::new(Expr::Any(Any(list))))));
                    proof {
                        lemma_model_add(lv, vv);
                        lemma_model_update(pre, f as int, all@[f as int]);
                    }
                }
            }
        }
        assert(model_list(all@) == merge_not_any(l));
    }

    #[verifier::loop_isolation(false)]
    fn visit_list<T: View>(&mut self, list: &mut Vec<Expr<T>>)
        ensures
            model_list(final(list)@) == merge_all_of_not_any_list(model_list(old(list)@)),
        decreases 1 + max_height(model_list(old(list)@)), 0nat,
    {
        broadcast use group_model;

        let ghost l = model_list(list@);
        let mut i: usize = 0;
        while i < list.len()
            invariant
                i <= list.len(),
                model_list(list@).len() == l.len(),
                forall|j: int| 0 <= j < i ==> #[trigger] model_list(list@)[j] == merge_all_of_not_any(l[j]),
                forall|j: int| i <= j < l.len() ==> #[trigger] model_list(list@)[j] == l[j],
            decreases list.len() - i,
        {
            let ghost before = list@;
            assert(model_list(before)[i as int] == l[i as int]);
            self.visit_mut_expr(&mut list[i]);
            proof {
                lemma_model_update(before, i as int, list@[i as int]);
            }
            i += 1;
        }
        proof {
            lemma_merge_all_of_not_any_list(l);
            assert(model_list(list@) =~= merge_all_of_not_any_list(l));
        }
    }

    pub fn visit_mut_expr<T: View>(&mut self, expr: &mut Expr<T>)
        ensures
            final(expr)@ == merge_all_of_not_any(old(expr)@),
        decreases height(old(expr)@), 1nat,
    {
        match expr {
            Expr::Any(Any(list)) => self.visit_list(list),
            Expr::All(All(list)) => Self::merge(list),
            Expr::Not(Not(not)) => self.visit_mut_expr(not),
            _ => {},
        }
    }
}

} // verus!

verus! {

/// Every member of `a` is a member of `b`.
pub open spec fn is_subset<A>(a: Seq<Tree<A>>, b: Seq<Tree<A>>) -> bool {
    forall|k: int| 0 <= k < a.len() ==> b.contains(#[trigger] a[k])
}

/// The places of the disjunctions in `l`, in order.
pub open spec fn any_positions<A>(l: Seq<Tree<A>>) -> Seq<int>
    decreases l.len(),
{
    if l.len() == 0 {
        Seq::empty()
    } else if l.last() is Any {
        any_positions(l.drop_last()).push(l.len() - 1)
    } else {
        any_positions(l.drop_last())
    }
}

/// The disjunction `any(true)`.
pub open spec fn any_true<A>() -> Tree<A> {
    Tree::Any(seq![Tree::Const(true)])
}

/// For each ordered pair of distinct disjunctions, in order, the second becomes
/// `any(true)` when the members of the first are all among its own.
pub open spec fn subsume_scan<A>(l: Seq<Tree<A>>, pos: Seq<int>, i: int, j: int) -> Seq<Tree<A>>
    decreases pos.len() - i, pos.len() - j,
{
    if i < 0 || j < 0 || i >= pos.len() {
        l
    } else if j >= pos.len() {
        subsume_scan(l, pos, i + 1, 0)
    } else if i != j && is_subset(l[pos[i]]->Any_0, l[pos[j]]->Any_0) {
        subsume_scan(l.update(pos[j], any_true()), pos, i, j + 1)
    } else {
        subsume_scan(l, pos, i, j + 1)
    }
}

/// Bottom-up; in each conjunction a disjunction that holds all the members of another one
/// is redundant and becomes `any(true)`.
pub open spec fn merge_all_of_any<A>(t: Tree<A>) -> Tree<A>
    decreases t,
{
    match t {
        Tree::All(l) => {
            let m = merge_all_of_any_list(l);
            Tree::All(subsume_scan(m, any_positions(m), 0, 0))
        },
        Tree::Any(l) => Tree::Any(merge_all_of_any_list(l)),
        Tree::Not(b) => Tree::Not(Box::new(merge_all_of_any(*b))),
        _ => t,
    }
}

pub open spec fn merge_all_of_any_list<A>(s: Seq<Tree<A>>) -> Seq<Tree<A>>
    decreases s,
{
    if s.len() == 0 {
        s
    } else {
        merge_all_of_any_list(s.drop_last()).push(merge_all_of_any(s.last()))
    }
}

pub proof fn lemma_merge_all_of_any_list<A>(s: Seq<Tree<A>>)
    ensures
        merge_all_of_any_list(s).len() == s.len(),
        forall|i: int| 0 <= i < s.len() ==> #[trigger] merge_all_of_any_list(s)[i] == merge_all_of_any(s[i]),
    decreases s.len(),
{
    if s.len() > 0 {
        lemma_merge_all_of_any_list(s.drop_last());
    }
}

pub proof fn lemma_any_positions<A>(l: Seq<Tree<A>>)
    ensures
        forall|k: int| 0 <= k < any_positions(l).len() ==> 0 <= #[trigger] any_positions(l)[k] < l.len() && (l[
            any_positions(l)[k]
        ] is Any),
        any_positions(l).len() <= l.len(),
    decreases l.len(),
{
    if l.len() > 0 {
        let p = l.drop_last();
        lemma_any_positions(p);
        assert forall|k: int| 0 <= k < any_positions(p).len() implies (l[any_positions(p)[k]] is Any) by {
            assert(l[any_positions(p)[k]] == p[any_positions(p)[k]]);
        }
        if l.last() is Any {
            assert(any_positions(l)[any_positions(l).len() - 1] == l.len() - 1);
        }
    }
}

fn is_subset_of<T: Atom>(lhs: &Vec<Expr<T>>, rhs: &Vec<Expr<T>>) -> (r: bool)
    ensures
        r == is_subset(model_list(lhs@), model_list(rhs@)),
{
    broadcast use group_model;

    let mut k: usize = 0;
    while k < lhs.len()
        invariant
            k <= lhs.len(),
            forall|q: int| 0 <= q < k ==> model_list(rhs@).contains(#[trigger] model_list(lhs@)[q]),
        decreases lhs.len() - k,
    {
        if !contains_expr(rhs, &lhs[k]) {
            assert(!model_list(rhs@).contains(model_list(lhs@)[k as int]));
            return false;
        }
        k += 1;
    }
    true
}

} // verus!

verus! {

/// In each conjunction, replaces a disjunction by `any(true)` when another disjunction of
/// the conjunction has all its members among its own; bottom-up.
pub struct MergeAllOfAny;

impl MergeAllOfAny {
    fn positions<T: View>(all: &Vec<Expr<T>>) -> (r: Vec<usize>)
        ensures
            r@.map_values(|p: usize| p as int) == any_positions(model_list(all@)),
    {
        broadcast use group_model;

        let ghost m = model_list(all@);
        let mut r: Vec<usize> = Vec::new();
        let mut k: usize = 0;
        proof {
            assert(m.take(0) =~= Seq::<Tree<T::V>>::empty());
        }
        while k < all.len()
            invariant
                k <= all.len() == m.len(),
                m == model_list(all@),
                r@.map_values(|p: usize| p as int) == any_positions(m.take(k as int)),
            decreases all.len() - k,
        {
            proof {
                assert(m.take(k + 1).drop_last() =~= m.take(k as int));
                assert(m[k as int] == model(all@[k as int]));
            }
            let ghost pr = r@;
            if all[k].is_any() {
                r.push(k);
                proof {
                    assert(r@.map_values(|p: usize| p as int) =~= pr.map_values(|p: usize| p as int).push(k as int));
                }
            }
            k += 1;
        }
        assert(m.take(all.len() as int) =~= m);
        r
    }

    #[verifier::loop_isolation(false)]
    fn subsume<T: Atom>(all: &mut Vec<Expr<T>>)
        ensures
            model_list(final(all)@) == subsume_scan(model_list(old(all)@), any_positions(model_list(old(all)@)), 0, 0),
    {
        broadcast use group_model;

        let ghost l0 = model_list(all@);
        let pos = Self::positions(all);
        let ghost ip = pos@.map_values(|p: usize| p as int);
        proof {
            lemma_any_positions(l0);
            assert forall|k: int| 0 <= k < pos@.len() implies #[trigger] pos@[k] < all@.len() && model_list(
                all@,
            )[pos@[k] as int] is Any by {
                assert(ip[k] == pos@[k] as int);
            }
        }
        let n = pos.len();
        let mut i: usize = 0;
        while i < n
            invariant
                i <= n == pos@.len(),
                ip == pos@.map_values(|p: usize| p as int),
                ip == any_positions(l0),
                all@.len() == l0.len(),
                forall|k: int| 0 <= k < n ==> #[trigger] pos@[k] < all@.len() && model_list(all@)[pos@[k] as int] is Any,
                subsume_scan(l0, ip, 0, 0) == subsume_scan(model_list(all@), ip, i as int, 0),
            decreases n - i,
        {
            let mut j: usize = 0;
            while j < n
                invariant
                    i < n,
                    j <= n == pos@.len(),
                    all@.len() == l0.len(),
                    ip == pos@.map_values(|p: usize| p as int),
                    forall|k: int| 0 <= k < n ==> #[trigger] pos@[k] < all@.len() && model_list(all@)[pos@[k] as int] is Any,
                    subsume_scan(l0, ip, 0, 0) == subsume_scan(model_list(all@), ip, i as int, j as int),
                decreases n - j,
            {
                if i != j {
                    let pi = pos[i];
                    let pj = pos[j];
                    assert(ip[i as int] == pi as int && ip[j as int] == pj as int);
                    assert(model_list(all@)[pi as int] == model(all@[pi as int]));
                    assert(model_list(all@)[pj as int] == model(all@[pj as int]));
                    let sub = match (&all[pi], &all[pj]) {
                        (Expr::Any(Any(a)), Expr::Any(Any(b))) => is_subset_of(a, b),
                        _ => false,
                    };
                    if sub {
                        let ghost before = all@;
                        let v = vec![Expr::Const(true)];
                        proof {
                            assert(model_list(v@) =~= seq![Tree::<T::V>::Const(true)]);
                        }
                        all.set(pj, Expr::Any(Any(v)));
                        proof {
                            lemma_model_update(before, pj as int, all@[pj as int]);
                        }
                    }
                }
                j += 1;
            }
            i += 1;
        }
    }

    #[verifier::loop_isolation(false)]
    fn visit_list<T: Atom>(&mut self, list: &mut Vec<Expr<T>>)
        ensures
            model_list(final(list)@) == merge_all_of_any_list(model_list(old(list)@)),
        decreases 1 + max_height(model_list(old(list)@)), 0nat,
    {
        broadcast use group_model;

        let ghost l = model_list(list@);
        let mut i: usize = 0;
        while i < list.len()
            invariant
                i <= list.len(),
                model_list(list@).len() == l.len(),
                forall|j: int| 0 <= j < i ==> #[trigger] model_list(list@)[j] == merge_all_of_any(l[j]),
                forall|j: int| i <= j < l.len() ==> #[trigger] model_list(list@)[j] == l[j],
            decreases list.len() - i,
        {
            let ghost before = list@;
            assert(model_list(before)[i as int] == l[i as int]);
            self.visit_mut_expr(&mut list[i]);
            proof {
                lemma_model_update(before, i as int, list@[i as int]);
            }
            i += 1;
        }
        proof {
            lemma_merge_all_of_any_list(l);
            assert(model_list(list@) =~= merge_all_of_any_list(l));
        }
    }

    pub fn visit_mut_expr<T: Atom>(&mut self, expr: &mut Expr<T>)
        ensures
            final(expr)@ == merge_all_of_any(old(expr)@),
        decreases height(old(expr)@), 1nat,
    {
        match expr {
            Expr::All(All(list)) => {
                self.visit_list(list);
                Self::subsume(list);
            },
            Expr::Any(Any(list)) => self.visit_list(list),
            Expr::Not(Not(not)) => self.visit_mut_expr(not),
            _ => {},
        }
    }
}

} // verus!

verus! {

/// The views of the atoms in `s`.
pub open spec fn atoms_view<T: View>(s: Seq<T>) -> Seq<T::V> {
    s.map_values(|x: T| x@)
}

/// Scanning `rest` left to right: an atom member already in `seen` becomes the literal
/// `marker`; a new one is kept and added to `seen`. Gives the new members and the atoms.
pub open spec fn mark_repeats<A>(seen: Seq<A>, rest: Seq<Tree<A>>, marker: bool) -> (Seq<Tree<A>>, Seq<A>)
    decreases rest.len(),
{
    if rest.len() == 0 {
        (Seq::empty(), seen)
    } else {
        match rest[0] {
            Tree::Var(v) => if seen.contains(v) {
                let r = mark_repeats(seen, rest.drop_first(), marker);
                (seq![Tree::Const(marker)] + r.0, r.1)
            } else {
                let r = mark_repeats(seen.push(v), rest.drop_first(), marker);
                (seq![rest[0]] + r.0, r.1)
            },
            _ => {
                let r = mark_repeats(seen, rest.drop_first(), marker);
                (seq![rest[0]] + r.0, r.1)
            },
        }
    }
}

/// Every occurrence in `t` of an atom of `vars` replaced by the literal `marker`.
pub open spec fn replace_vars<A>(t: Tree<A>, vars: Seq<A>, marker: bool) -> Tree<A>
    decreases t,
{
    match t {
        Tree::Any(l) => Tree::Any(replace_vars_list(l, vars, marker)),
        Tree::All(l) => Tree::All(replace_vars_list(l, vars, marker)),
        Tree::Not(b) => Tree::Not(Box::new(replace_vars(*b, vars, marker))),
        Tree::Var(v) => if vars.contains(v) {
            Tree::Const(marker)
        } else {
            t
        },
        Tree::Const(_) => t,
    }
}

pub open spec fn replace_vars_list<A>(s: Seq<Tree<A>>, vars: Seq<A>, marker: bool) -> Seq<Tree<A>>
    decreases s,
{
    if s.len() == 0 {
        s
    } else {
        replace_vars_list(s.drop_last(), vars, marker).push(replace_vars(s.last(), vars, marker))
    }
}

/// The members of a list of kind `disj` after the short-circuit rewrite at that list.
pub open spec fn short_circuit_members<A>(l: Seq<Tree<A>>, disj: bool) -> Seq<Tree<A>> {
    let marker = !disj;
    let r = mark_repeats(Seq::empty(), l, marker);
    Seq::new(
        r.0.len(),
        |i: int|
            if r.0[i] is Var {
                r.0[i]
            } else {
                replace_vars(r.0[i], r.1, marker)
            },
    )
}

/// In each disjunction (conjunction) the first occurrence of each atom member is kept, and
/// every other occurrence of it in the list, at any depth, becomes `false` (`true`);
/// top-down.
pub open spec fn short_circuit<A>(t: Tree<A>) -> Tree<A>
    decreases height(t),
    via short_circuit_decreases::<A>
{
    match t {
        Tree::Any(l) => {
            let r = short_circuit_members(l, true);
            Tree::Any(Seq::new(r.len(), |i: int| if 0 <= i < r.len() { short_circuit(r[i]) } else { t }))
        },
        Tree::All(l) => {
            let r = short_circuit_members(l, false);
            Tree::All(Seq::new(r.len(), |i: int| if 0 <= i < r.len() { short_circuit(r[i]) } else { t }))
        },
        Tree::Not(b) => Tree::Not(Box::new(short_circuit(*b))),
        _ => t,
    }
}

pub proof fn lemma_replace_vars_list<A>(s: Seq<Tree<A>>, vars: Seq<A>, marker: bool)
    ensures
        replace_vars_list(s, vars, marker).len() == s.len(),
        forall|i: int|
            0 <= i < s.len() ==> #[trigger] replace_vars_list(s, vars, marker)[i] == replace_vars(
                s[i],
                vars,
                marker,
            ),
    decreases s.len(),
{
    if s.len() > 0 {
        lemma_replace_vars_list(s.drop_last(), vars, marker);
    }
}

/// Replacing atoms does not raise a tree.
pub proof fn lemma_replace_vars_height<A>(t: Tree<A>, vars: Seq<A>, marker: bool)
    ensures
        height(replace_vars(t, vars, marker)) <= height(t),
    decreases t,
{
    broadcast use group_model;

    match t {
        Tree::Any(l) | Tree::All(l) => {
            let r = replace_vars_list(l, vars, marker);
            lemma_replace_vars_list(l, vars, marker);
            assert forall|i: int| 0 <= i < r.len() implies height(#[trigger] r[i]) <= max_height(l) by {
                lemma_replace_vars_height(l[i], vars, marker);
            }
            crate::ast::lemma_max_height_bound(r, max_height(l));
        },
        Tree::Not(b) => {
            lemma_replace_vars_height(*b, vars, marker);
        },
        _ => {},
    }
}

/// Each member after marking is the member at that place, or a literal.
pub proof fn lemma_mark_repeats<A>(seen: Seq<A>, rest: Seq<Tree<A>>, marker: bool)
    ensures
        mark_repeats(seen, rest, marker).0.len() == rest.len(),
        forall|i: int|
            0 <= i < rest.len() ==> #[trigger] mark_repeats(seen, rest, marker).0[i] == rest[i] || mark_repeats(
                seen,
                rest,
                marker,
            ).0[i] == Tree::<A>::Const(marker),
    decreases rest.len(),
{
    if rest.len() > 0 {
        let r0 = rest[0];
        let seen2 = match r0 {
            Tree::Var(v) => if seen.contains(v) {
                seen
            } else {
                seen.push(v)
            },
            _ => seen,
        };
        lemma_mark_repeats(seen2, rest.drop_first(), marker);
        let m = mark_repeats(seen, rest, marker).0;
        assert forall|i: int| 0 <= i < rest.len() implies #[trigger] m[i] == rest[i] || m[i] == Tree::<A>::Const(
            marker,
        ) by {
            if i > 0 {
                assert(m[i] == mark_repeats(seen2, rest.drop_first(), marker).0[i - 1]);
                assert(rest.drop_first()[i - 1] == rest[i]);
            }
        }
    }
}

/// The members after the rewrite at a list are no higher than the list's own members.
pub proof fn lemma_short_circuit_members_height<A>(l: Seq<Tree<A>>, disj: bool)
    ensures
        short_circuit_members(l, disj).len() == l.len(),
        forall|i: int| 0 <= i < l.len() ==> height(#[trigger] short_circuit_members(l, disj)[i]) <= max_height(l),
{
    broadcast use group_model;

    let marker = !disj;
    let r = mark_repeats(Seq::empty(), l, marker);
    lemma_mark_repeats(Seq::empty(), l, marker);
    assert forall|i: int| 0 <= i < l.len() implies height(#[trigger] short_circuit_members(l, disj)[i]) <= max_height(l) by {
        assert(height(l[i]) <= max_height(l));
        if !(r.0[i] is Var) {
            lemma_replace_vars_height(r.0[i], r.1, marker);
        }
    }
}

#[via_fn]
proof fn short_circuit_decreases<A>(t: Tree<A>) {
    broadcast use group_model;

    match t {
        Tree::Any(l) => {
            lemma_short_circuit_members_height(l, true);
        },
        Tree::All(l) => {
            lemma_short_circuit_members_height(l, false);
        },
        _ => {},
    }
}

/// The rewrite on a list node: its members become `short_circuit` of the rewritten members.
pub proof fn lemma_short_circuit_list<A>(l: Seq<Tree<A>>, disj: bool)
    ensures
        ({
            let t = if disj { Tree::Any(l) } else { Tree::All(l) };
            let r = short_circuit_members(l, disj);
            let s = short_circuit(t);
            &&& (if disj { s is Any } else { s is All })
            &&& members_of(s, disj) is Some
            &&& members_of(s, disj)->0.len() == r.len()
            &&& forall|i: int| 0 <= i < r.len() ==> #[trigger] members_of(s, disj)->0[i] == short_circuit(r[i])
        }),
{
}

} // verus!

verus! {

fn contains_atom<T: Atom>(vars: &Vec<T>, v: &T) -> (r: bool)
    ensures
        r == atoms_view(vars@).contains(v@),
{
    let mut i: usize = 0;
    while i < vars.len()
        invariant
            i <= vars.len(),
            forall|j: int| 0 <= j < i ==> atoms_view(vars@)[j] != v@,
        decreases vars.len() - i,
    {
        if vars[i].same(v) {
            assert(atoms_view(vars@)[i as int] == v@);
            return true;
        }
        i += 1;
    }
    false
}

/// Replaces each atom of `vars` anywhere in the members of `list` by the literal `marker`.
#[verifier::loop_isolation(false)]
fn replace_vars_in_list<T: Atom>(list: &mut Vec<Expr<T>>, vars: &Vec<T>, marker: bool)
    ensures
        model_list(final(list)@) == replace_vars_list(model_list(old(list)@), atoms_view(vars@), marker),
    decreases 1 + max_height(model_list(old(list)@)), 0nat,
{
    broadcast use group_model;

    let ghost av = atoms_view(vars@);
    let ghost l = model_list(list@);
    let mut i: usize = 0;
    while i < list.len()
        invariant
            i <= list.len(),
            model_list(list@).len() == l.len(),
            forall|j: int| 0 <= j < i ==> #[trigger] model_list(list@)[j] == replace_vars(l[j], av, marker),
            forall|j: int| i <= j < l.len() ==> #[trigger] model_list(list@)[j] == l[j],
        decreases list.len() - i,
    {
        let ghost before = list@;
        assert(model_list(before)[i as int] == l[i as int]);
        replace_vars_exec(&mut list[i], vars, marker);
        proof {
            lemma_model_update(before, i as int, list@[i as int]);
        }
        i += 1;
    }
    proof {
        lemma_replace_vars_list(l, av, marker);
        assert(model_list(list@) =~= replace_vars_list(l, av, marker));
    }
}

/// Replaces each atom of `vars` anywhere in `x` by the literal `marker`.
fn replace_vars_exec<T: Atom>(x: &mut Expr<T>, vars: &Vec<T>, marker: bool)
    ensures
        final(x)@ == replace_vars(old(x)@, atoms_view(vars@), marker),
    decreases height(old(x)@), 1nat,
{
    match x {
        Expr::Any(Any(list)) => replace_vars_in_list(list, vars, marker),
        Expr::All(All(list)) => replace_vars_in_list(list, vars, marker),
        Expr::Not(Not(not)) => replace_vars_exec(not, vars, marker),
        Expr::Var(Var(v)) => {
            if contains_atom(vars, v) {
                *x = Expr::Const(marker);
            }
        },
        Expr::Const(_) => {},
    }
}

/// Replaces each way of reaching an atom a second time by the literal that short-circuits it.
pub struct SimplifyByShortCircuit;

impl SimplifyByShortCircuit {
    /// Marks repeated atom members of `list` and returns the atoms, in order of first
    /// occurrence.
    #[verifier::loop_isolation(false)]
    fn find_vars<T: Atom>(list: &mut Vec<Expr<T>>, marker: bool) -> (vars: Vec<T>)
        ensures
            (model_list(final(list)@), atoms_view(vars@)) == mark_repeats(Seq::empty(), model_list(old(list)@), marker),
    {
        broadcast use group_model;

        let ghost l = model_list(list@);
        let mut ans: Vec<T> = Vec::new();
        let mut k: usize = 0;
        proof {
            assert(atoms_view(ans@) =~= Seq::<T::V>::empty());
            assert(l.skip(0) =~= l);
            assert(model_list(list@).take(0) + mark_repeats(Seq::empty(), l, marker).0 =~= mark_repeats(
                Seq::empty(),
                l,
                marker,
            ).0);
        }
        while k < list.len()
            invariant
                k <= list.len() == l.len(),
                model_list(list@).len() == l.len(),
                forall|j: int| k <= j < l.len() ==> #[trigger] model_list(list@)[j] == l[j],
                mark_repeats(Seq::empty(), l, marker) == (
                    model_list(list@).take(k as int) + mark_repeats(atoms_view(ans@), l.skip(k as int), marker).0,
                    mark_repeats(atoms_view(ans@), l.skip(k as int), marker).1,
                ),
            decreases list.len() - k,
        {
            let ghost before = list@;
            let ghost seen = atoms_view(ans@);
            let ghost rest = l.skip(k as int);
            proof {
                assert(rest.drop_first() =~= l.skip(k + 1));
                assert(rest[0] == l[k as int]);
                assert(model_list(before)[k as int] == model(before[k as int]));
            }
            let mut replace = false;
            if let Expr::Var(Var(v)) = &list[k] {
                if contains_atom(&ans, v) {
                    replace = true;
                } else {
                    let ghost pa = ans@;
                    ans.push(v.duplicate());
                    proof {
                        assert(atoms_view(ans@) =~= atoms_view(pa).push(v@));
                    }
                }
            }
            if replace {
                list.set(k, Expr::Const(marker));
                proof {
                    lemma_model_update(before, k as int, list@[k as int]);
                }
            }
            proof {
                let m = model_list(list@);
                assert(m.take(k + 1) =~= model_list(before).take(k as int).push(m[k as int]));
                assert(model_list(before).take(k as int) =~= m.take(k as int));
            }
            k += 1;
        }
        proof {
            assert(l.skip(l.len() as int) =~= Seq::<Tree<T::V>>::empty());
            assert(model_list(list@).take(l.len() as int) =~= model_list(list@));
        }
        ans
    }

    #[verifier::loop_isolation(false)]
    fn visit_members<T: Atom>(&mut self, list: &mut Vec<Expr<T>>, disj: bool)
        ensures
            model_list(final(list)@).len() == short_circuit_members(model_list(old(list)@), disj).len(),
            forall|i: int|
                0 <= i < model_list(final(list)@).len() ==> #[trigger] model_list(final(list)@)[i] == short_circuit(
                    short_circuit_members(model_list(old(list)@), disj)[i],
                ),
        decreases 1 + max_height(model_list(old(list)@)), 0nat,
    {
        broadcast use group_model;

        let ghost l = model_list(list@);
        let ghost r = short_circuit_members(l, disj);
        let marker = !disj;
        let vars = Self::find_vars(list, marker);
        let ghost marked = model_list(list@);
        let ghost av = atoms_view(vars@);
        proof {
            lemma_mark_repeats(Seq::empty(), l, marker);
            lemma_short_circuit_members_height(l, disj);
        }
        let mut i: usize = 0;
        while i < list.len()
            invariant
                i <= list.len() == l.len(),
                model_list(list@).len() == l.len(),
                forall|j: int| 0 <= j < i ==> #[trigger] model_list(list@)[j] == r[j],
                forall|j: int| i <= j < l.len() ==> #[trigger] model_list(list@)[j] == marked[j],
            decreases list.len() - i,
        {
            let ghost before = list@;
            assert(model_list(before)[i as int] == marked[i as int]);
            if !list[i].is_var() {
                replace_vars_exec(&mut list[i], &vars, marker);
                proof {
                    lemma_model_update(before, i as int, list@[i as int]);
                }
            }
            i += 1;
        }
        let ghost replaced = model_list(list@);
        let mut i: usize = 0;
        while i < list.len()
            invariant
                i <= list.len() == l.len(),
                model_list(list@).len() == l.len(),
                forall|j: int| 0 <= j < i ==> #[trigger] model_list(list@)[j] == short_circuit(r[j]),
                forall|j: int| i <= j < l.len() ==> #[trigger] model_list(list@)[j] == r[j],
            decreases list.len() - i,
        {
            let ghost before = list@;
            assert(model_list(before)[i as int] == r[i as int]);
            assert(height(r[i as int]) <= max_height(l));
            self.visit_mut_expr(&mut list[i]);
            proof {
                lemma_model_update(before, i as int, list@[i as int]);
            }
            i += 1;
        }
    }

    pub fn visit_mut_expr<T: Atom>(&mut self, expr: &mut Expr<T>)
        ensures
            final(expr)@ == short_circuit(old(expr)@),
        decreases height(old(expr)@), 1nat,
    {
        broadcast use group_model;

        let ghost e0 = expr@;
        match expr {
            Expr::Any(Any(list)) => {
                let ghost l = model_list(list@);
                self.visit_members(list, true);
                proof {
                    lemma_short_circuit_list(l, true);
                    assert(model_list(list@) =~= short_circuit(Tree::Any(l))->Any_0);
                }
            },
            Expr::All(All(list)) => {
                let ghost l = model_list(list@);
                self.visit_members(list, false);
                proof {
                    lemma_short_circuit_list(l, false);
                    assert(model_list(list@) =~= short_circuit(Tree::All(l))->All_0);
                }
            },
            Expr::Not(Not(not)) => self.visit_mut_expr(not),
            _ => {},
        }
    }
}

} // verus!

verus! {

/// A list whose members all come from `l` is no higher than `l`.
pub proof fn lemma_max_height_of_members<A>(l: Seq<Tree<A>>, r: Seq<Tree<A>>)
    requires
        forall|i: int| 0 <= i < r.len() ==> l.contains(#[trigger] r[i]),
    ensures
        max_height(r) <= max_height(l),
{
    broadcast use group_model;

    assert forall|i: int| 0 <= i < r.len() implies height(#[trigger] r[i]) <= max_height(l) by {
        assert(l.contains(r[i]));
        let k = choose|k: int| 0 <= k < l.len() && l[k] == r[i];
    }
    crate::ast::lemma_max_height_bound(r, max_height(l));
}

} // verus!

verus! {

/// A conjunction of two members.
pub proof fn lemma_eval_pair<A>(a: Tree<A>, b: Tree<A>, env: spec_fn(A) -> bool)
    ensures
        eval_and(seq![a, b], env) == (eval(a, env) && eval(b, env)),
{
    assert(seq![a, b].drop_last() =~= seq![a]);
    crate::eval::lemma_eval_single(a, env);
}

/// Dropping members that are false keeps the truth value of a disjunction.
proof fn lemma_counteract_sound<A>(neg: Seq<Tree<A>>, p: Seq<Tree<A>>, env: spec_fn(A) -> bool)
    requires
        forall|i: int| 0 <= i < neg.len() ==> !eval(#[trigger] neg[i], env),
    ensures
        eval_or(counteract(neg, p), env) == eval_or(p, env),
    decreases p.len(),
{
    if p.len() > 0 {
        lemma_counteract_sound(neg, p.drop_last(), env);
        let c = counteract(neg, p.drop_last());
        if neg.contains(p.last()) {
            let k = choose|k: int| 0 <= k < neg.len() && neg[k] == p.last();
            assert(!eval(neg[k], env));
        } else {
            assert(c.push(p.last()).drop_last() =~= c);
        }
    }
}

/// When `not(n)` holds, every member that it excludes is false.
proof fn lemma_neg_set_false<A>(n: Tree<A>, env: spec_fn(A) -> bool)
    requires
        !eval(n, env),
    ensures
        forall|i: int| 0 <= i < neg_set(n).len() ==> !eval(#[trigger] neg_set(n)[i], env),
{
    broadcast use group_eval;

    match n {
        Tree::Any(m) => {
            crate::eval::lemma_eval_or(m, env);
            assert(eval(n, env) == eval_or(m, env));
        },
        _ => {
            assert(neg_set(n) =~= seq![n]);
        },
    }
}

/// Dropping from `any(p)` what `not(n)` excludes, in `all(not(n), any(p))`, keeps the truth
/// value under every assignment.
pub proof fn lemma_simplify_all_not_any_sound<A>(t: Tree<A>, env: spec_fn(A) -> bool)
    ensures
        eval(simplify_all_not_any(t), env) == eval(t, env),
    decreases t, 1nat,
{
    match t {
        Tree::All(l) => {
            lemma_all_not_any_members_sound(l, env);
        },
        Tree::Any(l) => {
            lemma_simplify_all_not_any_list(l);
            assert forall|i: int| 0 <= i < l.len() implies eval(#[trigger] simplify_all_not_any_list(l)[i], env)
                == eval(l[i], env) by {
                lemma_simplify_all_not_any_sound(l[i], env);
            }
            crate::eval::lemma_eval_pointwise(simplify_all_not_any_list(l), l, env);
        },
        Tree::Not(b) => {
            lemma_simplify_all_not_any_sound(*b, env);
        },
        _ => {},
    }
}

proof fn lemma_all_not_any_members_sound<A>(l: Seq<Tree<A>>, env: spec_fn(A) -> bool)
    ensures
        eval_and(all_not_any_members(l), env) == eval_and(l, env),
    decreases l, 0nat,
{
    if l.len() == 2 && ((l[0] is Not && l[1] is Any) || (l[0] is Any && l[1] is Not)) {
        let (ni, pi) = if l[0] is Not { (0int, 1int) } else { (1int, 0int) };
        let n = *l[ni]->Not_0;
        let p = l[pi]->Any_0;
        let neg = neg_set(n);
        lemma_simplify_all_not_any_sound(l[ni], env);
        lemma_counteract_walk(neg, p);
        let c = counteract(neg, p);
        lemma_simplify_all_not_any_list(c);
        assert forall|i: int| 0 <= i < c.len() implies eval(#[trigger] simplify_all_not_any_list(c)[i], env)
            == eval(c[i], env) by {
            lemma_simplify_all_not_any_sound(c[i], env);
        }
        crate::eval::lemma_eval_pointwise(simplify_all_not_any_list(c), c, env);
        if !eval(n, env) {
            lemma_neg_set_false(n, env);
            lemma_counteract_sound(neg, p, env);
        }
        let r = all_not_any_members(l);
        assert(l =~= seq![l[0], l[1]]);
        lemma_eval_pair(l[0], l[1], env);
        lemma_eval_pair(r[0], r[1], env);
        assert(r =~= seq![r[0], r[1]]);
    } else {
        lemma_simplify_all_not_any_list(l);
        assert forall|i: int| 0 <= i < l.len() implies eval(#[trigger] simplify_all_not_any_list(l)[i], env)
            == eval(l[i], env) by {
            lemma_simplify_all_not_any_sound(l[i], env);
        }
        crate::eval::lemma_eval_pointwise(simplify_all_not_any_list(l), l, env);
    }
}

} // verus!

verus! {

proof fn lemma_any_positions_increasing<A>(l: Seq<Tree<A>>)
    ensures
        forall|a: int, b: int|
            0 <= a < b < any_positions(l).len() ==> #[trigger] any_positions(l)[a] < #[trigger] any_positions(l)[b],
    decreases l.len(),
{
    if l.len() > 0 {
        let p = l.drop_last();
        lemma_any_positions_increasing(p);
        lemma_any_positions(p);
    }
}

/// Replacing a disjunction of a conjunction by `any(true)` keeps the truth value when another
/// disjunction of the conjunction has all its members among its own.
proof fn lemma_subsume_step<A>(l: Seq<Tree<A>>, pi: int, pj: int, env: spec_fn(A) -> bool)
    requires
        0 <= pi < l.len(),
        0 <= pj < l.len(),
        pi != pj,
        l[pi] is Any,
        l[pj] is Any,
        is_subset(l[pi]->Any_0, l[pj]->Any_0),
    ensures
        eval_and(l.update(pj, any_true()), env) == eval_and(l, env),
{
    broadcast use group_eval;

    let u = l.update(pj, any_true());
    let t: Tree<A> = any_true();
    assert(eval(t, env)) by {
        crate::eval::lemma_eval_single(Tree::<A>::Const(true), env);
        assert(t == Tree::Any(seq![Tree::<A>::Const(true)]));
    }
    if eval_and(l, env) {
        assert forall|k: int| 0 <= k < u.len() implies eval(#[trigger] u[k], env) by {
            if k != pj {
                assert(u[k] == l[k]);
            }
        }
    } else {
        let k = choose|k: int| 0 <= k < l.len() && !eval(#[trigger] l[k], env);
        if k != pj {
            assert(!eval(u[k], env));
        } else {
            let a = l[pi]->Any_0;
            let b = l[pj]->Any_0;
            assert(eval(l[pj], env) == eval_or(b, env));
            assert(eval(l[pi], env) == eval_or(a, env));
            crate::eval::lemma_eval_or(a, env);
            crate::eval::lemma_eval_or(b, env);
            assert(!eval_or(b, env));
            assert forall|q: int| 0 <= q < a.len() implies !eval(#[trigger] a[q], env) by {
                assert(b.contains(a[q]));
                let w = choose|w: int| 0 <= w < b.len() && b[w] == a[q];
            }
            assert(!eval(l[pi], env));
            assert(!eval(u[pi], env));
        }
    }
}

proof fn lemma_subsume_scan_sound<A>(l: Seq<Tree<A>>, pos: Seq<int>, i: int, j: int, env: spec_fn(A) -> bool)
    requires
        forall|k: int| 0 <= k < pos.len() ==> 0 <= #[trigger] pos[k] < l.len() && l[pos[k]] is Any,
        forall|a: int, b: int| 0 <= a < b < pos.len() ==> #[trigger] pos[a] < #[trigger] pos[b],
    ensures
        eval_and(subsume_scan(l, pos, i, j), env) == eval_and(l, env),
    decreases pos.len() - i, pos.len() - j,
{
    if i < 0 || j < 0 || i >= pos.len() {
    } else if j >= pos.len() {
        lemma_subsume_scan_sound(l, pos, i + 1, 0, env);
    } else if i != j && is_subset(l[pos[i]]->Any_0, l[pos[j]]->Any_0) {
        let u = l.update(pos[j], any_true());
        if i < j {
            assert(pos[i] < pos[j]);
        } else {
            assert(pos[j] < pos[i]);
        }
        lemma_subsume_step(l, pos[i], pos[j], env);
        assert forall|k: int| 0 <= k < pos.len() implies 0 <= #[trigger] pos[k] < u.len() && u[pos[k]] is Any by {
            if pos[k] != pos[j] {
                assert(u[pos[k]] == l[pos[k]]);
            }
        }
        lemma_subsume_scan_sound(u, pos, i, j + 1, env);
    } else {
        lemma_subsume_scan_sound(l, pos, i, j + 1, env);
    }
}

/// Marking redundant disjunctions of conjunctions keeps the truth value under every
/// assignment.
pub proof fn lemma_merge_all_of_any_sound<A>(t: Tree<A>, env: spec_fn(A) -> bool)
    ensures
        eval(merge_all_of_any(t), env) == eval(t, env),
    decreases t,
{
    match t {
        Tree::All(l) | Tree::Any(l) => {
            let m = merge_all_of_any_list(l);
            lemma_merge_all_of_any_list(l);
            assert forall|i: int| 0 <= i < l.len() implies eval(#[trigger] m[i], env) == eval(l[i], env) by {
                lemma_merge_all_of_any_sound(l[i], env);
            }
            crate::eval::lemma_eval_pointwise(m, l, env);
            if t is All {
                lemma_any_positions(m);
                lemma_any_positions_increasing(m);
                lemma_subsume_scan_sound(m, any_positions(m), 0, 0, env);
            }
        },
        Tree::Not(b) => {
            lemma_merge_all_of_any_sound(*b, env);
        },
        _ => {},
    }
}

} // verus!

verus! {

/// Replacing atoms whose value is `marker` by the literal `marker` keeps the truth value.
proof fn lemma_replace_vars_sound<A>(t: Tree<A>, vars: Seq<A>, marker: bool, env: spec_fn(A) -> bool)
    requires
        forall|i: int| 0 <= i < vars.len() ==> env(#[trigger] vars[i]) == marker,
    ensures
        eval(replace_vars(t, vars, marker), env) == eval(t, env),
    decreases t,
{
    match t {
        Tree::Any(l) | Tree::All(l) => {
            let r = replace_vars_list(l, vars, marker);
            lemma_replace_vars_list(l, vars, marker);
            assert forall|i: int| 0 <= i < l.len() implies eval(#[trigger] r[i], env) == eval(l[i], env) by {
                lemma_replace_vars_sound(l[i], vars, marker, env);
            }
            crate::eval::lemma_eval_pointwise(r, l, env);
        },
        Tree::Not(b) => {
            lemma_replace_vars_sound(*b, vars, marker, env);
        },
        Tree::Var(v) => {
            if vars.contains(v) {
                let k = choose|k: int| 0 <= k < vars.len() && vars[k] == v;
            }
        },
        Tree::Const(_) => {},
    }
}

/// What marking keeps and collects: each member stays, or is a repeated atom now the
/// literal; every collected atom was seen before or stands as a member.
proof fn lemma_mark_repeats_facts<A>(seen: Seq<A>, rest: Seq<Tree<A>>, marker: bool)
    ensures
        ({
            let r = mark_repeats(seen, rest, marker);
            &&& r.0.len() == rest.len()
            &&& forall|i: int|
                0 <= i < rest.len() ==> #[trigger] r.0[i] == rest[i] || (r.0[i] == Tree::<A>::Const(marker)
                    && rest[i] is Var && r.1.contains(rest[i]->Var_0))
            &&& forall|a: A| #[trigger] r.1.contains(a) ==> seen.contains(a) || exists|i: int|
                0 <= i < rest.len() && #[trigger] r.0[i] == Tree::Var(a)
            &&& forall|a: A| #[trigger] seen.contains(a) ==> r.1.contains(a)
        }),
    decreases rest.len(),
{
    if rest.len() > 0 {
        let x = rest[0];
        let seen2 = match x {
            Tree::Var(v) => if seen.contains(v) {
                seen
            } else {
                seen.push(v)
            },
            _ => seen,
        };
        let tail = rest.drop_first();
        lemma_mark_repeats_facts(seen2, tail, marker);
        let r = mark_repeats(seen, rest, marker);
        let rt = mark_repeats(seen2, tail, marker);
        assert(r.1 == rt.1);
        assert forall|a: A| #[trigger] seen.contains(a) implies r.1.contains(a) by {
            if seen.contains(a) {
                let k = choose|k: int| 0 <= k < seen.len() && seen[k] == a;
                assert(seen2.contains(a)) by {
                    if seen2 != seen {
                        assert(seen2[k] == a);
                    }
                }
            }
        }
        assert forall|i: int| 0 <= i < rest.len() implies #[trigger] r.0[i] == rest[i] || (r.0[i]
            == Tree::<A>::Const(marker) && rest[i] is Var && r.1.contains(rest[i]->Var_0)) by {
            if i == 0 {
                if let Tree::Var(v) = x {
                    if seen.contains(v) {
                        let k = choose|k: int| 0 <= k < seen.len() && seen[k] == v;
                        assert(r.1.contains(v));
                    }
                }
            } else {
                assert(r.0[i] == rt.0[i - 1]);
                assert(tail[i - 1] == rest[i]);
            }
        }
        assert forall|a: A| #[trigger] r.1.contains(a) implies seen.contains(a) || exists|i: int|
            0 <= i < rest.len() && #[trigger] r.0[i] == Tree::Var(a) by {
            if !seen.contains(a) {
                if seen2.contains(a) {
                    let k = choose|k: int| 0 <= k < seen2.len() && seen2[k] == a;
                    assert(k == seen.len());
                    assert(r.0[0] == Tree::Var(a));
                } else {
                    let i = choose|i: int| 0 <= i < tail.len() && #[trigger] rt.0[i] == Tree::Var(a);
                    assert(r.0[i + 1] == Tree::Var(a));
                }
            }
        }
    }
}

/// The rewrite at one list keeps its truth value, given that each rewritten member keeps its
/// own.
proof fn lemma_short_circuit_members_sound<A>(l: Seq<Tree<A>>, disj: bool, env: spec_fn(A) -> bool)
    ensures
        disj ==> eval_or(short_circuit_members(l, disj), env) == eval_or(l, env),
        !disj ==> eval_and(short_circuit_members(l, disj), env) == eval_and(l, env),
{
    broadcast use group_eval;

    let marker = !disj;
    let r = mark_repeats(Seq::empty(), l, marker);
    let m = short_circuit_members(l, disj);
    lemma_mark_repeats_facts(Seq::empty(), l, marker);
    if exists|k: int| 0 <= k < r.1.len() && env(#[trigger] r.1[k]) != marker {
        let k = choose|k: int| 0 <= k < r.1.len() && env(#[trigger] r.1[k]) != marker;
        let a = r.1[k];
        assert(r.1.contains(a));
        let i = choose|i: int| 0 <= i < l.len() && #[trigger] r.0[i] == Tree::Var(a);
        assert(m[i] == Tree::Var(a));
        assert(l[i] == Tree::Var(a));
        assert(eval(m[i], env) == !marker);
        assert(eval(l[i], env) == !marker);
    } else {
        assert forall|k: int| 0 <= k < r.1.len() implies env(#[trigger] r.1[k]) == marker by {}
        assert forall|i: int| 0 <= i < l.len() implies eval(#[trigger] m[i], env) == eval(l[i], env) by {
            if r.0[i] is Var {
            } else {
                lemma_replace_vars_sound(r.0[i], r.1, marker, env);
                if r.0[i] != l[i] {
                    let a = l[i]->Var_0;
                    let k = choose|k: int| 0 <= k < r.1.len() && r.1[k] == a;
                }
            }
        }
        crate::eval::lemma_eval_pointwise(m, l, env);
    }
}

/// Replacing atoms that an earlier member of the list already decides keeps the truth value
/// under every assignment.
pub proof fn lemma_short_circuit_sound<A>(t: Tree<A>, env: spec_fn(A) -> bool)
    ensures
        eval(short_circuit(t), env) == eval(t, env),
    decreases height(t),
{
    broadcast use group_eval;

    match t {
        Tree::Any(l) | Tree::All(l) => {
            let disj = t is Any;
            let r = short_circuit_members(l, disj);
            lemma_short_circuit_members_height(l, disj);
            lemma_short_circuit_list(l, disj);
            let s = members_of(short_circuit(t), disj)->0;
            assert forall|i: int| 0 <= i < r.len() implies eval(#[trigger] s[i], env) == eval(r[i], env) by {
                lemma_short_circuit_sound(r[i], env);
            }
            crate::eval::lemma_eval_pointwise(s, r, env);
            lemma_short_circuit_members_sound(l, disj, env);
        },
        Tree::Not(b) => {
            lemma_short_circuit_sound(*b, env);
        },
        _ => {},
    }
}

} // verus!

verus! {

/// The conjunction with the member at `k` replaced: the others, and the new member.
proof fn lemma_eval_and_update<A>(s: Seq<Tree<A>>, k: int, x: Tree<A>, env: spec_fn(A) -> bool)
    requires
        0 <= k < s.len(),
    ensures
        eval_and(s.update(k, x), env) == ((forall|j: int| 0 <= j < s.len() && j != k ==> eval(#[trigger] s[j], env))
            && eval(x, env)),
{
    broadcast use group_eval;

    let u = s.update(k, x);
    if eval_and(u, env) {
        assert(eval(u[k], env));
        assert forall|j: int| 0 <= j < s.len() && j != k implies eval(#[trigger] s[j], env) by {
            assert(eval(u[j], env));
        }
    }
    if (forall|j: int| 0 <= j < s.len() && j != k ==> eval(#[trigger] s[j], env)) && eval(x, env) {
        assert forall|j: int| 0 <= j < u.len() implies eval(#[trigger] u[j], env) by {
            if j != k {
                assert(u[j] == s[j]);
            }
        }
    }
}

/// A conjunction with one more member at the end.
proof fn lemma_eval_and_push<A>(s: Seq<Tree<A>>, x: Tree<A>, env: spec_fn(A) -> bool)
    ensures
        eval_and(s.push(x), env) == (eval_and(s, env) && eval(x, env)),
{
    assert(s.push(x).drop_last() =~= s);
}

/// `not(any(a + b))` is `not(any(a))` and `not(any(b))`.
proof fn lemma_eval_not_any_add<A>(a: Seq<Tree<A>>, b: Seq<Tree<A>>, env: spec_fn(A) -> bool)
    ensures
        eval(not_any_of(a + b), env) == (eval(not_any_of(a), env) && eval(not_any_of(b), env)),
{
    crate::eval::lemma_eval_add(a, b, env);
    lemma_eval_not_any(a + b, env);
    lemma_eval_not_any(a, env);
    lemma_eval_not_any(b, env);
}

proof fn lemma_eval_not_any<A>(a: Seq<Tree<A>>, env: spec_fn(A) -> bool)
    ensures
        eval(not_any_of(a), env) == !eval_or(a, env),
{
    let x = not_any_of(a);
    assert(eval(*x->Not_0, env) == eval_or(a, env));
}

proof fn lemma_first_not_any_exists<A>(l: Seq<Tree<A>>, i: int, j: int)
    requires
        0 <= i <= j < l.len(),
        is_not_any(l[j]),
    ensures
        first_not_any(l, i) < l.len(),
    decreases j - i,
{
    if i < j && !is_not_any(l[i]) {
        lemma_first_not_any_exists(l, i + 1, j);
    }
}

/// The second phase keeps every member that is not a negated atom.
proof fn lemma_absorb_keeps<A>(acc: Seq<Tree<A>>, vars: Seq<Tree<A>>, rest: Seq<Tree<A>>)
    ensures
        forall|x: Tree<A>| #[trigger] acc.contains(x) ==> absorb_not_var(acc, vars, rest).0.contains(x),
        forall|j: int|
            0 <= j < rest.len() && !is_not_var(#[trigger] rest[j]) ==> absorb_not_var(acc, vars, rest).0.contains(
                rest[j],
            ),
    decreases rest.len(),
{
    if rest.len() > 0 {
        let x = rest[0];
        let tail = rest.drop_first();
        if is_not_var(x) {
            lemma_absorb_keeps(acc, vars.push(*x->Not_0), tail);
            assert forall|j: int| 0 <= j < rest.len() && !is_not_var(#[trigger] rest[j]) implies absorb_not_var(
                acc,
                vars,
                rest,
            ).0.contains(rest[j]) by {
                assert(tail[j - 1] == rest[j]);
            }
        } else {
            let a2 = acc.push(x);
            lemma_absorb_keeps(a2, vars, tail);
            assert forall|y: Tree<A>| #[trigger] acc.contains(y) implies a2.contains(y) by {
                if acc.contains(y) {
                    let k = choose|k: int| 0 <= k < acc.len() && acc[k] == y;
                    assert(a2[k] == y);
                }
            }
            assert(a2.contains(x)) by {
                assert(a2[acc.len() as int] == x);
            }
            assert forall|j: int| 0 <= j < rest.len() && !is_not_var(#[trigger] rest[j]) implies absorb_not_var(
                acc,
                vars,
                rest,
            ).0.contains(rest[j]) by {
                if j > 0 {
                    assert(tail[j - 1] == rest[j]);
                }
            }
        }
    }
}

/// The value of the first phase's state: `acc` with the collected negation in its place.
pub open spec fn gathered<A>(acc: Seq<Tree<A>>, slot: int, merged: Seq<Tree<A>>) -> Seq<Tree<A>> {
    if slot < 0 {
        acc
    } else {
        acc.update(slot, not_any_of(merged))
    }
}

proof fn lemma_gather_sound<A>(acc: Seq<Tree<A>>, slot: int, merged: Seq<Tree<A>>, rest: Seq<Tree<A>>, env: spec_fn(A) -> bool)
    requires
        slot < acc.len(),
    ensures
        eval_and(gather_not_any(acc, slot, merged, rest), env) == (eval_and(gathered(acc, slot, merged), env)
            && eval_and(rest, env)),
    decreases rest.len(),
{
    broadcast use group_eval;

    if rest.len() == 0 {
        if slot >= 0 && merged.len() == 0 {
            let g = acc.update(slot, not_any_of(merged));
            assert(eval(not_any_of(merged), env)) by {
                lemma_eval_not_any(merged, env);
                assert(!eval_or(merged, env));
            }
            let r = acc.remove(slot);
            lemma_eval_and_update(acc, slot, not_any_of(merged), env);
            if eval_and(r, env) {
                assert forall|j: int| 0 <= j < acc.len() && j != slot implies eval(#[trigger] acc[j], env) by {
                    if j < slot {
                        assert(r[j] == acc[j]);
                    } else {
                        assert(r[j - 1] == acc[j]);
                    }
                }
            }
            if eval_and(g, env) {
                assert forall|j: int| 0 <= j < r.len() implies eval(#[trigger] r[j], env) by {
                    if j < slot {
                        assert(r[j] == acc[j]);
                    } else {
                        assert(r[j] == acc[j + 1]);
                    }
                }
            }
        }
    } else {
        let x = rest[0];
        let tail = rest.drop_first();
        assert(rest =~= seq![x] + tail);
        crate::eval::lemma_eval_add(seq![x], tail, env);
        crate::eval::lemma_eval_single(x, env);
        if is_not_any(x) {
            assert(x == not_any_of(not_any_members(x)));
            if slot < 0 {
                let a2 = acc.push(Tree::Const(false));
                lemma_gather_sound(a2, acc.len() as int, not_any_members(x), tail, env);
                assert(a2.update(acc.len() as int, not_any_of(not_any_members(x))) =~= acc.push(x));
                lemma_eval_and_push(acc, x, env);
            } else {
                let m2 = merged + not_any_members(x);
                lemma_gather_sound(acc, slot, m2, tail, env);
                lemma_eval_not_any_add(merged, not_any_members(x), env);
                lemma_eval_and_update(acc, slot, not_any_of(m2), env);
                lemma_eval_and_update(acc, slot, not_any_of(merged), env);
            }
        } else {
            let a2 = acc.push(x);
            lemma_gather_sound(a2, slot, merged, tail, env);
            lemma_eval_and_push(gathered(acc, slot, merged), x, env);
            assert(gathered(a2, slot, merged) =~= gathered(acc, slot, merged).push(x));
        }
    }
}

/// The second phase: the negated atoms leave, and their atoms are all false exactly when
/// those members all held.
proof fn lemma_absorb_sound<A>(acc: Seq<Tree<A>>, vars: Seq<Tree<A>>, rest: Seq<Tree<A>>, env: spec_fn(A) -> bool)
    ensures
        ({
            let r = absorb_not_var(acc, vars, rest);
            &&& eval_and(r.0, env) && !eval_or(r.1, env) <==> eval_and(acc, env) && !eval_or(vars, env)
                && eval_and(rest, env)
            &&& count_not_any(r.0) >= count_not_any(acc)
        }),
    decreases rest.len(),
{
    broadcast use group_eval;

    if rest.len() > 0 {
        let x = rest[0];
        let tail = rest.drop_first();
        assert(rest =~= seq![x] + tail);
        crate::eval::lemma_eval_add(seq![x], tail, env);
        crate::eval::lemma_eval_single(x, env);
        if is_not_var(x) {
            let v = *x->Not_0;
            lemma_absorb_sound(acc, vars.push(v), tail, env);
            crate::eval::lemma_eval_add(vars, seq![v], env);
            assert(vars + seq![v] =~= vars.push(v));
        } else {
            lemma_absorb_sound(acc.push(x), vars, tail, env);
            lemma_eval_and_push(acc, x, env);
            assert(acc.push(x).drop_last() =~= acc);
        }
    }
}

/// Merging the negated disjunctions and atoms of a conjunction keeps its truth value under
/// every assignment.
pub proof fn lemma_merge_not_any_sound<A>(l: Seq<Tree<A>>, env: spec_fn(A) -> bool)
    ensures
        eval_and(merge_not_any(l), env) == eval_and(l, env),
{
    broadcast use group_eval;

    if count_not_any(l) > 0 {
        let l1 = if count_not_any(l) >= 2 {
            gather_not_any(Seq::empty(), -1, Seq::empty(), l)
        } else {
            l
        };
        if count_not_any(l) >= 2 {
            lemma_gather_sound(Seq::empty(), -1, Seq::empty(), l, env);
        }
        assert(eval_and(l1, env) == eval_and(l, env));
        let f1 = first_not_any(l1, 0);
        if f1 < l1.len() {
            let r = absorb_not_var(Seq::empty(), Seq::empty(), l1);
            let l2 = r.0;
            let vars = r.1;
            lemma_absorb_sound(Seq::empty(), Seq::empty(), l1, env);
            lemma_first_not_any(l1, 0);
            lemma_absorb_keeps(Seq::empty(), Seq::empty(), l1);
            assert(l2.contains(l1[f1]));
            let w = choose|w: int| 0 <= w < l2.len() && l2[w] == l1[f1];
            lemma_first_not_any_exists(l2, 0, w);
            let f = first_not_any(l2, 0);
            lemma_first_not_any(l2, 0);
            let x = l2[f];
            assert(x == not_any_of(not_any_members(x)));
            lemma_eval_not_any_add(not_any_members(x), vars, env);
            lemma_eval_not_any(vars, env);
            lemma_eval_and_update(l2, f, not_any_of(not_any_members(x) + vars), env);
            lemma_eval_and_update(l2, f, x, env);
            assert(l2.update(f, x) =~= l2);
            assert(merge_not_any(l) == l2.update(f, not_any_of(not_any_members(x) + vars)));
        }
    }
}

/// Merging negated disjunctions keeps the truth value under every assignment.
pub proof fn lemma_merge_all_of_not_any_sound<A>(t: Tree<A>, env: spec_fn(A) -> bool)
    ensures
        eval(merge_all_of_not_any(t), env) == eval(t, env),
    decreases t,
{
    match t {
        Tree::Any(l) => {
            let m = merge_all_of_not_any_list(l);
            lemma_merge_all_of_not_any_list(l);
            assert forall|i: int| 0 <= i < l.len() implies eval(#[trigger] m[i], env) == eval(l[i], env) by {
                lemma_merge_all_of_not_any_sound(l[i], env);
            }
            crate::eval::lemma_eval_pointwise(m, l, env);
        },
        Tree::All(l) => {
            lemma_merge_not_any_sound(l, env);
        },
        Tree::Not(b) => {
            lemma_merge_all_of_not_any_sound(*b, env);
        },
        _ => {},
    }
}

} // verus!

verus! {

/// Removing a member that another member of the current list decides keeps the truth value
/// of the list, all through the scan.
proof fn lemma_cross_scan_sound<A>(kept: Seq<Tree<A>>, rest: Seq<Tree<A>>, disj: bool, env: spec_fn(A) -> bool)
    ensures
        disj ==> eval_or(cross_scan(kept, rest, disj), env) == eval_or(kept + rest, env),
        !disj ==> eval_and(cross_scan(kept, rest, disj), env) == eval_and(kept + rest, env),
    decreases rest.len(),
{
    broadcast use group_eval, group_model;

    if rest.len() == 0 {
        assert(kept + rest =~= kept);
    } else {
        let x = rest[0];
        let tail = rest.drop_first();
        let cur = kept + rest;
        if is_cross_redundant(x, cur, disj) {
            lemma_cross_scan_sound(kept, tail, disj, env);
            let inner = members_of(x, !disj)->0;
            let q = choose|q: int| 0 <= q < inner.len() && cur.contains(#[trigger] inner[q]);
            let y = inner[q];
            assert(height(y) <= max_height(inner));
            assert(height(y) < height(x));
            let p = choose|p: int| 0 <= p < cur.len() && cur[p] == y;
            assert(p != kept.len());
            let rest_list = kept + tail;
            assert(cur =~= kept.push(x) + tail);
            crate::eval::lemma_eval_add(kept, seq![x], env);
            crate::eval::lemma_eval_add(kept + seq![x], tail, env);
            crate::eval::lemma_eval_add(kept, tail, env);
            crate::eval::lemma_eval_single(x, env);
            assert(kept + seq![x] + tail =~= cur);
            let p2 = if p < kept.len() { p } else { p - 1 };
            assert(rest_list[p2] == y);
            if disj {
                if eval(x, env) {
                    assert(eval(x, env) == eval_and(inner, env));
                    assert(eval(y, env));
                }
            } else {
                if eval_and(rest_list, env) {
                    assert(eval(y, env));
                    assert(eval(x, env) == eval_or(inner, env));
                }
            }
        } else {
            lemma_cross_scan_sound(kept.push(x), tail, disj, env);
            assert(kept.push(x) + tail =~= kept + rest);
        }
    }
}

/// Cross-elimination keeps the truth value under every assignment.
pub proof fn lemma_simplify_nested_sound<A>(t: Tree<A>, env: spec_fn(A) -> bool)
    ensures
        eval(simplify_nested(t), env) == eval(t, env),
    decreases height(t),
{
    broadcast use group_eval, group_model;

    match t {
        Tree::Any(l) | Tree::All(l) => {
            let disj = t is Any;
            let e = Seq::<Tree<A>>::empty();
            let c = cross_scan(e, l, disj);
            lemma_cross_walk(e, l, disj);
            assert(e + l =~= l);
            assert(simplify_nested_list(e) + cross_walk(e, l, disj) =~= cross_walk(e, l, disj));
            lemma_simplify_nested_list(c);
            assert forall|i: int| 0 <= i < c.len() implies eval(#[trigger] simplify_nested_list(c)[i], env)
                == eval(c[i], env) by {
                assert(l.contains(c[i]));
                let k = choose|k: int| 0 <= k < l.len() && l[k] == c[i];
                assert(height(c[i]) <= max_height(l));
                lemma_simplify_nested_sound(c[i], env);
            }
            crate::eval::lemma_eval_pointwise(simplify_nested_list(c), c, env);
            lemma_cross_scan_sound(e, l, disj, env);
        },
        Tree::Not(b) => {
            lemma_simplify_nested_sound(*b, env);
        },
        _ => {},
    }
}

} // verus!

verus! {

/// The generic passes of one round of the pipeline, in the order it runs them: the round
/// without its platform passes (`ImplyByKey`, `SuppressTargetFamily`, `MergePattern`).
pub open spec fn generic_round<A>(t: Tree<A>) -> Tree<A> {
    let t = flatten_single(t);
    let t = flatten_nested(t);
    let t = dedup_tree(t);
    let t = eval_const(t);
    let t = simplify_nested(t);
    let t = merge_all_of_not_any(t);
    let t = simplify_all_not_any(t);
    let t = merge_all_of_any(t);
    let t = eval_const(t);
    let t = eval_const(t);
    let t = short_circuit(t);
    eval_const(t)
}

/// The generic rewrites preserve meaning: under every assignment of the atoms, any number
/// of rounds of the generic passes evaluate as the input expression does.
pub proof fn lemma_generic_rounds_sound<A>(t: Tree<A>, n: nat, env: spec_fn(A) -> bool)
    ensures
        eval(generic_rounds(t, n), env) == eval(t, env),
    decreases n,
{
    if n > 0 {
        lemma_generic_rounds_sound(t, (n - 1) as nat, env);
        let s = generic_rounds(t, (n - 1) as nat);
        let t1 = flatten_single(s);
        let t2 = flatten_nested(t1);
        let t3 = dedup_tree(t2);
        let t4 = eval_const(t3);
        let t5 = simplify_nested(t4);
        let t6 = merge_all_of_not_any(t5);
        let t7 = simplify_all_not_any(t6);
        let t8 = merge_all_of_any(t7);
        let t9 = eval_const(t8);
        let t10 = eval_const(t9);
        let t11 = short_circuit(t10);
        lemma_flatten_single_sound(s, env);
        lemma_flatten_nested_sound(t1, env);
        lemma_dedup_tree_sound(t2, env);
        lemma_eval_const_sound(t3, env);
        lemma_simplify_nested_sound(t4, env);
        lemma_merge_all_of_not_any_sound(t5, env);
        lemma_simplify_all_not_any_sound(t6, env);
        lemma_merge_all_of_any_sound(t7, env);
        lemma_eval_const_sound(t8, env);
        lemma_eval_const_sound(t9, env);
        lemma_short_circuit_sound(t10, env);
        lemma_eval_const_sound(t11, env);
    }
}

/// `n` rounds of the generic rule set.
pub open spec fn generic_rounds<A>(t: Tree<A>, n: nat) -> Tree<A>
    decreases n,
{
    if n == 0 {
        t
    } else {
        generic_round(generic_rounds(t, (n - 1) as nat))
    }
}

} // verus!
