//! The visitor interface that every pass offers, and the walks that visit the children of
//! a node.
use vstd::prelude::*;

use crate::ast::{group_model, model_list, All, Any, Atom, Expr, Not, Tree};
use crate::cfg::Pred;
use crate::domain::{
    imply_by_key, merge_pattern, simplify_target_family, sort_by_priority, sort_by_value,
    suppress_family, unify_target_family, ImplyByKey, MergePattern, PredView, SimplifyTargetFamily,
    SortByPriority, SortByValue, SuppressTargetFamily, UnifyTargetFamily,
};
use crate::transform::{
    de_morgan, dedup_tree, eval_const, flatten_nested, flatten_single, merge_all_of_any,
    merge_all_of_not_any, short_circuit, simplify_all_not_any, simplify_nested, DedupList,
    EvalConst, FlattenByDeMorgan, FlattenNestedList, FlattenSingle, MergeAllOfAny,
    MergeAllOfNotAny, SimplifyAllNotAny, SimplifyByShortCircuit, SimplifyNestedList,
};

verus! {

broadcast use {vstd::seq::group_seq_axioms, vstd::std_specs::vec::group_vec_axioms, group_model};

/// A pass over expressions, stated as a function on the model.
pub trait VisitMut<T: View> {
    spec fn rewrite(t: Tree<T::V>) -> Tree<T::V>;

    fn visit_mut_expr(&mut self, expr: &mut Expr<T>)
        ensures
            final(expr)@ == Self::rewrite(old(expr)@),
    ;
}

/// `V`'s rewrite applied to each child of `t`.
pub open spec fn walk<V: VisitMut<T>, T: View>(t: Tree<T::V>) -> Tree<T::V> {
    match t {
        Tree::Any(l) => Tree::Any(Seq::new(l.len(), |i: int| V::rewrite(l[i]))),
        Tree::All(l) => Tree::All(Seq::new(l.len(), |i: int| V::rewrite(l[i]))),
        Tree::Not(b) => Tree::Not(Box::new(V::rewrite(*b))),
        _ => t,
    }
}

/// Visits each child of `expr`.
pub fn walk_mut_expr<V: VisitMut<T>, T: View>(v: &mut V, expr: &mut Expr<T>)
    ensures
        final(expr)@ == walk::<V, T>(old(expr)@),
{
    match expr {
        Expr::Any(Any(list)) => {
            let ghost l = model_list(list@);
            walk_mut_expr_list(v, list);
            assert(model_list(list@) =~= Seq::new(l.len(), |i: int| V::rewrite(l[i])));
        },
        Expr::All(All(list)) => {
            let ghost l = model_list(list@);
            walk_mut_expr_list(v, list);
            assert(model_list(list@) =~= Seq::new(l.len(), |i: int| V::rewrite(l[i])));
        },
        Expr::Not(Not(not)) => walk_mut_not(v, not),
        _ => {},
    }
}

/// Visits each member of `list`.
#[verifier::loop_isolation(false)]
pub fn walk_mut_expr_list<V: VisitMut<T>, T: View>(v: &mut V, list: &mut Vec<Expr<T>>)
    ensures
        model_list(final(list)@).len() == model_list(old(list)@).len(),
        forall|i: int|
            0 <= i < model_list(old(list)@).len() ==> #[trigger] model_list(final(list)@)[i] == V::rewrite(
                model_list(old(list)@)[i],
            ),
{
    let ghost l = model_list(list@);
    let mut i: usize = 0;
    while i < list.len()
        invariant
            i <= list.len(),
            model_list(list@).len() == l.len(),
            forall|j: int| 0 <= j < i ==> #[trigger] model_list(list@)[j] == V::rewrite(l[j]),
            forall|j: int| i <= j < l.len() ==> #[trigger] model_list(list@)[j] == l[j],
        decreases list.len() - i,
    {
        let ghost before = list@;
        assert(model_list(before)[i as int] == l[i as int]);
        v.visit_mut_expr(&mut list[i]);
        proof {
            crate::ast::lemma_model_update(before, i as int, list@[i as int]);
        }
        i += 1;
    }
}

/// Visits the child of a negation.
pub fn walk_mut_not<V: VisitMut<T>, T: View>(v: &mut V, not: &mut Expr<T>)
    ensures
        final(not)@ == V::rewrite(old(not)@),
{
    v.visit_mut_expr(not)
}

impl<T: View> VisitMut<T> for FlattenSingle {
    open spec fn rewrite(t: Tree<T::V>) -> Tree<T::V> {
        flatten_single(t)
    }

    fn visit_mut_expr(&mut self, expr: &mut Expr<T>) {
        FlattenSingle::visit_mut_expr(self, expr)
    }
}

impl<T: View> VisitMut<T> for FlattenNestedList {
    open spec fn rewrite(t: Tree<T::V>) -> Tree<T::V> {
        flatten_nested(t)
    }

    fn visit_mut_expr(&mut self, expr: &mut Expr<T>) {
        FlattenNestedList::visit_mut_expr(self, expr)
    }
}

impl<T: Atom> VisitMut<T> for DedupList {
    open spec fn rewrite(t: Tree<T::V>) -> Tree<T::V> {
        dedup_tree(t)
    }

    fn visit_mut_expr(&mut self, expr: &mut Expr<T>) {
        DedupList::visit_mut_expr(self, expr)
    }
}

impl<T: View> VisitMut<T> for EvalConst {
    open spec fn rewrite(t: Tree<T::V>) -> Tree<T::V> {
        eval_const(t)
    }

    fn visit_mut_expr(&mut self, expr: &mut Expr<T>) {
        EvalConst::visit_mut_expr(self, expr)
    }
}

impl<T: Atom> VisitMut<T> for SimplifyNestedList {
    open spec fn rewrite(t: Tree<T::V>) -> Tree<T::V> {
        simplify_nested(t)
    }

    fn visit_mut_expr(&mut self, expr: &mut Expr<T>) {
        SimplifyNestedList::visit_mut_expr(self, expr)
    }
}

impl<T: Atom> VisitMut<T> for SimplifyAllNotAny {
    open spec fn rewrite(t: Tree<T::V>) -> Tree<T::V> {
        simplify_all_not_any(t)
    }

    fn visit_mut_expr(&mut self, expr: &mut Expr<T>) {
        SimplifyAllNotAny::visit_mut_expr(self, expr)
    }
}

impl<T: View> VisitMut<T> for FlattenByDeMorgan {
    open spec fn rewrite(t: Tree<T::V>) -> Tree<T::V> {
        de_morgan(t)
    }

    fn visit_mut_expr(&mut self, expr: &mut Expr<T>) {
        FlattenByDeMorgan::visit_mut_expr(self, expr)
    }
}

impl<T: View> VisitMut<T> for MergeAllOfNotAny {
    open spec fn rewrite(t: Tree<T::V>) -> Tree<T::V> {
        merge_all_of_not_any(t)
    }

    fn visit_mut_expr(&mut self, expr: &mut Expr<T>) {
        MergeAllOfNotAny::visit_mut_expr(self, expr)
    }
}

impl<T: Atom> VisitMut<T> for MergeAllOfAny {
    open spec fn rewrite(t: Tree<T::V>) -> Tree<T::V> {
        merge_all_of_any(t)
    }

    fn visit_mut_expr(&mut self, expr: &mut Expr<T>) {
        MergeAllOfAny::visit_mut_expr(self, expr)
    }
}

impl<T: Atom> VisitMut<T> for SimplifyByShortCircuit {
    open spec fn rewrite(t: Tree<T::V>) -> Tree<T::V> {
        short_circuit(t)
    }

    fn visit_mut_expr(&mut self, expr: &mut Expr<T>) {
        SimplifyByShortCircuit::visit_mut_expr(self, expr)
    }
}

impl VisitMut<Pred> for UnifyTargetFamily {
    open spec fn rewrite(t: Tree<PredView>) -> Tree<PredView> {
        unify_target_family(t)
    }

    fn visit_mut_expr(&mut self, expr: &mut Expr<Pred>) {
        UnifyTargetFamily::visit_mut_expr(self, expr)
    }
}

impl VisitMut<Pred> for SimplifyTargetFamily {
    open spec fn rewrite(t: Tree<PredView>) -> Tree<PredView> {
        simplify_target_family(t)
    }

    fn visit_mut_expr(&mut self, expr: &mut Expr<Pred>) {
        SimplifyTargetFamily::visit_mut_expr(self, expr)
    }
}

impl VisitMut<Pred> for SortByPriority {
    open spec fn rewrite(t: Tree<PredView>) -> Tree<PredView> {
        sort_by_priority(t)
    }

    fn visit_mut_expr(&mut self, expr: &mut Expr<Pred>) {
        SortByPriority::visit_mut_expr(self, expr)
    }
}

impl VisitMut<Pred> for SortByValue {
    open spec fn rewrite(t: Tree<PredView>) -> Tree<PredView> {
        sort_by_value(t)
    }

    fn visit_mut_expr(&mut self, expr: &mut Expr<Pred>) {
        SortByValue::visit_mut_expr(self, expr)
    }
}

impl VisitMut<Pred> for ImplyByKey {
    open spec fn rewrite(t: Tree<PredView>) -> Tree<PredView> {
        imply_by_key(t)
    }

    fn visit_mut_expr(&mut self, expr: &mut Expr<Pred>) {
        ImplyByKey::visit_mut_expr(self, expr)
    }
}

impl VisitMut<Pred> for SuppressTargetFamily {
    open spec fn rewrite(t: Tree<PredView>) -> Tree<PredView> {
        suppress_family(t)
    }

    fn visit_mut_expr(&mut self, expr: &mut Expr<Pred>) {
        SuppressTargetFamily::visit_mut_expr(self, expr)
    }
}

impl VisitMut<Pred> for MergePattern {
    open spec fn rewrite(t: Tree<PredView>) -> Tree<PredView> {
        merge_pattern(t)
    }

    fn visit_mut_expr(&mut self, expr: &mut Expr<Pred>) {
        MergePattern::visit_mut_expr(self, expr)
    }
}

} // verus!
