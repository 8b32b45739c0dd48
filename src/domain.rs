//! Passes that know about platform predicates, and the simplification pipeline.
use vstd::prelude::*;
use vstd::string::StringExecFns;

use crate::ast::{
    group_model, height, lemma_model_update, max_height, model, model_list, All, Any, Expr, IntoExpr,
    Not, Tree, Var,
};
use crate::cfg::{flag, key_value, Pred};
use crate::transform::{
    dedup_tree, eval_const, flatten_nested, flatten_single, merge_all_of_any, merge_all_of_not_any,
    short_circuit, simplify_all_not_any, simplify_nested, take, DedupList, EvalConst,
    FlattenNestedList, FlattenSingle, MergeAllOfAny, MergeAllOfNotAny, SimplifyAllNotAny,
    SimplifyByShortCircuit, SimplifyNestedList,
};

verus! {

broadcast use {vstd::seq::group_seq_axioms, vstd::std_specs::vec::group_vec_axioms, group_model};

/// The model of a predicate: its key and its optional value.
pub type PredView = (Seq<char>, Option<Seq<char>>);

/// Whether the key of `p` is `k`.
fn key_is(p: &Pred, k: &str) -> (r: bool)
    ensures
        r == (p.key@ == k@),
{
    p.key == String::from_str(k)
}

/// Whether the value of `p` is present and equal to `v`.
fn value_is(p: &Pred, v: &str) -> (r: bool)
    ensures
        r == (p@.1 == Some(v@)),
{
    match &p.value {
        Some(value) => *value == String::from_str(v),
        None => false,
    }
}

/// `f` applied to every atom of `t`.
pub open spec fn map_atoms<A>(t: Tree<A>, f: spec_fn(A) -> A) -> Tree<A>
    decreases t,
{
    match t {
        Tree::Any(l) => Tree::Any(map_atoms_list(l, f)),
        Tree::All(l) => Tree::All(map_atoms_list(l, f)),
        Tree::Not(b) => Tree::Not(Box::new(map_atoms(*b, f))),
        Tree::Var(a) => Tree::Var(f(a)),
        Tree::Const(_) => t,
    }
}

pub open spec fn map_atoms_list<A>(s: Seq<Tree<A>>, f: spec_fn(A) -> A) -> Seq<Tree<A>>
    decreases s,
{
    if s.len() == 0 {
        s
    } else {
        map_atoms_list(s.drop_last(), f).push(map_atoms(s.last(), f))
    }
}

pub proof fn lemma_map_atoms_list<A>(s: Seq<Tree<A>>, f: spec_fn(A) -> A)
    ensures
        map_atoms_list(s, f).len() == s.len(),
        forall|i: int| 0 <= i < s.len() ==> #[trigger] map_atoms_list(s, f)[i] == map_atoms(s[i], f),
    decreases s.len(),
{
    if s.len() > 0 {
        lemma_map_atoms_list(s.drop_last(), f);
    }
}

/// The three families that also exist as flags.
pub open spec fn is_family_name(s: Seq<char>) -> bool {
    s == "unix"@ || s == "windows"@ || s == "wasm"@
}

/// A family flag in keyed form: `unix` becomes `target_family = "unix"`.
pub open spec fn unify_family(p: PredView) -> PredView {
    if p.1 is None && is_family_name(p.0) {
        ("target_family"@, Some(p.0))
    } else {
        p
    }
}

/// A keyed family in flag form: `target_family = "unix"` becomes `unix`.
pub open spec fn simplify_family(p: PredView) -> PredView {
    if p.0 == "target_family"@ && p.1 is Some && is_family_name(p.1->0) {
        (p.1->0, None)
    } else {
        p
    }
}

fn is_family_name_exec(s: &str) -> (r: bool)
    ensures
        r == is_family_name(s@),
{
    let k = String::from_str(s);
    k == String::from_str("unix") || k == String::from_str("windows") || k == String::from_str("wasm")
}

/// Rewrites each atom of an expression with one function of predicates.
pub trait AtomPass {
    spec fn spec_rewrite(p: PredView) -> PredView;

    fn rewrite(p: &mut Pred)
        ensures
            final(p)@ == Self::spec_rewrite(old(p)@),
    ;
}

/// Writes the family flags `unix`, `windows` and `wasm` as keyed predicates.
pub struct UnifyTargetFamily;

impl AtomPass for UnifyTargetFamily {
    open spec fn spec_rewrite(p: PredView) -> PredView {
        unify_family(p)
    }

    fn rewrite(p: &mut Pred) {
        if p.value.is_none() && is_family_name_exec(p.key.as_str()) {
            *p = key_value("target_family", p.key.as_str());
        }
    }
}

/// Writes the keyed families `unix`, `windows` and `wasm` back as flags.
pub struct SimplifyTargetFamily;

impl AtomPass for SimplifyTargetFamily {
    open spec fn spec_rewrite(p: PredView) -> PredView {
        simplify_family(p)
    }

    fn rewrite(p: &mut Pred) {
        if key_is(p, "target_family") {
            let mut replace: Option<Pred> = None;
            if let Some(value) = &p.value {
                if is_family_name_exec(value.as_str()) {
                    replace = Some(flag(value.as_str()));
                }
            }
            if let Some(q) = replace {
                *p = q;
            }
        }
    }
}

/// Applies `P::rewrite` to every atom of `list`.
#[verifier::loop_isolation(false)]
fn map_atoms_in_list<P: AtomPass>(list: &mut Vec<Expr<Pred>>)
    ensures
        model_list(final(list)@) == map_atoms_list(model_list(old(list)@), |p: PredView| P::spec_rewrite(p)),
    decreases 1 + max_height(model_list(old(list)@)), 0nat,
{
    let ghost f = |p: PredView| P::spec_rewrite(p);
    let ghost l = model_list(list@);
    let mut i: usize = 0;
    while i < list.len()
        invariant
            i <= list.len(),
            model_list(list@).len() == l.len(),
            forall|j: int| 0 <= j < i ==> #[trigger] model_list(list@)[j] == map_atoms(l[j], f),
            forall|j: int| i <= j < l.len() ==> #[trigger] model_list(list@)[j] == l[j],
        decreases list.len() - i,
    {
        let ghost before = list@;
        assert(model_list(before)[i as int] == l[i as int]);
        map_atoms_in::<P>(&mut list[i]);
        proof {
            lemma_model_update(before, i as int, list@[i as int]);
        }
        i += 1;
    }
    proof {
        lemma_map_atoms_list(l, f);
        assert(model_list(list@) =~= map_atoms_list(l, f));
    }
}

/// Applies `P::rewrite` to every atom of `expr`.
fn map_atoms_in<P: AtomPass>(expr: &mut Expr<Pred>)
    ensures
        final(expr)@ == map_atoms(old(expr)@, |p: PredView| P::spec_rewrite(p)),
    decreases height(old(expr)@), 1nat,
{
    match expr {
        Expr::Any(Any(list)) => map_atoms_in_list::<P>(list),
        Expr::All(All(list)) => map_atoms_in_list::<P>(list),
        Expr::Not(Not(not)) => map_atoms_in::<P>(not),
        Expr::Var(Var(p)) => P::rewrite(p),
        Expr::Const(_) => {},
    }
}

/// Every family flag in keyed form.
pub open spec fn unify_target_family(t: Tree<PredView>) -> Tree<PredView> {
    map_atoms(t, |p: PredView| unify_family(p))
}

/// Every keyed family in flag form.
pub open spec fn simplify_target_family(t: Tree<PredView>) -> Tree<PredView> {
    map_atoms(t, |p: PredView| simplify_family(p))
}

impl UnifyTargetFamily {
    pub fn visit_mut_expr(&mut self, expr: &mut Expr<Pred>)
        ensures
            final(expr)@ == unify_target_family(old(expr)@),
    {
        map_atoms_in::<UnifyTargetFamily>(expr);
        assert((|p: PredView| UnifyTargetFamily::spec_rewrite(p)) =~= (|p: PredView| unify_family(p)));
    }
}

impl SimplifyTargetFamily {
    pub fn visit_mut_expr(&mut self, expr: &mut Expr<Pred>)
        ensures
            final(expr)@ == simplify_target_family(old(expr)@),
    {
        map_atoms_in::<SimplifyTargetFamily>(expr);
        assert((|p: PredView| SimplifyTargetFamily::spec_rewrite(p)) =~= (|p: PredView| simplify_family(p)));
    }
}

} // verus!

verus! {

/// `x` inserted into `s` just before the run of members at the end of `s` that are greater
/// than `x`.
pub open spec fn insert_sorted<A>(s: Seq<A>, x: A, gt: spec_fn(A, A) -> bool) -> Seq<A>
    decreases s.len(),
{
    if s.len() == 0 || !gt(s.last(), x) {
        s.push(x)
    } else {
        insert_sorted(s.drop_last(), x, gt).push(s.last())
    }
}

/// Insertion sort by `gt`: stable, and for a total preorder the one stable sorted order.
pub open spec fn insertion_sort<A>(s: Seq<A>, gt: spec_fn(A, A) -> bool) -> Seq<A>
    decreases s.len(),
{
    if s.len() == 0 {
        s
    } else {
        insert_sorted(insertion_sort(s.drop_last(), gt), s.last(), gt)
    }
}

/// Where `insert_sorted` puts `x`.
pub open spec fn insert_pos<A>(s: Seq<A>, x: A, gt: spec_fn(A, A) -> bool) -> int
    decreases s.len(),
{
    if s.len() == 0 || !gt(s.last(), x) {
        s.len() as int
    } else {
        insert_pos(s.drop_last(), x, gt)
    }
}

proof fn lemma_insert_sorted<A>(s: Seq<A>, x: A, gt: spec_fn(A, A) -> bool)
    ensures
        0 <= insert_pos(s, x, gt) <= s.len(),
        insert_sorted(s, x, gt) == s.insert(insert_pos(s, x, gt), x),
    decreases s.len(),
{
    if s.len() > 0 && gt(s.last(), x) {
        lemma_insert_sorted(s.drop_last(), x, gt);
        assert(s.drop_last().insert(insert_pos(s, x, gt), x).push(s.last()) =~= s.insert(
            insert_pos(s, x, gt),
            x,
        ));
    }
}

/// Sorting only moves members.
pub proof fn lemma_insertion_sort_members<A>(s: Seq<A>, gt: spec_fn(A, A) -> bool)
    ensures
        insertion_sort(s, gt).len() == s.len(),
        forall|i: int| 0 <= i < s.len() ==> s.contains(#[trigger] insertion_sort(s, gt)[i]),
    decreases s.len(),
{
    if s.len() > 0 {
        let p = s.drop_last();
        lemma_insertion_sort_members(p, gt);
        let q = insertion_sort(p, gt);
        lemma_insert_sorted(q, s.last(), gt);
        let k = insert_pos(q, s.last(), gt);
        assert forall|i: int| 0 <= i < s.len() implies s.contains(#[trigger] insertion_sort(s, gt)[i]) by {
            let r = insertion_sort(s, gt);
            if i < k {
                assert(r[i] == q[i]);
                assert(p.contains(q[i]));
                let j = choose|j: int| 0 <= j < p.len() && p[j] == q[i];
                assert(s[j] == q[i]);
            } else if i == k {
                assert(s[s.len() - 1] == r[i]);
            } else {
                assert(r[i] == q[i - 1]);
                assert(p.contains(q[i - 1]));
                let j = choose|j: int| 0 <= j < p.len() && p[j] == q[i - 1];
                assert(s[j] == q[i - 1]);
            }
        }
    }
}

/// An order on list members, stated over the models.
pub trait ListOrder {
    spec fn spec_gt(a: Tree<PredView>, b: Tree<PredView>) -> bool;

    fn gt(a: &Expr<Pred>, b: &Expr<Pred>) -> (r: bool)
        ensures
            r == Self::spec_gt(a@, b@),
    ;
}

/// Sorts `list` by `O`, stably.
#[verifier::loop_isolation(false)]
fn sort_list<O: ListOrder>(list: &mut Vec<Expr<Pred>>)
    ensures
        model_list(final(list)@) == insertion_sort(model_list(old(list)@), |a: Tree<PredView>, b: Tree<PredView>| O::spec_gt(a, b)),
{
    let ghost gt = |a: Tree<PredView>, b: Tree<PredView>| O::spec_gt(a, b);
    let mut src: Vec<Expr<Pred>> = Vec::new();
    std::mem::swap(list, &mut src);
    let ghost orig = model_list(src@);
    let mut sorted: Vec<Expr<Pred>> = Vec::new();
    let ghost mut k: int = 0;
    proof {
        assert(orig.skip(0) =~= orig);
        assert(orig.take(0) =~= Seq::<Tree<PredView>>::empty());
        assert(model_list(sorted@) =~= Seq::<Tree<PredView>>::empty());
    }
    while src.len() > 0
        invariant
            0 <= k <= orig.len(),
            model_list(src@) == orig.skip(k),
            model_list(sorted@) == insertion_sort(orig.take(k), gt),
        decreases src.len(),
    {
        let ghost before = src@;
        let x = src.remove(0);
        proof {
            crate::ast::lemma_model_remove(before, 0);
            assert(orig.skip(k).remove(0) =~= orig.skip(k + 1));
            assert(orig.take(k + 1).drop_last() =~= orig.take(k));
            assert(model_list(before)[0] == model(before[0]));
            assert(orig.skip(k)[0] == orig[k]);
        }
        let ghost s = model_list(sorted@);
        let mut j: usize = sorted.len();
        assert(s.take(j as int) =~= s);
        while j > 0 && O::gt(&sorted[j - 1], &x)
            invariant
                j <= sorted.len(),
                s == model_list(sorted@),
                insert_pos(s, x@, gt) == insert_pos(s.take(j as int), x@, gt),
            decreases j,
        {
            proof {
                assert(s.take(j as int).last() == s[j - 1]);
                assert(s.take(j as int).drop_last() =~= s.take(j - 1));
            }
            j -= 1;
        }
        proof {
            if j > 0 {
                assert(s.take(j as int).last() == s[j - 1]);
            }
            lemma_insert_sorted(s, x@, gt);
        }
        let ghost pre = sorted@;
        sorted.insert(j, x);
        proof {
            crate::ast::lemma_model_list(pre);
            crate::ast::lemma_model_list(sorted@);
            assert(model_list(sorted@) =~= s.insert(j as int, x@));
            k = k + 1;
        }
    }
    proof {
        assert(orig.take(k) =~= orig);
    }
    *list = sorted;
}

} // verus!

verus! {

/// The rank of a key in the grouping order; other keys rank first.
pub open spec fn key_rank(k: Seq<char>) -> nat {
    if k == "target_family"@ {
        1
    } else if k == "target_arch"@ {
        2
    } else if k == "target_vendor"@ {
        3
    } else if k == "target_os"@ {
        4
    } else if k == "target_env"@ {
        5
    } else if k == "target_pointer_width"@ {
        6
    } else {
        0
    }
}

/// The grouping rank of a list member: atoms by key, then disjunctions, conjunctions and
/// negations; a literal ranks first.
pub open spec fn priority(t: Tree<PredView>) -> nat {
    match t {
        Tree::Not(_) => 103,
        Tree::Any(_) => 101,
        Tree::All(_) => 102,
        Tree::Var(p) => key_rank(p.0),
        Tree::Const(_) => 0,
    }
}

pub open spec fn gt_priority(a: Tree<PredView>, b: Tree<PredView>) -> bool {
    priority(a) > priority(b)
}

/// Lexicographic comparison of byte strings: -1, 0 or 1.
pub open spec fn lex_cmp(a: Seq<u8>, b: Seq<u8>) -> int
    decreases a.len(),
{
    if a.len() == 0 {
        if b.len() == 0 {
            0
        } else {
            -1
        }
    } else if b.len() == 0 {
        1
    } else if a[0] < b[0] {
        -1
    } else if a[0] > b[0] {
        1
    } else {
        lex_cmp(a.drop_first(), b.drop_first())
    }
}

/// The order of strings: by their UTF-8 bytes.
pub open spec fn text_cmp(a: Seq<char>, b: Seq<char>) -> int {
    lex_cmp(vstd::utf8::encode_utf8(a), vstd::utf8::encode_utf8(b))
}

/// The order of two atoms: by key, then by value, an absent value before a present one.
/// Anything that is not an atom compares equal.
pub open spec fn cmp_var(a: Tree<PredView>, b: Tree<PredView>) -> int {
    match (a, b) {
        (Tree::Var(x), Tree::Var(y)) => {
            let ok = text_cmp(x.0, y.0);
            if ok != 0 {
                ok
            } else {
                match (x.1, y.1) {
                    (None, None) => 0,
                    (Some(lv), Some(rv)) => text_cmp(lv, rv),
                    (None, Some(_)) => -1,
                    (Some(_), None) => 1,
                }
            }
        },
        _ => 0,
    }
}

/// The order of two negations, by what they negate.
pub open spec fn cmp_not(a: Tree<PredView>, b: Tree<PredView>) -> int {
    match (a, b) {
        (Tree::Not(x), Tree::Not(y)) => cmp_var(*x, *y),
        _ => 0,
    }
}

fn cmp_bytes(a: &[u8], b: &[u8]) -> (r: i8)
    ensures
        r as int == lex_cmp(a@, b@),
{
    let mut i: usize = 0;
    assert(a@.skip(0) =~= a@);
    assert(b@.skip(0) =~= b@);
    while i < a.len() && i < b.len() && a[i] == b[i]
        invariant
            i <= a@.len() && i <= b@.len(),
            lex_cmp(a@, b@) == lex_cmp(a@.skip(i as int), b@.skip(i as int)),
        decreases a.len() - i,
    {
        proof {
            assert(a@.skip(i as int).drop_first() =~= a@.skip(i + 1));
            assert(b@.skip(i as int).drop_first() =~= b@.skip(i + 1));
        }
        i += 1;
    }
    proof {
        if i < a@.len() {
            assert(a@.skip(i as int)[0] == a@[i as int]);
        }
        if i < b@.len() {
            assert(b@.skip(i as int)[0] == b@[i as int]);
        }
    }
    if i == a.len() {
        if i == b.len() {
            0
        } else {
            -1
        }
    } else if i == b.len() {
        1
    } else if a[i] < b[i] {
        -1
    } else {
        1
    }
}

fn cmp_text(a: &String, b: &String) -> (r: i8)
    ensures
        r as int == text_cmp(a@, b@),
{
    cmp_bytes(a.as_str().as_bytes(), b.as_str().as_bytes())
}

pub struct ByPriority;

impl ListOrder for ByPriority {
    open spec fn spec_gt(a: Tree<PredView>, b: Tree<PredView>) -> bool {
        gt_priority(a, b)
    }

    fn gt(a: &Expr<Pred>, b: &Expr<Pred>) -> (r: bool) {
        SortByPriority::get_priority(a) > SortByPriority::get_priority(b)
    }
}

fn cmp_var_exec(lhs: &Expr<Pred>, rhs: &Expr<Pred>) -> (r: i8)
    ensures
        r as int == cmp_var(lhs@, rhs@),
{
    match (lhs, rhs) {
        (Expr::Var(Var(l)), Expr::Var(Var(r))) => {
            let ok = cmp_text(&l.key, &r.key);
            if ok != 0 {
                return ok;
            }
            match (&l.value, &r.value) {
                (None, None) => 0,
                (Some(lv), Some(rv)) => cmp_text(lv, rv),
                (None, Some(_)) => -1,
                (Some(_), None) => 1,
            }
        },
        _ => 0,
    }
}

pub struct ByValue;

impl ListOrder for ByValue {
    open spec fn spec_gt(a: Tree<PredView>, b: Tree<PredView>) -> bool {
        cmp_var(a, b) > 0
    }

    fn gt(a: &Expr<Pred>, b: &Expr<Pred>) -> (r: bool) {
        SortByValue::cmp_var(a, b) > 0
    }
}

pub struct ByNegated;

impl ListOrder for ByNegated {
    open spec fn spec_gt(a: Tree<PredView>, b: Tree<PredView>) -> bool {
        cmp_not(a, b) > 0
    }

    fn gt(a: &Expr<Pred>, b: &Expr<Pred>) -> (r: bool) {
        SortByValue::cmp_not(a, b) > 0
    }
}

/// Orders the members of each list by `priority`, keeping the order of equal ones; top-down.
pub struct SortByPriority;

impl SortByPriority {
    fn get_priority(x: &Expr<Pred>) -> (r: u32)
        ensures
            r as nat == priority(x@),
    {
        match x {
            Expr::Not(_) => 103,
            Expr::Any(_) => 101,
            Expr::All(_) => 102,
            Expr::Var(Var(pred)) => {
                if key_is(pred, "target_family") {
                    1
                } else if key_is(pred, "target_arch") {
                    2
                } else if key_is(pred, "target_vendor") {
                    3
                } else if key_is(pred, "target_os") {
                    4
                } else if key_is(pred, "target_env") {
                    5
                } else if key_is(pred, "target_pointer_width") {
                    6
                } else {
                    0
                }
            },
            Expr::Const(_) => 0,
        }
    }
}

/// Orders the atoms of each list by key and value, then the negated atoms by what they
/// negate, keeping the order of equal ones; top-down.
pub struct SortByValue;

impl SortByValue {
    fn cmp_var(lhs: &Expr<Pred>, rhs: &Expr<Pred>) -> (r: i8)
        ensures
            r as int == cmp_var(lhs@, rhs@),
    {
        cmp_var_exec(lhs, rhs)
    }

    fn cmp_not(lhs: &Expr<Pred>, rhs: &Expr<Pred>) -> (r: i8)
        ensures
            r as int == cmp_not(lhs@, rhs@),
    {
        match (lhs, rhs) {
            (Expr::Not(Not(l)), Expr::Not(Not(r))) => cmp_var_exec(l, r),
            _ => 0,
        }
    }
}

} // verus!

verus! {

/// The order of the members of a list after grouping by priority.
pub open spec fn priority_order(l: Seq<Tree<PredView>>) -> Seq<Tree<PredView>> {
    insertion_sort(l, |a: Tree<PredView>, b: Tree<PredView>| gt_priority(a, b))
}

/// The order of the members of a list after ordering atoms and then negated atoms.
pub open spec fn value_order(l: Seq<Tree<PredView>>) -> Seq<Tree<PredView>> {
    insertion_sort(
        insertion_sort(l, |a: Tree<PredView>, b: Tree<PredView>| cmp_var(a, b) > 0),
        |a: Tree<PredView>, b: Tree<PredView>| cmp_not(a, b) > 0,
    )
}

/// Every list ordered by `priority_order`, top-down.
pub open spec fn sort_by_priority(t: Tree<PredView>) -> Tree<PredView>
    decreases height(t),
    via sort_by_priority_decreases
{
    match t {
        Tree::Any(l) => {
            let r = priority_order(l);
            Tree::Any(Seq::new(r.len(), |i: int| if 0 <= i < r.len() { sort_by_priority(r[i]) } else { t }))
        },
        Tree::All(l) => {
            let r = priority_order(l);
            Tree::All(Seq::new(r.len(), |i: int| if 0 <= i < r.len() { sort_by_priority(r[i]) } else { t }))
        },
        Tree::Not(b) => Tree::Not(Box::new(sort_by_priority(*b))),
        _ => t,
    }
}

/// Every list ordered by `value_order`, top-down.
pub open spec fn sort_by_value(t: Tree<PredView>) -> Tree<PredView>
    decreases height(t),
    via sort_by_value_decreases
{
    match t {
        Tree::Any(l) => {
            let r = value_order(l);
            Tree::Any(Seq::new(r.len(), |i: int| if 0 <= i < r.len() { sort_by_value(r[i]) } else { t }))
        },
        Tree::All(l) => {
            let r = value_order(l);
            Tree::All(Seq::new(r.len(), |i: int| if 0 <= i < r.len() { sort_by_value(r[i]) } else { t }))
        },
        Tree::Not(b) => Tree::Not(Box::new(sort_by_value(*b))),
        _ => t,
    }
}

/// A reordering of `l` that only moves members keeps every member below `1 + max_height(l)`.
proof fn lemma_reorder_height(l: Seq<Tree<PredView>>, r: Seq<Tree<PredView>>)
    requires
        forall|i: int| 0 <= i < r.len() ==> l.contains(#[trigger] r[i]),
    ensures
        forall|i: int| 0 <= i < r.len() ==> height(#[trigger] r[i]) <= max_height(l),
        max_height(r) <= max_height(l),
{
    assert forall|i: int| 0 <= i < r.len() implies height(#[trigger] r[i]) <= max_height(l) by {
        assert(l.contains(r[i]));
        let k = choose|k: int| 0 <= k < l.len() && l[k] == r[i];
    }
    crate::ast::lemma_max_height_bound(r, max_height(l));
}

proof fn lemma_priority_order(l: Seq<Tree<PredView>>)
    ensures
        priority_order(l).len() == l.len(),
        forall|i: int| 0 <= i < l.len() ==> l.contains(#[trigger] priority_order(l)[i]),
        max_height(priority_order(l)) <= max_height(l),
        forall|i: int| 0 <= i < l.len() ==> height(#[trigger] priority_order(l)[i]) <= max_height(l),
{
    lemma_insertion_sort_members(l, |a: Tree<PredView>, b: Tree<PredView>| gt_priority(a, b));
    lemma_reorder_height(l, priority_order(l));
}

proof fn lemma_value_order(l: Seq<Tree<PredView>>)
    ensures
        value_order(l).len() == l.len(),
        forall|i: int| 0 <= i < l.len() ==> l.contains(#[trigger] value_order(l)[i]),
        max_height(value_order(l)) <= max_height(l),
        forall|i: int| 0 <= i < l.len() ==> height(#[trigger] value_order(l)[i]) <= max_height(l),
{
    let g1 = |a: Tree<PredView>, b: Tree<PredView>| cmp_var(a, b) > 0;
    let g2 = |a: Tree<PredView>, b: Tree<PredView>| cmp_not(a, b) > 0;
    let m = insertion_sort(l, g1);
    lemma_insertion_sort_members(l, g1);
    lemma_insertion_sort_members(m, g2);
    let r = value_order(l);
    assert forall|i: int| 0 <= i < l.len() implies l.contains(#[trigger] r[i]) by {
        assert(m.contains(r[i]));
        let k = choose|k: int| 0 <= k < m.len() && m[k] == r[i];
        assert(l.contains(m[k]));
    }
    lemma_reorder_height(l, r);
}

#[via_fn]
proof fn sort_by_priority_decreases(t: Tree<PredView>) {
    match t {
        Tree::Any(l) | Tree::All(l) => lemma_priority_order(l),
        _ => {},
    }
}

#[via_fn]
proof fn sort_by_value_decreases(t: Tree<PredView>) {
    match t {
        Tree::Any(l) | Tree::All(l) => lemma_value_order(l),
        _ => {},
    }
}

pub proof fn lemma_sort_by_priority_list(l: Seq<Tree<PredView>>, disj: bool)
    ensures
        ({
            let t = if disj { Tree::Any(l) } else { Tree::All(l) };
            let r = priority_order(l);
            let s = sort_by_priority(t);
            &&& (if disj { s is Any } else { s is All })
            &&& crate::transform::members_of(s, disj) is Some
            &&& crate::transform::members_of(s, disj)->0.len() == r.len()
            &&& forall|i: int|
                0 <= i < r.len() ==> #[trigger] crate::transform::members_of(s, disj)->0[i] == sort_by_priority(r[i])
        }),
{
}

pub proof fn lemma_sort_by_value_list(l: Seq<Tree<PredView>>, disj: bool)
    ensures
        ({
            let t = if disj { Tree::Any(l) } else { Tree::All(l) };
            let r = value_order(l);
            let s = sort_by_value(t);
            &&& (if disj { s is Any } else { s is All })
            &&& crate::transform::members_of(s, disj) is Some
            &&& crate::transform::members_of(s, disj)->0.len() == r.len()
            &&& forall|i: int|
                0 <= i < r.len() ==> #[trigger] crate::transform::members_of(s, disj)->0[i] == sort_by_value(r[i])
        }),
{
}

impl SortByPriority {
    #[verifier::loop_isolation(false)]
    fn visit_list(&mut self, list: &mut Vec<Expr<Pred>>)
        ensures
            model_list(final(list)@).len() == model_list(old(list)@).len(),
            forall|i: int|
                0 <= i < model_list(old(list)@).len() ==> #[trigger] model_list(final(list)@)[i] == sort_by_priority(
                    model_list(old(list)@)[i],
                ),
        decreases 1 + max_height(model_list(old(list)@)), 0nat,
    {
        let ghost l = model_list(list@);
        let mut i: usize = 0;
        while i < list.len()
            invariant
                i <= list.len(),
                model_list(list@).len() == l.len(),
                forall|j: int| 0 <= j < i ==> #[trigger] model_list(list@)[j] == sort_by_priority(l[j]),
                forall|j: int| i <= j < l.len() ==> #[trigger] model_list(list@)[j] == l[j],
            decreases list.len() - i,
        {
            let ghost before = list@;
            assert(model_list(before)[i as int] == l[i as int]);
            self.visit_mut_expr(&mut list[i]);
            proof {
                lemma_model_update(before, i as int, list@[i as int]);
            }
            i += 1;
        }
    }

    pub fn visit_mut_expr(&mut self, expr: &mut Expr<Pred>)
        ensures
            final(expr)@ == sort_by_priority(old(expr)@),
        decreases height(old(expr)@), 1nat,
    {
        match expr {
            Expr::Any(Any(list)) => {
                let ghost l = model_list(list@);
                sort_list::<ByPriority>(list);
                proof {
                    assert((|a: Tree<PredView>, b: Tree<PredView>| ByPriority::spec_gt(a, b)) =~= (|
                        a: Tree<PredView>,
                        b: Tree<PredView>,
                    | gt_priority(a, b)));
                    lemma_priority_order(l);
                }
                self.visit_list(list);
                proof {
                    lemma_sort_by_priority_list(l, true);
                    assert(model_list(list@) =~= sort_by_priority(Tree::Any(l))->Any_0);
                }
            },
            Expr::All(All(list)) => {
                let ghost l = model_list(list@);
                sort_list::<ByPriority>(list);
                proof {
                    assert((|a: Tree<PredView>, b: Tree<PredView>| ByPriority::spec_gt(a, b)) =~= (|
                        a: Tree<PredView>,
                        b: Tree<PredView>,
                    | gt_priority(a, b)));
                    lemma_priority_order(l);
                }
                self.visit_list(list);
                proof {
                    lemma_sort_by_priority_list(l, false);
                    assert(model_list(list@) =~= sort_by_priority(Tree::All(l))->All_0);
                }
            },
            Expr::Not(Not(not)) => self.visit_mut_expr(not),
            _ => {},
        }
    }
}

impl SortByValue {
    fn order(list: &mut Vec<Expr<Pred>>)
        ensures
            model_list(final(list)@) == value_order(model_list(old(list)@)),
    {
        sort_list::<ByValue>(list);
        sort_list::<ByNegated>(list);
        assert((|a: Tree<PredView>, b: Tree<PredView>| ByValue::spec_gt(a, b)) =~= (|
            a: Tree<PredView>,
            b: Tree<PredView>,
        | cmp_var(a, b) > 0));
        assert((|a: Tree<PredView>, b: Tree<PredView>| ByNegated::spec_gt(a, b)) =~= (|
            a: Tree<PredView>,
            b: Tree<PredView>,
        | cmp_not(a, b) > 0));
    }

    #[verifier::loop_isolation(false)]
    fn visit_list(&mut self, list: &mut Vec<Expr<Pred>>)
        ensures
            model_list(final(list)@).len() == model_list(old(list)@).len(),
            forall|i: int|
                0 <= i < model_list(old(list)@).len() ==> #[trigger] model_list(final(list)@)[i] == sort_by_value(
                    model_list(old(list)@)[i],
                ),
        decreases 1 + max_height(model_list(old(list)@)), 0nat,
    {
        let ghost l = model_list(list@);
        let mut i: usize = 0;
        while i < list.len()
            invariant
                i <= list.len(),
                model_list(list@).len() == l.len(),
                forall|j: int| 0 <= j < i ==> #[trigger] model_list(list@)[j] == sort_by_value(l[j]),
                forall|j: int| i <= j < l.len() ==> #[trigger] model_list(list@)[j] == l[j],
            decreases list.len() - i,
        {
            let ghost before = list@;
            assert(model_list(before)[i as int] == l[i as int]);
            self.visit_mut_expr(&mut list[i]);
            proof {
                lemma_model_update(before, i as int, list@[i as int]);
            }
            i += 1;
        }
    }

    pub fn visit_mut_expr(&mut self, expr: &mut Expr<Pred>)
        ensures
            final(expr)@ == sort_by_value(old(expr)@),
        decreases height(old(expr)@), 1nat,
    {
        match expr {
            Expr::Any(Any(list)) => {
                let ghost l = model_list(list@);
                Self::order(list);
                proof {
                    lemma_value_order(l);
                }
                self.visit_list(list);
                proof {
                    lemma_sort_by_value_list(l, true);
                    assert(model_list(list@) =~= sort_by_value(Tree::Any(l))->Any_0);
                }
            },
            Expr::All(All(list)) => {
                let ghost l = model_list(list@);
                Self::order(list);
                proof {
                    lemma_value_order(l);
                }
                self.visit_list(list);
                proof {
                    lemma_sort_by_value_list(l, false);
                    assert(model_list(list@) =~= sort_by_value(Tree::All(l))->All_0);
                }
            },
            Expr::Not(Not(not)) => self.visit_mut_expr(not),
            _ => {},
        }
    }
}

} // verus!

verus! {

/// The keys of which at most one value holds at a time, in the order they are tried.
pub open spec fn unique_keys() -> Seq<Seq<char>> {
    seq![
        "target_family"@,
        "target_arch"@,
        "target_vendor"@,
        "target_os"@,
        "target_env"@,
        "target_pointer_width"@,
    ]
}

/// With `key` known to take one of `values`: an atom of that key becomes `false` if its
/// value is not among them, and `true` if it is the only one; everywhere in `t`.
pub open spec fn fix(key: Seq<char>, values: Seq<Seq<char>>, t: Tree<PredView>) -> Tree<PredView>
    decreases t,
{
    match t {
        Tree::Any(l) => Tree::Any(fix_list(key, values, l)),
        Tree::All(l) => Tree::All(fix_list(key, values, l)),
        Tree::Not(b) => Tree::Not(Box::new(fix(key, values, *b))),
        Tree::Var(p) => if p.0 == key && p.1 is Some {
            if values.contains(p.1->0) {
                if values.len() == 1 {
                    Tree::Const(true)
                } else {
                    t
                }
            } else {
                Tree::Const(false)
            }
        } else {
            t
        },
        Tree::Const(_) => t,
    }
}

pub open spec fn fix_list(key: Seq<char>, values: Seq<Seq<char>>, s: Seq<Tree<PredView>>) -> Seq<Tree<PredView>>
    decreases s,
{
    if s.len() == 0 {
        s
    } else {
        fix_list(key, values, s.drop_last()).push(fix(key, values, s.last()))
    }
}

pub proof fn lemma_fix_list(key: Seq<char>, values: Seq<Seq<char>>, s: Seq<Tree<PredView>>)
    ensures
        fix_list(key, values, s).len() == s.len(),
        forall|i: int| 0 <= i < s.len() ==> #[trigger] fix_list(key, values, s)[i] == fix(key, values, s[i]),
    decreases s.len(),
{
    if s.len() > 0 {
        lemma_fix_list(key, values, s.drop_last());
    }
}

/// Every member of `m` is an atom with key `k`.
pub open spec fn all_of_key(m: Seq<Tree<PredView>>, k: Seq<char>) -> bool {
    forall|i: int| 0 <= i < m.len() ==> (#[trigger] m[i] is Var && m[i]->Var_0.0 == k)
}

/// The first unique key, from place `n` of the table on, of which every member of `m` is an
/// atom.
pub open spec fn any_key_from(m: Seq<Tree<PredView>>, n: int) -> Option<Seq<char>>
    decreases 6 - n,
{
    if n < 0 || n >= 6 {
        None
    } else if all_of_key(m, unique_keys()[n]) {
        Some(unique_keys()[n])
    } else {
        any_key_from(m, n + 1)
    }
}

/// The values of the atoms `m`.
pub open spec fn values_of(m: Seq<Tree<PredView>>) -> Seq<Seq<char>> {
    Seq::new(m.len(), |i: int| m[i]->Var_0.1->0)
}

/// What a member fixes: the key and its possible values.
pub open spec fn fixes(x: Tree<PredView>) -> Option<(Seq<char>, Seq<Seq<char>>)> {
    match x {
        Tree::Var(p) => if unique_keys().contains(p.0) && p.1 is Some {
            Some((p.0, seq![p.1->0]))
        } else {
            None
        },
        Tree::Any(m) => match any_key_from(m, 0) {
            Some(k) => if forall|i: int| 0 <= i < m.len() ==> (#[trigger] m[i])->Var_0.1 is Some {
                Some((k, values_of(m)))
            } else {
                None
            },
            None => None,
        },
        _ => None,
    }
}

/// `fix` applied to every member of `l` but the one at `i`.
pub open spec fn fix_others(l: Seq<Tree<PredView>>, i: int, key: Seq<char>, values: Seq<Seq<char>>) -> Seq<Tree<PredView>> {
    Seq::new(l.len(), |j: int| if j == i { l[j] } else { fix(key, values, l[j]) })
}

/// Scanning the members of a conjunction from place `i` on, each one that fixes a key fixes
/// it in all the others.
pub open spec fn imply_scan(l: Seq<Tree<PredView>>, i: int) -> Seq<Tree<PredView>>
    decreases l.len() - i,
{
    if i < 0 || i >= l.len() {
        l
    } else {
        match fixes(l[i]) {
            Some(kv) => imply_scan(fix_others(l, i, kv.0, kv.1), i + 1),
            None => imply_scan(l, i + 1),
        }
    }
}

/// Bottom-up; in each conjunction, what one member fixes is applied to the others.
pub open spec fn imply_by_key(t: Tree<PredView>) -> Tree<PredView>
    decreases t,
{
    match t {
        Tree::All(l) => Tree::All(imply_scan(imply_by_key_list(l), 0)),
        Tree::Any(l) => Tree::Any(imply_by_key_list(l)),
        Tree::Not(b) => Tree::Not(Box::new(imply_by_key(*b))),
        _ => t,
    }
}

pub open spec fn imply_by_key_list(s: Seq<Tree<PredView>>) -> Seq<Tree<PredView>>
    decreases s,
{
    if s.len() == 0 {
        s
    } else {
        imply_by_key_list(s.drop_last()).push(imply_by_key(s.last()))
    }
}

pub proof fn lemma_imply_by_key_list(s: Seq<Tree<PredView>>)
    ensures
        imply_by_key_list(s).len() == s.len(),
        forall|i: int| 0 <= i < s.len() ==> #[trigger] imply_by_key_list(s)[i] == imply_by_key(s[i]),
    decreases s.len(),
{
    if s.len() > 0 {
        lemma_imply_by_key_list(s.drop_last());
    }
}

fn contains_value(values: &Vec<String>, v: &String) -> (r: bool)
    ensures
        r == values@.map_values(|s: String| s@).contains(v@),
{
    let ghost vs = values@.map_values(|s: String| s@);
    let mut i: usize = 0;
    while i < values.len()
        invariant
            i <= values.len(),
            vs == values@.map_values(|s: String| s@),
            forall|j: int| 0 <= j < i ==> vs[j] != v@,
        decreases values.len() - i,
    {
        if values[i] == *v {
            assert(vs[i as int] == v@);
            return true;
        }
        i += 1;
    }
    false
}

/// Whether `k` is one of the unique keys.
fn is_unique_key(p: &Pred) -> (r: bool)
    ensures
        r == unique_keys().contains(p.key@),
{
    let r = key_is(p, "target_family") || key_is(p, "target_arch") || key_is(p, "target_vendor")
        || key_is(p, "target_os") || key_is(p, "target_env") || key_is(p, "target_pointer_width");
    proof {
        let u = unique_keys();
        if r {
            if p.key@ == u[0] {
            } else if p.key@ == u[1] {
            } else if p.key@ == u[2] {
            } else if p.key@ == u[3] {
            } else if p.key@ == u[4] {
            } else {
                assert(p.key@ == u[5]);
            }
        } else {
            assert forall|i: int| 0 <= i < u.len() implies u[i] != p.key@ by {}
        }
    }
    r
}

/// The unique key at place `n` of the table.
fn unique_key(n: usize) -> (r: &'static str)
    requires
        n < 6,
    ensures
        r@ == unique_keys()[n as int],
{
    if n == 0 {
        "target_family"
    } else if n == 1 {
        "target_arch"
    } else if n == 2 {
        "target_vendor"
    } else if n == 3 {
        "target_os"
    } else if n == 4 {
        "target_env"
    } else {
        "target_pointer_width"
    }
}

} // verus!

verus! {

pub open spec fn strings_view(vs: Seq<String>) -> Seq<Seq<char>> {
    vs.map_values(|s: String| s@)
}

/// Uses what each member of a conjunction fixes about a unique key to decide the other
/// members' atoms of that key: `all(target_os = "linux", not(target_os = "macos"))` becomes
/// `all(target_os = "linux", not(false))`; bottom-up.
pub struct ImplyByKey;

impl ImplyByKey {
    fn is_expr_any_pred(any: &Vec<Expr<Pred>>, key: &str) -> (r: bool)
        ensures
            r == all_of_key(model_list(any@), key@),
    {
        let ghost m = model_list(any@);
        let mut i: usize = 0;
        while i < any.len()
            invariant
                i <= any.len(),
                m == model_list(any@),
                forall|j: int| 0 <= j < i ==> (#[trigger] m[j] is Var && m[j]->Var_0.0 == key@),
            decreases any.len() - i,
        {
            assert(m[i as int] == model(any@[i as int]));
            let ok = match &any[i] {
                Expr::Var(Var(var)) => key_is(var, key),
                _ => false,
            };
            if !ok {
                return false;
            }
            i += 1;
        }
        true
    }

    #[verifier::loop_isolation(false)]
    fn fix_in_list(pos_key: &str, pos_any_values: &Vec<String>, list: &mut Vec<Expr<Pred>>)
        ensures
            model_list(final(list)@) == fix_list(pos_key@, strings_view(pos_any_values@), model_list(old(list)@)),
        decreases 1 + max_height(model_list(old(list)@)), 0nat,
    {
        let ghost vs = strings_view(pos_any_values@);
        let ghost l = model_list(list@);
        let mut i: usize = 0;
        while i < list.len()
            invariant
                i <= list.len(),
                model_list(list@).len() == l.len(),
                forall|j: int| 0 <= j < i ==> #[trigger] model_list(list@)[j] == fix(pos_key@, vs, l[j]),
                forall|j: int| i <= j < l.len() ==> #[trigger] model_list(list@)[j] == l[j],
            decreases list.len() - i,
        {
            let ghost before = list@;
            assert(model_list(before)[i as int] == l[i as int]);
            Self::fix(pos_key, pos_any_values, &mut list[i]);
            proof {
                lemma_model_update(before, i as int, list@[i as int]);
            }
            i += 1;
        }
        proof {
            lemma_fix_list(pos_key@, vs, l);
            assert(model_list(list@) =~= fix_list(pos_key@, vs, l));
        }
    }

    fn fix(pos_key: &str, pos_any_values: &Vec<String>, expr: &mut Expr<Pred>)
        ensures
            final(expr)@ == fix(pos_key@, strings_view(pos_any_values@), old(expr)@),
        decreases height(old(expr)@), 1nat,
    {
        let ghost vs = strings_view(pos_any_values@);
        let mut replace: Option<bool> = None;
        match expr {
            Expr::Any(Any(list)) => Self::fix_in_list(pos_key, pos_any_values, list),
            Expr::All(All(list)) => Self::fix_in_list(pos_key, pos_any_values, list),
            Expr::Not(Not(not)) => Self::fix(pos_key, pos_any_values, not),
            Expr::Var(Var(var)) => {
                if key_is(var, pos_key) {
                    if let Some(var_value) = &var.value {
                        if contains_value(pos_any_values, var_value) {
                            if pos_any_values.len() == 1 {
                                replace = Some(true);
                            }
                        } else {
                            replace = Some(false);
                        }
                    }
                }
            },
            Expr::Const(_) => {},
        }
        if let Some(b) = replace {
            *expr = Expr::Const(b);
        }
    }

    /// The key and values that `x` fixes, if it fixes one.
    #[verifier::loop_isolation(false)]
    fn fixes_of(x: &Expr<Pred>) -> (r: Option<(String, Vec<String>)>)
        ensures
            match r {
                Some(kv) => fixes(x@) == Some((kv.0@, strings_view(kv.1@))),
                None => fixes(x@) is None,
            },
    {
        match x {
            Expr::Var(Var(pos)) => {
                if is_unique_key(pos) {
                    if let Some(v) = &pos.value {
                        let values = vec![v.clone()];
                        assert(strings_view(values@) =~= seq![v@]);
                        return Some((pos.key.clone(), values));
                    }
                }
                None
            },
            Expr::Any(Any(any)) => {
                let ghost m = model_list(any@);
                let mut n: usize = 0;
                while n < 6 && !Self::is_expr_any_pred(any, unique_key(n))
                    invariant
                        n <= 6,
                        any_key_from(m, 0) == any_key_from(m, n as int),
                    decreases 6 - n,
                {
                    n += 1;
                }
                if n == 6 {
                    return None;
                }
                let mut values: Vec<String> = Vec::new();
                let mut i: usize = 0;
                while i < any.len()
                    invariant
                        i <= any.len(),
                        n < 6,
                        all_of_key(m, unique_keys()[n as int]),
                        m == model_list(any@),
                        values@.len() == i,
                        forall|j: int| 0 <= j < i ==> (#[trigger] m[j])->Var_0.1 is Some && strings_view(values@)[j]
                            == m[j]->Var_0.1->0,
                    decreases any.len() - i,
                {
                    assert(m[i as int] == model(any@[i as int]));
                    let mut next: Option<String> = None;
                    if let Expr::Var(Var(var)) = &any[i] {
                        if let Some(value) = &var.value {
                            next = Some(value.clone());
                        }
                    }
                    match next {
                        Some(v) => values.push(v),
                        None => {
                            return None;
                        },
                    }
                    i += 1;
                }
                proof {
                    assert(strings_view(values@) =~= values_of(m));
                }
                Some((String::from_str(unique_key(n)), values))
            },
            _ => None,
        }
    }

    #[verifier::loop_isolation(false)]
    fn fix_others(all: &mut Vec<Expr<Pred>>, i: usize, key: &String, values: &Vec<String>)
        requires
            i < old(all)@.len(),
        ensures
            final(all)@.len() == old(all)@.len(),
            model_list(final(all)@) == fix_others(model_list(old(all)@), i as int, key@, strings_view(values@)),
    {
        let ghost l = model_list(all@);
        let ghost vs = strings_view(values@);
        let mut j: usize = 0;
        while j < all.len()
            invariant
                j <= all.len(),
                all@.len() == l.len(),
                model_list(all@).len() == l.len(),
                forall|k: int| 0 <= k < j ==> #[trigger] model_list(all@)[k] == fix_others(l, i as int, key@, vs)[k],
                forall|k: int| j <= k < l.len() ==> #[trigger] model_list(all@)[k] == l[k],
            decreases all.len() - j,
        {
            if j != i {
                let ghost before = all@;
                assert(model_list(before)[j as int] == l[j as int]);
                Self::fix(key.as_str(), values, &mut all[j]);
                proof {
                    lemma_model_update(before, j as int, all@[j as int]);
                }
            }
            j += 1;
        }
        assert(model_list(all@) =~= fix_others(l, i as int, key@, vs));
    }

    #[verifier::loop_isolation(false)]
    fn visit_list(&mut self, list: &mut Vec<Expr<Pred>>)
        ensures
            model_list(final(list)@) == imply_by_key_list(model_list(old(list)@)),
        decreases 1 + max_height(model_list(old(list)@)), 0nat,
    {
        let ghost l = model_list(list@);
        let mut i: usize = 0;
        while i < list.len()
            invariant
                i <= list.len(),
                model_list(list@).len() == l.len(),
                forall|j: int| 0 <= j < i ==> #[trigger] model_list(list@)[j] == imply_by_key(l[j]),
                forall|j: int| i <= j < l.len() ==> #[trigger] model_list(list@)[j] == l[j],
            decreases list.len() - i,
        {
            let ghost before = list@;
            assert(model_list(before)[i as int] == l[i as int]);
            self.visit_mut_expr(&mut list[i]);
            proof {
                lemma_model_update(before, i as int, list@[i as int]);
            }
            i += 1;
        }
        proof {
            lemma_imply_by_key_list(l);
            assert(model_list(list@) =~= imply_by_key_list(l));
        }
    }

    #[verifier::loop_isolation(false)]
    fn visit_all(&mut self, all: &mut Vec<Expr<Pred>>)
        ensures
            model_list(final(all)@) == imply_scan(imply_by_key_list(model_list(old(all)@)), 0),
        decreases 1 + max_height(model_list(old(all)@)), 1nat,
    {
        self.visit_list(all);
        let ghost l0 = model_list(all@);
        let mut i: usize = 0;
        while i < all.len()
            invariant
                i <= all.len(),
                all@.len() == l0.len(),
                imply_scan(l0, 0) == imply_scan(model_list(all@), i as int),
            decreases all.len() - i,
        {
            assert(model_list(all@)[i as int] == model(all@[i as int]));
            match Self::fixes_of(&all[i]) {
                Some((key, values)) => {
                    Self::fix_others(all, i, &key, &values);
                },
                None => {},
            }
            i += 1;
        }
    }

    pub fn visit_mut_expr(&mut self, expr: &mut Expr<Pred>)
        ensures
            final(expr)@ == imply_by_key(old(expr)@),
        decreases height(old(expr)@), 2nat,
    {
        match expr {
            Expr::All(All(list)) => self.visit_all(list),
            Expr::Any(Any(list)) => self.visit_list(list),
            Expr::Not(Not(not)) => self.visit_mut_expr(not),
            _ => {},
        }
    }
}

} // verus!

verus! {

pub open spec fn is_target_os_pred(x: Tree<PredView>) -> bool {
    x is Var && x->Var_0.0 == "target_os"@
}

/// `x` pins `target_os`: it is such an atom, or a disjunction of such atoms only.
pub open spec fn has_specified_target_os(x: Tree<PredView>) -> bool {
    is_target_os_pred(x) || (x is Any && forall|i: int|
        0 <= i < x->Any_0.len() ==> is_target_os_pred(#[trigger] x->Any_0[i]))
}

/// `target_family = "unix"` or `target_family = "windows"`.
pub open spec fn is_suppressed_target_family(p: PredView) -> bool {
    p.0 == "target_family"@ && (p.1 == Some("unix"@) || p.1 == Some("windows"@))
}

/// A member that asserts such a family.
pub open spec fn is_suppressed_member(x: Tree<PredView>) -> bool {
    x is Var && is_suppressed_target_family(x->Var_0)
}

/// In each conjunction with a member that pins `target_os`, the members asserting the family
/// `unix` or `windows` are dropped; top-down.
pub open spec fn suppress_family(t: Tree<PredView>) -> Tree<PredView>
    decreases t, 1nat,
{
    match t {
        Tree::All(l) => Tree::All(
            suppress_walk(l, exists|i: int| 0 <= i < l.len() && has_specified_target_os(#[trigger] l[i])),
        ),
        Tree::Any(l) => Tree::Any(suppress_walk(l, false)),
        Tree::Not(b) => Tree::Not(Box::new(suppress_family(*b))),
        _ => t,
    }
}

/// `suppress_family` on each member of `l`, leaving out the family atoms if `drop`.
pub open spec fn suppress_walk(l: Seq<Tree<PredView>>, drop: bool) -> Seq<Tree<PredView>>
    decreases l, 0nat,
{
    if l.len() == 0 {
        l
    } else if drop && is_suppressed_member(l.last()) {
        suppress_walk(l.drop_last(), drop)
    } else {
        suppress_walk(l.drop_last(), drop).push(suppress_family(l.last()))
    }
}

/// `l` without the family atoms if `drop`.
pub open spec fn drop_suppressed(l: Seq<Tree<PredView>>, drop: bool) -> Seq<Tree<PredView>>
    decreases l.len(),
{
    if l.len() == 0 {
        l
    } else if drop && is_suppressed_member(l.last()) {
        drop_suppressed(l.drop_last(), drop)
    } else {
        drop_suppressed(l.drop_last(), drop).push(l.last())
    }
}

pub open spec fn suppress_list(s: Seq<Tree<PredView>>) -> Seq<Tree<PredView>>
    decreases s,
{
    if s.len() == 0 {
        s
    } else {
        suppress_list(s.drop_last()).push(suppress_family(s.last()))
    }
}

pub proof fn lemma_suppress_list(s: Seq<Tree<PredView>>)
    ensures
        suppress_list(s).len() == s.len(),
        forall|i: int| 0 <= i < s.len() ==> #[trigger] suppress_list(s)[i] == suppress_family(s[i]),
    decreases s.len(),
{
    if s.len() > 0 {
        lemma_suppress_list(s.drop_last());
    }
}

proof fn lemma_suppress_walk(l: Seq<Tree<PredView>>, drop: bool)
    ensures
        suppress_walk(l, drop) == suppress_list(drop_suppressed(l, drop)),
        forall|i: int| 0 <= i < drop_suppressed(l, drop).len() ==> l.contains(#[trigger] drop_suppressed(l, drop)[i]),
    decreases l.len(),
{
    if l.len() > 0 {
        let p = l.drop_last();
        lemma_suppress_walk(p, drop);
        let d = drop_suppressed(p, drop);
        assert(d.push(l.last()).drop_last() =~= d);
        assert forall|i: int| 0 <= i < drop_suppressed(l, drop).len() implies l.contains(
            #[trigger] drop_suppressed(l, drop)[i],
        ) by {
            let y = drop_suppressed(l, drop)[i];
            if i < d.len() {
                assert(p.contains(y));
                let k = choose|k: int| 0 <= k < p.len() && p[k] == y;
                assert(l[k] == y);
            } else {
                assert(l[l.len() - 1] == y);
            }
        }
    }
}

/// Drops the members `target_family = "unix"` and `target_family = "windows"` from each
/// conjunction that pins `target_os`, since the operating system implies the family;
/// top-down.
pub struct SuppressTargetFamily;

impl SuppressTargetFamily {
    fn is_target_os_pred(x: &Expr<Pred>) -> (r: bool)
        ensures
            r == is_target_os_pred(x@),
    {
        match x {
            Expr::Var(Var(var)) => key_is(var, "target_os"),
            _ => false,
        }
    }

    fn has_specified_target_os(x: &Expr<Pred>) -> (r: bool)
        ensures
            r == has_specified_target_os(x@),
    {
        if Self::is_target_os_pred(x) {
            return true;
        }
        if let Expr::Any(Any(any)) = x {
            let ghost m = model_list(any@);
            let mut i: usize = 0;
            while i < any.len()
                invariant
                    i <= any.len(),
                    m == model_list(any@),
                    x@ == Tree::Any(m),
                    forall|j: int| 0 <= j < i ==> is_target_os_pred(#[trigger] m[j]),
                decreases any.len() - i,
            {
                assert(m[i as int] == model(any@[i as int]));
                if !Self::is_target_os_pred(&any[i]) {
                    assert(!is_target_os_pred(x@->Any_0[i as int]));
                    assert(!is_target_os_pred(x@));
                    return false;
                }
                i += 1;
            }
            return true;
        }
        false
    }

    fn is_suppressed_target_family(pred: &Pred) -> (r: bool)
        ensures
            r == is_suppressed_target_family(pred@),
    {
        key_is(pred, "target_family") && (value_is(pred, "unix") || value_is(pred, "windows"))
    }

    fn is_suppressed_member(x: &Expr<Pred>) -> (r: bool)
        ensures
            r == is_suppressed_member(x@),
    {
        match x {
            Expr::Var(Var(pred)) => Self::is_suppressed_target_family(pred),
            _ => false,
        }
    }

    #[verifier::loop_isolation(false)]
    fn remove_suppressed(all: &mut Vec<Expr<Pred>>)
        ensures
            model_list(final(all)@) == drop_suppressed(model_list(old(all)@), true),
    {
        let mut src: Vec<Expr<Pred>> = Vec::new();
        std::mem::swap(all, &mut src);
        let ghost orig = model_list(src@);
        let mut ans: Vec<Expr<Pred>> = Vec::new();
        let ghost mut k: int = 0;
        proof {
            assert(orig.skip(0) =~= orig);
            assert(orig.take(0) =~= Seq::<Tree<PredView>>::empty());
        }
        while src.len() > 0
            invariant
                0 <= k <= orig.len(),
                model_list(src@) == orig.skip(k),
                model_list(ans@) == drop_suppressed(orig.take(k), true),
            decreases src.len(),
        {
            let ghost before = src@;
            let x = src.remove(0);
            proof {
                crate::ast::lemma_model_remove(before, 0);
                assert(orig.skip(k).remove(0) =~= orig.skip(k + 1));
                assert(orig.take(k + 1).drop_last() =~= orig.take(k));
                assert(model_list(before)[0] == model(before[0]));
                assert(orig.skip(k)[0] == orig[k]);
            }
            if !Self::is_suppressed_member(&x) {
                let ghost pre = ans@;
                ans.push(x);
                proof {
                    crate::ast::lemma_model_push(pre, x);
                }
            }
            proof {
                k = k + 1;
            }
        }
        proof {
            assert(orig.take(k) =~= orig);
        }
        *all = ans;
    }

    #[verifier::loop_isolation(false)]
    fn visit_list(&mut self, list: &mut Vec<Expr<Pred>>)
        ensures
            model_list(final(list)@) == suppress_list(model_list(old(list)@)),
        decreases 1 + max_height(model_list(old(list)@)), 0nat,
    {
        let ghost l = model_list(list@);
        let mut i: usize = 0;
        while i < list.len()
            invariant
                i <= list.len(),
                model_list(list@).len() == l.len(),
                forall|j: int| 0 <= j < i ==> #[trigger] model_list(list@)[j] == suppress_family(l[j]),
                forall|j: int| i <= j < l.len() ==> #[trigger] model_list(list@)[j] == l[j],
            decreases list.len() - i,
        {
            let ghost before = list@;
            assert(model_list(before)[i as int] == l[i as int]);
            self.visit_mut_expr(&mut list[i]);
            proof {
                lemma_model_update(before, i as int, list@[i as int]);
            }
            i += 1;
        }
        proof {
            lemma_suppress_list(l);
            assert(model_list(list@) =~= suppress_list(l));
        }
    }

    #[verifier::loop_isolation(false)]
    fn visit_all(&mut self, all: &mut Vec<Expr<Pred>>)
        ensures
            model_list(final(all)@) == suppress_walk(
                model_list(old(all)@),
                exists|i: int| 0 <= i < model_list(old(all)@).len() && has_specified_target_os(
                    #[trigger] model_list(old(all)@)[i],
                ),
            ),
        decreases 1 + max_height(model_list(old(all)@)), 1nat,
    {
        let ghost l = model_list(all@);
        let mut found = false;
        let mut i: usize = 0;
        while i < all.len()
            invariant
                i <= all.len(),
                l == model_list(all@),
                found == exists|j: int| 0 <= j < i && has_specified_target_os(#[trigger] l[j]),
            decreases all.len() - i,
        {
            assert(l[i as int] == model(all@[i as int]));
            if Self::has_specified_target_os(&all[i]) {
                found = true;
            }
            i += 1;
        }
        if found {
            Self::remove_suppressed(all);
        } else {
            proof {
                assert(drop_suppressed(l, false) == l) by {
                    lemma_drop_unsuppressed(l);
                }
            }
        }
        proof {
            lemma_suppress_walk(l, found);
            crate::transform::lemma_max_height_of_members(l, drop_suppressed(l, found));
        }
        self.visit_list(all);
    }

    pub fn visit_mut_expr(&mut self, expr: &mut Expr<Pred>)
        ensures
            final(expr)@ == suppress_family(old(expr)@),
        decreases height(old(expr)@), 2nat,
    {
        match expr {
            Expr::All(All(list)) => self.visit_all(list),
            Expr::Any(Any(list)) => {
                let ghost l = model_list(list@);
                proof {
                    lemma_suppress_walk(l, false);
                    lemma_drop_unsuppressed(l);
                }
                self.visit_list(list);
            },
            Expr::Not(Not(not)) => self.visit_mut_expr(not),
            _ => {},
        }
    }
}

proof fn lemma_drop_unsuppressed(l: Seq<Tree<PredView>>)
    ensures
        drop_suppressed(l, false) == l,
    decreases l.len(),
{
    if l.len() > 0 {
        lemma_drop_unsuppressed(l.drop_last());
        assert(l.drop_last().push(l.last()) =~= l);
    }
}

} // verus!

verus! {

/// `x` is a conjunction of exactly two members.
pub open spec fn is_pattern(x: Tree<PredView>) -> bool {
    x is All && x->All_0.len() == 2
}

/// The place of the first pattern in `l` at or after `i`, or `l.len()`.
pub open spec fn first_pattern(l: Seq<Tree<PredView>>, i: int) -> int
    decreases l.len() - i,
{
    if i < 0 || i >= l.len() {
        l.len() as int
    } else if is_pattern(l[i]) {
        i
    } else {
        first_pattern(l, i + 1)
    }
}

/// What the first part of the head pattern contributes: the members of a disjunction, or
/// the part itself.
pub open spec fn head_members(x: Tree<PredView>) -> Seq<Tree<PredView>> {
    match x {
        Tree::Any(a) => a,
        _ => seq![x],
    }
}

/// Moving `x` into the collected members: a disjunction gives its members and anything else
/// gives itself; `false` is left behind.
pub open spec fn take_into(x: Tree<PredView>, agg: Seq<Tree<PredView>>) -> (Seq<Tree<PredView>>, Tree<PredView>) {
    match x {
        Tree::Any(a) => (agg + a, Tree::Const(false)),
        _ => (agg.push(x), Tree::Const(false)),
    }
}

/// Scanning the patterns from place `k` on: one whose second part is the head's common part
/// gives its first part to the collection, and one whose first part is the common part gives
/// its second part.
pub open spec fn pattern_scan(l: Seq<Tree<PredView>>, common: Tree<PredView>, agg: Seq<Tree<PredView>>, k: int) -> (Seq<Tree<PredView>>, Seq<Tree<PredView>>)
    decreases l.len() - k,
{
    if k < 0 || k >= l.len() {
        (l, agg)
    } else if is_pattern(l[k]) {
        let m = l[k]->All_0;
        if m[1] == common {
            let r = take_into(m[0], agg);
            pattern_scan(l.update(k, Tree::All(seq![r.1, m[1]])), common, r.0, k + 1)
        } else if m[0] == common {
            let r = take_into(m[1], agg);
            pattern_scan(l.update(k, Tree::All(seq![m[0], r.1])), common, r.0, k + 1)
        } else {
            pattern_scan(l, common, agg, k + 1)
        }
    } else {
        pattern_scan(l, common, agg, k + 1)
    }
}

/// Factoring in a disjunction: `any(all(x, c), all(y, c))` becomes
/// `any(all(any(x, y), c), all(false, c))`, the first pattern collecting from the others.
pub open spec fn merge_pattern_list(l: Seq<Tree<PredView>>) -> Seq<Tree<PredView>> {
    let h = first_pattern(l, 0);
    if h >= l.len() {
        l
    } else {
        let m = l[h]->All_0;
        let r = pattern_scan(l, m[1], head_members(m[0]), h + 1);
        let agg = r.1;
        let head = if agg.len() == 1 {
            agg[0]
        } else {
            Tree::Any(agg)
        };
        r.0.update(h, Tree::All(seq![head, m[1]]))
    }
}

/// The factoring applied to the whole list and then to the list without its first member.
pub open spec fn merge_pattern_twice(l: Seq<Tree<PredView>>) -> Seq<Tree<PredView>> {
    let m = merge_pattern_list(l);
    if m.len() == 0 {
        m
    } else {
        seq![m[0]] + merge_pattern_list(m.drop_first())
    }
}

/// The factoring at every disjunction reached through conjunctions and negations.
pub open spec fn merge_pattern(t: Tree<PredView>) -> Tree<PredView>
    decreases t,
{
    match t {
        Tree::Any(l) => Tree::Any(merge_pattern_twice(l)),
        Tree::All(l) => Tree::All(merge_pattern_list_walk(l)),
        Tree::Not(b) => Tree::Not(Box::new(merge_pattern(*b))),
        _ => t,
    }
}

pub open spec fn merge_pattern_list_walk(s: Seq<Tree<PredView>>) -> Seq<Tree<PredView>>
    decreases s,
{
    if s.len() == 0 {
        s
    } else {
        merge_pattern_list_walk(s.drop_last()).push(merge_pattern(s.last()))
    }
}

pub proof fn lemma_merge_pattern_list_walk(s: Seq<Tree<PredView>>)
    ensures
        merge_pattern_list_walk(s).len() == s.len(),
        forall|i: int| 0 <= i < s.len() ==> #[trigger] merge_pattern_list_walk(s)[i] == merge_pattern(s[i]),
    decreases s.len(),
{
    if s.len() > 0 {
        lemma_merge_pattern_list_walk(s.drop_last());
    }
}

pub proof fn lemma_first_pattern(l: Seq<Tree<PredView>>, i: int)
    requires
        0 <= i,
    ensures
        first_pattern(l, i) <= l.len(),
        first_pattern(l, i) < l.len() ==> first_pattern(l, i) >= i && is_pattern(l[first_pattern(l, i)]),
    decreases l.len() - i,
{
    if i < l.len() && !is_pattern(l[i]) {
        lemma_first_pattern(l, i + 1);
    }
}

pub proof fn lemma_pattern_scan_len(l: Seq<Tree<PredView>>, common: Tree<PredView>, agg: Seq<Tree<PredView>>, k: int)
    ensures
        pattern_scan(l, common, agg, k).0.len() == l.len(),
    decreases l.len() - k,
{
    if 0 <= k < l.len() && is_pattern(l[k]) {
        let m = l[k]->All_0;
        if m[1] == common {
            let r = take_into(m[0], agg);
            lemma_pattern_scan_len(l.update(k, Tree::All(seq![r.1, m[1]])), common, r.0, k + 1);
        } else if m[0] == common {
            let r = take_into(m[1], agg);
            lemma_pattern_scan_len(l.update(k, Tree::All(seq![m[0], r.1])), common, r.0, k + 1);
        } else {
            lemma_pattern_scan_len(l, common, agg, k + 1);
        }
    } else if 0 <= k < l.len() {
        lemma_pattern_scan_len(l, common, agg, k + 1);
    }
}

} // verus!

verus! {

/// In each disjunction, conjunctions of two members that share one part are factored into
/// the first of them: `any(all(x, c), all(y, c))` becomes
/// `any(all(any(x, y), c), all(false, c))`; once over the whole list and once over the list
/// without its first member.
pub struct MergePattern;

impl MergePattern {
    fn is_pattern(x: &Expr<Pred>) -> (r: bool)
        ensures
            r == is_pattern(x@),
    {
        match x {
            Expr::All(All(all)) => all.len() == 2,
            _ => false,
        }
    }

    fn take_into(x: Expr<Pred>, agg: &mut Vec<Expr<Pred>>) -> (left: Expr<Pred>)
        ensures
            (model_list(final(agg)@), left@) == take_into(x@, model_list(old(agg)@)),
    {
        let ghost pre = agg@;
        match x {
            Expr::Any(Any(mut a)) => {
                let ghost av = a@;
                agg.append(&mut a);
                proof {
                    crate::ast::lemma_model_add(pre, av);
                }
                Expr::Const(false)
            },
            other => {
                agg.push(other);
                proof {
                    crate::ast::lemma_model_push(pre, other);
                }
                Expr::Const(false)
            },
        }
    }

    #[verifier::loop_isolation(false)]
    fn merge(any_list: &mut Vec<Expr<Pred>>)
        ensures
            model_list(final(any_list)@) == merge_pattern_list(model_list(old(any_list)@)),
    {
        let ghost l = model_list(any_list@);
        let mut h: usize = 0;
        while h < any_list.len() && !Self::is_pattern(&any_list[h])
            invariant
                h <= any_list.len(),
                l == model_list(any_list@),
                first_pattern(l, 0) == first_pattern(l, h as int),
            decreases any_list.len() - h,
        {
            assert(l[h as int] == model(any_list@[h as int]));
            h += 1;
        }
        if h >= any_list.len() {
            return;
        }
        assert(l[h as int] == model(any_list@[h as int]));
        let ghost lm = l[h as int]->All_0;
        let ghost before = any_list@;
        let e = take(&mut any_list[h]);
        proof {
            crate::ast::lemma_model_update(before, h as int, any_list@[h as int]);
        }
        let (h0, h1) = match e {
            Expr::All(All(mut m)) => {
                let ghost mv = m@;
                assert(model_list(mv)[0] == model(mv[0]));
                assert(model_list(mv)[1] == model(mv[1]));
                let second = m.pop().unwrap();
                let first = m.pop().unwrap();
                (first, second)
            },
            other => (other, Expr::Const(false)),
        };
        assert(h0@ == lm[0] && h1@ == lm[1]);
        let mut agg: Vec<Expr<Pred>> = match h0 {
            Expr::Any(Any(a)) => a,
            other => vec![other],
        };
        proof {
            assert(model_list(agg@) =~= head_members(lm[0]));
        }
        let ghost mut cur = l;
        let mut k: usize = h + 1;
        while k < any_list.len()
            invariant
                h < k <= any_list.len() == l.len(),
                cur.len() == l.len(),
                cur[h as int] == l[h as int],
                model_list(any_list@) == cur.update(h as int, Tree::Const(false)),
                pattern_scan(l, lm[1], head_members(lm[0]), h + 1) == pattern_scan(
                    cur,
                    lm[1],
                    model_list(agg@),
                    k as int,
                ),
                h1@ == lm[1],
            decreases any_list.len() - k,
        {
            assert(model_list(any_list@)[k as int] == model(any_list@[k as int]));
            assert(cur[k as int] == model(any_list@[k as int]));
            if Self::is_pattern(&any_list[k]) {
                let ghost pre = any_list@;
                let ghost cur0 = cur;
                assert(model_list(pre) == cur0.update(h as int, Tree::Const(false)));
                let e = take(&mut any_list[k]);
                assert(model(e) == cur[k as int]);
                if let Expr::All(All(mut m)) = e {
                    let ghost mm = model_list(m@);
                    assert(cur[k as int] == Tree::All(mm));
                    assert(mm[0] == model(m@[0]));
                    assert(mm[1] == model(m@[1]));
                    let ghost ag = model_list(agg@);
                    if m[1].equals(&h1) {
                        let ghost mv = m@;
                        let x0 = take(&mut m[0]);
                        let left = Self::take_into(x0, &mut agg);
                        m.set(0, left);
                        proof {
                            crate::ast::lemma_model_update(mv, 0, left);
                            crate::ast::lemma_model_update(mv.update(0, Expr::Const(false)), 0, left);
                            let r = take_into(mm[0], ag);
                            assert(model_list(m@) =~= seq![r.1, mm[1]]);
                            cur = cur.update(k as int, Tree::All(seq![r.1, mm[1]]));
                        }
                    } else if m[0].equals(&h1) {
                        let ghost mv = m@;
                        let x1 = take(&mut m[1]);
                        let left = Self::take_into(x1, &mut agg);
                        m.set(1, left);
                        proof {
                            crate::ast::lemma_model_update(mv.update(1, Expr::Const(false)), 1, left);
                            let r = take_into(mm[1], ag);
                            assert(model_list(m@) =~= seq![mm[0], r.1]);
                            cur = cur.update(k as int, Tree::All(seq![mm[0], r.1]));
                        }
                    }
                    let ne = Expr::All(All(m));
                    assert(model(ne) == cur[k as int]);
                    any_list.set(k, ne);
                    proof {
                        crate::ast::lemma_model_update(pre, k as int, ne);
                        assert(cur == cur0.update(k as int, model(ne)));
                        assert(model_list(any_list@) == cur0.update(h as int, Tree::Const(false)).update(k as int, model(ne)));
                        assert(model_list(any_list@) =~= cur.update(h as int, Tree::Const(false)));
                    }
                }
            }
            k += 1;
        }
        let ghost r = pattern_scan(l, lm[1], head_members(lm[0]), h + 1);
        assert(r == (cur, model_list(agg@)));
        let ghost aggm = model_list(agg@);
        let head = if agg.len() == 1 {
            assert(model_list(agg@)[0] == model(agg@[0]));
            agg.pop().unwrap()
        } else {
            Expr::Any(Any(agg))
        };
        let v = vec![head, h1];
        proof {
            assert(model_list(v@) =~= seq![head@, lm[1]]);
        }
        let ghost pre = any_list@;
        let ne = Expr::All(All(v));
        any_list.set(h, ne);
        proof {
            crate::ast::lemma_model_update(pre, h as int, ne);
            lemma_first_pattern(l, 0);
            assert(model_list(any_list@) =~= merge_pattern_list(l));
        }
    }

    fn merge_twice(any_list: &mut Vec<Expr<Pred>>)
        ensures
            model_list(final(any_list)@) == merge_pattern_twice(model_list(old(any_list)@)),
    {
        Self::merge(any_list);
        if any_list.len() > 0 {
            let ghost m = any_list@;
            let first = any_list.remove(0);
            proof {
                crate::ast::lemma_model_remove(m, 0);
                assert(model_list(m).remove(0) =~= model_list(m).drop_first());
                assert(model_list(m)[0] == model(m[0]));
            }
            Self::merge(any_list);
            let ghost rest = any_list@;
            any_list.insert(0, first);
            proof {
                assert(any_list@ =~= seq![first] + rest);
                crate::ast::lemma_model_add(seq![first], rest);
                assert(model_list(seq![first]) =~= seq![first@]) by {
                    crate::ast::lemma_model_list(seq![first]);
                }
            }
        }
    }

    #[verifier::loop_isolation(false)]
    fn visit_list(&mut self, list: &mut Vec<Expr<Pred>>)
        ensures
            model_list(final(list)@) == merge_pattern_list_walk(model_list(old(list)@)),
        decreases 1 + max_height(model_list(old(list)@)), 0nat,
    {
        let ghost l = model_list(list@);
        let mut i: usize = 0;
        while i < list.len()
            invariant
                i <= list.len(),
                model_list(list@).len() == l.len(),
                forall|j: int| 0 <= j < i ==> #[trigger] model_list(list@)[j] == merge_pattern(l[j]),
                forall|j: int| i <= j < l.len() ==> #[trigger] model_list(list@)[j] == l[j],
            decreases list.len() - i,
        {
            let ghost before = list@;
            assert(model_list(before)[i as int] == l[i as int]);
            self.visit_mut_expr(&mut list[i]);
            proof {
                lemma_model_update(before, i as int, list@[i as int]);
            }
            i += 1;
        }
        proof {
            lemma_merge_pattern_list_walk(l);
            assert(model_list(list@) =~= merge_pattern_list_walk(l));
        }
    }

    pub fn visit_mut_expr(&mut self, expr: &mut Expr<Pred>)
        ensures
            final(expr)@ == merge_pattern(old(expr)@),
        decreases height(old(expr)@), 1nat,
    {
        match expr {
            Expr::Any(Any(list)) => Self::merge_twice(list),
            Expr::All(All(list)) => self.visit_list(list),
            Expr::Not(Not(not)) => self.visit_mut_expr(not),
            _ => {},
        }
    }
}

} // verus!

verus! {

/// One round of the rule set.
pub open spec fn simplify_round(t: Tree<PredView>) -> Tree<PredView> {
    let t = flatten_single(t);
    let t = flatten_nested(t);
    let t = dedup_tree(t);
    let t = eval_const(t);
    let t = simplify_nested(t);
    let t = merge_all_of_not_any(t);
    let t = simplify_all_not_any(t);
    let t = merge_all_of_any(t);
    let t = imply_by_key(t);
    let t = suppress_family(t);
    let t = eval_const(t);
    let t = merge_pattern(t);
    let t = eval_const(t);
    let t = short_circuit(t);
    eval_const(t)
}

/// The whole pipeline: families in keyed form, three rounds of the rule set, families back
/// in flag form, then the two orderings.
pub open spec fn simplified(t: Tree<PredView>) -> Tree<PredView> {
    let t = unify_target_family(t);
    let t = simplify_round(simplify_round(simplify_round(t)));
    let t = simplify_target_family(t);
    sort_by_value(sort_by_priority(t))
}

/// Simplifies a platform condition to its canonical form.
pub fn simplified_expr<X: IntoExpr<Pred>>(x: X) -> (r: Expr<Pred>)
    ensures
        r@ == simplified(x.spec_into_expr()@),
{
    let mut x = x.into_expr();
    let ghost x0 = x@;
    UnifyTargetFamily.visit_mut_expr(&mut x);
    let ghost mut t = x@;
    let mut n: usize = 0;
    while n < 3
        invariant
            n <= 3,
            t == unify_target_family(x0),
            x@ == if n == 0 {
                t
            } else if n == 1 {
                simplify_round(t)
            } else if n == 2 {
                simplify_round(simplify_round(t))
            } else {
                simplify_round(simplify_round(simplify_round(t)))
            },
        decreases 3 - n,
    {
        let ghost start = x@;
        FlattenSingle.visit_mut_expr(&mut x);
        FlattenNestedList.visit_mut_expr(&mut x);
        DedupList.visit_mut_expr(&mut x);
        EvalConst.visit_mut_expr(&mut x);
        SimplifyNestedList.visit_mut_expr(&mut x);
        MergeAllOfNotAny.visit_mut_expr(&mut x);
        SimplifyAllNotAny.visit_mut_expr(&mut x);
        MergeAllOfAny.visit_mut_expr(&mut x);
        ImplyByKey.visit_mut_expr(&mut x);
        SuppressTargetFamily.visit_mut_expr(&mut x);
        EvalConst.visit_mut_expr(&mut x);
        MergePattern.visit_mut_expr(&mut x);
        EvalConst.visit_mut_expr(&mut x);
        SimplifyByShortCircuit.visit_mut_expr(&mut x);
        EvalConst.visit_mut_expr(&mut x);
        assert(x@ == simplify_round(start));
        n += 1;
    }
    SimplifyTargetFamily.visit_mut_expr(&mut x);
    SortByPriority.visit_mut_expr(&mut x);
    SortByValue.visit_mut_expr(&mut x);
    x
}

} // verus!

verus! {

/// Sorting keeps every member.
proof fn lemma_insertion_sort_keeps<A>(s: Seq<A>, gt: spec_fn(A, A) -> bool)
    ensures
        forall|i: int| 0 <= i < s.len() ==> insertion_sort(s, gt).contains(#[trigger] s[i]),
    decreases s.len(),
{
    if s.len() > 0 {
        let p = s.drop_last();
        lemma_insertion_sort_keeps(p, gt);
        let q = insertion_sort(p, gt);
        lemma_insert_sorted(q, s.last(), gt);
        let k = insert_pos(q, s.last(), gt);
        let r = insertion_sort(s, gt);
        assert forall|i: int| 0 <= i < s.len() implies r.contains(#[trigger] s[i]) by {
            if i == s.len() - 1 {
                assert(r[k] == s.last());
            } else {
                assert(p[i] == s[i]);
                assert(q.contains(p[i]));
                let j = choose|j: int| 0 <= j < q.len() && q[j] == p[i];
                if j < k {
                    assert(r[j] == q[j]);
                } else {
                    assert(r[j + 1] == q[j]);
                }
            }
        }
    }
}

/// A reordering that keeps exactly the members keeps the truth value.
proof fn lemma_reorder_sound(l: Seq<Tree<PredView>>, r: Seq<Tree<PredView>>, env: spec_fn(PredView) -> bool)
    requires
        forall|i: int| 0 <= i < r.len() ==> l.contains(#[trigger] r[i]),
        forall|i: int| 0 <= i < l.len() ==> r.contains(#[trigger] l[i]),
    ensures
        crate::eval::eval_or(r, env) == crate::eval::eval_or(l, env),
        crate::eval::eval_and(r, env) == crate::eval::eval_and(l, env),
{
    assert forall|x: Tree<PredView>| r.contains(x) implies l.contains(x) by {
        let i = choose|i: int| 0 <= i < r.len() && r[i] == x;
    }
    assert forall|x: Tree<PredView>| l.contains(x) implies r.contains(x) by {
        let i = choose|i: int| 0 <= i < l.len() && l[i] == x;
    }
    crate::transform::lemma_eval_same_members(r, l, env);
}

/// Ordering by priority keeps the truth value under every assignment.
pub proof fn lemma_sort_by_priority_sound(t: Tree<PredView>, env: spec_fn(PredView) -> bool)
    ensures
        crate::eval::eval(sort_by_priority(t), env) == crate::eval::eval(t, env),
    decreases height(t),
{
    match t {
        Tree::Any(l) | Tree::All(l) => {
            let disj = t is Any;
            let r = priority_order(l);
            lemma_priority_order(l);
            lemma_insertion_sort_keeps(l, |a: Tree<PredView>, b: Tree<PredView>| gt_priority(a, b));
            lemma_sort_by_priority_list(l, disj);
            let s = crate::transform::members_of(sort_by_priority(t), disj)->0;
            assert forall|i: int| 0 <= i < r.len() implies crate::eval::eval(#[trigger] s[i], env)
                == crate::eval::eval(r[i], env) by {
                lemma_sort_by_priority_sound(r[i], env);
            }
            crate::eval::lemma_eval_pointwise(s, r, env);
            lemma_reorder_sound(l, r, env);
        },
        Tree::Not(b) => {
            lemma_sort_by_priority_sound(*b, env);
        },
        _ => {},
    }
}

/// Ordering by value keeps the truth value under every assignment.
pub proof fn lemma_sort_by_value_sound(t: Tree<PredView>, env: spec_fn(PredView) -> bool)
    ensures
        crate::eval::eval(sort_by_value(t), env) == crate::eval::eval(t, env),
    decreases height(t),
{
    match t {
        Tree::Any(l) | Tree::All(l) => {
            let disj = t is Any;
            let r = value_order(l);
            let g1 = |a: Tree<PredView>, b: Tree<PredView>| cmp_var(a, b) > 0;
            let g2 = |a: Tree<PredView>, b: Tree<PredView>| cmp_not(a, b) > 0;
            let m = insertion_sort(l, g1);
            lemma_value_order(l);
            lemma_insertion_sort_keeps(l, g1);
            lemma_insertion_sort_keeps(m, g2);
            lemma_insertion_sort_members(l, g1);
            assert forall|i: int| 0 <= i < l.len() implies r.contains(#[trigger] l[i]) by {
                assert(m.contains(l[i]));
                let k = choose|k: int| 0 <= k < m.len() && m[k] == l[i];
            }
            lemma_sort_by_value_list(l, disj);
            let s = crate::transform::members_of(sort_by_value(t), disj)->0;
            assert forall|i: int| 0 <= i < r.len() implies crate::eval::eval(#[trigger] s[i], env)
                == crate::eval::eval(r[i], env) by {
                lemma_sort_by_value_sound(r[i], env);
            }
            crate::eval::lemma_eval_pointwise(s, r, env);
            lemma_reorder_sound(l, r, env);
        },
        Tree::Not(b) => {
            lemma_sort_by_value_sound(*b, env);
        },
        _ => {},
    }
}

} // verus!

verus! {

/// A disjunction whose members change at two places keeps its value when the two places
/// together keep theirs.
proof fn lemma_eval_or_two(s: Seq<Tree<PredView>>, t: Seq<Tree<PredView>>, h: int, k: int, env: spec_fn(PredView) -> bool)
    requires
        s.len() == t.len(),
        0 <= h < s.len(),
        0 <= k < s.len(),
        forall|j: int| 0 <= j < s.len() && j != h && j != k ==> #[trigger] s[j] == t[j],
        (crate::eval::eval(s[h], env) || crate::eval::eval(s[k], env)) == (crate::eval::eval(t[h], env)
            || crate::eval::eval(t[k], env)),
    ensures
        crate::eval::eval_or(s, env) == crate::eval::eval_or(t, env),
{
    broadcast use crate::eval::group_eval;

    if crate::eval::eval_or(s, env) {
        let i = choose|i: int| 0 <= i < s.len() && crate::eval::eval(#[trigger] s[i], env);
        if i != h && i != k {
            assert(crate::eval::eval(t[i], env));
        } else if crate::eval::eval(t[h], env) {
            assert(crate::eval::eval(t[h], env));
        } else {
            assert(crate::eval::eval(t[k], env));
        }
    }
    if crate::eval::eval_or(t, env) {
        let i = choose|i: int| 0 <= i < t.len() && crate::eval::eval(#[trigger] t[i], env);
        if i != h && i != k {
            assert(crate::eval::eval(s[i], env));
        } else if crate::eval::eval(s[h], env) {
            assert(crate::eval::eval(s[h], env));
        } else {
            assert(crate::eval::eval(s[k], env));
        }
    }
}

/// The head pattern while it collects: `all(any(agg), common)`.
pub open spec fn head_of(agg: Seq<Tree<PredView>>, common: Tree<PredView>) -> Tree<PredView> {
    Tree::All(seq![Tree::Any(agg), common])
}

proof fn lemma_eval_head(agg: Seq<Tree<PredView>>, common: Tree<PredView>, env: spec_fn(PredView) -> bool)
    ensures
        crate::eval::eval(head_of(agg, common), env) == (crate::eval::eval_or(agg, env) && crate::eval::eval(common, env)),
{
    let h = head_of(agg, common);
    assert(h->All_0 =~= seq![Tree::Any(agg), common]);
    crate::transform::lemma_eval_pair(Tree::Any(agg), common, env);
}

/// After `take_into`, the collection holds exactly when it held before or `x` holds, and
/// what is left behind is false.
proof fn lemma_take_into_sound(x: Tree<PredView>, agg: Seq<Tree<PredView>>, env: spec_fn(PredView) -> bool)
    ensures
        ({
            let r = take_into(x, agg);
            &&& !crate::eval::eval(r.1, env)
            &&& crate::eval::eval_or(r.0, env) == (crate::eval::eval_or(agg, env) || crate::eval::eval(x, env))
        }),
{
    match x {
        Tree::Any(a) => {
            crate::eval::lemma_eval_add(agg, a, env);
        },
        _ => {
            crate::eval::lemma_eval_add(agg, seq![x], env);
            crate::eval::lemma_eval_single(x, env);
            assert(agg + seq![x] =~= agg.push(x));
        },
    }
}

proof fn lemma_pattern_scan_sound(
    l: Seq<Tree<PredView>>,
    h: int,
    common: Tree<PredView>,
    agg: Seq<Tree<PredView>>,
    k: int,
    env: spec_fn(PredView) -> bool,
)
    requires
        0 <= h < k,
        h < l.len(),
    ensures
        pattern_scan(l, common, agg, k).0.len() == l.len(),
        crate::eval::eval_or(
            pattern_scan(l, common, agg, k).0.update(h, head_of(pattern_scan(l, common, agg, k).1, common)),
            env,
        ) == crate::eval::eval_or(l.update(h, head_of(agg, common)), env),
    decreases l.len() - k,
{
    if k < l.len() && is_pattern(l[k]) {
        let m = l[k]->All_0;
        let (slot, took) = if m[1] == common { (0int, m[0]) } else { (1int, m[1]) };
        if m[1] == common || m[0] == common {
            let r = take_into(took, agg);
            let nx = if slot == 0 { Tree::All(seq![r.1, m[1]]) } else { Tree::All(seq![m[0], r.1]) };
            let l2 = l.update(k, nx);
            lemma_pattern_scan_sound(l2, h, common, r.0, k + 1, env);
            lemma_take_into_sound(took, agg, env);
            lemma_eval_head(agg, common, env);
            lemma_eval_head(r.0, common, env);
            crate::transform::lemma_eval_pair(m[0], m[1], env);
            crate::transform::lemma_eval_pair(nx->All_0[0], nx->All_0[1], env);
            assert(m =~= seq![m[0], m[1]]);
            assert(nx->All_0 =~= seq![nx->All_0[0], nx->All_0[1]]);
            let s1 = l2.update(h, head_of(r.0, common));
            let s0 = l.update(h, head_of(agg, common));
            lemma_eval_or_two(s1, s0, h, k, env);
        } else {
            lemma_pattern_scan_sound(l, h, common, agg, k + 1, env);
        }
    } else if k < l.len() {
        lemma_pattern_scan_sound(l, h, common, agg, k + 1, env);
    }
}

/// Factoring the patterns of a disjunction keeps its truth value.
pub proof fn lemma_merge_pattern_list_sound(l: Seq<Tree<PredView>>, env: spec_fn(PredView) -> bool)
    ensures
        crate::eval::eval_or(merge_pattern_list(l), env) == crate::eval::eval_or(l, env),
{
    let h = first_pattern(l, 0);
    lemma_first_pattern(l, 0);
    if h < l.len() {
        let m = l[h]->All_0;
        let c = m[1];
        let a0 = head_members(m[0]);
        let r = pattern_scan(l, c, a0, h + 1);
        lemma_pattern_scan_sound(l, h, c, a0, h + 1, env);
        lemma_eval_head(a0, c, env);
        lemma_eval_head(r.1, c, env);
        crate::transform::lemma_eval_pair(m[0], m[1], env);
        assert(m =~= seq![m[0], m[1]]);
        if !(m[0] is Any) {
            crate::eval::lemma_eval_single(m[0], env);
        }
        let agg = r.1;
        let head = if agg.len() == 1 { agg[0] } else { Tree::Any(agg) };
        let fin = Tree::All(seq![head, c]);
        crate::transform::lemma_eval_pair(head, c, env);
        if agg.len() == 1 {
            assert(agg =~= seq![agg[0]]);
            crate::eval::lemma_eval_single(agg[0], env);
        }
        assert(fin->All_0 =~= seq![head, c]);
        lemma_eval_or_two(r.0.update(h, fin), r.0.update(h, head_of(agg, c)), h, h, env);
        lemma_eval_or_two(l.update(h, head_of(a0, c)), l, h, h, env);
        assert(l.update(h, l[h]) =~= l);
    }
}

/// Factoring common parts keeps the truth value under every assignment.
pub proof fn lemma_merge_pattern_sound(t: Tree<PredView>, env: spec_fn(PredView) -> bool)
    ensures
        crate::eval::eval(merge_pattern(t), env) == crate::eval::eval(t, env),
    decreases t,
{
    match t {
        Tree::Any(l) => {
            let m = merge_pattern_list(l);
            lemma_merge_pattern_list_sound(l, env);
            if m.len() > 0 {
                let tail = m.drop_first();
                lemma_merge_pattern_list_sound(tail, env);
                assert(m =~= seq![m[0]] + tail);
                crate::eval::lemma_eval_add(seq![m[0]], tail, env);
                crate::eval::lemma_eval_add(seq![m[0]], merge_pattern_list(tail), env);
            }
        },
        Tree::All(l) => {
            let w = merge_pattern_list_walk(l);
            lemma_merge_pattern_list_walk(l);
            assert forall|i: int| 0 <= i < l.len() implies crate::eval::eval(#[trigger] w[i], env)
                == crate::eval::eval(l[i], env) by {
                lemma_merge_pattern_sound(l[i], env);
            }
            crate::eval::lemma_eval_pointwise(w, l, env);
        },
        Tree::Not(b) => {
            lemma_merge_pattern_sound(*b, env);
        },
        _ => {},
    }
}

} // verus!

verus! {

/// An assignment in which each unique key takes at most one value.
pub open spec fn is_platform_env(env: spec_fn(PredView) -> bool) -> bool {
    forall|k: Seq<char>, v: Seq<char>, w: Seq<char>|
        unique_keys().contains(k) && v != w && #[trigger] env((k, Some(v))) ==> !#[trigger] env((k, Some(w)))
}

/// What `fix` assumes about `key`: its atoms outside `values` are false, and the only value,
/// when there is one, is true.
pub open spec fn fixed_in(key: Seq<char>, values: Seq<Seq<char>>, env: spec_fn(PredView) -> bool) -> bool {
    &&& forall|w: Seq<char>| !values.contains(w) ==> !#[trigger] env((key, Some(w)))
    &&& values.len() == 1 ==> env((key, Some(values[0])))
}

proof fn lemma_fix_sound(key: Seq<char>, values: Seq<Seq<char>>, t: Tree<PredView>, env: spec_fn(PredView) -> bool)
    requires
        fixed_in(key, values, env),
    ensures
        crate::eval::eval(fix(key, values, t), env) == crate::eval::eval(t, env),
    decreases t,
{
    match t {
        Tree::Any(l) | Tree::All(l) => {
            let r = fix_list(key, values, l);
            lemma_fix_list(key, values, l);
            assert forall|i: int| 0 <= i < l.len() implies crate::eval::eval(#[trigger] r[i], env)
                == crate::eval::eval(l[i], env) by {
                lemma_fix_sound(key, values, l[i], env);
            }
            crate::eval::lemma_eval_pointwise(r, l, env);
        },
        Tree::Not(b) => {
            lemma_fix_sound(key, values, *b, env);
        },
        Tree::Var(p) => {
            if p.0 == key && p.1 is Some && values.contains(p.1->0) && values.len() == 1 {
                let j = choose|j: int| 0 <= j < values.len() && values[j] == p.1->0;
                assert(j == 0);
            }
        },
        _ => {},
    }
}

/// The key that `x` fixes.
pub open spec fn fixed_key(x: Tree<PredView>) -> Seq<char> {
    let kv = fixes(x)->0;
    kv.0
}

/// The values that `x` allows its key.
pub open spec fn fixed_values(x: Tree<PredView>) -> Seq<Seq<char>> {
    let kv = fixes(x)->0;
    kv.1
}

/// When a member that fixes a key holds, what it fixes is true of the assignment.
proof fn lemma_fixes_hold(x: Tree<PredView>, env: spec_fn(PredView) -> bool)
    requires
        is_platform_env(env),
        fixes(x) is Some,
        crate::eval::eval(x, env),
    ensures
        fixed_in(fixed_key(x), fixed_values(x), env),
{
    broadcast use crate::eval::group_eval;

    let (k, vs) = fixes(x)->0;
    match x {
        Tree::Var(p) => {
            let v = p.1->0;
            assert(vs =~= seq![v]);
            assert forall|w: Seq<char>| !vs.contains(w) implies !#[trigger] env((k, Some(w))) by {
                if w == v {
                    assert(vs[0] == w);
                }
            }
        },
        Tree::Any(m) => {
            assert(crate::eval::eval(x, env) == crate::eval::eval_or(m, env));
            crate::eval::lemma_eval_or(m, env);
            let i = choose|i: int| 0 <= i < m.len() && crate::eval::eval(#[trigger] m[i], env);
            assert(all_of_key(m, k)) by {
                lemma_any_key_from(m, 0);
            }
            assert(unique_keys().contains(k)) by {
                lemma_any_key_from(m, 0);
            }
            assert(any_key_from(m, 0) is Some);
            assert(k == any_key_from(m, 0)->0);
            assert(forall|q: int| 0 <= q < m.len() ==> (#[trigger] m[q])->Var_0.1 is Some);
            assert(vs == values_of(m));
            assert(m[i] is Var && m[i]->Var_0.0 == k);
            assert(m[i]->Var_0.1 is Some);
            let v = m[i]->Var_0.1->0;
            assert(m[i] == Tree::Var((k, Some(v))));
            assert(vs[i] == v);
            assert forall|w: Seq<char>| !vs.contains(w) implies !#[trigger] env((k, Some(w))) by {
                assert(w != v);
            }
            if vs.len() == 1 {
                assert(i == 0);
            }
        },
        _ => {},
    }
}

proof fn lemma_any_key_from(m: Seq<Tree<PredView>>, n: int)
    ensures
        any_key_from(m, n) is Some ==> all_of_key(m, any_key_from(m, n)->0) && unique_keys().contains(
            any_key_from(m, n)->0,
        ),
    decreases 6 - n,
{
    if 0 <= n < 6 && !all_of_key(m, unique_keys()[n]) {
        lemma_any_key_from(m, n + 1);
    }
    if 0 <= n < 6 && all_of_key(m, unique_keys()[n]) {
        assert(unique_keys().contains(unique_keys()[n]));
    }
}

proof fn lemma_imply_scan_sound(l: Seq<Tree<PredView>>, i: int, env: spec_fn(PredView) -> bool)
    requires
        is_platform_env(env),
    ensures
        crate::eval::eval_and(imply_scan(l, i), env) == crate::eval::eval_and(l, env),
    decreases l.len() - i,
{
    broadcast use crate::eval::group_eval;

    if 0 <= i < l.len() {
        match fixes(l[i]) {
            Some(kv) => {
                let l2 = fix_others(l, i, kv.0, kv.1);
                lemma_imply_scan_sound(l2, i + 1, env);
                if crate::eval::eval(l[i], env) {
                    lemma_fixes_hold(l[i], env);
                    assert forall|j: int| 0 <= j < l.len() implies crate::eval::eval(#[trigger] l2[j], env)
                        == crate::eval::eval(l[j], env) by {
                        if j != i {
                            lemma_fix_sound(kv.0, kv.1, l[j], env);
                        }
                    }
                    crate::eval::lemma_eval_pointwise(l2, l, env);
                } else {
                    assert(!crate::eval::eval(l2[i], env));
                }
            },
            None => {
                lemma_imply_scan_sound(l, i + 1, env);
            },
        }
    }
}

/// In every assignment where each unique key takes at most one value, deciding atoms by
/// what the other members of a conjunction fix keeps the truth value.
pub proof fn lemma_imply_by_key_sound(t: Tree<PredView>, env: spec_fn(PredView) -> bool)
    requires
        is_platform_env(env),
    ensures
        crate::eval::eval(imply_by_key(t), env) == crate::eval::eval(t, env),
    decreases t,
{
    match t {
        Tree::All(l) | Tree::Any(l) => {
            let m = imply_by_key_list(l);
            lemma_imply_by_key_list(l);
            assert forall|i: int| 0 <= i < l.len() implies crate::eval::eval(#[trigger] m[i], env)
                == crate::eval::eval(l[i], env) by {
                lemma_imply_by_key_sound(l[i], env);
            }
            crate::eval::lemma_eval_pointwise(m, l, env);
            if t is All {
                lemma_imply_scan_sound(m, 0, env);
            }
        },
        Tree::Not(b) => {
            lemma_imply_by_key_sound(*b, env);
        },
        _ => {},
    }
}

} // verus!

verus! {

/// An assignment in which each family flag has the value of the keyed family.
pub open spec fn is_family_consistent(env: spec_fn(PredView) -> bool) -> bool {
    forall|f: Seq<char>| is_family_name(f) ==> #[trigger] env((f, None)) == env(("target_family"@, Some(f)))
}

proof fn lemma_map_atoms_sound(t: Tree<PredView>, f: spec_fn(PredView) -> PredView, env: spec_fn(PredView) -> bool)
    requires
        forall|p: PredView| #[trigger] env(f(p)) == env(p),
    ensures
        crate::eval::eval(map_atoms(t, f), env) == crate::eval::eval(t, env),
    decreases t,
{
    match t {
        Tree::Any(l) | Tree::All(l) => {
            let r = map_atoms_list(l, f);
            lemma_map_atoms_list(l, f);
            assert forall|i: int| 0 <= i < l.len() implies crate::eval::eval(#[trigger] r[i], env)
                == crate::eval::eval(l[i], env) by {
                lemma_map_atoms_sound(l[i], f, env);
            }
            crate::eval::lemma_eval_pointwise(r, l, env);
        },
        Tree::Not(b) => {
            lemma_map_atoms_sound(*b, f, env);
        },
        _ => {},
    }
}

/// In every assignment where the family flags agree with the keyed families, writing the
/// families in either form keeps the truth value.
pub proof fn lemma_target_family_forms_sound(t: Tree<PredView>, env: spec_fn(PredView) -> bool)
    requires
        is_family_consistent(env),
    ensures
        crate::eval::eval(unify_target_family(t), env) == crate::eval::eval(t, env),
        crate::eval::eval(simplify_target_family(t), env) == crate::eval::eval(t, env),
{
    let u = |p: PredView| unify_family(p);
    let s = |p: PredView| simplify_family(p);
    assert forall|p: PredView| #[trigger] env(u(p)) == env(p) by {
        if p.1 is None && is_family_name(p.0) {
            assert(env((p.0, None)) == env(("target_family"@, Some(p.0))));
        }
    }
    assert forall|p: PredView| #[trigger] env(s(p)) == env(p) by {
        if p.0 == "target_family"@ && p.1 is Some && is_family_name(p.1->0) {
            assert(env((p.1->0, None)) == env(("target_family"@, Some(p.1->0))));
        }
    }
    lemma_map_atoms_sound(t, u, env);
    lemma_map_atoms_sound(t, s, env);
}

} // verus!
