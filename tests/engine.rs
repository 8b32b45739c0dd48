use cfg_logic::ast::{all, any, const_, expr, not, var, Expr};
use cfg_logic::eval::eval_with;
use cfg_logic::transform::{
    DedupList, EvalConst, FlattenByDeMorgan, FlattenNestedList, FlattenSingle, MergeAllOfAny, MergeAllOfNotAny,
    SimplifyAllNotAny, SimplifyByShortCircuit, SimplifyNestedList,
};

#[test]
fn flatten_cfg_if() {
    let (x0, x1, x2) = (var(0), var(1), var(2));
    let src = expr(all(vec![expr(not(any(vec![expr(x0), expr(x1)]))), expr(x2)]));
    let dst = expr(all(vec![expr(not(x0)), expr(not(x1)), expr(x2)]));

    for i in 0..8 {
        let assign = |x: &i32| ((i >> x) & 1) == 1;
        let lhs = eval_with(&src, &assign);
        let rhs = eval_with(&dst, &assign);
        assert_eq!(lhs, rhs, "i = {i}");
    }
}

#[test]
fn eval_const() {
    let mut cfg: Expr<u32> = expr(not(not(any(vec![]))));
    EvalConst.visit_mut_expr(&mut cfg);
    assert_eq!(cfg.to_string(), "false");
}

#[test]
fn eval_const_folds_literals() {
    let mut cfg: Expr<u32> = expr(any(vec![const_(false), expr(var(1)), expr(all(vec![const_(true)]))]));
    EvalConst.visit_mut_expr(&mut cfg);
    assert_eq!(cfg.to_string(), "true");

    let mut cfg: Expr<u32> = expr(all(vec![const_(true), expr(var(1)), expr(not(const_(true)))]));
    EvalConst.visit_mut_expr(&mut cfg);
    assert_eq!(cfg.to_string(), "false");

    let mut cfg: Expr<u32> = expr(any(vec![const_(false), expr(var(7))]));
    EvalConst.visit_mut_expr(&mut cfg);
    assert_eq!(cfg.to_string(), "any(7)");
}

#[test]
fn eval_of_empty_lists() {
    let f = |_: &u32| true;
    assert!(!eval_with(&expr(any::<u32>(vec![])), &f));
    assert!(eval_with(&expr(all::<u32>(vec![])), &f));
}

#[test]
fn flatten_single_rules() {
    let mut cfg: Expr<u32> = expr(any(vec![]));
    FlattenSingle.visit_mut_expr(&mut cfg);
    assert_eq!(cfg.to_string(), "false");

    let mut cfg: Expr<u32> = expr(all(vec![]));
    FlattenSingle.visit_mut_expr(&mut cfg);
    assert_eq!(cfg.to_string(), "true");

    let mut cfg: Expr<u32> = expr(not(not(not(any(vec![expr(all(vec![expr(var(3))]))])))));
    FlattenSingle.visit_mut_expr(&mut cfg);
    assert_eq!(cfg.to_string(), "not(3)");
}

#[test]
fn flatten_nested_list_lifts_one_level() {
    let mut cfg: Expr<u32> = expr(any(vec![
        expr(var(1)),
        expr(any(vec![expr(var(2)), expr(any(vec![expr(var(3))]))])),
        expr(all(vec![expr(var(4)), expr(all(vec![expr(var(5))]))])),
    ]));
    FlattenNestedList.visit_mut_expr(&mut cfg);
    assert_eq!(cfg.to_string(), "any(1, 2, any(3), all(4, 5))");
}

#[test]
fn dedup_keeps_first_occurrences() {
    let mut cfg: Expr<u32> = expr(all(vec![
        expr(var(2)),
        expr(var(1)),
        expr(var(2)),
        expr(not(var(1))),
        expr(var(1)),
        expr(not(var(1))),
    ]));
    DedupList.visit_mut_expr(&mut cfg);
    assert_eq!(cfg.to_string(), "all(2, 1, not(1))");
}

#[test]
fn de_morgan_pushes_negation() {
    let mut cfg: Expr<u32> = expr(not(any(vec![expr(var(1)), expr(all(vec![expr(var(2)), expr(var(3))]))])));
    FlattenByDeMorgan.visit_mut_expr(&mut cfg);
    assert_eq!(cfg.to_string(), "all(not(1), any(not(2), not(3)))");
}

#[test]
fn simplify_nested_list_cross_elimination() {
    let mut cfg: Expr<u32> = expr(any(vec![
        expr(var(0)),
        expr(all(vec![expr(var(0)), expr(var(1))])),
        expr(var(2)),
    ]));
    SimplifyNestedList.visit_mut_expr(&mut cfg);
    assert_eq!(cfg.to_string(), "any(0, 2)");

    let mut cfg: Expr<u32> = expr(all(vec![
        expr(var(0)),
        expr(any(vec![expr(var(0)), expr(var(1))])),
        expr(var(2)),
    ]));
    SimplifyNestedList.visit_mut_expr(&mut cfg);
    assert_eq!(cfg.to_string(), "all(0, 2)");
}

#[test]
fn simplify_all_not_any_counteracts() {
    let mut cfg: Expr<u32> = expr(all(vec![
        expr(not(any(vec![expr(var(1)), expr(var(2))]))),
        expr(any(vec![expr(var(1)), expr(var(3))])),
    ]));
    SimplifyAllNotAny.visit_mut_expr(&mut cfg);
    assert_eq!(cfg.to_string(), "all(not(any(1, 2)), any(3))");

    let mut cfg: Expr<u32> = expr(all(vec![expr(any(vec![expr(var(1)), expr(var(3))])), expr(not(var(3)))]));
    SimplifyAllNotAny.visit_mut_expr(&mut cfg);
    assert_eq!(cfg.to_string(), "all(any(1), not(3))");
}

#[test]
fn merge_all_of_not_any_merges() {
    let mut cfg: Expr<u32> = expr(all(vec![
        expr(not(any(vec![expr(var(1))]))),
        expr(var(9)),
        expr(not(var(2))),
        expr(not(any(vec![expr(var(3))]))),
    ]));
    MergeAllOfNotAny.visit_mut_expr(&mut cfg);
    assert_eq!(cfg.to_string(), "all(not(any(1, 3, 2)), 9)");
}

#[test]
fn merge_all_of_any_marks_superset() {
    let mut cfg: Expr<u32> = expr(all(vec![
        expr(any(vec![expr(var(1)), expr(var(2)), expr(var(3))])),
        expr(any(vec![expr(var(2)), expr(var(1))])),
    ]));
    MergeAllOfAny.visit_mut_expr(&mut cfg);
    assert_eq!(cfg.to_string(), "all(any(true), any(2, 1))");
}

#[test]
fn short_circuit_replaces_repeats() {
    let mut cfg: Expr<u32> = expr(any(vec![
        expr(var(1)),
        expr(all(vec![expr(var(1)), expr(var(2))])),
        expr(var(1)),
    ]));
    SimplifyByShortCircuit.visit_mut_expr(&mut cfg);
    assert_eq!(cfg.to_string(), "any(1, all(false, 2), false)");

    let mut cfg: Expr<u32> = expr(all(vec![expr(var(4)), expr(not(var(4)))]));
    SimplifyByShortCircuit.visit_mut_expr(&mut cfg);
    assert_eq!(cfg.to_string(), "all(4, not(true))");
}

#[test]
fn structural_equality() {
    let a: Expr<u32> = expr(all(vec![expr(var(1)), expr(not(var(2)))]));
    let b: Expr<u32> = expr(all(vec![expr(var(1)), expr(not(var(2)))]));
    let c: Expr<u32> = expr(all(vec![expr(var(1)), expr(not(var(3)))]));
    assert!(a.equals(&b));
    assert!(!a.equals(&c));
}
