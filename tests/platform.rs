use cfg_logic::cfg::{all, any, expr, flag, not, target_arch, target_family, target_os, Pred};
use cfg_logic::eval::eval_with;
use cfg_logic::domain::{simplified_expr, ImplyByKey, MergePattern, SortByPriority, SortByValue, SuppressTargetFamily};

#[test]
fn ast_cfg_string() {
    {
        let cfg = expr(target_family("unix"));
        let expected = r#"target_family = "unix""#;
        assert_eq!(cfg.to_string(), expected);
    }
    {
        let cfg = expr(any(vec![expr(target_os("linux")), expr(target_os("android"))]));
        let expected = r#"any(target_os = "linux", target_os = "android")"#;
        assert_eq!(cfg.to_string(), expected);
    }
}

#[test]
fn sort() {
    let mut expr = expr(all(vec![expr(not(flag("unix"))), expr(flag("unix"))]));
    SortByPriority.visit_mut_expr(&mut expr);
    assert_eq!(expr.to_string(), "all(unix, not(unix))");
}

#[test]
fn imply() {
    {
        let mut expr = expr(all(vec![expr(target_os("linux")), expr(not(target_os("emscripten")))]));
        ImplyByKey.visit_mut_expr(&mut expr);
        assert_eq!(expr.to_string(), r#"all(target_os = "linux", not(false))"#)
    }
    {
        let mut expr = expr(all(vec![
            expr(any(vec![expr(target_os("ios")), expr(target_os("macos"))])),
            expr(any(vec![expr(target_os("linux")), expr(target_os("android"))])),
        ]));
        ImplyByKey.visit_mut_expr(&mut expr);
        assert_eq!(expr.to_string(), r#"all(any(target_os = "ios", target_os = "macos"), any(false, false))"#);
    }
}

#[test]
fn simplify_absorbing_elements() {
    assert_eq!(simplified_expr(any(vec![])).to_string(), "false");
    assert_eq!(simplified_expr(all(vec![])).to_string(), "true");
}

#[test]
fn simplify_double_negation() {
    assert_eq!(simplified_expr(not(not(any(vec![])))).to_string(), "false");
    assert_eq!(simplified_expr(not(not(not(any(vec![]))))).to_string(), "true");
}

#[test]
fn simplify_canonical_sort() {
    let e = all(vec![expr(not(target_os("linux"))), expr(flag("unix")), expr(target_arch("arm"))]);
    assert_eq!(simplified_expr(e).to_string(), r#"all(target_arch = "arm", unix, not(target_os = "linux"))"#);
    let e = all(vec![expr(target_arch("arm")), expr(not(target_os("linux"))), expr(flag("unix"))]);
    assert_eq!(simplified_expr(e).to_string(), r#"all(target_arch = "arm", unix, not(target_os = "linux"))"#);
}

#[test]
fn simplify_contradiction() {
    let e = all(vec![expr(not(flag("unix"))), expr(flag("unix"))]);
    assert_eq!(simplified_expr(e).to_string(), "false");
}

#[test]
fn simplify_key_exclusivity() {
    let e = all(vec![expr(target_os("linux")), expr(not(target_os("emscripten")))]);
    assert_eq!(simplified_expr(e).to_string(), r#"target_os = "linux""#);
}

#[test]
fn simplify_disjoint_any_groups() {
    let e = all(vec![
        expr(any(vec![expr(target_os("ios")), expr(target_os("macos"))])),
        expr(any(vec![expr(target_os("linux")), expr(target_os("android"))])),
    ]);
    assert_eq!(simplified_expr(e).to_string(), "false");
}

#[test]
fn simplify_suppresses_family_and_orders_keys() {
    let e = all(vec![expr(target_os("linux")), expr(flag("unix")), expr(target_arch("x86_64"))]);
    assert_eq!(simplified_expr(e).to_string(), r#"all(target_arch = "x86_64", target_os = "linux")"#);
}

#[test]
fn sort_by_value_orders_atoms_then_negations() {
    let mut e = expr(all(vec![
        expr(target_os("macos")),
        expr(flag("unix")),
        expr(target_os("linux")),
        expr(flag("target_os")),
        expr(not(target_os("b"))),
        expr(not(target_os("a"))),
    ]));
    SortByValue.visit_mut_expr(&mut e);
    assert_eq!(
        e.to_string(),
        r#"all(target_os, target_os = "linux", target_os = "macos", unix, not(target_os = "a"), not(target_os = "b"))"#
    );
}

#[test]
fn suppress_target_family_drops_family() {
    let mut e = expr(all(vec![expr(target_family("unix")), expr(target_os("linux")), expr(not(target_family("windows")))]));
    SuppressTargetFamily.visit_mut_expr(&mut e);
    assert_eq!(e.to_string(), r#"all(target_os = "linux", not(target_family = "windows"))"#);

    let mut e = expr(all(vec![expr(target_os("linux")), expr(not(target_family("unix")))]));
    SuppressTargetFamily.visit_mut_expr(&mut e);
    assert_eq!(e.to_string(), r#"all(target_os = "linux", not(target_family = "unix"))"#);
}

#[test]
fn merge_pattern_factors_common_part() {
    let mut e = expr(any(vec![
        expr(all(vec![expr(target_os("linux")), expr(target_arch("x86"))])),
        expr(all(vec![expr(target_os("android")), expr(target_arch("x86"))])),
    ]));
    MergePattern.visit_mut_expr(&mut e);
    assert_eq!(
        e.to_string(),
        r#"any(all(any(target_os = "linux", target_os = "android"), target_arch = "x86"), all(false, target_arch = "x86"))"#
    );
}

#[test]
fn simplify_preserves_truth_over_four_flags() {
    let names = ["a", "b", "c", "d"];
    let build = || {
        cfg_logic::cfg::expr(any(vec![
            expr(all(vec![expr(flag("a")), expr(flag("b"))])),
            expr(all(vec![expr(flag("a")), expr(not(any(vec![expr(flag("c")), expr(flag("a"))])))])),
            expr(not(not(flag("d")))),
            expr(all(vec![expr(any(vec![expr(flag("b")), expr(flag("c"))])), expr(any(vec![expr(flag("c"))]))])),
        ]))
    };
    let simplified = simplified_expr(build());
    let original = build();
    for i in 0..16u32 {
        let assign = |p: &Pred| {
            let k = names.iter().position(|n| *n == p.key.as_str()).unwrap() as u32;
            ((i >> k) & 1) == 1
        };
        assert_eq!(eval_with(&simplified, &assign), eval_with(&original, &assign), "i = {i}");
    }
}

#[test]
fn merge_pattern_takes_parts_of_any_shape() {
    let mut e = expr(any(vec![
        expr(all(vec![expr(flag("a")), expr(flag("c"))])),
        expr(all(vec![expr(not(flag("b"))), expr(flag("c"))])),
        expr(all(vec![expr(flag("c")), expr(all(vec![expr(flag("d")), expr(flag("e"))]))])),
    ]));
    MergePattern.visit_mut_expr(&mut e);
    assert_eq!(e.to_string(), "any(all(any(a, not(b), all(d, e)), c), all(any(false, false), c), all(c, false))");
}
