use lumi::liveness::{free_vars, free_vars_arm, pat_bindings, pat_bindings_ordered, use_count};
use lumi::{Expr, MatchArm, Pattern};

#[test]
fn free_vars_in_order_of_first_occurrence() {
    let e = Expr::let_(
        "x",
        Expr::var("y"),
        Expr::app(Expr::app(Expr::var("x"), Expr::var("z")), Expr::var("y")),
    );
    assert_eq!(free_vars(&e), vec!["y".to_string(), "z".to_string()]);
    let lam = Expr::lam("x", Expr::app(Expr::var("f"), Expr::var("x")));
    assert_eq!(free_vars(&lam), vec!["f".to_string()]);
}

#[test]
fn free_vars_of_an_arm_leave_out_its_bindings() {
    let arm = MatchArm::new(
        Pattern::con("Cons", vec![Pattern::var("h"), Pattern::var("t")]),
        Expr::app(Expr::app(Expr::var("g"), Expr::var("h")), Expr::var("t")),
    );
    assert_eq!(free_vars_arm(&arm), vec!["g".to_string()]);
}

#[test]
fn use_counts() {
    let twice = Expr::app(Expr::var("x"), Expr::var("x"));
    assert_eq!(use_count("x", &twice), 2);
    assert_eq!(use_count("y", &twice), 0);
    // A lambda that binds x hides it.
    assert_eq!(use_count("x", &Expr::lam("x", Expr::var("x"))), 0);
    // Branches count as the larger of the two.
    let branches = Expr::if_(
        Expr::var("x"),
        Expr::app(Expr::var("x"), Expr::var("x")),
        Expr::var("y"),
    );
    assert_eq!(use_count("x", &branches), 3);
}

#[test]
fn pattern_bindings() {
    let p = Pattern::con(
        "Pair",
        vec![Pattern::var("a"), Pattern::con("Pair", vec![Pattern::var("b"), Pattern::var("a")])],
    );
    assert_eq!(
        pat_bindings_ordered(&p),
        vec!["a".to_string(), "b".to_string(), "a".to_string()]
    );
    assert_eq!(pat_bindings(&p), vec!["a".to_string(), "b".to_string()]);
}

#[test]
fn free_exactly_when_used() {
    let e = Expr::match_(
        Expr::var("xs"),
        vec![
            MatchArm::new(Pattern::con("Nil", vec![]), Expr::var("d")),
            MatchArm::new(Pattern::var("y"), Expr::app(Expr::var("y"), Expr::var("k"))),
        ],
    );
    let fvs = free_vars(&e);
    for v in ["xs", "d", "k", "y", "q"] {
        assert_eq!(fvs.contains(&v.to_string()), use_count(v, &e) > 0, "variable {v}");
    }
}
