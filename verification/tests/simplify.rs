use lumi::ast::Lit;
use lumi::rc::Expr as RcExpr;
use lumi::simplify::{simplify, structurally_equal_pub};

fn nil() -> RcExpr {
    RcExpr::Con { tag: "Nil".to_string(), fields: vec![], reuse: None }
}

#[test]
fn rule_adjacent_cancel() {
    let before = RcExpr::dup("f", RcExpr::drop_("f", nil()));
    assert_eq!(before.print(), "dup(f); drop(f); Nil()\n");
    assert_eq!(simplify(before).print(), "Nil()\n");
    // Cancellation is tried before the inner dup is rewritten.
    let before = RcExpr::drop_("f", RcExpr::dup("f", nil()));
    assert_eq!(simplify(before).print(), "Nil()\n");
    let before = RcExpr::drop_("f", RcExpr::dup("f", RcExpr::var("y")));
    assert!(structurally_equal_pub(&simplify(before), &RcExpr::var("y")));
    let before = RcExpr::drop_("f", RcExpr::dup("f", RcExpr::var("f")));
    assert_eq!(simplify(before).print(), "f\n");
}

#[test]
fn rule_dead_dup() {
    let before = RcExpr::dup("f", RcExpr::Lit(Lit::Int(42)));
    assert_eq!(before.print(), "dup(f); 42\n");
    assert_eq!(simplify(before).print(), "42\n");
}

#[test]
fn rule_commute_then_cancel() {
    let before = RcExpr::dup(
        "f",
        RcExpr::Let {
            name: "x".into(),
            value: Box::new(RcExpr::Lit(Lit::Int(42))),
            body: Box::new(RcExpr::drop_("f", RcExpr::var("x"))),
        },
    );
    assert_eq!(before.print(), "dup(f); let x = 42 in drop(f); x\n");
    assert_eq!(simplify(before).print(), "let x = 42 in x\n");
}

#[test]
fn a_live_dup_and_a_lone_drop_stay() {
    let dup = RcExpr::dup("f", RcExpr::App(Box::new(RcExpr::var("f")), Box::new(RcExpr::var("f"))));
    assert_eq!(simplify(dup).print(), "dup(f); f f\n");
    let drop = RcExpr::drop_("g", RcExpr::var("x"));
    assert_eq!(simplify(drop).print(), "drop(g); x\n");
}

#[test]
fn simplification_reaches_a_fixpoint() {
    let e = RcExpr::dup(
        "f",
        RcExpr::Let {
            name: "x".into(),
            value: Box::new(RcExpr::dup("g", RcExpr::drop_("g", nil()))),
            body: Box::new(RcExpr::drop_("f", RcExpr::var("x"))),
        },
    );
    let once = simplify(e);
    let twice = simplify(once.duplicate());
    assert!(structurally_equal_pub(&once, &twice));
    assert_eq!(once.print(), "let x = Nil() in x\n");
}

#[test]
fn structural_equality_covers_every_node() {
    let samples = vec![
        RcExpr::Lit(Lit::Str("s".into())),
        RcExpr::Foreign { name: "print".into(), args: vec![RcExpr::var("x")] },
        RcExpr::Lam { param: "x".into(), captures: vec!["y".into()], body: Box::new(RcExpr::var("x")) },
        RcExpr::If {
            cond: Box::new(RcExpr::var("c")),
            then_: Box::new(RcExpr::var("a")),
            else_: Box::new(RcExpr::var("b")),
        },
        nil(),
    ];
    for (i, a) in samples.iter().enumerate() {
        for (j, b) in samples.iter().enumerate() {
            assert_eq!(structurally_equal_pub(a, b), i == j, "samples {i} and {j}");
        }
    }
    let f1 = RcExpr::Foreign { name: "print".into(), args: vec![RcExpr::var("x")] };
    let f2 = RcExpr::Foreign { name: "print".into(), args: vec![RcExpr::var("y")] };
    assert!(!structurally_equal_pub(&f1, &f2));
}

#[test]
fn rules_reach_foreign_arguments() {
    let e = RcExpr::Foreign {
        name: "f".into(),
        args: vec![RcExpr::dup("x", RcExpr::drop_("x", RcExpr::var("y")))],
    };
    let out = simplify(e);
    let expected = RcExpr::Foreign { name: "f".into(), args: vec![RcExpr::var("y")] };
    assert!(structurally_equal_pub(&out, &expected));
    assert_eq!(out.print(), "f(y)\n");
}

#[test]
fn structural_equality_compares_arm_reuse_tokens() {
    let arm = |tok: Option<&str>| lumi::rc::MatchArm {
        tag: "Cons".into(),
        bindings: vec!["h".into(), "t".into()],
        reuse_token: tok.map(|s| s.to_string()),
        body: RcExpr::var("h"),
    };
    let a = RcExpr::Match { scrutinee: "xs".into(), arms: vec![arm(Some("reuse_xs"))] };
    let b = RcExpr::Match { scrutinee: "xs".into(), arms: vec![arm(None)] };
    let c = RcExpr::Match { scrutinee: "xs".into(), arms: vec![arm(Some("reuse_xs"))] };
    assert!(!structurally_equal_pub(&a, &b));
    assert!(!structurally_equal_pub(&b, &a));
    assert!(structurally_equal_pub(&a, &c));
}

#[test]
fn rule_single_use_dup() {
    let before = RcExpr::dup("x", RcExpr::var("x"));
    assert!(structurally_equal_pub(&simplify(before), &RcExpr::var("x")));
    // Uses are counted over every branch: one use in each branch is two uses.
    let both = RcExpr::dup(
        "x",
        RcExpr::If {
            cond: Box::new(RcExpr::var("c")),
            then_: Box::new(RcExpr::var("x")),
            else_: Box::new(RcExpr::var("x")),
        },
    );
    assert_eq!(simplify(both).print(), "dup(x); if c then x else x\n");
    let one = RcExpr::dup(
        "x",
        RcExpr::If {
            cond: Box::new(RcExpr::var("c")),
            then_: Box::new(RcExpr::var("x")),
            else_: Box::new(RcExpr::var("y")),
        },
    );
    assert_eq!(simplify(one).print(), "if c then x else y\n");
    // A Drop counts as a use.
    let dropped = RcExpr::dup(
        "x",
        RcExpr::Let {
            name: "y".into(),
            value: Box::new(RcExpr::var("x")),
            body: Box::new(RcExpr::drop_("x", RcExpr::var("y"))),
        },
    );
    assert_eq!(simplify(dropped).print(), "dup(x); let y = x in drop(x); y\n");
}

#[test]
fn no_commuting_past_a_let_that_rebinds_the_variable() {
    let e = RcExpr::drop_(
        "y",
        RcExpr::Let {
            name: "y".into(),
            value: Box::new(RcExpr::var("z")),
            body: Box::new(RcExpr::var("y")),
        },
    );
    assert_eq!(simplify(e).print(), "drop(y); let y = z in y\n");
}

#[test]
fn clones_are_equal() {
    let e = RcExpr::dup("x", RcExpr::App(Box::new(RcExpr::var("x")), Box::new(RcExpr::var("x"))));
    let c = e.clone();
    assert!(structurally_equal_pub(&e, &c));
}
