use lumi::ast::Lit;
use lumi::perceus::transform;
use lumi::rc::{Expr as RcExpr, MatchArm as RcArm};
use lumi::simplify::simplify;
use lumi::{Expr, MatchArm, Pattern};

/// The term without its Dup and Drop nodes.
fn erase(e: &RcExpr) -> RcExpr {
    match e {
        RcExpr::Dup { body, .. } | RcExpr::Drop { body, .. } => erase(body),
        RcExpr::Lit(l) => RcExpr::Lit(match l {
            Lit::Int(n) => Lit::Int(*n),
            Lit::Bool(b) => Lit::Bool(*b),
            Lit::Unit => Lit::Unit,
            Lit::Str(s) => Lit::Str(s.clone()),
        }),
        RcExpr::Var(x) => RcExpr::Var(x.clone()),
        RcExpr::Let { name, value, body } => RcExpr::Let {
            name: name.clone(),
            value: Box::new(erase(value)),
            body: Box::new(erase(body)),
        },
        RcExpr::Lam { param, captures, body } => RcExpr::Lam {
            param: param.clone(),
            captures: captures.clone(),
            body: Box::new(erase(body)),
        },
        RcExpr::App(f, x) => RcExpr::App(Box::new(erase(f)), Box::new(erase(x))),
        RcExpr::If { cond, then_, else_ } => RcExpr::If {
            cond: Box::new(erase(cond)),
            then_: Box::new(erase(then_)),
            else_: Box::new(erase(else_)),
        },
        RcExpr::Match { scrutinee, arms } => RcExpr::Match {
            scrutinee: scrutinee.clone(),
            arms: arms
                .iter()
                .map(|a| RcArm {
                    tag: a.tag.clone(),
                    bindings: a.bindings.clone(),
                    reuse_token: a.reuse_token.clone(),
                    body: erase(&a.body),
                })
                .collect(),
        },
        RcExpr::Con { tag, fields, reuse } => RcExpr::Con {
            tag: tag.clone(),
            fields: fields.iter().map(erase).collect(),
            reuse: reuse.clone(),
        },
        RcExpr::Foreign { name, args } => RcExpr::Foreign {
            name: name.clone(),
            args: args.iter().map(erase).collect(),
        },
    }
}

#[test]
fn simplification_changes_only_rc_operations() {
    let e = RcExpr::dup(
        "f",
        RcExpr::Let {
            name: "x".into(),
            value: Box::new(RcExpr::dup("g", RcExpr::drop_("g", RcExpr::var("g")))),
            body: Box::new(RcExpr::drop_(
                "f",
                RcExpr::App(Box::new(RcExpr::var("x")), Box::new(RcExpr::dup("h", RcExpr::Lit(Lit::Unit)))),
            )),
        },
    );
    let before = erase(&e).print();
    let after = simplify(e);
    assert_eq!(after.print(), "let x = g in x ()\n");
    assert_eq!(erase(&after).print(), before);
}

#[test]
fn transform_never_touches_free_variables() {
    let e = Expr::lam(
        "a",
        Expr::match_(
            Expr::app(Expr::var("f"), Expr::var("a")),
            vec![
                MatchArm::new(Pattern::con("Nil", vec![]), Expr::app(Expr::var("g"), Expr::var("g"))),
                MatchArm::new(Pattern::var("y"), Expr::con("Pair", vec![Expr::var("y"), Expr::var("f")])),
            ],
        ),
    );
    let text = transform(&e).print();
    for free in ["f", "g"] {
        assert!(!text.contains(&format!("dup({free})")), "{text}");
        assert!(!text.contains(&format!("drop({free})")), "{text}");
    }
}

/// References to `x` released on every path through `e` (uses, captures,
/// scrutinees and Drops, less Dups), or `None` where two paths differ.
fn released(e: &RcExpr, x: &str) -> Option<i64> {
    let both = |a: Option<i64>, b: Option<i64>| match (a, b) {
        (Some(p), Some(q)) => Some(p + q),
        _ => None,
    };
    let one = |b: bool| if b { 1 } else { 0 };
    match e {
        RcExpr::Lit(_) => Some(0),
        RcExpr::Var(y) => Some(one(y == x)),
        RcExpr::Dup { var, body } => both(released(body, x), Some(-one(var == x))),
        RcExpr::Drop { var, body } => both(released(body, x), Some(one(var == x))),
        RcExpr::Let { name, value, body } => {
            if name == x {
                released(value, x)
            } else {
                both(released(value, x), released(body, x))
            }
        }
        RcExpr::Lam { captures, .. } => Some(one(captures.iter().any(|c| c == x))),
        RcExpr::App(f, a) => both(released(f, x), released(a, x)),
        RcExpr::If { cond, then_, else_ } => {
            let t = released(then_, x);
            let f = released(else_, x);
            both(released(cond, x), if t == f { t } else { None })
        }
        RcExpr::Match { scrutinee, arms } => {
            let mut common: Option<Option<i64>> = None;
            for a in arms {
                let v = if a.bindings.iter().any(|b| b == x) { Some(0) } else { released(&a.body, x) };
                common = match common {
                    None => Some(v),
                    Some(c) => Some(if c == v { c } else { None }),
                };
            }
            both(Some(one(scrutinee == x)), common.unwrap_or(Some(0)))
        }
        RcExpr::Con { fields, .. } => fields.iter().fold(Some(0), |acc, f| both(acc, released(f, x))),
        RcExpr::Foreign { args, .. } => args.iter().fold(Some(0), |acc, f| both(acc, released(f, x))),
    }
}

/// Every binder of `e` is released exactly once on every path through its scope.
fn balanced(e: &RcExpr) -> bool {
    match e {
        RcExpr::Dup { body, .. } | RcExpr::Drop { body, .. } => balanced(body),
        RcExpr::Let { name, value, body } => {
            balanced(value) && balanced(body) && released(body, name) == Some(1)
        }
        RcExpr::Lam { param, captures, body } => {
            balanced(body)
                && released(body, param) == Some(1)
                && captures.iter().all(|c| released(body, c) == Some(1))
        }
        RcExpr::App(f, a) => balanced(f) && balanced(a),
        RcExpr::If { cond, then_, else_ } => balanced(cond) && balanced(then_) && balanced(else_),
        RcExpr::Match { arms, .. } => arms.iter().all(|a| {
            balanced(&a.body) && a.bindings.iter().all(|b| released(&a.body, b) == Some(1))
        }),
        RcExpr::Con { fields, .. } => fields.iter().all(balanced),
        RcExpr::Foreign { args, .. } => args.iter().all(balanced),
        _ => true,
    }
}

#[test]
fn transform_releases_every_binder_exactly_once() {
    let cons = |h: &str, t: &str| Pattern::con("Cons", vec![Pattern::var(h), Pattern::var(t)]);
    let programs = vec![
        // or a b = if a then a else b
        Expr::lam("a", Expr::lam("b", Expr::if_(Expr::var("a"), Expr::var("a"), Expr::var("b")))),
        // an arm binding left unused
        Expr::lam("xs", Expr::match_(Expr::var("xs"), vec![MatchArm::new(cons("h", "t"), Expr::var("h"))])),
        // an arm rebinding a name in scope that another arm uses
        Expr::lam(
            "t",
            Expr::match_(
                Expr::var("xs"),
                vec![
                    MatchArm::new(cons("h", "t"), Expr::var("h")),
                    MatchArm::new(Pattern::con("Nil", vec![]), Expr::var("t")),
                ],
            ),
        ),
        // a compound scrutinee whose arms use the name it would be bound to
        Expr::lam(
            "__scrut",
            Expr::match_(
                Expr::app(Expr::var("f"), Expr::var("__scrut")),
                vec![MatchArm::new(Pattern::Wildcard, Expr::var("__scrut"))],
            ),
        ),
        // an arm rebinding a name in scope that no other arm uses
        Expr::lam("t", Expr::match_(Expr::var("xs"), vec![MatchArm::new(cons("h", "t"), Expr::var("h"))])),
        // a let whose value and body share a variable
        Expr::lam("x", Expr::let_("y", Expr::var("x"), Expr::var("x"))),
        // the scrutinee used again in one arm, an outer variable in the other
        Expr::lam(
            "k",
            Expr::lam(
                "xs",
                Expr::match_(
                    Expr::var("xs"),
                    vec![
                        MatchArm::new(Pattern::con("Nil", vec![]), Expr::var("xs")),
                        MatchArm::new(cons("h", "t"), Expr::app(Expr::var("k"), Expr::var("t"))),
                    ],
                ),
            ),
        ),
        // a compound scrutinee sharing a variable with the arms, and a capture
        Expr::lam(
            "f",
            Expr::lam(
                "ys",
                Expr::match_(
                    Expr::app(Expr::var("f"), Expr::var("ys")),
                    vec![
                        MatchArm::new(Pattern::Wildcard, Expr::lam("z", Expr::app(Expr::var("f"), Expr::var("z")))),
                        MatchArm::new(Pattern::var("w"), Expr::con("Pair", vec![Expr::var("w"), Expr::var("w")])),
                    ],
                ),
            ),
        ),
    ];
    for p in &programs {
        let rc = transform(p);
        assert!(balanced(&rc), "not balanced: {}", rc.print());
        assert!(balanced(&simplify(transform(p))), "simplified not balanced");
    }
}
