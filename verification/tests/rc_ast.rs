use lumi::ast::Lit;
use lumi::rc_ast::{RcExpr, RcMatchArm};

#[test]
fn builders_and_rendering() {
    let e = RcExpr::dup("f", RcExpr::drop_("g", RcExpr::var("x")));
    assert_eq!(e.pp(), "dup(f); drop(g); x\n");
}

#[test]
fn lets_are_rendered_nested_and_literals_as_debug() {
    let e = RcExpr::Let {
        name: "x".into(),
        value: Box::new(RcExpr::Lit(Lit::Int(42))),
        body: Box::new(RcExpr::Let {
            name: "y".into(),
            value: Box::new(RcExpr::Lit(Lit::Bool(true))),
            body: Box::new(RcExpr::Lit(Lit::Unit)),
        }),
    };
    assert_eq!(
        e.pp(),
        "let x =\n  Int(42)\nin\n  let y =\n    Bool(true)\n  in\n    Unit\n"
    );
}

#[test]
fn string_literals_use_the_debug_form_of_str() {
    let text = "a\"b\né";
    let e = RcExpr::Lit(Lit::Str(text.into()));
    assert_eq!(e.pp(), format!("Str({text:?})\n"));
    assert_eq!(e.pp(), "Str(\"a\\\"b\\né\")\n");
}

#[test]
fn lambdas_applications_matches_and_constructors() {
    let body = RcExpr::Match {
        scrutinee: "xs".into(),
        arms: vec![
            RcMatchArm {
                tag: "Nil".into(),
                bindings: vec![],
                reuse_token: None,
                body: RcExpr::Con { tag: "Nil".into(), fields: vec![], reuse: None },
            },
            RcMatchArm {
                tag: "Cons".into(),
                bindings: vec!["h".into(), "t".into()],
                reuse_token: Some("reuse_xs".into()),
                body: RcExpr::Con {
                    tag: "Cons".into(),
                    fields: vec![
                        RcExpr::var("h"),
                        RcExpr::App(Box::new(RcExpr::var("f")), Box::new(RcExpr::var("t"))),
                    ],
                    reuse: Some("reuse_xs".into()),
                },
            },
        ],
    };
    let e = RcExpr::Lam { param: "xs".into(), body: Box::new(body) };
    assert_eq!(
        e.pp(),
        "λxs =>\n  match xs\n    | Nil() =>\n      Nil()\n    | Cons(h, t) [reuse: reuse_xs] =>\n      \
         Cons(h, (f t)) [reuse: reuse_xs]\n"
    );
}

#[test]
fn if_rendering() {
    let e = RcExpr::If {
        cond: Box::new(RcExpr::var("c")),
        then_: Box::new(RcExpr::var("a")),
        else_: Box::new(RcExpr::var("b")),
    };
    assert_eq!(e.pp(), "if c\nthen a\nelse b\n");
}
