use lumi::ast::pp::PrettyPrintStyle;
use lumi::{Expr, MatchArm, Pattern};

fn list_match() -> Expr {
    Expr::match_(
        Expr::var("xs"),
        vec![
            MatchArm::new(Pattern::con("Nil", vec![]), Expr::int_(0)),
            MatchArm::new(
                Pattern::con("Cons", vec![Pattern::var("h"), Pattern::var("t")]),
                Expr::var("h"),
            ),
        ],
    )
}

#[test]
fn print_application_parenthesises_nested_applications() {
    let e = Expr::app(Expr::app(Expr::var("map"), Expr::var("f")), Expr::var("xs"));
    assert_eq!(e.print(), "(map f) xs\n");
}

#[test]
fn print_lambda_let_if() {
    let lam = Expr::lam("x", Expr::app(Expr::var("f"), Expr::var("x")));
    assert_eq!(lam.print(), "λx.f x\n");
    let let_ = Expr::let_("x", Expr::int_(1), Expr::var("x"));
    assert_eq!(let_.print(), "let x = 1 in x\n");
    let if_ = Expr::if_(Expr::bool_(true), Expr::int_(1), Expr::int_(-2));
    assert_eq!(if_.print(), "if true then 1 else -2\n");
}

#[test]
fn print_constructors_literals_and_foreign_calls() {
    let list = Expr::con("Cons", vec![Expr::int_(1), Expr::con("Nil", vec![])]);
    assert_eq!(list.print(), "Cons(1, Nil)\n");
    assert_eq!(Expr::str_("hi").print(), "\"hi\"\n");
    assert_eq!(Expr::unit().print(), "()\n");
    let call = Expr::foreign("int_add", vec![Expr::var("x"), Expr::int_(-3)]);
    assert_eq!(call.print(), "foreign(int_add; x, -3)\n");
    assert_eq!(Expr::foreign("lumi_int1", vec![]).print(), "foreign(lumi_int1)\n");
}

#[test]
fn print_match() {
    assert_eq!(list_match().print(), "match xs with Nil -> 0 | Cons(h, t) -> h\n");
}

#[test]
fn pp_single_line_writes_foreign_calls_plainly() {
    let call = Expr::foreign("print", vec![Expr::var("x")]);
    assert_eq!(call.pp(PrettyPrintStyle::SingleLine), "print(x)\n");
}

#[test]
fn pretty_print_flattens_let_chains() {
    let e = Expr::let_("a", Expr::int_(1), Expr::let_("b", Expr::int_(2), Expr::var("b")));
    assert_eq!(e.pretty_print(), "let a =   1\nlet b =   2\nin\n  b\n");
}

#[test]
fn pp_indented_keeps_lets_nested() {
    let e = Expr::let_("a", Expr::int_(1), Expr::let_("b", Expr::int_(2), Expr::var("b")));
    assert_eq!(
        e.pp(PrettyPrintStyle::Indented),
        "let a =\n  1\nin\n  let b =\n    2\n  in\n    b\n"
    );
}

#[test]
fn pretty_print_lambda_if_and_match() {
    assert_eq!(Expr::lam("x", Expr::var("x")).pretty_print(), "λx =>\n  x\n");
    let if_ = Expr::if_(Expr::var("c"), Expr::var("a"), Expr::var("b"));
    assert_eq!(if_.pretty_print(), "if c\nthen a\nelse b\n");
    assert_eq!(
        list_match().pretty_print(),
        "match xs\n  | Nil =>\n    0\n  | Cons(h, t) =>\n    h\n"
    );
}

#[test]
fn pretty_print_foreign_calls() {
    let call = Expr::foreign("str_concat", vec![Expr::var("a"), Expr::str_("b")]);
    assert_eq!(call.pretty_print(), "foreign(str_concat; a, \"b\")\n");
}

#[test]
fn clones_print_alike() {
    let e = lumi::Expr::lam(
        "xs",
        lumi::Expr::match_(
            lumi::Expr::var("xs"),
            vec![lumi::MatchArm::new(
                lumi::Pattern::con("Cons", vec![lumi::Pattern::var("h"), lumi::Pattern::Wildcard]),
                lumi::Expr::con("Pair", vec![lumi::Expr::var("h"), lumi::Expr::int_(1)]),
            )],
        ),
    );
    assert_eq!(e.clone().pretty_print(), e.pretty_print());
}
