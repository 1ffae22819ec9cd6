use lumi::perceus::{compile_fns, transform};
use lumi::simplify::{simplify, structurally_equal_pub};
use lumi::{Expr, MatchArm, Pattern};

fn or_fn() -> Expr {
    Expr::lam(
        "a",
        Expr::lam("b", Expr::if_(Expr::var("a"), Expr::var("a"), Expr::var("b"))),
    )
}

fn inc_list_fn() -> Expr {
    Expr::lam(
        "xs",
        Expr::match_(
            Expr::var("xs"),
            vec![
                MatchArm::new(Pattern::con("Nil", vec![]), Expr::con("Nil", vec![])),
                MatchArm::new(
                    Pattern::con("Cons", vec![Pattern::var("h"), Pattern::var("t")]),
                    Expr::con(
                        "Cons",
                        vec![
                            Expr::con("Succ", vec![Expr::var("h")]),
                            Expr::app(Expr::var("inc_list"), Expr::var("t")),
                        ],
                    ),
                ),
            ],
        ),
    )
}

#[test]
fn or_duplicates_before_the_if_and_drops_in_the_other_branch() {
    let rc = transform(&or_fn());
    assert_eq!(
        rc.print(),
        "λa => λ[a] b => dup(a); if a then drop(b); a else drop(a); b\n"
    );
}

#[test]
fn match_arms_get_reuse_tokens_for_constructor_patterns() {
    let rc = transform(&inc_list_fn());
    assert_eq!(
        rc.print(),
        "λxs => match xs with Nil() [reuse: reuse_xs] => Nil() [reuse: reuse_xs] \
         | Cons(h, t) [reuse: reuse_xs] => Cons(Succ(h), inc_list t) [reuse: reuse_xs]\n"
    );
}

#[test]
fn unused_let_binding_is_dropped_at_once() {
    let e = Expr::lam("x", Expr::let_("y", Expr::var("x"), Expr::int_(1)));
    assert_eq!(transform(&e).print(), "λx => let y = x in drop(y); 1\n");
}

#[test]
fn unused_parameter_is_dropped() {
    let e = Expr::lam("x", Expr::int_(7));
    assert_eq!(transform(&e).print(), "λx => drop(x); 7\n");
}

#[test]
fn shared_variable_in_constructor_is_duplicated_once_per_extra_use() {
    let e = Expr::lam("x", Expr::con("Pair", vec![Expr::var("x"), Expr::var("x")]));
    assert_eq!(transform(&e).print(), "λx => dup(x); Pair(x, x)\n");
}

#[test]
fn application_duplicates_shared_owned_variables() {
    let e = Expr::lam("f", Expr::app(Expr::var("f"), Expr::var("f")));
    assert_eq!(transform(&e).print(), "λf => dup(f); f f\n");
}

#[test]
fn pretty_print_of_rc_terms() {
    let rc = transform(&or_fn());
    assert_eq!(
        rc.pretty_print(),
        "λa =>\n  λ[a] b =>\n    dup(a); if a\n    then drop(b); a\n    else drop(a); b\n"
    );
}

#[test]
fn compile_fns_transforms_then_simplifies_each_function() {
    let fns = vec![("or", or_fn()), ("inc_list", inc_list_fn())];
    let out = compile_fns(&fns);
    assert_eq!(out.len(), 2);
    assert_eq!(out[0].0, "or");
    assert_eq!(out[1].0, "inc_list");
    for (i, (_, e)) in fns.iter().enumerate() {
        let expected = simplify(transform(e));
        assert!(structurally_equal_pub(&out[i].1, &expected));
        assert_eq!(out[i].1.print(), expected.print());
    }
}

#[test]
fn unused_arm_binding_is_dropped_in_its_arm() {
    let e = Expr::lam(
        "xs",
        Expr::match_(
            Expr::var("xs"),
            vec![MatchArm::new(
                Pattern::con("Cons", vec![Pattern::var("h"), Pattern::var("t")]),
                Expr::var("h"),
            )],
        ),
    );
    assert_eq!(
        transform(&e).print(),
        "λxs => match xs with Cons(h, t) [reuse: reuse_xs] => drop(t); h\n"
    );
}

#[test]
fn variable_shared_by_let_value_and_body_is_duplicated() {
    let e = Expr::lam("x", Expr::let_("y", Expr::var("x"), Expr::var("x")));
    assert_eq!(transform(&e).print(), "λx => dup(x); let y = x in drop(y); x\n");
}

#[test]
fn scrutinee_used_in_an_arm_is_duplicated_and_dropped_in_the_others() {
    let e = Expr::lam(
        "xs",
        Expr::match_(
            Expr::var("xs"),
            vec![
                MatchArm::new(Pattern::con("Nil", vec![]), Expr::var("xs")),
                MatchArm::new(
                    Pattern::con("Cons", vec![Pattern::var("h"), Pattern::var("t")]),
                    Expr::var("h"),
                ),
            ],
        ),
    );
    assert_eq!(
        transform(&e).print(),
        "λxs => dup(xs); match xs with Nil() [reuse: reuse_xs] => xs \
         | Cons(h, t) [reuse: reuse_xs] => drop(xs); drop(t); h\n"
    );
}

#[test]
fn arms_drop_only_what_another_arm_uses() {
    // `y` is used by one arm only: the other arm drops it; `z` is used by no
    // arm and is dropped once, where it is bound.
    let e = Expr::lam(
        "y",
        Expr::let_(
            "z",
            Expr::int_(1),
            Expr::match_(
                Expr::var("b"),
                vec![
                    MatchArm::new(Pattern::Wildcard, Expr::var("y")),
                    MatchArm::new(Pattern::var("w"), Expr::var("w")),
                ],
            ),
        ),
    );
    assert_eq!(
        transform(&e).print(),
        "λy => let z = 1 in drop(z); match b with _() => y | _w(w) => drop(y); w\n"
    );
}

#[test]
fn arm_rebinding_an_outer_variable_is_renamed() {
    // The first arm's `y` hides the outer `y` that the second arm uses: the
    // binding is renamed, the outer `y` dropped, then `y` bound again.
    let e = Expr::lam(
        "y",
        Expr::lam(
            "xs",
            Expr::match_(
                Expr::var("xs"),
                vec![
                    MatchArm::new(Pattern::con("C", vec![Pattern::var("y")]), Expr::var("y")),
                    MatchArm::new(Pattern::Wildcard, Expr::var("y")),
                ],
            ),
        ),
    );
    assert_eq!(
        transform(&e).print(),
        "λy => λ[y] xs => match xs with C(y__) [reuse: reuse_xs] => drop(y); let y = y__ in y \
         | _() => y\n"
    );
}

#[test]
fn bound_scrutinee_avoids_names_the_arms_use() {
    let e = Expr::lam(
        "__scrut",
        Expr::match_(
            Expr::app(Expr::var("f"), Expr::var("__scrut")),
            vec![MatchArm::new(Pattern::Wildcard, Expr::var("__scrut"))],
        ),
    );
    assert_eq!(
        transform(&e).print(),
        "λ__scrut => dup(__scrut); let __scrut________ = f __scrut in \
         match __scrut________ with _() => __scrut\n"
    );
}
