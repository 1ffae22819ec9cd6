use lumi::ast::Lit;
use lumi::codegen::{emit_body_only, emit_c_file, emit_program};
use lumi::perceus::transform;
use lumi::rc::{Expr as RcExpr, MatchArm as RcArm};
use lumi::{Expr, MatchArm, Pattern};

fn nil_fn() -> Vec<(String, RcExpr)> {
    vec![("main".to_string(), RcExpr::Con { tag: "Nil".into(), fields: vec![], reuse: None })]
}

const NIL_BODY: &str = "/* Lumi main:\n *   Nil()\n */\n\
Value* lumi_main(void) {\n    Value* _t1 = alloc_con(TAG_NIL, 0);\n    return _t1;\n}\n\n";

#[test]
fn body_of_a_constructor() {
    assert_eq!(emit_body_only(&nil_fn()), NIL_BODY);
}

#[test]
fn program_is_header_then_body() {
    let fns = nil_fn();
    let header = "/* runtime */\n";
    assert_eq!(emit_program(&fns, header), format!("{header}{NIL_BODY}"));
}

#[test]
fn c_file_with_an_entry_has_main() {
    let expected = format!(
        "#include \"lumi_runtime.h\"\n\n\n{NIL_BODY}int main(void) {{\n    lumi_runtime_init();\n    \n\
         \x20   Value* _result = lumi_main();\n    rc_dec(_result);\n    \n    return 0;\n}}\n"
    );
    assert_eq!(emit_c_file(&nil_fn(), Some("main")), expected);
}

#[test]
fn c_file_makes_other_functions_globals() {
    let mut fns = nil_fn();
    fns.insert(0, ("helper".to_string(), RcExpr::Lit(Lit::Int(3))));
    let out = emit_c_file(&fns, Some("main"));
    assert!(out.starts_with("#include \"lumi_runtime.h\"\n\nstatic Value* helper;\n\n/* Lumi helper:\n"));
    assert!(out.contains("    return lumi_int(3);\n"));
    assert!(out.contains("    helper = lumi_global(lumi_helper());\n"));
    assert!(out.contains("    lumi_release_global(helper);\n"));
    assert!(!out.contains("static Value* main;"));
    let without_entry = emit_c_file(&fns, None);
    assert_eq!(
        without_entry,
        format!("#include \"lumi_runtime.h\"\n\nstatic Value* helper;\nstatic Value* main;\n\n{}", emit_body_only(&fns))
    );
}

#[test]
fn lambdas_are_lifted_to_static_functions() {
    let id = transform(&Expr::lam("x", Expr::var("x")));
    let fns = vec![("id".to_string(), id)];
    let expected = [
        "static Value* _fn_1(Value* _env, Value* _arg);\n\n",
        "/* Lumi _fn_1:\n *   x\n */\n",
        "static Value* _fn_1(Value* _env, Value* _arg) {\n",
        "    rc_dec(_env);  /* release closure env */\n",
        "    Value* x = _arg;\n",
        "    return x;\n",
        "}\n\n",
        "/* Lumi id:\n *   λx =>\n *     x\n */\n",
        "Value* lumi_id(void) {\n",
        "    /* declaration */\n",
        "    Value* _t1 = alloc_closure(_fn_1, 0);\n\n",
        "    return _t1;\n",
        "}\n\n",
    ]
    .concat();
    assert_eq!(emit_body_only(&fns), expected);
}

#[test]
fn captured_variables_come_out_of_the_environment() {
    let k = transform(&Expr::lam("a", Expr::lam("b", Expr::var("a"))));
    let out = emit_body_only(&[("k".to_string(), k)]);
    assert!(out.contains("    Value* a = closure_cap(_env, 0);  /* captured a */\n    rc_inc(a);\n"));
    assert!(out.contains("alloc_closure(_fn_2, 1, a);\n"));
    assert!(out.contains("    rc_dec(b);  /* drop b */\n"));
}

#[test]
fn if_consumes_its_condition() {
    let e = RcExpr::If {
        cond: Box::new(RcExpr::var("c")),
        then_: Box::new(RcExpr::Lit(Lit::Int(1))),
        else_: Box::new(RcExpr::Lit(Lit::Bool(false))),
    };
    let out = emit_body_only(&[("f".to_string(), e)]);
    assert!(out.contains(
        "    int _t1 = lumi_is_true(c);\n    rc_dec(c);  /* consume condition */\n    Value* _t2;\n    if (_t1) {\n        _t2 = lumi_int(1);\n    } else {\n        _t2 = lumi_bool(0);\n    }\n    return _t2;\n"
    ));
}

#[test]
fn match_switches_on_the_tag_and_recycles() {
    let inc = Expr::lam(
        "xs",
        Expr::match_(
            Expr::var("xs"),
            vec![
                MatchArm::new(Pattern::con("Nil", vec![]), Expr::con("Nil", vec![])),
                MatchArm::new(
                    Pattern::con("Cons", vec![Pattern::var("h"), Pattern::var("t")]),
                    Expr::con("Cons", vec![Expr::var("h"), Expr::var("t")]),
                ),
            ],
        ),
    );
    let out = emit_body_only(&[("inc".to_string(), transform(&inc))]);
    assert!(out.contains("    switch (tag_of(xs)) {\n        case TAG_NIL: {\n"));
    assert!(out.contains(
        "        case TAG_CONS: {\n            Value* h = field(xs, 0);  /* field 0 */\n            rc_inc(h);\n"
    ));
    assert!(out.contains(
        "            ReuseToken reuse_xs = try_reuse(xs);/* RC==1 -> recycle; RC>1 -> NULL */\n"
    ));
    assert!(out.contains("reuse_con(reuse_xs, TAG_CONS, 2);/* Perceus: reuse if RC==1 */\n"));
    assert!(out.contains("            set_field(_t3, 1, t);\n"));
    assert!(out.contains("        default: lumi_panic(\"unmatched\"); break;\n    }\n"));
}

#[test]
fn wildcard_arm_is_the_default_case() {
    let e = RcExpr::Match {
        scrutinee: "v".into(),
        arms: vec![RcArm {
            tag: "_".into(),
            bindings: vec![],
            reuse_token: None,
            body: RcExpr::Lit(Lit::Unit),
        }],
    };
    let out = emit_body_only(&[("w".to_string(), e)]);
    assert!(out.contains("        default: {\n            rc_dec(v);\n            _t1 = lumi_unit();\n            break;\n        }\n"));
}

#[test]
fn string_literals_are_escaped_as_std_does() {
    let text = "a\"b\\c\n\té\u{1F600}\0";
    let e = RcExpr::Lit(Lit::Str(text.into()));
    let out = emit_body_only(&[("s".to_string(), e)]);
    let line = format!("    Value* _t1 = lumi_str(\"{}\");\n", text.escape_default());
    assert!(out.contains(&line), "{out}");
    assert!(out.contains("lumi_str(\"a\\\"b\\\\c\\n\\t\\u{e9}\\u{1f600}\\u{0}\")"));
}

#[test]
fn tags_are_upper_cased() {
    let e = RcExpr::Con { tag: "myTag".into(), fields: vec![RcExpr::var("x")], reuse: None };
    let out = emit_body_only(&[("t".to_string(), e)]);
    assert!(out.contains("    Value* _t1 = alloc_con(TAG_MYTAG, 1);\n    set_field(_t1, 0, x);\n"));
}

#[test]
fn foreign_calls_pass_their_arguments() {
    let e = RcExpr::Foreign {
        name: "int_add".into(),
        args: vec![RcExpr::var("x"), RcExpr::Lit(Lit::Int(-1))],
    };
    let out = emit_body_only(&[("f".to_string(), e)]);
    assert!(out.contains("    Value* _t1 = int_add(x, lumi_int(-1));\n"));
}

#[test]
fn comments_keep_every_line_of_the_rc_term() {
    let e = RcExpr::Let {
        name: "x".into(),
        value: Box::new(RcExpr::Lit(Lit::Int(1))),
        body: Box::new(RcExpr::var("x")),
    };
    let out = emit_body_only(&[("l".to_string(), e)]);
    assert!(out.starts_with("/* Lumi l:\n *   let x =\n *     1\n *   in\n *     x\n */\n"));
    assert!(out.contains("    Value* x = lumi_int(1);\n    return x;\n"));
}
