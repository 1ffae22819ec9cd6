use lumi::codegen::{emit_body_only, emit_program};
use lumi::perceus::compile_fns;
use lumi::{debug_listing, expr_list, Expr};

#[test]
fn expr_list_builds_cons_cells() {
    let l = expr_list(vec![Expr::int_(1), Expr::int_(2), Expr::int_(3)]);
    assert_eq!(l.print(), "Cons(1, Cons(2, Cons(3, Nil)))\n");
    assert_eq!(expr_list(vec![]).print(), "Nil\n");
    match expr_list(vec![Expr::var("x")]) {
        Expr::Con { tag, fields } => {
            assert_eq!(tag, "Cons");
            assert_eq!(fields.len(), 2);
        }
        _ => panic!("not a constructor"),
    }
}

#[test]
fn debug_listing_shows_each_stage() {
    let fns = vec![
        ("id", Expr::lam("x", Expr::var("x"))),
        ("main", Expr::app(Expr::var("id"), Expr::int_(1))),
    ];
    let text = debug_listing("demo", &fns);
    let banner = format!(
        "╔═══════════════════════════════════════════════╗\n║  {:<45}║\n╚═══════════════════════════════════════════════╝\n\n",
        "demo"
    );
    assert!(text.starts_with(&banner));
    assert!(text.contains("─── Source AST: id ───────────────────────\nλx =>\n  x\n"));
    assert!(text.contains("\n─── After Perceus RC insertion ───────────────\nλx =>\n  x\n\n"));
    assert!(!text.contains("After simplification"));
    let compiled = compile_fns(&fns);
    let c = emit_body_only(&compiled);
    assert!(text.ends_with(&format!("─── Generated C ──────────────────────────────\n{c}\n")));
}

#[test]
fn banner_pads_long_names_not_at_all() {
    let long = "a_name_that_is_longer_than_forty_five_characters_in_all";
    let text = debug_listing(long, &[]);
    assert!(text.starts_with(&format!("╔═══════════════════════════════════════════════╗\n║  {long}║\n")));
}

#[test]
fn emit_program_puts_the_runtime_header_first() {
    let fns = compile_fns(&[("main", Expr::int_(7))]);
    let header = "/* header */\n";
    assert_eq!(emit_program(&fns, header), format!("{header}{}", emit_body_only(&fns)));
}
