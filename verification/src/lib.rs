//! Lumi: a small functional language compiled to C, with memory managed by
//! Perceus reference counting and allocation reuse.
//!
//! The pipeline: source `Expr` (`ast`) → `perceus::transform` inserts Dup,
//! Drop and reuse tokens (`rc`) → `simplify::simplify` cleans up → `codegen`
//! writes a C compilation unit.
pub mod ast;
pub mod codegen;
pub mod liveness;
pub mod names;
pub mod ownership;
pub mod perceus;
pub mod rc;
pub mod rc_ast;
pub mod simplify;
pub mod parser;
pub mod text;

pub use ast::{Expr, MatchArm, Pattern};

use vstd::prelude::*;
use vstd::string::*;

use crate::ast::pp::indent_rendering;
use crate::ast::size;
use crate::codegen::fn_terms;
use crate::codegen::model::{total_size, unit_text};
use crate::perceus::xf;
use crate::rc::pp::rc_indent;
use crate::rc::Term;
use crate::simplify::{seq_t, simplify_spec, tsize};
use crate::text::rep;

verus! {

/// `e` is the Cons/Nil list of `items`: `Cons(items[0], Cons(items[1], … Nil))`.
pub open spec fn is_list(e: Expr, items: Seq<Expr>) -> bool
    decreases items.len(),
{
    if items.len() == 0 {
        e matches Expr::Con { tag, fields } && tag@ == "Nil"@ && fields@.len() == 0
    } else {
        e matches Expr::Con { tag, fields } && tag@ == "Cons"@ && fields@.len() == 2
            && fields@[0] == items[0] && is_list(fields@[1], items.drop_first())
    }
}

// ── Shared expression builders ───────────────────────────────────────────────

/// The list expression `Cons(items[0], Cons(items[1], … Nil))`.
pub fn expr_list(items: Vec<Expr>) -> (r: Expr)
    ensures
        is_list(r, items@),
{
    let ghost all = items@;
    let mut rest = items;
    let mut acc = Expr::con("Nil", Vec::new());
    assert(all.subrange(all.len() as int, all.len() as int) =~= Seq::<Expr>::empty());
    while rest.len() > 0
        invariant
            rest@ == all.subrange(0, rest@.len() as int),
            rest@.len() <= all.len(),
            is_list(acc, all.subrange(rest@.len() as int, all.len() as int)),
        decreases rest@.len(),
    {
        let head = rest.pop().unwrap();
        let ghost k = rest@.len() as int;
        let mut fields = Vec::new();
        fields.push(head);
        fields.push(acc);
        acc = Expr::con("Cons", fields);
        assert(all.subrange(k, all.len() as int).drop_first() =~= all.subrange(k + 1, all.len() as int));
        assert(rest@ =~= all.subrange(0, k));
    }
    acc
}

// ── Debug listing ────────────────────────────────────────────────────────────

/// The banner that heads a listing: `name` padded with spaces to 45
/// characters in a box.
pub open spec fn banner_text(name: Seq<char>) -> Seq<char> {
    "╔═══════════════════════════════════════════════╗\n║  "@ + name + rep(
        " "@,
        if name.len() < 45 {
            (45 - name.len()) as nat
        } else {
            0
        },
    ) + "║\n╚═══════════════════════════════════════════════╝\n\n"@
}

/// The part of a listing for one function: its source, its RC form and, when
/// simplification changed it, its simplified form.
pub open spec fn section_text(fname: Seq<char>, e: Expr) -> Seq<char> {
    let r = xf(e, Seq::empty());
    let s = simplify_spec(r);
    "─── Source AST: "@ + fname + " ───────────────────────\n"@ + indent_rendering(e, 0, false)
        + "\n"@ + "\n─── After Perceus RC insertion ───────────────\n"@ + rc_indent(r, 0) + "\n"@
        + (if seq_t(s, r) {
        Seq::empty()
    } else {
        "\n─── After simplification ─────────────────────\n"@ + rc_indent(s, 0) + "\n"@
    }) + "\n"@
}

pub open spec fn sections_text(functions: Seq<(&str, Expr)>) -> Seq<char>
    decreases functions.len(),
{
    if functions.len() == 0 {
        Seq::empty()
    } else {
        sections_text(functions.drop_last()) + section_text(
            functions.last().0@,
            functions.last().1,
        )
    }
}

/// Each function compiled: RC insertion, then simplification.
pub open spec fn compiled(functions: Seq<(&str, Expr)>) -> Seq<(Seq<char>, Term)> {
    Seq::new(
        functions.len(),
        |i: int| (functions[i].0@, simplify_spec(xf(functions[i].1, Seq::empty()))),
    )
}

/// The debug listing of a program: banner, a section per function, then the
/// generated C without the runtime header.
pub open spec fn listing_text(name: Seq<char>, functions: Seq<(&str, Expr)>) -> Seq<char> {
    banner_text(name) + sections_text(functions) + "─── Generated C ──────────────────────────────\n"@
        + unit_text(compiled(functions), Seq::empty()) + "\n"@
}

fn write_banner(out: &mut String, name: &str)
    ensures
        final(out)@ == old(out)@ + banner_text(name@),
{
    out.append("╔═══════════════════════════════════════════════╗\n║  ");
    out.append(name);
    let len = name.unicode_len();
    let pad: usize = if len < 45 {
        45 - len
    } else {
        0
    };
    crate::text::push_rep(out, " ", pad);
    out.append("║\n╚═══════════════════════════════════════════════╝\n\n");
}

#[verifier::rlimit(40)]
fn write_section(out: &mut String, fname: &str, expr: &Expr)
    requires
        2 * size(*expr) <= usize::MAX,
        2 * tsize(xf(*expr, Seq::empty())) <= usize::MAX,
    ensures
        final(out)@ == old(out)@ + section_text(fname@, *expr),
{
    out.append("─── Source AST: ");
    out.append(fname);
    out.append(" ───────────────────────\n");
    let source = expr.pretty_print();
    out.append(source.as_str());
    out.append("\n─── After Perceus RC insertion ───────────────\n");
    let rc_expr = perceus::transform(expr);
    let rc_text = rc_expr.pretty_print();
    out.append(rc_text.as_str());
    let simplified = simplify::simplify(rc_expr.duplicate());
    let ghost mid = out@;
    if !simplify::structurally_equal_pub(&simplified, &rc_expr) {
        proof {
            simplify::lemma_simplify_shrinks(rc_expr@);
        }
        out.append("\n─── After simplification ─────────────────────\n");
        let s_text = simplified.pretty_print();
        out.append(s_text.as_str());
    } else {
        assert(out@ =~= mid + Seq::<char>::empty());
    }
    out.append("\n");
    assert(out@ =~= old(out)@ + section_text(fname@, *expr));
}

/// The debug listing of a program: a banner with `name`, then for each
/// function its source, its form after RC insertion and, when simplification
/// changed it, its simplified form; then the generated C without the runtime
/// header.
pub fn debug_listing(name: &str, functions: &[(&str, Expr)]) -> (r: String)
    requires
        forall|i: int|
            0 <= i < functions@.len() ==> 2 * size(#[trigger] functions@[i].1) <= usize::MAX && 2
                * tsize(xf(functions@[i].1, Seq::empty())) <= usize::MAX,
        2 * total_size(compiled(functions@)) + 2 <= usize::MAX,
    ensures
        r@ == listing_text(name@, functions@),
{
    let mut out = String::new();
    write_banner(&mut out, name);
    let ghost start = out@;
    let mut i: usize = 0;
    assert(functions@.take(0) =~= Seq::<(&str, Expr)>::empty());
    while i < functions.len()
        invariant
            0 <= i <= functions@.len(),
            forall|k: int|
                0 <= k < functions@.len() ==> 2 * size(#[trigger] functions@[k].1) <= usize::MAX
                    && 2 * tsize(xf(functions@[k].1, Seq::empty())) <= usize::MAX,
            out@ == start + sections_text(functions@.take(i as int)),
        decreases functions@.len() - i,
    {
        assert(functions@.take(i + 1).drop_last() =~= functions@.take(i as int));
        assert(functions@.take(i + 1).last() == functions@[i as int]);
        write_section(&mut out, functions[i].0, &functions[i].1);
        i += 1;
    }
    assert(functions@.take(functions@.len() as int) =~= functions@);
    out.append("─── Generated C ──────────────────────────────\n");
    let rc_fns = perceus::compile_fns(functions);
    assert(fn_terms(rc_fns@) =~= compiled(functions@));
    let c = codegen::emit_body_only(rc_fns.as_slice());
    out.append(c.as_str());
    out.append("\n");
    out
}

} // verus!
