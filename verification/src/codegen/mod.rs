//! C code generator.
//!
//! Emits a C compilation unit with:
//!   - a runtime header (struct Value with fn-pointer field, rc_inc/rc_dec,
//!     try_reuse, alloc_closure, apply, …), given by the caller
//!   - forward declarations and definitions for every lifted closure function
//!   - one entry-point C function per Lumi top-level expression
//!
//! Closure lifting: each `Lam` node is hoisted to a static C function
//! `_fn_N(Value* _env, Value* _arg)`.  The closure creation site emits
//! `alloc_closure(_fn_N, ncaptures, cap0, cap1, ...)`.
//! On entry, the closure body extracts each captured variable from `_env`,
//! increments its RC, then decrements `_env` (which may free the closure).
pub mod comment;
pub mod escape;
pub mod model;

use vstd::prelude::*;
use vstd::string::*;

use self::comment::rc_comment;
use self::escape::{push_escaped, to_upper};
use self::model::{
    bump, c_file_text, include_line, cap_args, cap_lines, case_text, con_alloc_text, emit, emit_arm, emit_arms,
    emit_function, emit_lit, emit_list, field_lines, global_lines, indent_in, indent_out,
    lemma_arms_bounds, lemma_bodies_bounds, lemma_emit_bounds, lemma_line_helpers,
    lemma_list_bounds, lemma_total_size_take, lift, main_text, set_field_lines, static_decls,
    tmp_name, total_size, unit_text, wline, Gen, Wr,
};
use crate::ast::{Lit, LitV};
use crate::names::names;
use crate::rc::{lemma_view_children, terms, Expr, MatchArm, Term};
use crate::simplify::{tsize, tsize_arms, tsize_list};
use crate::text::{dec_int, push_int, push_rep, push_usize};

verus! {

/// The top-level functions, each name taken by its characters and each body by
/// its term.
pub open spec fn fn_terms(fs: Seq<(String, Expr)>) -> Seq<(Seq<char>, Term)> {
    Seq::new(fs.len(), |i: int| (fs[i].0@, fs[i].1@))
}

// ── Public API ───────────────────────────────────────────────────────────────

/// The full program is the runtime header followed by exactly what
/// `emit_body_only` gives for the same functions.
pub proof fn lemma_program_is_header_then_body(functions: Seq<(String, Expr)>, runtime_header: Seq<char>)
    ensures
        unit_text(fn_terms(functions), runtime_header) == runtime_header + unit_text(
            fn_terms(functions),
            Seq::empty(),
        ),
{
    model::lemma_unit_text_prefix(fn_terms(functions), runtime_header);
}

/// A Boolean literal compiles to the C value `lumi_bool(1)` when it is true
/// and `lumi_bool(0)` when it is false, with no statement before it and no
/// change to the generator; the unit literal compiles to `lumi_unit()`, and an
/// integer to `lumi_int` applied to its decimal numeral.
pub proof fn lemma_literal_values(b: bool, n: i64, g: Gen, w: Wr)
    ensures
        emit(Term::Lit(LitV::Bool(b)), g, w) == (
            if b {
                "lumi_bool(1)"@
            } else {
                "lumi_bool(0)"@
            },
            g,
            w,
        ),
        emit(Term::Lit(LitV::Unit), g, w) == ("lumi_unit()"@, g, w),
        emit_lit(LitV::Bool(b), w) == (
            if b {
                "lumi_bool(1)"@
            } else {
                "lumi_bool(0)"@
            },
            w,
        ),
        emit(Term::Lit(LitV::Int(n)), g, w) == ("lumi_int("@ + dec_int(n as int) + ")"@, g, w),
{
    reveal_strlit("lumi_bool(");
    reveal_strlit("1");
    reveal_strlit("0");
    reveal_strlit(")");
    reveal_strlit("lumi_bool(1)");
    reveal_strlit("lumi_bool(0)");
    if b {
        assert("lumi_bool("@ + "1"@ + ")"@ =~= "lumi_bool(1)"@);
    } else {
        assert("lumi_bool("@ + "0"@ + ")"@ =~= "lumi_bool(0)"@);
    }
}

/// The C file is the line including `lumi_runtime.h`, a blank line, a global
/// for every function but the entry, a blank line, exactly the text of
/// `emit_body_only`, and then `main` when there is an entry.
pub proof fn lemma_c_file_layout(functions: Seq<(String, Expr)>, entry: Option<Seq<char>>)
    ensures
        c_file_text(fn_terms(functions), entry) == "#include \"lumi_runtime.h\""@ + "\n\n"@
            + static_decls(fn_terms(functions), entry) + "\n"@ + unit_text(
            fn_terms(functions),
            Seq::empty(),
        ) + match entry {
            Some(e) => main_text(fn_terms(functions), e),
            None => Seq::empty(),
        },
{
    let fs = fn_terms(functions);
    let prefix = include_line() + "\n\n"@ + static_decls(fs, entry) + "\n"@;
    model::lemma_unit_text_prefix(fs, prefix);
    let (b, g) = model::emit_bodies(fs, Gen { lifted: prefix, fresh: 0 });
    assert(unit_text(fs, prefix) == g.lifted + b);
    match entry {
        Some(e) => {},
        None => {
            assert(g.lifted + b =~= prefix + unit_text(fs, Seq::empty()) + Seq::<char>::empty());
        },
    }
}

/// Full output: the runtime header, then the lifted closures, then the
/// entry-point functions.
pub fn emit_program(functions: &[(String, Expr)], runtime_header: &str) -> (r: String)
    requires
        2 * total_size(fn_terms(functions@)) + 2 <= usize::MAX,
    ensures
        r@ == unit_text(fn_terms(functions@), runtime_header@),
{
    let mut cg = Codegen::new();
    cg.lifted.append(runtime_header);
    let bodies = emit_bodies(&mut cg, functions);
    let mut out = cg.lifted;
    out.append(bodies.as_str());
    out
}

/// Full compilable compilation unit: the line including the runtime header, file-scope globals for
/// every non-entry function (immortal, to support cross-references and
/// recursion), the lifted closures, the entry-point functions, and
/// `int main(void)` that initialises each non-entry function as an immortal
/// global, calls the entry, then cleans up.
pub fn emit_c_file(functions: &[(String, Expr)], entry: Option<&str>) -> (r: String)
    requires
        2 * total_size(fn_terms(functions@)) + 2 <= usize::MAX,
    ensures
        r@ == c_file_text(
            fn_terms(functions@),
            match entry {
                Some(e) => Some(e@),
                None => None,
            },
        ),
{
    let ghost fs = fn_terms(functions@);
    let ghost ent = match entry {
        Some(e) => Some(e@),
        None => None,
    };
    let mut cg = Codegen::new();
    cg.lifted.append("#include \"lumi_runtime.h\"");
    cg.lifted.append("\n\n");
    let mut i: usize = 0;
    assert(fs.take(0) =~= Seq::<(Seq<char>, Term)>::empty());
    while i < functions.len()
        invariant
            0 <= i <= functions.len(),
            fs == fn_terms(functions@),
            ent == match entry {
                Some(e) => Some(e@),
                None => None,
            },
            cg@ == (Gen {
                lifted: include_line() + "\n\n"@ + static_decls(fs.take(i as int), ent),
                fresh: 0,
            }),
        decreases functions.len() - i,
    {
        assert(fs.take(i + 1).drop_last() =~= fs.take(i as int));
        let name = &functions[i].0;
        let is_entry = match entry {
            Some(e) => *name == String::from_str(e),
            None => false,
        };
        if !is_entry {
            cg.lifted.append("static Value* ");
            cg.lifted.append(name.as_str());
            cg.lifted.append(";\n");
        }
        proof {
            assert(fs.take(i + 1).last() == fs[i as int]);
            assert(cg.lifted@ =~= include_line() + "\n\n"@ + static_decls(fs.take(i + 1), ent));
        }
        i += 1;
    }
    assert(fs.take(functions.len() as int) =~= fs);
    cg.lifted.append("\n");
    let bodies = emit_bodies(&mut cg, functions);
    let mut out = cg.lifted;
    out.append(bodies.as_str());
    match entry {
        Some(entry_name) => {
            let main = emit_main(functions, entry_name);
            out.append(main.as_str());
        },
        None => {},
    }
    out
}

/// Only the generated portion (lifted closures + entry-point functions),
/// without the runtime header.  Useful for display / diffing.
pub fn emit_body_only(functions: &[(String, Expr)]) -> (r: String)
    requires
        2 * total_size(fn_terms(functions@)) + 2 <= usize::MAX,
    ensures
        r@ == unit_text(fn_terms(functions@), Seq::empty()),
{
    let mut cg = Codegen::new();
    let bodies = emit_bodies(&mut cg, functions);
    let mut out = cg.lifted;
    out.append(bodies.as_str());
    out
}

fn emit_bodies(cg: &mut Codegen, functions: &[(String, Expr)]) -> (r: String)
    requires
        old(cg)@.fresh + 2 * total_size(fn_terms(functions@)) + 2 <= usize::MAX,
    ensures
        (r@, final(cg)@) == model::emit_bodies(fn_terms(functions@), old(cg)@),
{
    let ghost fs = fn_terms(functions@);
    let ghost g0 = cg@;
    let mut bodies = String::new();
    let mut i: usize = 0;
    assert(fs.take(0) =~= Seq::<(Seq<char>, Term)>::empty());
    while i < functions.len()
        invariant
            0 <= i <= functions.len(),
            fs == fn_terms(functions@),
            g0.fresh + 2 * total_size(fs) + 2 <= usize::MAX,
            (bodies@, cg@) == model::emit_bodies(fs.take(i as int), g0),
        decreases functions.len() - i,
    {
        proof {
            lemma_bodies_bounds(fs.take(i as int), g0);
            lemma_total_size_take(fs, i as int);
            assert(fs.take(i + 1).drop_last() =~= fs.take(i as int));
            assert(fs.take(i + 1).last() == fs[i as int]);
        }
        let text = cg.emit_function(functions[i].0.as_str(), &functions[i].1);
        bodies.append(text.as_str());
        bodies.append("\n");
        i += 1;
    }
    assert(fs.take(functions.len() as int) =~= fs);
    bodies
}

/// `int main(void)` for the entry `entry_name`.
fn emit_main(functions: &[(String, Expr)], entry_name: &str) -> (r: String)
    ensures
        r@ == main_text(fn_terms(functions@), entry_name@),
{
    let ghost fs = fn_terms(functions@);
    let entry = String::from_str(entry_name);
    let mut fw = FnWriter::new(0);
    fw.line("int main(void) {");
    fw.indent_in();
    fw.line("lumi_runtime_init();");
    proof {
        model::lemma_global_lines_indent(fs, entry@, false, fw@);
    }
    push_global_lines(&mut fw, functions, &entry, false);
    fw.line("");
    let mut s = String::from_str("Value* _result = lumi_");
    s.append(entry_name);
    s.append("();");
    fw.line(s.as_str());
    fw.line("rc_dec(_result);");
    fw.line("");
    proof {
        model::lemma_global_lines_indent(fs, entry@, true, fw@);
    }
    push_global_lines(&mut fw, functions, &entry, true);
    fw.line("return 0;");
    fw.indent_out();
    fw.line("}");
    fw.finish()
}

/// For every function but the entry, a line that makes it a global or, with
/// `release`, one that releases that global.
fn push_global_lines(fw: &mut FnWriter, functions: &[(String, Expr)], entry: &String, release: bool)
    ensures
        final(fw)@ == global_lines(fn_terms(functions@), entry@, release, old(fw)@),
{
    let ghost fs = fn_terms(functions@);
    let mut i: usize = 0;
    assert(fs.take(0) =~= Seq::<(Seq<char>, Term)>::empty());
    while i < functions.len()
        invariant
            0 <= i <= functions.len(),
            fs == fn_terms(functions@),
            fw@ == global_lines(fs.take(i as int), entry@, release, old(fw)@),
        decreases functions.len() - i,
    {
        assert(fs.take(i + 1).drop_last() =~= fs.take(i as int));
        assert(fs.take(i + 1).last() == fs[i as int]);
        let name = &functions[i].0;
        if *name != *entry {
            if release {
                let mut s = String::from_str("lumi_release_global(");
                s.append(name.as_str());
                s.append(");");
                fw.line(s.as_str());
            } else {
                let mut s = name.clone();
                s.append(" = lumi_global(lumi_");
                s.append(name.as_str());
                s.append("());");
                fw.line(s.as_str());
            }
        }
        i += 1;
    }
    assert(fs.take(functions.len() as int) =~= fs);
}

/// Room left in the counters and the indentation for a term of `n` nodes.
pub open spec fn room(n: nat, g: Gen, w: Wr) -> bool {
    &&& g.fresh + n <= usize::MAX
    &&& w.fresh + 2 * n <= usize::MAX
    &&& w.indent + 2 * n + 1 <= usize::MAX
}

/// Room for match arms of `n` nodes in all, whose bodies go one level deeper.
pub open spec fn arm_room(n: nat, g: Gen, w: Wr) -> bool {
    &&& g.fresh + n <= usize::MAX
    &&& w.fresh + 2 * n <= usize::MAX
    &&& w.indent + 2 * n + 2 <= usize::MAX
}

// ── FnWriter — writes a single C function body ───────────────────────────────

struct FnWriter {
    out: String,
    indent: usize,
    fresh: usize,
}

impl View for FnWriter {
    type V = Wr;

    closed spec fn view(&self) -> Wr {
        Wr { out: self.out@, indent: self.indent as nat, fresh: self.fresh as nat }
    }
}

impl FnWriter {
    fn new(indent: usize) -> (r: Self)
        ensures
            r@ == (Wr { out: Seq::empty(), indent: indent as nat, fresh: 0 }),
    {
        FnWriter { out: String::new(), indent, fresh: 0 }
    }

    fn finish(self) -> (r: String)
        ensures
            r@ == self@.out,
    {
        self.out
    }

    fn line(&mut self, s: &str)
        ensures
            final(self)@ == wline(old(self)@, s@),
    {
        push_rep(&mut self.out, "    ", self.indent);
        self.out.append(s);
        self.out.append("\n");
    }

    fn tmp(&mut self) -> (r: String)
        requires
            old(self).fresh < usize::MAX,
        ensures
            final(self)@ == bump(old(self)@),
            r@ == tmp_name(final(self)@.fresh),
    {
        self.fresh += 1;
        let mut r = String::new();
        r.append("_t");
        push_usize(&mut r, self.fresh);
        r
    }

    fn indent_in(&mut self)
        requires
            old(self).indent < usize::MAX,
        ensures
            final(self)@ == indent_in(old(self)@),
    {
        self.indent += 1;
    }

    fn indent_out(&mut self)
        requires
            old(self).indent >= 1,
        ensures
            final(self)@ == indent_out(old(self)@),
    {
        self.indent -= 1;
    }
}

// ── Codegen state ────────────────────────────────────────────────────────────

struct Codegen {
    /// Accumulated lifted closure functions (forward decls + definitions).
    /// These are emitted before the entry-point functions.
    lifted: String,
    /// Counter shared across all lambdas to produce unique names.
    fresh: usize,
}

impl View for Codegen {
    type V = Gen;

    closed spec fn view(&self) -> Gen {
        Gen { lifted: self.lifted@, fresh: self.fresh as nat }
    }
}

impl Codegen {
    fn new() -> (r: Self)
        ensures
            r@ == (Gen { lifted: Seq::empty(), fresh: 0 }),
    {
        Codegen { lifted: String::new(), fresh: 0 }
    }

    fn fresh_name(&mut self, prefix: &str) -> (r: String)
        requires
            old(self).fresh < usize::MAX,
        ensures
            final(self)@ == (Gen { lifted: old(self)@.lifted, fresh: old(self)@.fresh + 1 }),
            r@ == prefix@ + crate::text::dec_nat(final(self)@.fresh),
    {
        self.fresh += 1;
        let mut r = String::new();
        r.append(prefix);
        push_usize(&mut r, self.fresh);
        r
    }

    // ── Expression emitter ───────────────────────────────────────────────────
    // Writes statements into `fw`, returns the C rvalue holding the result.

    fn emit_expr(&mut self, expr: &Expr, fw: &mut FnWriter) -> (r: String)
        requires
            room(tsize(expr@), old(self)@, old(fw)@),
        ensures
            (r@, final(self)@, final(fw)@) == emit(expr@, old(self)@, old(fw)@),
        decreases expr, 3nat,
    {
        match expr {
            Expr::Lit(l) => emit_literal(l, fw),
            Expr::Var(x) => x.clone(),
            Expr::Dup { var, body } => {
                let mut s = String::new();
                s.append("rc_inc(");
                s.append(var.as_str());
                s.append(");  /* dup ");
                s.append(var.as_str());
                s.append(" */");
                fw.line(s.as_str());
                self.emit_expr(body, fw)
            },
            Expr::Drop { var, body } => {
                let mut s = String::new();
                s.append("rc_dec(");
                s.append(var.as_str());
                s.append(");  /* drop ");
                s.append(var.as_str());
                s.append(" */");
                fw.line(s.as_str());
                self.emit_expr(body, fw)
            },
            Expr::Let { name, value, body } => {
                proof {
                    lemma_emit_bounds(value@, self@, fw@);
                }
                let val = self.emit_expr(value, fw);
                let mut s = String::new();
                s.append("Value* ");
                s.append(name.as_str());
                s.append(" = ");
                s.append(val.as_str());
                s.append(";");
                fw.line(s.as_str());
                self.emit_expr(body, fw)
            },
            Expr::App(f, arg) => {
                proof {
                    lemma_emit_bounds(f@, self@, fw@);
                }
                let fv = self.emit_expr(f, fw);
                proof {
                    lemma_emit_bounds(arg@, self@, fw@);
                }
                let av = self.emit_expr(arg, fw);
                let t = fw.tmp();
                let mut s = String::new();
                s.append("Value* ");
                s.append(t.as_str());
                s.append(" = apply(");
                s.append(fv.as_str());
                s.append(", ");
                s.append(av.as_str());
                s.append(");");
                fw.line(s.as_str());
                t
            },
            Expr::Lam { .. } => self.emit_lam(expr, fw),
            Expr::If { .. } => self.emit_if(expr, fw),
            Expr::Match { .. } => self.emit_match(expr, fw),
            Expr::Con { .. } => self.emit_con(expr, fw),
            Expr::Foreign { .. } => self.emit_foreign(expr, fw),
        }
    }

    // ── Lambda: lift the body to a static C function; allocate a closure ─────

    fn emit_lam(&mut self, expr: &Expr, fw: &mut FnWriter) -> (r: String)
        requires
            old(self)@.fresh + tsize(expr@) <= usize::MAX,
            old(fw)@.fresh + 2 * tsize(expr@) <= usize::MAX,
            old(fw)@.indent + 2 * tsize(expr@) + 1 <= usize::MAX,
            expr is Lam,
        ensures
            (r@, final(self)@, final(fw)@) == emit(expr@, old(self)@, old(fw)@),
        decreases expr, 2nat,
    {
        if let Expr::Lam { param, captures, body } = expr {
            let name = self.fresh_name("_fn_");
            self.lift_lambda(name.as_str(), param, captures, body);
            fw.line("/* declaration */");
            let t = fw.tmp();
            let mut s = String::new();
            s.append("Value* ");
            s.append(t.as_str());
            s.append(" = alloc_closure(");
            s.append(name.as_str());
            s.append(", ");
            push_usize(&mut s, captures.len());
            push_cap_args(&mut s, captures);
            s.append(");\n");
            fw.line(s.as_str());
            t
        } else {
            proof {
                assert(false);
            }
            String::new()
        }
    }

    // ── If: the condition is consumed after testing ──────────────────────────
    // It is evaluated into a temp, tested, then rc_dec'd before either branch.

    fn emit_if(&mut self, expr: &Expr, fw: &mut FnWriter) -> (r: String)
        requires
            room(tsize(expr@), old(self)@, old(fw)@),
            expr is If,
        ensures
            (r@, final(self)@, final(fw)@) == emit(expr@, old(self)@, old(fw)@),
        decreases expr, 2nat,
    {
        if let Expr::If { cond, then_, else_ } = expr {
            proof {
                lemma_emit_bounds(cond@, self@, fw@);
            }
            let cv = self.emit_expr(cond, fw);
            let flag = fw.tmp();
            let result = fw.tmp();
            // Capture the boolean *before* decrementing the value.
            let mut s = String::from_str("int ");
            s.append(flag.as_str());
            s.append(" = lumi_is_true(");
            s.append(cv.as_str());
            s.append(");");
            fw.line(s.as_str());
            let mut s = String::from_str("rc_dec(");
            s.append(cv.as_str());
            s.append(");  /* consume condition */");
            fw.line(s.as_str());
            let mut s = String::from_str("Value* ");
            s.append(result.as_str());
            s.append(";");
            fw.line(s.as_str());
            let mut s = String::from_str("if (");
            s.append(flag.as_str());
            s.append(") {");
            fw.line(s.as_str());
            fw.indent_in();
            proof {
                lemma_emit_bounds(then_@, self@, fw@);
            }
            let tv = self.emit_expr(then_, fw);
            let mut s = result.clone();
            s.append(" = ");
            s.append(tv.as_str());
            s.append(";");
            fw.line(s.as_str());
            fw.indent_out();
            fw.line("} else {");
            fw.indent_in();
            proof {
                lemma_emit_bounds(else_@, self@, fw@);
            }
            let ev = self.emit_expr(else_, fw);
            let mut s = result.clone();
            s.append(" = ");
            s.append(ev.as_str());
            s.append(";");
            fw.line(s.as_str());
            fw.indent_out();
            fw.line("}");
            result
        } else {
            proof {
                assert(false);
            }
            String::new()
        }
    }

    // ── Match: a switch on the scrutinee's tag ───────────────────────────────

    fn emit_match(&mut self, expr: &Expr, fw: &mut FnWriter) -> (r: String)
        requires
            room(tsize(expr@), old(self)@, old(fw)@),
            expr is Match,
        ensures
            (r@, final(self)@, final(fw)@) == emit(expr@, old(self)@, old(fw)@),
        decreases expr, 2nat,
    {
        if let Expr::Match { scrutinee, arms } = expr {
            proof {
                lemma_view_children(*expr);
            }
            let result = fw.tmp();
            let mut s = String::from_str("Value* ");
            s.append(result.as_str());
            s.append(";");
            fw.line(s.as_str());
            let mut s = String::from_str("switch (tag_of(");
            s.append(scrutinee.as_str());
            s.append(")) {");
            fw.line(s.as_str());
            fw.indent_in();
            proof {
                lemma_arms_bounds(scrutinee@, crate::rc::arm_terms(arms@), result@, self@, fw@);
            }
            self.emit_arms(scrutinee, arms, &result, fw);
            fw.line("default: lumi_panic(\"unmatched\"); break;");
            fw.indent_out();
            fw.line("}");
            result
        } else {
            proof {
                assert(false);
            }
            String::new()
        }
    }

    fn emit_arms(&mut self, scrutinee: &String, arms: &Vec<MatchArm>, result: &String, fw: &mut FnWriter)
        requires
            arm_room(tsize_arms(crate::rc::arm_terms(arms@)), old(self)@, old(fw)@),
            old(fw)@.indent >= 1,
        ensures
            (final(self)@, final(fw)@) == emit_arms(
                scrutinee@,
                crate::rc::arm_terms(arms@),
                result@,
                old(self)@,
                old(fw)@,
            ),
        decreases arms, 1nat,
    {
        let ghost all = crate::rc::arm_terms(arms@);
        let ghost g0 = self@;
        let ghost w0 = fw@;
        let mut i: usize = 0;
        assert(all.take(0) =~= Seq::<crate::rc::ArmTerm>::empty());
        while i < arms.len()
            invariant
                0 <= i <= arms.len(),
                all == crate::rc::arm_terms(arms@),
                arm_room(tsize_arms(all), g0, w0),
                w0.indent >= 1,
                (self@, fw@) == emit_arms(scrutinee@, all.take(i as int), result@, g0, w0),
            decreases arms.len() - i,
        {
            proof {
                lemma_arms_bounds(scrutinee@, all.take(i as int), result@, g0, w0);
                lemma_tsize_arms_take(all, i as int);
                assert(all.take(i + 1).drop_last() =~= all.take(i as int));
                assert(all.take(i + 1).last() == arms@[i as int]@);
            }
            self.emit_arm(scrutinee, &arms[i], result, fw);
            i += 1;
        }
        assert(all.take(arms.len() as int) =~= all);
    }

    fn emit_arm(&mut self, scrutinee: &String, arm: &MatchArm, result: &String, fw: &mut FnWriter)
        requires
            arm_room(tsize(arm.body@), old(self)@, old(fw)@),
        ensures
            (final(self)@, final(fw)@) == emit_arm(scrutinee@, arm@, result@, old(self)@, old(fw)@),
        decreases arm, 0nat,
    {
        let wildcard = String::from_str("_");
        if arm.tag == wildcard {
            fw.line("default: {");
        } else {
            let up = to_upper(arm.tag.as_str());
            let s = case_line(up.as_str());
            fw.line(s.as_str());
        }
        fw.indent_in();
        proof {
            lemma_line_helpers(names(arm.bindings@), scrutinee@, scrutinee@, fw@);
        }
        // Extract fields; rc_inc each (scrutinee still owns them until try_reuse).
        push_field_lines(fw, scrutinee, &arm.bindings);
        // Acquire reuse token (decrements scrutinee's RC; returns memory if RC was 1).
        match &arm.reuse_token {
            Some(token) => {
                let mut s = String::from_str("ReuseToken ");
                s.append(token.as_str());
                s.append(" = try_reuse(");
                s.append(scrutinee.as_str());
                s.append(");/* RC==1 -> recycle; RC>1 -> NULL */");
                fw.line(s.as_str());
            },
            None => {
                let mut s = String::from_str("rc_dec(");
                s.append(scrutinee.as_str());
                s.append(");");
                fw.line(s.as_str());
            },
        }
        proof {
            lemma_emit_bounds(arm.body@, self@, fw@);
        }
        let av = self.emit_expr(&arm.body, fw);
        let mut s = result.clone();
        s.append(" = ");
        s.append(av.as_str());
        s.append(";");
        fw.line(s.as_str());
        fw.line("break;");
        fw.indent_out();
        fw.line("}");
    }

    // ── Constructor ──────────────────────────────────────────────────────────

    fn emit_con(&mut self, expr: &Expr, fw: &mut FnWriter) -> (r: String)
        requires
            room(tsize(expr@), old(self)@, old(fw)@),
            expr is Con,
        ensures
            (r@, final(self)@, final(fw)@) == emit(expr@, old(self)@, old(fw)@),
        decreases expr, 2nat,
    {
        if let Expr::Con { tag, fields, reuse } = expr {
            proof {
                lemma_view_children(*expr);
                lemma_list_bounds(terms(fields@), self@, fw@);
            }
            let field_temps = self.emit_list(fields, fw);
            let t = fw.tmp();
            let up = to_upper(tag.as_str());
            let s = con_alloc_line(t.as_str(), up.as_str(), fields.len(), reuse);
            fw.line(s.as_str());
            push_set_field_lines(fw, &t, &field_temps);
            t
        } else {
            proof {
                assert(false);
            }
            String::new()
        }
    }

    // ── Foreign call ─────────────────────────────────────────────────────────

    fn emit_foreign(&mut self, expr: &Expr, fw: &mut FnWriter) -> (r: String)
        requires
            room(tsize(expr@), old(self)@, old(fw)@),
            expr is Foreign,
        ensures
            (r@, final(self)@, final(fw)@) == emit(expr@, old(self)@, old(fw)@),
        decreases expr, 2nat,
    {
        if let Expr::Foreign { name, args } = expr {
            proof {
                lemma_view_children(*expr);
                lemma_list_bounds(terms(args@), self@, fw@);
            }
            let arg_vals = self.emit_list(args, fw);
            let t = fw.tmp();
            let mut s = String::from_str("Value* ");
            s.append(t.as_str());
            s.append(" = ");
            s.append(name.as_str());
            s.append("(");
            crate::rc::pp::push_names(&mut s, &arg_vals);
            s.append(");");
            fw.line(s.as_str());
            t
        } else {
            proof {
                assert(false);
            }
            String::new()
        }
    }

    /// The expressions emitted in order; the rvalue of each.
    fn emit_list(&mut self, es: &Vec<Expr>, fw: &mut FnWriter) -> (r: Vec<String>)
        requires
            room(tsize_list(terms(es@)), old(self)@, old(fw)@),
        ensures
            (names(r@), final(self)@, final(fw)@) == emit_list(terms(es@), old(self)@, old(fw)@),
        decreases es, 1nat,
    {
        let ghost all = terms(es@);
        let ghost g0 = self@;
        let ghost w0 = fw@;
        let mut vals: Vec<String> = Vec::new();
        let mut i: usize = 0;
        assert(all.take(0) =~= Seq::<Term>::empty());
        assert(names(vals@) =~= Seq::<Seq<char>>::empty());
        while i < es.len()
            invariant
                0 <= i <= es.len(),
                all == terms(es@),
                room(tsize_list(all), g0, w0),
                (names(vals@), self@, fw@) == emit_list(all.take(i as int), g0, w0),
            decreases es.len() - i,
        {
            proof {
                lemma_list_bounds(all.take(i as int), g0, w0);
                lemma_tsize_list_take(all, i as int);
                assert(all.take(i + 1).drop_last() =~= all.take(i as int));
                assert(all.take(i + 1).last() == es@[i as int]@);
            }
            let v = self.emit_expr(&es[i], fw);
            let ghost before = vals@;
            vals.push(v);
            proof {
                assert(names(vals@) =~= names(before).push(v@));
            }
            i += 1;
        }
        assert(all.take(es.len() as int) =~= all);
        vals
    }

    // ── Lambda lifting ───────────────────────────────────────────────────────

    fn lift_lambda(&mut self, fn_name: &str, param: &String, captures: &Vec<String>, body: &Expr)
        requires
            old(self)@.fresh + tsize(body@) <= usize::MAX,
            2 * tsize(body@) + 2 <= usize::MAX,
        ensures
            final(self)@ == lift(fn_name@, param@, names(captures@), body@, old(self)@),
        decreases body, 4nat,
    {
        // Forward declaration (allows mutual recursion among closures).
        self.lifted.append("static Value* ");
        self.lifted.append(fn_name);
        self.lifted.append("(Value* _env, Value* _arg);\n\n");

        // Emit the function body into a fresh FnWriter.
        let mut fw = FnWriter::new(0);
        let mut label = String::from_str("Lumi ");
        label.append(fn_name);
        let comment = rc_comment(label.as_str(), body);
        fw.line(comment.as_str());
        let mut s = String::from_str("static Value* ");
        s.append(fn_name);
        s.append("(Value* _env, Value* _arg) {");
        fw.line(s.as_str());
        fw.indent_in();
        proof {
            lemma_line_helpers(names(captures@), param@, param@, fw@);
        }

        // Extract each captured variable from the environment: rc_inc the
        // field to take a local reference, then rc_dec _env.
        push_cap_lines(&mut fw, captures);
        // Drop the closure env (owned by this call frame).
        fw.line("rc_dec(_env);  /* release closure env */");
        // The argument is owned; bind it to the parameter name.
        let mut s = String::from_str("Value* ");
        s.append(param.as_str());
        s.append(" = _arg;");
        fw.line(s.as_str());

        proof {
            lemma_emit_bounds(body@, self@, fw@);
        }
        let result = self.emit_expr(body, &mut fw);
        let mut s = String::from_str("return ");
        s.append(result.as_str());
        s.append(";");
        fw.line(s.as_str());
        fw.indent_out();
        fw.line("}");
        fw.line("");
        let text = fw.finish();
        self.lifted.append(text.as_str());
    }

    // ── Top-level function ───────────────────────────────────────────────────

    fn emit_function(&mut self, name: &str, expr: &Expr) -> (r: String)
        requires
            old(self)@.fresh + tsize(expr@) <= usize::MAX,
            2 * tsize(expr@) + 2 <= usize::MAX,
        ensures
            (r@, final(self)@) == emit_function(name@, expr@, old(self)@),
    {
        let mut fw = FnWriter::new(0);
        let mut label = String::from_str("Lumi ");
        label.append(name);
        let comment = rc_comment(label.as_str(), expr);
        fw.line(comment.as_str());
        let mut s = String::from_str("Value* lumi_");
        s.append(name);
        s.append("(void) {");
        fw.line(s.as_str());
        fw.indent_in();
        proof {
            lemma_emit_bounds(expr@, self@, fw@);
        }
        let result = self.emit_expr(expr, &mut fw);
        let mut s = String::from_str("return ");
        s.append(result.as_str());
        s.append(";");
        fw.line(s.as_str());
        fw.indent_out();
        fw.line("}");
        fw.finish()
    }
}

/// The statement that makes the constructor cell `t` with tag constant
/// `TAG_<tag_upper>` and `n` fields, recycling the cell named by `reuse` when
/// there is one.
pub fn con_alloc_line(t: &str, tag_upper: &str, n: usize, reuse: &Option<String>) -> (r: String)
    ensures
        r@ == con_alloc_text(t@, tag_upper@, n as nat, crate::rc::opt_chars(*reuse)),
{
    let mut s = String::from_str("Value* ");
    s.append(t);
    match reuse {
        Some(token) => {
            s.append(" = reuse_con(");
            s.append(token.as_str());
            s.append(", TAG_");
            s.append(tag_upper);
            s.append(", ");
            push_usize(&mut s, n);
            s.append(");/* Perceus: reuse if RC==1 */");
        },
        None => {
            s.append(" = alloc_con(TAG_");
            s.append(tag_upper);
            s.append(", ");
            push_usize(&mut s, n);
            s.append(");");
        },
    }
    s
}

/// The head of the `case` block of an arm whose tag, upper-cased, is
/// `tag_upper`.
pub fn case_line(tag_upper: &str) -> (r: String)
    ensures
        r@ == case_text(tag_upper@),
{
    let mut s = String::from_str("case TAG_");
    s.append(tag_upper);
    s.append(": {");
    s
}

/// Appends `, c` for each capture.
fn push_cap_args(out: &mut String, caps: &Vec<String>)
    ensures
        final(out)@ == old(out)@ + cap_args(names(caps@)),
{
    let ghost all = names(caps@);
    let mut i: usize = 0;
    assert(old(out)@ + cap_args(all.take(0)) =~= old(out)@);
    while i < caps.len()
        invariant
            0 <= i <= caps.len(),
            all == names(caps@),
            out@ == old(out)@ + cap_args(all.take(i as int)),
        decreases caps.len() - i,
    {
        assert(all.take(i + 1).drop_last() =~= all.take(i as int));
        out.append(", ");
        out.append(caps[i].as_str());
        assert(out@ =~= old(out)@ + cap_args(all.take(i + 1)));
        i += 1;
    }
    assert(all.take(caps.len() as int) =~= all);
}

/// Writes the lines that take each capture out of the closure environment.
fn push_cap_lines(fw: &mut FnWriter, caps: &Vec<String>)
    ensures
        final(fw)@ == cap_lines(names(caps@), old(fw)@),
{
    let ghost all = names(caps@);
    let mut i: usize = 0;
    assert(all.take(0) =~= Seq::<Seq<char>>::empty());
    while i < caps.len()
        invariant
            0 <= i <= caps.len(),
            all == names(caps@),
            fw@ == cap_lines(all.take(i as int), old(fw)@),
        decreases caps.len() - i,
    {
        assert(all.take(i + 1).drop_last() =~= all.take(i as int));
        let cap = &caps[i];
        let mut s = String::from_str("Value* ");
        s.append(cap.as_str());
        s.append(" = closure_cap(_env, ");
        push_usize(&mut s, i);
        s.append(");  /* captured ");
        s.append(cap.as_str());
        s.append(" */");
        fw.line(s.as_str());
        let mut s = String::from_str("rc_inc(");
        s.append(cap.as_str());
        s.append(");");
        fw.line(s.as_str());
        i += 1;
    }
    assert(all.take(caps.len() as int) =~= all);
}

/// Writes the lines that take each field of the scrutinee into its binding.
fn push_field_lines(fw: &mut FnWriter, scrutinee: &String, bindings: &Vec<String>)
    ensures
        final(fw)@ == field_lines(scrutinee@, names(bindings@), old(fw)@),
{
    let ghost all = names(bindings@);
    let mut i: usize = 0;
    assert(all.take(0) =~= Seq::<Seq<char>>::empty());
    while i < bindings.len()
        invariant
            0 <= i <= bindings.len(),
            all == names(bindings@),
            fw@ == field_lines(scrutinee@, all.take(i as int), old(fw)@),
        decreases bindings.len() - i,
    {
        assert(all.take(i + 1).drop_last() =~= all.take(i as int));
        let b = &bindings[i];
        let mut s = String::from_str("Value* ");
        s.append(b.as_str());
        s.append(" = field(");
        s.append(scrutinee.as_str());
        s.append(", ");
        push_usize(&mut s, i);
        s.append(");  /* field ");
        push_usize(&mut s, i);
        s.append(" */");
        fw.line(s.as_str());
        let mut s = String::from_str("rc_inc(");
        s.append(b.as_str());
        s.append(");");
        fw.line(s.as_str());
        i += 1;
    }
    assert(all.take(bindings.len() as int) =~= all);
}

/// Writes the lines that store each field value into the constructor `t`.
fn push_set_field_lines(fw: &mut FnWriter, t: &String, vals: &Vec<String>)
    ensures
        final(fw)@ == set_field_lines(t@, names(vals@), old(fw)@),
{
    let ghost all = names(vals@);
    let mut i: usize = 0;
    assert(all.take(0) =~= Seq::<Seq<char>>::empty());
    while i < vals.len()
        invariant
            0 <= i <= vals.len(),
            all == names(vals@),
            fw@ == set_field_lines(t@, all.take(i as int), old(fw)@),
        decreases vals.len() - i,
    {
        assert(all.take(i + 1).drop_last() =~= all.take(i as int));
        let mut s = String::from_str("set_field(");
        s.append(t.as_str());
        s.append(", ");
        push_usize(&mut s, i);
        s.append(", ");
        s.append(vals[i].as_str());
        s.append(");");
        fw.line(s.as_str());
        i += 1;
    }
    assert(all.take(vals.len() as int) =~= all);
}

proof fn lemma_tsize_list_take(ts: Seq<Term>, i: int)
    requires
        0 <= i < ts.len(),
    ensures
        tsize_list(ts.take(i + 1)) == tsize_list(ts.take(i)) + tsize(ts[i]),
        tsize_list(ts.take(i + 1)) <= tsize_list(ts),
    decreases ts.len(),
{
    assert(ts.take(i + 1).drop_last() =~= ts.take(i));
    if i + 1 < ts.len() {
        lemma_tsize_list_take(ts.drop_last(), i);
        assert(ts.drop_last().take(i + 1) =~= ts.take(i + 1));
        assert(ts.drop_last().take(i) =~= ts.take(i));
    } else {
        assert(ts.take(i + 1) =~= ts);
    }
}

proof fn lemma_tsize_arms_take(arms: Seq<crate::rc::ArmTerm>, i: int)
    requires
        0 <= i < arms.len(),
    ensures
        tsize_arms(arms.take(i + 1)) == tsize_arms(arms.take(i)) + tsize(arms[i].body),
        tsize_arms(arms.take(i + 1)) <= tsize_arms(arms),
    decreases arms.len(),
{
    assert(arms.take(i + 1).drop_last() =~= arms.take(i));
    if i + 1 < arms.len() {
        lemma_tsize_arms_take(arms.drop_last(), i);
        assert(arms.drop_last().take(i + 1) =~= arms.take(i + 1));
        assert(arms.drop_last().take(i) =~= arms.take(i));
    } else {
        assert(arms.take(i + 1) =~= arms);
    }
}

/// The C rvalue of a literal; a string literal is first stored in a temporary.
fn emit_literal(l: &Lit, fw: &mut FnWriter) -> (r: String)
    requires
        old(fw).fresh < usize::MAX,
    ensures
        (r@, final(fw)@) == emit_lit(l@, old(fw)@),
{
    match l {
        Lit::Int(n) => {
            let mut s = String::new();
            s.append("lumi_int(");
            push_int(&mut s, *n);
            s.append(")");
            s
        },
        Lit::Bool(b) => {
            let mut s = String::new();
            s.append("lumi_bool(");
            if *b {
                s.append("1");
            } else {
                s.append("0");
            }
            s.append(")");
            s
        },
        Lit::Unit => String::from_str("lumi_unit()"),
        Lit::Str(text) => {
            let t = fw.tmp();
            let mut s = String::new();
            s.append("Value* ");
            s.append(t.as_str());
            s.append(" = lumi_str(\"");
            push_escaped(&mut s, text.as_str());
            s.append("\");");
            fw.line(s.as_str());
            t
        },
    }
}

} // verus!
