//! What the C generator writes, as functions of the RC term and of the
//! generator's state.
//!
//! The generator keeps two pieces of state: the text of the lifted closure
//! functions with a counter for their names (`Gen`), and, per C function being
//! written, its text, indentation and a counter for temporaries (`Wr`).
use vstd::prelude::*;

use super::comment::comment_text;
use super::escape::{escape_text, uppercase};
use crate::ast::LitV;
use crate::rc::pp::{join_names, rc_indent};
use crate::rc::{ArmTerm, Term};
use crate::simplify::{tsize, tsize_arms, tsize_list};
use crate::text::{dec_int, dec_nat, rep};

verus! {

/// State shared by a whole program: lifted closures and the closure counter.
pub struct Gen {
    pub lifted: Seq<char>,
    pub fresh: nat,
}

/// State of one C function being written.
pub struct Wr {
    pub out: Seq<char>,
    pub indent: nat,
    pub fresh: nat,
}

pub open spec fn new_wr() -> Wr {
    Wr { out: Seq::empty(), indent: 0, fresh: 0 }
}

/// One line at the current indentation, four spaces a level.
pub open spec fn wline(w: Wr, s: Seq<char>) -> Wr {
    Wr { out: w.out + rep("    "@, w.indent) + s + "\n"@, indent: w.indent, fresh: w.fresh }
}

pub open spec fn indent_in(w: Wr) -> Wr {
    Wr { out: w.out, indent: w.indent + 1, fresh: w.fresh }
}

pub open spec fn indent_out(w: Wr) -> Wr {
    Wr { out: w.out, indent: (w.indent - 1) as nat, fresh: w.fresh }
}

/// The writer after taking a temporary; its name is `tmp_name(w.fresh + 1)`.
pub open spec fn bump(w: Wr) -> Wr {
    Wr { out: w.out, indent: w.indent, fresh: w.fresh + 1 }
}

pub open spec fn tmp_name(n: nat) -> Seq<char> {
    "_t"@ + dec_nat(n)
}

pub open spec fn fn_name(n: nat) -> Seq<char> {
    "_fn_"@ + dec_nat(n)
}

/// `, c` for each capture.
pub open spec fn cap_args(caps: Seq<Seq<char>>) -> Seq<char>
    decreases caps.len(),
{
    if caps.len() == 0 {
        Seq::empty()
    } else {
        cap_args(caps.drop_last()) + ", "@ + caps.last()
    }
}

/// The lines that take each capture out of the closure environment.
pub open spec fn cap_lines(caps: Seq<Seq<char>>, w: Wr) -> Wr
    decreases caps.len(),
{
    if caps.len() == 0 {
        w
    } else {
        let c = caps.last();
        wline(
            wline(
                cap_lines(caps.drop_last(), w),
                "Value* "@ + c + " = closure_cap(_env, "@ + dec_nat((caps.len() - 1) as nat)
                    + ");  /* captured "@ + c + " */"@,
            ),
            "rc_inc("@ + c + ");"@,
        )
    }
}

/// The lines that take each field of the scrutinee into its binding.
pub open spec fn field_lines(scr: Seq<char>, bs: Seq<Seq<char>>, w: Wr) -> Wr
    decreases bs.len(),
{
    if bs.len() == 0 {
        w
    } else {
        let b = bs.last();
        let i = dec_nat((bs.len() - 1) as nat);
        wline(
            wline(
                field_lines(scr, bs.drop_last(), w),
                "Value* "@ + b + " = field("@ + scr + ", "@ + i + ");  /* field "@ + i + " */"@,
            ),
            "rc_inc("@ + b + ");"@,
        )
    }
}

/// The lines that store each field value into a new constructor `t`.
pub open spec fn set_field_lines(t: Seq<char>, vs: Seq<Seq<char>>, w: Wr) -> Wr
    decreases vs.len(),
{
    if vs.len() == 0 {
        w
    } else {
        wline(
            set_field_lines(t, vs.drop_last(), w),
            "set_field("@ + t + ", "@ + dec_nat((vs.len() - 1) as nat) + ", "@ + vs.last()
                + ");"@,
        )
    }
}

/// The statement that makes the constructor cell `v` with tag constant
/// `TAG_<up>` and `n` fields: recycled from the reuse token when there is
/// one, allocated otherwise.
pub open spec fn con_alloc_text(v: Seq<char>, up: Seq<char>, n: nat, reuse: Option<Seq<char>>) -> Seq<
    char,
> {
    match reuse {
        Some(tok) => "Value* "@ + v + " = reuse_con("@ + tok + ", TAG_"@ + up + ", "@ + dec_nat(n)
            + ");/* Perceus: reuse if RC==1 */"@,
        None => "Value* "@ + v + " = alloc_con(TAG_"@ + up + ", "@ + dec_nat(n) + ");"@,
    }
}

/// The head of the `case` block of an arm whose tag, upper-cased, is `up`.
pub open spec fn case_text(up: Seq<char>) -> Seq<char> {
    "case TAG_"@ + up + ": {"@
}

/// The C rvalue of a literal, with the lines it needs.
pub open spec fn emit_lit(l: LitV, w: Wr) -> (Seq<char>, Wr) {
    match l {
        LitV::Int(n) => ("lumi_int("@ + dec_int(n as int) + ")"@, w),
        LitV::Bool(b) => ("lumi_bool("@ + (if b {
            "1"@
        } else {
            "0"@
        }) + ")"@, w),
        LitV::Unit => ("lumi_unit()"@, w),
        LitV::Str(s) => {
            let t = tmp_name(w.fresh + 1);
            (t, wline(bump(w), "Value* "@ + t + " = lumi_str(\""@ + escape_text(s) + "\");"@))
        },
    }
}

/// The C rvalue that holds the value of `t`, the generator state after it, and
/// the writer after the statements that compute it.
pub open spec fn emit(t: Term, g: Gen, w: Wr) -> (Seq<char>, Gen, Wr)
    decreases t, 1nat,
{
    match t {
        Term::Lit(l) => {
            let (v, w1) = emit_lit(l, w);
            (v, g, w1)
        },
        Term::Var(x) => (x, g, w),
        Term::Dup { var, body } => emit(
            *body,
            g,
            wline(w, "rc_inc("@ + var + ");  /* dup "@ + var + " */"@),
        ),
        Term::Drop { var, body } => emit(
            *body,
            g,
            wline(w, "rc_dec("@ + var + ");  /* drop "@ + var + " */"@),
        ),
        Term::Let { name, value, body } => {
            let (v, g1, w1) = emit(*value, g, w);
            emit(*body, g1, wline(w1, "Value* "@ + name + " = "@ + v + ";"@))
        },
        Term::Lam { param, captures, body } => {
            let f = fn_name(g.fresh + 1);
            let g1 = lift(f, param, captures, *body, Gen { lifted: g.lifted, fresh: g.fresh + 1 });
            let w1 = wline(w, "/* declaration */"@);
            let v = tmp_name(w1.fresh + 1);
            let w2 = wline(
                bump(w1),
                "Value* "@ + v + " = alloc_closure("@ + f + ", "@ + dec_nat(captures.len())
                    + cap_args(captures) + ");\n"@,
            );
            (v, g1, w2)
        },
        Term::App(f, x) => {
            let (fv, g1, w1) = emit(*f, g, w);
            let (av, g2, w2) = emit(*x, g1, w1);
            let v = tmp_name(w2.fresh + 1);
            (v, g2, wline(bump(w2), "Value* "@ + v + " = apply("@ + fv + ", "@ + av + ");"@))
        },
        Term::If { cond, then_, else_ } => {
            let (cv, g1, w1) = emit(*cond, g, w);
            let flag = tmp_name(w1.fresh + 1);
            let res = tmp_name(w1.fresh + 2);
            let w2 = wline(
                wline(
                    wline(
                        wline(
                            bump(bump(w1)),
                            "int "@ + flag + " = lumi_is_true("@ + cv + ");"@,
                        ),
                        "rc_dec("@ + cv + ");  /* consume condition */"@,
                    ),
                    "Value* "@ + res + ";"@,
                ),
                "if ("@ + flag + ") {"@,
            );
            let (tv, g2, w3) = emit(*then_, g1, indent_in(w2));
            let w4 = wline(indent_out(wline(w3, res + " = "@ + tv + ";"@)), "} else {"@);
            let (ev, g3, w5) = emit(*else_, g2, indent_in(w4));
            let w6 = wline(indent_out(wline(w5, res + " = "@ + ev + ";"@)), "}"@);
            (res, g3, w6)
        },
        Term::Match { scrutinee, arms } => {
            let res = tmp_name(w.fresh + 1);
            let w1 = wline(
                wline(bump(w), "Value* "@ + res + ";"@),
                "switch (tag_of("@ + scrutinee + ")) {"@,
            );
            let (g1, w2) = emit_arms(scrutinee, arms, res, g, indent_in(w1));
            let w3 = wline(
                indent_out(wline(w2, "default: lumi_panic(\"unmatched\"); break;"@)),
                "}"@,
            );
            (res, g1, w3)
        },
        Term::Con { tag, fields, reuse } => {
            let (vs, g1, w1) = emit_list(fields, g, w);
            let v = tmp_name(w1.fresh + 1);
            let w2 = wline(bump(w1), con_alloc_text(v, uppercase(tag), fields.len(), reuse));
            (v, g1, set_field_lines(v, vs, w2))
        },
        Term::Foreign { name, args } => {
            let (vs, g1, w1) = emit_list(args, g, w);
            let v = tmp_name(w1.fresh + 1);
            (v, g1, wline(bump(w1), "Value* "@ + v + " = "@ + name + "("@ + join_names(vs) + ");"@))
        },
    }
}

/// The terms emitted in order; the rvalue of each.
pub open spec fn emit_list(ts: Seq<Term>, g: Gen, w: Wr) -> (Seq<Seq<char>>, Gen, Wr)
    decreases ts, 0nat,
{
    if ts.len() == 0 {
        (Seq::empty(), g, w)
    } else {
        let (vs, g1, w1) = emit_list(ts.drop_last(), g, w);
        let (v, g2, w2) = emit(ts.last(), g1, w1);
        (vs.push(v), g2, w2)
    }
}

/// The `case` blocks of a match, in order.
pub open spec fn emit_arms(scr: Seq<char>, arms: Seq<ArmTerm>, res: Seq<char>, g: Gen, w: Wr) -> (
    Gen,
    Wr,
)
    decreases arms, 0nat,
{
    if arms.len() == 0 {
        (g, w)
    } else {
        let (g1, w1) = emit_arms(scr, arms.drop_last(), res, g, w);
        emit_arm(scr, arms.last(), res, g1, w1)
    }
}

/// One `case` block: take the fields, release or recycle the scrutinee, run
/// the arm's body and store its value in `res`.
pub open spec fn emit_arm(scr: Seq<char>, a: ArmTerm, res: Seq<char>, g: Gen, w: Wr) -> (Gen, Wr)
    decreases a, 0nat,
{
    let head = if a.tag == "_"@ {
        "default: {"@
    } else {
        case_text(uppercase(a.tag))
    };
    let w1 = field_lines(scr, a.bindings, indent_in(wline(w, head)));
    let w2 = match a.reuse_token {
        Some(tok) => wline(
            w1,
            "ReuseToken "@ + tok + " = try_reuse("@ + scr
                + ");/* RC==1 -> recycle; RC>1 -> NULL */"@,
        ),
        None => wline(w1, "rc_dec("@ + scr + ");"@),
    };
    let (av, g1, w3) = emit(a.body, g, w2);
    (g1, wline(indent_out(wline(wline(w3, res + " = "@ + av + ";"@), "break;"@)), "}"@))
}

/// Lifts a lambda to the static C function `f`: its forward declaration goes
/// out first, then the closures lifted from its body, then its definition.
pub open spec fn lift(f: Seq<char>, param: Seq<char>, caps: Seq<Seq<char>>, body: Term, g: Gen) -> Gen
    decreases body, 2nat,
{
    let g1 = Gen {
        lifted: g.lifted + "static Value* "@ + f + "(Value* _env, Value* _arg);\n\n"@,
        fresh: g.fresh,
    };
    let w1 = wline(new_wr(), comment_text("Lumi "@ + f, rc_indent(body, 0) + "\n"@));
    let w2 = wline(w1, "static Value* "@ + f + "(Value* _env, Value* _arg) {"@);
    let w3 = cap_lines(caps, indent_in(w2));
    let w4 = wline(
        wline(w3, "rc_dec(_env);  /* release closure env */"@),
        "Value* "@ + param + " = _arg;"@,
    );
    let (r, g2, w5) = emit(body, g1, w4);
    let w6 = wline(wline(indent_out(wline(w5, "return "@ + r + ";"@)), "}"@), ""@);
    Gen { lifted: g2.lifted + w6.out, fresh: g2.fresh }
}

/// The C entry-point function `lumi_<name>` for a top-level term.
pub open spec fn emit_function(name: Seq<char>, t: Term, g: Gen) -> (Seq<char>, Gen) {
    let w1 = wline(new_wr(), comment_text("Lumi "@ + name, rc_indent(t, 0) + "\n"@));
    let w2 = indent_in(wline(w1, "Value* lumi_"@ + name + "(void) {"@));
    let (r, g1, w3) = emit(t, g, w2);
    let w4 = wline(indent_out(wline(w3, "return "@ + r + ";"@)), "}"@);
    (w4.out, g1)
}

/// The entry-point functions of all top-level terms, each followed by an
/// empty line.
pub open spec fn emit_bodies(fs: Seq<(Seq<char>, Term)>, g: Gen) -> (Seq<char>, Gen)
    decreases fs.len(),
{
    if fs.len() == 0 {
        (Seq::empty(), g)
    } else {
        let (b, g1) = emit_bodies(fs.drop_last(), g);
        let (txt, g2) = emit_function(fs.last().0, fs.last().1, g1);
        (b + txt + "\n"@, g2)
    }
}

/// `prefix`, then the lifted closures, then the entry-point functions.
pub open spec fn unit_text(fs: Seq<(Seq<char>, Term)>, prefix: Seq<char>) -> Seq<char> {
    let (b, g) = emit_bodies(fs, Gen { lifted: prefix, fresh: 0 });
    g.lifted + b
}

/// Nodes in all the top-level terms.
pub open spec fn total_size(fs: Seq<(Seq<char>, Term)>) -> nat
    decreases fs.len(),
{
    if fs.len() == 0 {
        0
    } else {
        total_size(fs.drop_last()) + tsize(fs.last().1)
    }
}

/// A file-scope global for every function but the entry.
pub open spec fn static_decls(fs: Seq<(Seq<char>, Term)>, entry: Option<Seq<char>>) -> Seq<char>
    decreases fs.len(),
{
    if fs.len() == 0 {
        Seq::empty()
    } else {
        static_decls(fs.drop_last(), entry) + (if entry != Some(fs.last().0) {
            "static Value* "@ + fs.last().0 + ";\n"@
        } else {
            Seq::empty()
        })
    }
}

/// `line(name)` for every function but the entry.
pub open spec fn global_lines(
    fs: Seq<(Seq<char>, Term)>,
    entry: Seq<char>,
    release: bool,
    w: Wr,
) -> Wr
    decreases fs.len(),
{
    if fs.len() == 0 {
        w
    } else {
        let w1 = global_lines(fs.drop_last(), entry, release, w);
        let name = fs.last().0;
        if name != entry {
            wline(
                w1,
                if release {
                    "lumi_release_global("@ + name + ");"@
                } else {
                    name + " = lumi_global(lumi_"@ + name + "());"@
                },
            )
        } else {
            w1
        }
    }
}

/// `int main(void)`: initialise every non-entry function as an immortal
/// global, call the entry, release its result, then release the globals.
pub open spec fn main_text(fs: Seq<(Seq<char>, Term)>, entry: Seq<char>) -> Seq<char> {
    let w1 = indent_in(wline(new_wr(), "int main(void) {"@));
    let w2 = global_lines(fs, entry, false, wline(w1, "lumi_runtime_init();"@));
    let w3 = wline(
        wline(wline(wline(w2, ""@), "Value* _result = lumi_"@ + entry + "();"@), "rc_dec(_result);"@),
        ""@,
    );
    let w4 = wline(global_lines(fs, entry, true, w3), "return 0;"@);
    wline(indent_out(w4), "}"@).out
}

/// The line that includes the C runtime header.
pub open spec fn include_line() -> Seq<char> {
    "#include \"lumi_runtime.h\""@
}

/// The compilable compilation unit: the include line, the globals, the lifted
/// closures, the entry-point functions, and `main` when there is an entry.
pub open spec fn c_file_text(fs: Seq<(Seq<char>, Term)>, entry: Option<Seq<char>>) -> Seq<char> {
    let prefix = include_line() + "\n\n"@ + static_decls(fs, entry) + "\n"@;
    let (b, g) = emit_bodies(fs, Gen { lifted: prefix, fresh: 0 });
    match entry {
        Some(e) => g.lifted + b + main_text(fs, e),
        None => g.lifted + b,
    }
}

// ── Bounds ───────────────────────────────────────────────────────────────────

pub proof fn lemma_bodies_bounds(fs: Seq<(Seq<char>, Term)>, g: Gen)
    ensures
        g.fresh <= emit_bodies(fs, g).1.fresh <= g.fresh + total_size(fs),
    decreases fs.len(),
{
    if fs.len() > 0 {
        let (b, g1) = emit_bodies(fs.drop_last(), g);
        lemma_bodies_bounds(fs.drop_last(), g);
        let w1 = wline(new_wr(), comment_text("Lumi "@ + fs.last().0, rc_indent(fs.last().1, 0) + "\n"@));
        let w2 = indent_in(wline(w1, "Value* lumi_"@ + fs.last().0 + "(void) {"@));
        lemma_emit_bounds(fs.last().1, g1, w2);
    }
}

pub proof fn lemma_global_lines_indent(fs: Seq<(Seq<char>, Term)>, entry: Seq<char>, release: bool, w: Wr)
    ensures
        global_lines(fs, entry, release, w).indent == w.indent,
    decreases fs.len(),
{
    if fs.len() > 0 {
        lemma_global_lines_indent(fs.drop_last(), entry, release, w);
    }
}

pub proof fn lemma_total_size_take(fs: Seq<(Seq<char>, Term)>, i: int)
    requires
        0 <= i < fs.len(),
    ensures
        total_size(fs.take(i + 1)) == total_size(fs.take(i)) + tsize(fs[i].1),
        total_size(fs.take(i + 1)) <= total_size(fs),
    decreases fs.len(),
{
    assert(fs.take(i + 1).drop_last() =~= fs.take(i));
    if i + 1 < fs.len() {
        lemma_total_size_take(fs.drop_last(), i);
        assert(fs.drop_last().take(i + 1) =~= fs.take(i + 1));
        assert(fs.drop_last().take(i) =~= fs.take(i));
    } else {
        assert(fs.take(i + 1) =~= fs);
    }
}

/// Emitting keeps the indentation, and the counters grow by at most one
/// closure per node and two temporaries per node.
pub open spec fn emit_bounded(t_size: nat, g: Gen, w: Wr, g1: Gen, w1: Wr) -> bool {
    &&& w1.indent == w.indent
    &&& w.fresh <= w1.fresh <= w.fresh + 2 * t_size
    &&& g.fresh <= g1.fresh <= g.fresh + t_size
}

pub proof fn lemma_line_helpers(caps: Seq<Seq<char>>, scr: Seq<char>, t: Seq<char>, w: Wr)
    ensures
        cap_lines(caps, w).indent == w.indent && cap_lines(caps, w).fresh == w.fresh,
        field_lines(scr, caps, w).indent == w.indent && field_lines(scr, caps, w).fresh
            == w.fresh,
        set_field_lines(t, caps, w).indent == w.indent && set_field_lines(t, caps, w).fresh
            == w.fresh,
    decreases caps.len(),
{
    if caps.len() > 0 {
        lemma_line_helpers(caps.drop_last(), scr, t, w);
    }
}

pub proof fn lemma_emit_bounds(t: Term, g: Gen, w: Wr)
    ensures
        emit_bounded(tsize(t), g, w, emit(t, g, w).1, emit(t, g, w).2),
    decreases t, 1nat,
{
    match t {
        Term::Lit(l) => {},
        Term::Var(x) => {},
        Term::Dup { var, body } => {
            lemma_emit_bounds(*body, g, wline(w, "rc_inc("@ + var + ");  /* dup "@ + var + " */"@));
        },
        Term::Drop { var, body } => {
            lemma_emit_bounds(*body, g, wline(w, "rc_dec("@ + var + ");  /* drop "@ + var + " */"@));
        },
        Term::Let { name, value, body } => {
            let (v, g1, w1) = emit(*value, g, w);
            lemma_emit_bounds(*value, g, w);
            lemma_emit_bounds(*body, g1, wline(w1, "Value* "@ + name + " = "@ + v + ";"@));
        },
        Term::Lam { param, captures, body } => {
            let f = fn_name(g.fresh + 1);
            lemma_lift_bounds(f, param, captures, *body, Gen { lifted: g.lifted, fresh: g.fresh + 1 });
        },
        Term::App(f, x) => {
            let (fv, g1, w1) = emit(*f, g, w);
            lemma_emit_bounds(*f, g, w);
            lemma_emit_bounds(*x, g1, w1);
        },
        Term::If { cond, then_, else_ } => {
            let (cv, g1, w1) = emit(*cond, g, w);
            lemma_emit_bounds(*cond, g, w);
            let flag = tmp_name(w1.fresh + 1);
            let res = tmp_name(w1.fresh + 2);
            let w2 = wline(
                wline(
                    wline(
                        wline(
                            bump(bump(w1)),
                            "int "@ + flag + " = lumi_is_true("@ + cv + ");"@,
                        ),
                        "rc_dec("@ + cv + ");  /* consume condition */"@,
                    ),
                    "Value* "@ + res + ";"@,
                ),
                "if ("@ + flag + ") {"@,
            );
            let (tv, g2, w3) = emit(*then_, g1, indent_in(w2));
            lemma_emit_bounds(*then_, g1, indent_in(w2));
            let w4 = wline(indent_out(wline(w3, res + " = "@ + tv + ";"@)), "} else {"@);
            lemma_emit_bounds(*else_, g2, indent_in(w4));
        },
        Term::Match { scrutinee, arms } => {
            let res = tmp_name(w.fresh + 1);
            let w1 = wline(
                wline(bump(w), "Value* "@ + res + ";"@),
                "switch (tag_of("@ + scrutinee + ")) {"@,
            );
            lemma_arms_bounds(scrutinee, arms, res, g, indent_in(w1));
        },
        Term::Con { tag, fields, reuse } => {
            let (vs, g1, w1) = emit_list(fields, g, w);
            lemma_list_bounds(fields, g, w);
            let v = tmp_name(w1.fresh + 1);
            lemma_line_helpers(vs, v, v, wline(bump(w1), Seq::empty()));
            let w2 = wline(bump(w1), con_alloc_text(v, uppercase(tag), fields.len(), reuse));
            lemma_line_helpers(vs, v, v, w2);
        },
        Term::Foreign { name, args } => {
            lemma_list_bounds(args, g, w);
        },
    }
}

pub proof fn lemma_list_bounds(ts: Seq<Term>, g: Gen, w: Wr)
    ensures
        emit_bounded(tsize_list(ts), g, w, emit_list(ts, g, w).1, emit_list(ts, g, w).2),
        emit_list(ts, g, w).0.len() == ts.len(),
    decreases ts, 0nat,
{
    if ts.len() > 0 {
        let (vs, g1, w1) = emit_list(ts.drop_last(), g, w);
        lemma_list_bounds(ts.drop_last(), g, w);
        lemma_emit_bounds(ts.last(), g1, w1);
    }
}

pub proof fn lemma_arms_bounds(scr: Seq<char>, arms: Seq<ArmTerm>, res: Seq<char>, g: Gen, w: Wr)
    ensures
        w.indent >= 1 ==> emit_bounded(
            tsize_arms(arms),
            g,
            w,
            emit_arms(scr, arms, res, g, w).0,
            emit_arms(scr, arms, res, g, w).1,
        ),
    decreases arms, 0nat,
{
    if arms.len() > 0 {
        let (g1, w1) = emit_arms(scr, arms.drop_last(), res, g, w);
        lemma_arms_bounds(scr, arms.drop_last(), res, g, w);
        lemma_arm_bounds(scr, arms.last(), res, g1, w1);
    }
}

pub proof fn lemma_arm_bounds(scr: Seq<char>, a: ArmTerm, res: Seq<char>, g: Gen, w: Wr)
    ensures
        emit_bounded(tsize(a.body), g, w, emit_arm(scr, a, res, g, w).0, emit_arm(scr, a, res, g, w).1),
    decreases a, 0nat,
{
    let head = if a.tag == "_"@ {
        "default: {"@
    } else {
        case_text(uppercase(a.tag))
    };
    let w0 = indent_in(wline(w, head));
    lemma_line_helpers(a.bindings, scr, scr, w0);
    let w1 = field_lines(scr, a.bindings, w0);
    let w2 = match a.reuse_token {
        Some(tok) => wline(
            w1,
            "ReuseToken "@ + tok + " = try_reuse("@ + scr
                + ");/* RC==1 -> recycle; RC>1 -> NULL */"@,
        ),
        None => wline(w1, "rc_dec("@ + scr + ");"@),
    };
    lemma_emit_bounds(a.body, g, w2);
}

pub proof fn lemma_lift_bounds(f: Seq<char>, param: Seq<char>, caps: Seq<Seq<char>>, body: Term, g: Gen)
    ensures
        g.fresh <= lift(f, param, caps, body, g).fresh <= g.fresh + tsize(body),
    decreases body, 2nat,
{
    let g1 = Gen {
        lifted: g.lifted + "static Value* "@ + f + "(Value* _env, Value* _arg);\n\n"@,
        fresh: g.fresh,
    };
    let w1 = wline(new_wr(), comment_text("Lumi "@ + f, rc_indent(body, 0) + "\n"@));
    let w2 = wline(w1, "static Value* "@ + f + "(Value* _env, Value* _arg) {"@);
    lemma_line_helpers(caps, f, f, indent_in(w2));
    let w3 = cap_lines(caps, indent_in(w2));
    let w4 = wline(
        wline(w3, "rc_dec(_env);  /* release closure env */"@),
        "Value* "@ + param + " = _arg;"@,
    );
    lemma_emit_bounds(body, g1, w4);
}

// ── Independence from what was lifted before ─────────────────────────────────

/// `g` with `p` written in front of its lifted text.
pub open spec fn behind(p: Seq<char>, g: Gen) -> Gen {
    Gen { lifted: p + g.lifted, fresh: g.fresh }
}

/// Text already lifted only stays in front: emitting from `behind(p, g)` gives
/// the same rvalue and function text, and `p` in front of the same lifted text.
pub proof fn lemma_emit_behind(p: Seq<char>, t: Term, g: Gen, w: Wr)
    ensures
        emit(t, behind(p, g), w) == (emit(t, g, w).0, behind(p, emit(t, g, w).1), emit(t, g, w).2),
    decreases t, 1nat,
{
    match t {
        Term::Lit(l) => {},
        Term::Var(x) => {},
        Term::Dup { var, body } => {
            lemma_emit_behind(p, *body, g, wline(w, "rc_inc("@ + var + ");  /* dup "@ + var + " */"@));
        },
        Term::Drop { var, body } => {
            lemma_emit_behind(p, *body, g, wline(w, "rc_dec("@ + var + ");  /* drop "@ + var + " */"@));
        },
        Term::Let { name, value, body } => {
            let (v, g1, w1) = emit(*value, g, w);
            lemma_emit_behind(p, *value, g, w);
            lemma_emit_behind(p, *body, g1, wline(w1, "Value* "@ + name + " = "@ + v + ";"@));
        },
        Term::Lam { param, captures, body } => {
            let f = fn_name(g.fresh + 1);
            lemma_lift_behind(p, f, param, captures, *body, Gen { lifted: g.lifted, fresh: g.fresh + 1 });
        },
        Term::App(f, x) => {
            let (fv, g1, w1) = emit(*f, g, w);
            lemma_emit_behind(p, *f, g, w);
            lemma_emit_behind(p, *x, g1, w1);
        },
        Term::If { cond, then_, else_ } => {
            let (cv, g1, w1) = emit(*cond, g, w);
            lemma_emit_behind(p, *cond, g, w);
            let flag = tmp_name(w1.fresh + 1);
            let res = tmp_name(w1.fresh + 2);
            let w2 = wline(
                wline(
                    wline(
                        wline(
                            bump(bump(w1)),
                            "int "@ + flag + " = lumi_is_true("@ + cv + ");"@,
                        ),
                        "rc_dec("@ + cv + ");  /* consume condition */"@,
                    ),
                    "Value* "@ + res + ";"@,
                ),
                "if ("@ + flag + ") {"@,
            );
            let (tv, g2, w3) = emit(*then_, g1, indent_in(w2));
            lemma_emit_behind(p, *then_, g1, indent_in(w2));
            let w4 = wline(indent_out(wline(w3, res + " = "@ + tv + ";"@)), "} else {"@);
            lemma_emit_behind(p, *else_, g2, indent_in(w4));
        },
        Term::Match { scrutinee, arms } => {
            let res = tmp_name(w.fresh + 1);
            let w1 = wline(
                wline(bump(w), "Value* "@ + res + ";"@),
                "switch (tag_of("@ + scrutinee + ")) {"@,
            );
            lemma_arms_behind(p, scrutinee, arms, res, g, indent_in(w1));
        },
        Term::Con { tag, fields, reuse } => {
            lemma_list_behind(p, fields, g, w);
        },
        Term::Foreign { name, args } => {
            lemma_list_behind(p, args, g, w);
        },
    }
}

pub proof fn lemma_list_behind(p: Seq<char>, ts: Seq<Term>, g: Gen, w: Wr)
    ensures
        emit_list(ts, behind(p, g), w) == (
            emit_list(ts, g, w).0,
            behind(p, emit_list(ts, g, w).1),
            emit_list(ts, g, w).2,
        ),
    decreases ts, 0nat,
{
    if ts.len() > 0 {
        let (vs, g1, w1) = emit_list(ts.drop_last(), g, w);
        lemma_list_behind(p, ts.drop_last(), g, w);
        lemma_emit_behind(p, ts.last(), g1, w1);
    }
}

pub proof fn lemma_arms_behind(p: Seq<char>, scr: Seq<char>, arms: Seq<ArmTerm>, res: Seq<char>, g: Gen, w: Wr)
    ensures
        emit_arms(scr, arms, res, behind(p, g), w) == (
            behind(p, emit_arms(scr, arms, res, g, w).0),
            emit_arms(scr, arms, res, g, w).1,
        ),
    decreases arms, 0nat,
{
    if arms.len() > 0 {
        let (g1, w1) = emit_arms(scr, arms.drop_last(), res, g, w);
        lemma_arms_behind(p, scr, arms.drop_last(), res, g, w);
        lemma_arm_behind(p, scr, arms.last(), res, g1, w1);
    }
}

pub proof fn lemma_arm_behind(p: Seq<char>, scr: Seq<char>, a: ArmTerm, res: Seq<char>, g: Gen, w: Wr)
    ensures
        emit_arm(scr, a, res, behind(p, g), w) == (
            behind(p, emit_arm(scr, a, res, g, w).0),
            emit_arm(scr, a, res, g, w).1,
        ),
    decreases a, 0nat,
{
    let head = if a.tag == "_"@ {
        "default: {"@
    } else {
        case_text(uppercase(a.tag))
    };
    let w1 = field_lines(scr, a.bindings, indent_in(wline(w, head)));
    let w2 = match a.reuse_token {
        Some(tok) => wline(
            w1,
            "ReuseToken "@ + tok + " = try_reuse("@ + scr
                + ");/* RC==1 -> recycle; RC>1 -> NULL */"@,
        ),
        None => wline(w1, "rc_dec("@ + scr + ");"@),
    };
    lemma_emit_behind(p, a.body, g, w2);
}

pub proof fn lemma_lift_behind(
    p: Seq<char>,
    f: Seq<char>,
    param: Seq<char>,
    caps: Seq<Seq<char>>,
    body: Term,
    g: Gen,
)
    ensures
        lift(f, param, caps, body, behind(p, g)) == behind(p, lift(f, param, caps, body, g)),
    decreases body, 2nat,
{
    let g1 = Gen {
        lifted: g.lifted + "static Value* "@ + f + "(Value* _env, Value* _arg);\n\n"@,
        fresh: g.fresh,
    };
    let h1 = Gen {
        lifted: behind(p, g).lifted + "static Value* "@ + f + "(Value* _env, Value* _arg);\n\n"@,
        fresh: g.fresh,
    };
    assert(h1 == behind(p, g1)) by {
        assert(h1.lifted =~= p + g1.lifted);
    }
    let w1 = wline(new_wr(), comment_text("Lumi "@ + f, rc_indent(body, 0) + "\n"@));
    let w2 = wline(w1, "static Value* "@ + f + "(Value* _env, Value* _arg) {"@);
    let w3 = cap_lines(caps, indent_in(w2));
    let w4 = wline(
        wline(w3, "rc_dec(_env);  /* release closure env */"@),
        "Value* "@ + param + " = _arg;"@,
    );
    lemma_emit_behind(p, body, g1, w4);
    let (r, g2, w5) = emit(body, g1, w4);
    let w6 = wline(wline(indent_out(wline(w5, "return "@ + r + ";"@)), "}"@), ""@);
    assert((p + g2.lifted) + w6.out =~= p + (g2.lifted + w6.out));
}

pub proof fn lemma_bodies_behind(p: Seq<char>, fs: Seq<(Seq<char>, Term)>, g: Gen)
    ensures
        emit_bodies(fs, behind(p, g)) == (emit_bodies(fs, g).0, behind(p, emit_bodies(fs, g).1)),
    decreases fs.len(),
{
    if fs.len() > 0 {
        let (b, g1) = emit_bodies(fs.drop_last(), g);
        lemma_bodies_behind(p, fs.drop_last(), g);
        let w1 = wline(new_wr(), comment_text("Lumi "@ + fs.last().0, rc_indent(fs.last().1, 0) + "\n"@));
        let w2 = indent_in(wline(w1, "Value* lumi_"@ + fs.last().0 + "(void) {"@));
        lemma_emit_behind(p, fs.last().1, g1, w2);
    }
}

/// A unit that starts with `prefix` is `prefix` followed by the unit that
/// starts with nothing.
pub proof fn lemma_unit_text_prefix(fs: Seq<(Seq<char>, Term)>, prefix: Seq<char>)
    ensures
        unit_text(fs, prefix) == prefix + unit_text(fs, Seq::empty()),
{
    let g0 = Gen { lifted: Seq::empty(), fresh: 0 };
    assert(behind(prefix, g0) == (Gen { lifted: prefix, fresh: 0 })) by {
        assert(prefix + Seq::<char>::empty() =~= prefix);
    }
    lemma_bodies_behind(prefix, fs, g0);
    let (b, g1) = emit_bodies(fs, g0);
    assert((prefix + g1.lifted) + b =~= prefix + (g1.lifted + b));
}

} // verus!
