//! RC-annotated AST of the first pipeline — a subset of `rc::Expr` without
//! closure captures or foreign calls.
//!
//! An intermediate representation where every reference-counting operation is
//! explicit.  Its value is taken as an `rc::Term` whose lambdas capture
//! nothing, and it has its own indented rendering, with literals written as
//! their `Debug` form.
use vstd::prelude::*;
use vstd::string::*;

use crate::ast::{Lit, LitV};
use crate::names::{copy_names, names};
use crate::rc::pp::{arm_head, reuse_text};
use crate::rc::{copy_opt, opt_chars, ArmTerm, Term};
use crate::simplify::{lemma_tsize_arms_elem, lemma_tsize_list_elem, tsize, tsize_arms, tsize_list};
use crate::text::{bool_text, dec_int, indent_text, push_bool, push_indent, push_int};

verus! {

/// A reuse token names the memory of a just-deconstructed value.
pub type ReuseToken = String;

#[derive(Debug)]
pub enum RcExpr {
    Lit(Lit),
    Var(String),
    Let { name: String, value: Box<RcExpr>, body: Box<RcExpr> },
    Lam { param: String, body: Box<RcExpr> },
    App(Box<RcExpr>, Box<RcExpr>),
    If { cond: Box<RcExpr>, then_: Box<RcExpr>, else_: Box<RcExpr> },
    /// rc_inc(var); evaluate body.
    /// Inserted when a variable is shared across multiple uses.
    Dup { var: String, body: Box<RcExpr> },
    /// rc_dec(var); evaluate body.
    /// Inserted when a variable goes out of scope without being consumed.
    Drop { var: String, body: Box<RcExpr> },
    /// Pattern match. The scrutinee is *consumed* (ownership transferred in).
    /// Each arm may carry a ReuseToken for the scrutinee's freed allocation.
    Match { scrutinee: String, arms: Vec<RcMatchArm> },
    /// Constructor call.  If `reuse` is Some(token), the emitted C reuses that
    /// allocation instead of calling malloc — the core Perceus optimisation.
    Con { tag: String, fields: Vec<RcExpr>, reuse: Option<ReuseToken> },
}

#[derive(Debug)]
pub struct RcMatchArm {
    /// The constructor tag this arm matches (or "_" for wildcard).
    pub tag: String,
    /// Field variables extracted from the matched constructor.
    pub bindings: Vec<String>,
    /// Reuse token for the scrutinee's allocation, usable by a Con in this arm.
    pub reuse_token: Option<ReuseToken>,
    pub body: RcExpr,
}

// ── Mathematical model ───────────────────────────────────────────────────────

pub open spec fn old_term(e: RcExpr) -> Term
    decreases e,
{
    match e {
        RcExpr::Lit(l) => Term::Lit(l@),
        RcExpr::Var(x) => Term::Var(x@),
        RcExpr::Let { name, value, body } => Term::Let {
            name: name@,
            value: Box::new(old_term(*value)),
            body: Box::new(old_term(*body)),
        },
        RcExpr::Lam { param, body } => Term::Lam {
            param: param@,
            captures: Seq::empty(),
            body: Box::new(old_term(*body)),
        },
        RcExpr::App(f, x) => Term::App(Box::new(old_term(*f)), Box::new(old_term(*x))),
        RcExpr::If { cond, then_, else_ } => Term::If {
            cond: Box::new(old_term(*cond)),
            then_: Box::new(old_term(*then_)),
            else_: Box::new(old_term(*else_)),
        },
        RcExpr::Dup { var, body } => Term::Dup { var: var@, body: Box::new(old_term(*body)) },
        RcExpr::Drop { var, body } => Term::Drop { var: var@, body: Box::new(old_term(*body)) },
        RcExpr::Match { scrutinee, arms } => Term::Match {
            scrutinee: scrutinee@,
            arms: Seq::new(
                arms@.len(),
                |i: int|
                    if 0 <= i < arms@.len() {
                        ArmTerm {
                            tag: arms@[i].tag@,
                            bindings: names(arms@[i].bindings@),
                            reuse_token: opt_chars(arms@[i].reuse_token),
                            body: old_term(arms@[i].body),
                        }
                    } else {
                        ArmTerm {
                            tag: Seq::empty(),
                            bindings: Seq::empty(),
                            reuse_token: None,
                            body: Term::Var(Seq::empty()),
                        }
                    },
            ),
        },
        RcExpr::Con { tag, fields, reuse } => Term::Con {
            tag: tag@,
            fields: Seq::new(
                fields@.len(),
                |i: int|
                    if 0 <= i < fields@.len() {
                        old_term(fields@[i])
                    } else {
                        Term::Var(Seq::empty())
                    },
            ),
            reuse: opt_chars(reuse),
        },
    }
}

impl View for RcExpr {
    type V = Term;

    open spec fn view(&self) -> Term {
        old_term(*self)
    }
}

impl View for RcMatchArm {
    type V = ArmTerm;

    open spec fn view(&self) -> ArmTerm {
        ArmTerm {
            tag: self.tag@,
            bindings: names(self.bindings@),
            reuse_token: opt_chars(self.reuse_token),
            body: self.body@,
        }
    }
}

pub open spec fn old_terms(es: Seq<RcExpr>) -> Seq<Term> {
    Seq::new(es.len(), |i: int| es[i]@)
}

pub open spec fn old_arm_terms(arms: Seq<RcMatchArm>) -> Seq<ArmTerm> {
    Seq::new(arms.len(), |i: int| arms[i]@)
}

proof fn lemma_old_children(e: RcExpr)
    ensures
        e matches RcExpr::Con { fields, .. } ==> (e@ matches Term::Con { fields: fs, .. } && fs
            == old_terms(fields@)),
        e matches RcExpr::Match { arms, .. } ==> (e@ matches Term::Match { arms: a, .. } && a
            == old_arm_terms(arms@)),
{
    match e {
        RcExpr::Con { fields, .. } => {
            if let Term::Con { fields: fs, .. } = old_term(e) {
                assert(fs =~= old_terms(fields@));
            }
        },
        RcExpr::Match { arms, .. } => {
            if let Term::Match { arms: a, .. } = old_term(e) {
                assert(a =~= old_arm_terms(arms@));
            }
        },
        _ => {},
    }
}

// ── Rendering ────────────────────────────────────────────────────────────────

/// Name for what `<str as Debug>::fmt` writes for a text: the text in double
/// quotes, escaped as `char::escape_debug` does (which follows Unicode tables
/// not spelled out here).
pub uninterp spec fn str_debug(s: Seq<char>) -> Seq<char>;

/// A literal as its derived `Debug` form: `Int(5)`, `Bool(true)`, `Unit`,
/// `Str("..")`.
pub open spec fn lit_debug(l: LitV) -> Seq<char> {
    match l {
        LitV::Int(n) => "Int("@ + dec_int(n as int) + ")"@,
        LitV::Bool(b) => "Bool("@ + bool_text(b) + ")"@,
        LitV::Unit => "Unit"@,
        LitV::Str(s) => "Str("@ + str_debug(s) + ")"@,
    }
}

/// Indented rendering at indentation level `ind`.
pub open spec fn old_indent(t: Term, ind: nat) -> Seq<char>
    decreases t, 1nat,
{
    match t {
        Term::Lit(l) => lit_debug(l),
        Term::Var(name) => name,
        Term::Dup { var, body } => "dup("@ + var + "); "@ + old_indent(*body, ind),
        Term::Drop { var, body } => "drop("@ + var + "); "@ + old_indent(*body, ind),
        Term::Let { name, value, body } => "let "@ + name + " =\n"@ + indent_text(ind + 1)
            + old_indent(*value, ind + 1) + "\n"@ + indent_text(ind) + "in\n"@ + indent_text(ind + 1)
            + old_indent(*body, ind + 1),
        Term::Lam { param, body, .. } => "λ"@ + param + " =>\n"@ + indent_text(ind + 1)
            + old_indent(*body, ind + 1),
        Term::App(f, x) => "("@ + old_indent(*f, ind) + " "@ + old_indent(*x, ind) + ")"@,
        Term::If { cond, then_, else_ } => "if "@ + old_indent(*cond, ind) + "\n"@ + indent_text(
            ind,
        ) + "then "@ + old_indent(*then_, ind) + "\n"@ + indent_text(ind) + "else "@ + old_indent(
            *else_,
            ind,
        ),
        Term::Match { scrutinee, arms } => "match "@ + scrutinee + old_arms_indent(arms, ind),
        Term::Con { tag, fields, reuse } => tag + "("@ + old_list_indent(fields, ind) + ")"@
            + reuse_text(reuse),
        // Not a node of this representation.
        Term::Foreign { name, args } => name + "("@ + old_list_indent(args, ind) + ")"@,
    }
}

pub open spec fn old_list_indent(ts: Seq<Term>, ind: nat) -> Seq<char>
    decreases ts, 0nat,
{
    if ts.len() == 0 {
        Seq::empty()
    } else if ts.len() == 1 {
        old_indent(ts[0], ind)
    } else {
        old_list_indent(ts.drop_last(), ind) + ", "@ + old_indent(ts.last(), ind)
    }
}

pub open spec fn old_arms_indent(arms: Seq<ArmTerm>, ind: nat) -> Seq<char>
    decreases arms, 0nat,
{
    if arms.len() == 0 {
        Seq::empty()
    } else {
        old_arms_indent(arms.drop_last(), ind) + "\n"@ + indent_text(ind + 1) + "| "@ + arm_head(
            arms.last(),
        ) + " =>\n"@ + indent_text(ind + 2) + old_indent(arms.last().body, ind + 2)
    }
}

/// `<str as Debug>::fmt` on a text.  The result is named `str_debug`.
#[verifier::external_body]
fn debug_str(s: &str) -> (r: String)
    ensures
        r@ == str_debug(s@),
{
    format!("{s:?}")
}

/// The `Debug` form of a string literal, given the `Debug` form of its text.
pub fn str_lit_debug(text_debug: &str) -> (r: String)
    ensures
        r@ == "Str("@ + text_debug@ + ")"@,
{
    let mut s = String::from_str("Str(");
    s.append(text_debug);
    s.append(")");
    s
}

fn push_lit_debug(out: &mut String, l: &Lit)
    ensures
        final(out)@ == old(out)@ + lit_debug(l@),
{
    match l {
        Lit::Int(n) => {
            out.append("Int(");
            push_int(out, *n);
            out.append(")");
        },
        Lit::Bool(b) => {
            out.append("Bool(");
            push_bool(out, *b);
            out.append(")");
        },
        Lit::Unit => out.append("Unit"),
        Lit::Str(s) => {
            let d = debug_str(s.as_str());
            let text = str_lit_debug(d.as_str());
            out.append(text.as_str());
        },
    }
    assert(out@ =~= old(out)@ + lit_debug(l@));
}

fn push_reuse(out: &mut String, o: &Option<String>)
    ensures
        final(out)@ == old(out)@ + reuse_text(opt_chars(*o)),
{
    match o {
        Some(t) => {
            out.append(" [reuse: ");
            out.append(t.as_str());
            out.append("]");
        },
        None => {},
    }
    assert(out@ =~= old(out)@ + reuse_text(opt_chars(*o)));
}

fn push_arm_head(out: &mut String, a: &RcMatchArm)
    ensures
        final(out)@ == old(out)@ + arm_head(a@),
{
    out.append(a.tag.as_str());
    out.append("(");
    crate::rc::pp::push_names(out, &a.bindings);
    out.append(")");
    push_reuse(out, &a.reuse_token);
    assert(out@ =~= old(out)@ + arm_head(a@));
}

// ── Builder helpers ──────────────────────────────────────────────────────────

impl RcExpr {
    pub fn var(name: &str) -> (r: Self)
        ensures
            r matches RcExpr::Var(x) && x@ == name@,
    {
        RcExpr::Var(name.to_owned())
    }

    pub fn dup(var: &str, body: RcExpr) -> (r: Self)
        ensures
            r matches RcExpr::Dup { var: v, body: b } && v@ == var@ && *b == body,
    {
        RcExpr::Dup { var: var.to_owned(), body: Box::new(body) }
    }

    pub fn drop_(var: &str, body: RcExpr) -> (r: Self)
        ensures
            r matches RcExpr::Drop { var: v, body: b } && v@ == var@ && *b == body,
    {
        RcExpr::Drop { var: var.to_owned(), body: Box::new(body) }
    }

    /// Indented rendering, followed by a newline.
    pub fn pp(&self) -> (r: String)
        requires
            2 * tsize(self@) <= usize::MAX,
        ensures
            r@ == old_indent(self@, 0) + "\n"@,
    {
        let mut out = String::new();
        self.pp_with_indent(&mut out, 0);
        out.append("\n");
        assert(out@ =~= old_indent(self@, 0) + "\n"@);
        out
    }

    fn pp_with_indent(&self, out: &mut String, indent: usize)
        requires
            indent + 2 * tsize(self@) <= usize::MAX,
        ensures
            final(out)@ == old(out)@ + old_indent(self@, indent as nat),
        decreases self, 1nat,
    {
        proof {
            lemma_old_children(*self);
        }
        let ghost start = out@;
        match self {
            RcExpr::Lit(lit) => push_lit_debug(out, lit),
            RcExpr::Var(name) => out.append(name.as_str()),
            RcExpr::Dup { var, body } => {
                out.append("dup(");
                out.append(var.as_str());
                out.append("); ");
                body.pp_with_indent(out, indent);
                assert(out@ =~= start + old_indent(self@, indent as nat));
            },
            RcExpr::Drop { var, body } => {
                out.append("drop(");
                out.append(var.as_str());
                out.append("); ");
                body.pp_with_indent(out, indent);
                assert(out@ =~= start + old_indent(self@, indent as nat));
            },
            RcExpr::Let { .. } => push_let_indent(out, self, indent),
            RcExpr::Lam { param, body } => {
                out.append("λ");
                out.append(param.as_str());
                out.append(" =>\n");
                push_indent(out, indent + 1);
                body.pp_with_indent(out, indent + 1);
                assert(out@ =~= start + old_indent(self@, indent as nat));
            },
            RcExpr::App(f, arg) => {
                out.append("(");
                f.pp_with_indent(out, indent);
                out.append(" ");
                arg.pp_with_indent(out, indent);
                out.append(")");
                assert(out@ =~= start + old_indent(self@, indent as nat));
            },
            RcExpr::If { .. } => push_if_indent(out, self, indent),
            RcExpr::Match { scrutinee, arms } => {
                out.append("match ");
                out.append(scrutinee.as_str());
                push_arms_indent(out, arms, indent);
                assert(out@ =~= start + old_indent(self@, indent as nat));
            },
            RcExpr::Con { tag, fields, reuse } => {
                out.append(tag.as_str());
                out.append("(");
                push_list_indent(out, fields, indent);
                out.append(")");
                push_reuse(out, reuse);
                assert(out@ =~= start + old_indent(self@, indent as nat));
            },
        }
    }
}

fn push_let_indent(out: &mut String, e: &RcExpr, indent: usize)
    requires
        indent + 2 * tsize(e@) <= usize::MAX,
        e is Let,
    ensures
        final(out)@ == old(out)@ + old_indent(e@, indent as nat),
    decreases e, 0nat,
{
    if let RcExpr::Let { name, value, body } = e {
        out.append("let ");
        out.append(name.as_str());
        out.append(" =\n");
        push_indent(out, indent + 1);
        value.pp_with_indent(out, indent + 1);
        out.append("\n");
        push_indent(out, indent);
        out.append("in\n");
        push_indent(out, indent + 1);
        body.pp_with_indent(out, indent + 1);
        assert(out@ =~= old(out)@ + old_indent(e@, indent as nat));
    }
}

fn push_if_indent(out: &mut String, e: &RcExpr, indent: usize)
    requires
        indent + 2 * tsize(e@) <= usize::MAX,
        e is If,
    ensures
        final(out)@ == old(out)@ + old_indent(e@, indent as nat),
    decreases e, 0nat,
{
    if let RcExpr::If { cond, then_, else_ } = e {
        out.append("if ");
        cond.pp_with_indent(out, indent);
        out.append("\n");
        push_indent(out, indent);
        out.append("then ");
        then_.pp_with_indent(out, indent);
        out.append("\n");
        push_indent(out, indent);
        out.append("else ");
        else_.pp_with_indent(out, indent);
        assert(out@ =~= old(out)@ + old_indent(e@, indent as nat));
    }
}

fn push_list_indent(out: &mut String, es: &Vec<RcExpr>, indent: usize)
    requires
        indent + 2 * tsize_list(old_terms(es@)) <= usize::MAX,
    ensures
        final(out)@ == old(out)@ + old_list_indent(old_terms(es@), indent as nat),
    decreases es, 0nat,
{
    let ghost start = out@;
    let ghost ts = old_terms(es@);
    let mut i: usize = 0;
    assert(start + old_list_indent(ts.take(0), indent as nat) =~= start);
    while i < es.len()
        invariant
            0 <= i <= es.len(),
            ts == old_terms(es@),
            indent + 2 * tsize_list(ts) <= usize::MAX,
            out@ == start + old_list_indent(ts.take(i as int), indent as nat),
        decreases es.len() - i,
    {
        assert(ts.take(i + 1).drop_last() =~= ts.take(i as int));
        proof {
            lemma_tsize_list_elem(ts, i as int);
        }
        if i > 0 {
            out.append(", ");
        }
        es[i].pp_with_indent(out, indent);
        assert(out@ =~= start + old_list_indent(ts.take(i + 1), indent as nat));
        i += 1;
    }
    assert(ts.take(es.len() as int) =~= ts);
}

#[verifier::rlimit(80)]
fn push_arms_indent(out: &mut String, arms: &Vec<RcMatchArm>, indent: usize)
    requires
        indent + 2 + 2 * tsize_arms(old_arm_terms(arms@)) <= usize::MAX,
    ensures
        final(out)@ == old(out)@ + old_arms_indent(old_arm_terms(arms@), indent as nat),
    decreases arms, 0nat,
{
    let ghost start = out@;
    let ghost ts = old_arm_terms(arms@);
    let mut i: usize = 0;
    assert(start + old_arms_indent(ts.take(0), indent as nat) =~= start);
    while i < arms.len()
        invariant
            0 <= i <= arms.len(),
            ts == old_arm_terms(arms@),
            indent + 2 + 2 * tsize_arms(ts) <= usize::MAX,
            out@ == start + old_arms_indent(ts.take(i as int), indent as nat),
        decreases arms.len() - i,
    {
        assert(ts.take(i + 1).drop_last() =~= ts.take(i as int));
        proof {
            lemma_tsize_arms_elem(ts, i as int);
        }
        out.append("\n");
        push_indent(out, indent + 1);
        out.append("| ");
        push_arm_head(out, &arms[i]);
        out.append(" =>\n");
        push_indent(out, indent + 2);
        arms[i].body.pp_with_indent(out, indent + 2);
        assert(out@ =~= start + old_arms_indent(ts.take(i + 1), indent as nat));
        i += 1;
    }
    assert(ts.take(arms.len() as int) =~= ts);
}


// ── Copies ───────────────────────────────────────────────────────────────────

impl RcExpr {
    /// A copy of this expression with the same value.
    pub fn duplicate(&self) -> (r: Self)
        ensures
            r@ == self@,
        decreases self,
    {
        proof {
            lemma_old_children(*self);
        }
        match self {
            RcExpr::Lit(l) => RcExpr::Lit(l.copy()),
            RcExpr::Var(x) => RcExpr::Var(x.clone()),
            RcExpr::Let { name, value, body } => RcExpr::Let {
                name: name.clone(),
                value: Box::new(value.duplicate()),
                body: Box::new(body.duplicate()),
            },
            RcExpr::Lam { param, body } => RcExpr::Lam {
                param: param.clone(),
                body: Box::new(body.duplicate()),
            },
            RcExpr::App(f, x) => RcExpr::App(Box::new(f.duplicate()), Box::new(x.duplicate())),
            RcExpr::If { cond, then_, else_ } => RcExpr::If {
                cond: Box::new(cond.duplicate()),
                then_: Box::new(then_.duplicate()),
                else_: Box::new(else_.duplicate()),
            },
            RcExpr::Dup { var, body } => RcExpr::Dup {
                var: var.clone(),
                body: Box::new(body.duplicate()),
            },
            RcExpr::Drop { var, body } => RcExpr::Drop {
                var: var.clone(),
                body: Box::new(body.duplicate()),
            },
            RcExpr::Match { scrutinee, arms } => {
                let out = duplicate_rc_arms(arms);
                let r = RcExpr::Match { scrutinee: scrutinee.clone(), arms: out };
                proof {
                    lemma_old_children(r);
                    assert(old_arm_terms(out@) =~= old_arm_terms(arms@));
                }
                r
            },
            RcExpr::Con { tag, fields, reuse } => {
                let out = duplicate_rc_list(fields);
                let r = RcExpr::Con { tag: tag.clone(), fields: out, reuse: copy_opt(reuse) };
                proof {
                    lemma_old_children(r);
                    assert(old_terms(out@) =~= old_terms(fields@));
                }
                r
            },
        }
    }
}

fn duplicate_rc_list(es: &Vec<RcExpr>) -> (r: Vec<RcExpr>)
    ensures
        r@.len() == es@.len(),
        forall|j: int| 0 <= j < es@.len() ==> #[trigger] r@[j]@ == es@[j]@,
    decreases es,
{
    let mut out: Vec<RcExpr> = Vec::new();
    let mut i: usize = 0;
    while i < es.len()
        invariant
            0 <= i <= es.len(),
            out@.len() == i,
            forall|j: int| 0 <= j < i ==> #[trigger] out@[j]@ == es@[j]@,
        decreases es.len() - i,
    {
        out.push(es[i].duplicate());
        i += 1;
    }
    out
}

fn duplicate_rc_arms(arms: &Vec<RcMatchArm>) -> (r: Vec<RcMatchArm>)
    ensures
        r@.len() == arms@.len(),
        forall|j: int| 0 <= j < arms@.len() ==> #[trigger] r@[j]@ == arms@[j]@,
    decreases arms,
{
    let mut out: Vec<RcMatchArm> = Vec::new();
    let mut i: usize = 0;
    while i < arms.len()
        invariant
            0 <= i <= arms.len(),
            out@.len() == i,
            forall|j: int| 0 <= j < i ==> #[trigger] out@[j]@ == arms@[j]@,
        decreases arms.len() - i,
    {
        let a = &arms[i];
        let copy = RcMatchArm {
            tag: a.tag.clone(),
            bindings: copy_names(&a.bindings),
            reuse_token: copy_opt(&a.reuse_token),
            body: a.body.duplicate(),
        };
        out.push(copy);
        i += 1;
    }
    out
}

impl Clone for RcExpr {
    fn clone(&self) -> (r: Self)
        ensures
            r@ == self@,
    {
        self.duplicate()
    }
}

impl Clone for RcMatchArm {
    fn clone(&self) -> (r: Self)
        ensures
            r@ == self@,
    {
        RcMatchArm {
            tag: self.tag.clone(),
            bindings: copy_names(&self.bindings),
            reuse_token: copy_opt(&self.reuse_token),
            body: self.body.duplicate(),
        }
    }
}

} // verus!
