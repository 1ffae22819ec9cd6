//! Text renderings of RC expressions.
//!
//! `print` gives a single-line rendering, `pretty_print` an indented one with
//! nested lets flattened into a chain.  Both end with a newline.
use vstd::prelude::*;
use vstd::string::*;

use super::{arm_terms, lemma_view_children, terms, ArmTerm, Expr, MatchArm, Term};
use crate::ast::{Lit, LitV};
use crate::names::names;
use crate::simplify::{
    lemma_tsize_arms_elem, lemma_tsize_list_elem, tsize, tsize_arms, tsize_list,
};
use crate::text::{bool_text, dec_int, indent_text, push_bool, push_indent, push_int};

verus! {

// ── Model ─────────────────────────────────────────────────────────────────────

pub open spec fn litv_text(l: LitV) -> Seq<char> {
    match l {
        LitV::Int(n) => dec_int(n as int),
        LitV::Bool(b) => bool_text(b),
        LitV::Unit => "()"@,
        LitV::Str(s) => "\""@ + s + "\""@,
    }
}

/// Names separated by `, `.
pub open spec fn join_names(ns: Seq<Seq<char>>) -> Seq<char>
    decreases ns.len(),
{
    if ns.len() == 0 {
        Seq::empty()
    } else if ns.len() == 1 {
        ns[0]
    } else {
        join_names(ns.drop_last()) + ", "@ + ns.last()
    }
}

/// ` [reuse: token]`, or nothing.
pub open spec fn reuse_text(o: Option<Seq<char>>) -> Seq<char> {
    match o {
        Some(t) => " [reuse: "@ + t + "]"@,
        None => Seq::empty(),
    }
}

/// `[c1, c2] ` for a lambda's captures, or nothing when there are none.
pub open spec fn captures_text(c: Seq<Seq<char>>) -> Seq<char> {
    if c.len() == 0 {
        Seq::empty()
    } else {
        "["@ + join_names(c) + "] "@
    }
}

/// Head of a match arm: `tag(bindings) [reuse: token]`.
pub open spec fn arm_head(a: ArmTerm) -> Seq<char> {
    a.tag + "("@ + join_names(a.bindings) + ")"@ + reuse_text(a.reuse_token)
}

/// Single-line rendering; lambdas and applications are parenthesised when
/// `parens` holds.
pub open spec fn rc_inner(t: Term, parens: bool) -> Seq<char>
    decreases t, 1nat,
{
    if parens && (t is Lam || t is App) {
        "("@ + rc_core(t) + ")"@
    } else {
        rc_core(t)
    }
}

pub open spec fn rc_core(t: Term) -> Seq<char>
    decreases t, 0nat,
{
    match t {
        Term::Lit(l) => litv_text(l),
        Term::Var(name) => name,
        Term::Dup { var, body } => "dup("@ + var + "); "@ + rc_inner(*body, false),
        Term::Drop { var, body } => "drop("@ + var + "); "@ + rc_inner(*body, false),
        Term::Let { name, value, body } => "let "@ + name + " = "@ + rc_inner(*value, false)
            + " in "@ + rc_inner(*body, false),
        Term::Lam { param, captures, body } => "λ"@ + captures_text(captures) + param + " => "@
            + rc_inner(*body, false),
        Term::App(f, x) => rc_inner(*f, true) + " "@ + rc_inner(*x, true),
        Term::If { cond, then_, else_ } => "if "@ + rc_inner(*cond, false) + " then "@ + rc_inner(
            *then_,
            false,
        ) + " else "@ + rc_inner(*else_, false),
        Term::Match { scrutinee, arms } => "match "@ + scrutinee + " with "@ + rc_arms_inner(arms),
        Term::Con { tag, fields, reuse } => tag + "("@ + rc_list_inner(fields) + ")"@ + reuse_text(
            reuse,
        ),
        Term::Foreign { name, args } => name + "("@ + rc_list_inner(args) + ")"@,
    }
}

pub open spec fn rc_list_inner(ts: Seq<Term>) -> Seq<char>
    decreases ts,
{
    if ts.len() == 0 {
        Seq::empty()
    } else if ts.len() == 1 {
        rc_inner(ts[0], false)
    } else {
        rc_list_inner(ts.drop_last()) + ", "@ + rc_inner(ts.last(), false)
    }
}

pub open spec fn rc_arms_inner(arms: Seq<ArmTerm>) -> Seq<char>
    decreases arms,
{
    if arms.len() == 0 {
        Seq::empty()
    } else {
        rc_arms_inner(arms.drop_last()) + (if arms.len() > 1 {
            " | "@
        } else {
            Seq::empty()
        }) + arm_head(arms.last()) + " => "@ + rc_inner(arms.last().body, false)
    }
}

/// Indented rendering at indentation level `ind`.
pub open spec fn rc_indent(t: Term, ind: nat) -> Seq<char>
    decreases t, 1nat,
{
    match t {
        Term::Lit(l) => litv_text(l),
        Term::Var(name) => name,
        Term::Dup { var, body } => "dup("@ + var + "); "@ + rc_indent(*body, ind),
        Term::Drop { var, body } => "drop("@ + var + "); "@ + rc_indent(*body, ind),
        Term::Let { name, value, body } => "let "@ + name + " =\n"@ + indent_text(ind + 1)
            + rc_indent(*value, ind + 1) + "\n"@ + indent_text(ind) + rc_let_chain(*body, ind),
        Term::Lam { param, captures, body } => "λ"@ + captures_text(captures) + param + " =>\n"@
            + indent_text(ind + 1) + rc_indent(*body, ind + 1),
        Term::App(f, x) => "("@ + rc_indent(*f, ind) + " "@ + rc_indent(*x, ind) + ")"@,
        Term::If { cond, then_, else_ } => "if "@ + rc_indent(*cond, ind) + "\n"@ + indent_text(ind)
            + "then "@ + rc_indent(*then_, ind) + "\n"@ + indent_text(ind) + "else "@ + rc_indent(
            *else_,
            ind,
        ),
        Term::Match { scrutinee, arms } => "match "@ + scrutinee + rc_arms_indent(arms, ind),
        Term::Con { tag, fields, reuse } => tag + "("@ + rc_list_indent(fields, ind) + ")"@
            + reuse_text(reuse),
        Term::Foreign { name, args } => name + "("@ + rc_list_indent(args, ind) + ")"@,
    }
}

/// Rest of a flattened chain of lets: further lets, then `in` and the body.
pub open spec fn rc_let_chain(cur: Term, ind: nat) -> Seq<char>
    decreases cur, 2nat,
{
    match cur {
        Term::Let { name, value, body } => "let "@ + name + " =\n"@ + indent_text(ind + 1)
            + rc_indent(*value, ind + 1) + "\n"@ + indent_text(ind) + rc_let_chain(*body, ind),
        _ => "in\n"@ + indent_text(ind + 1) + rc_indent(cur, ind + 1),
    }
}

pub open spec fn rc_list_indent(ts: Seq<Term>, ind: nat) -> Seq<char>
    decreases ts, 0nat,
{
    if ts.len() == 0 {
        Seq::empty()
    } else if ts.len() == 1 {
        rc_indent(ts[0], ind)
    } else {
        rc_list_indent(ts.drop_last(), ind) + ", "@ + rc_indent(ts.last(), ind)
    }
}

pub open spec fn rc_arms_indent(arms: Seq<ArmTerm>, ind: nat) -> Seq<char>
    decreases arms, 0nat,
{
    if arms.len() == 0 {
        Seq::empty()
    } else {
        rc_arms_indent(arms.drop_last(), ind) + "\n"@ + indent_text(ind + 1) + "| "@ + arm_head(
            arms.last(),
        ) + " =>\n"@ + indent_text(ind + 2) + rc_indent(arms.last().body, ind + 2)
    }
}

// ── Rendering ────────────────────────────────────────────────────────────────

fn push_lit(out: &mut String, l: &Lit)
    ensures
        final(out)@ == old(out)@ + litv_text(l@),
{
    match l {
        Lit::Int(n) => push_int(out, *n),
        Lit::Bool(b) => push_bool(out, *b),
        Lit::Unit => out.append("()"),
        Lit::Str(s) => {
            out.append("\"");
            out.append(s.as_str());
            out.append("\"");
            assert(out@ =~= old(out)@ + litv_text(l@));
        },
    }
}

pub(crate) fn push_names(out: &mut String, ns: &Vec<String>)
    ensures
        final(out)@ == old(out)@ + join_names(names(ns@)),
{
    let ghost start = out@;
    let mut i: usize = 0;
    assert(start + join_names(names(ns@).take(0)) =~= start);
    while i < ns.len()
        invariant
            0 <= i <= ns.len(),
            out@ == start + join_names(names(ns@).take(i as int)),
        decreases ns.len() - i,
    {
        assert(names(ns@).take(i + 1).drop_last() =~= names(ns@).take(i as int));
        if i > 0 {
            out.append(", ");
        }
        out.append(ns[i].as_str());
        assert(out@ =~= start + join_names(names(ns@).take(i + 1)));
        i += 1;
    }
    assert(names(ns@).take(ns.len() as int) =~= names(ns@));
}

fn push_reuse(out: &mut String, o: &Option<String>)
    ensures
        final(out)@ == old(out)@ + reuse_text(super::opt_chars(*o)),
{
    match o {
        Some(t) => {
            out.append(" [reuse: ");
            out.append(t.as_str());
            out.append("]");
            assert(out@ =~= old(out)@ + reuse_text(super::opt_chars(*o)));
        },
        None => {
            assert(out@ =~= old(out)@ + reuse_text(super::opt_chars(*o)));
        },
    }
}

fn push_captures(out: &mut String, c: &Vec<String>)
    ensures
        final(out)@ == old(out)@ + captures_text(names(c@)),
{
    if c.len() > 0 {
        out.append("[");
        push_names(out, c);
        out.append("] ");
        assert(out@ =~= old(out)@ + captures_text(names(c@)));
    } else {
        assert(out@ =~= old(out)@ + captures_text(names(c@)));
    }
}

fn push_arm_head(out: &mut String, a: &MatchArm)
    ensures
        final(out)@ == old(out)@ + arm_head(a@),
{
    out.append(a.tag.as_str());
    out.append("(");
    push_names(out, &a.bindings);
    out.append(")");
    push_reuse(out, &a.reuse_token);
    assert(out@ =~= old(out)@ + arm_head(a@));
}

impl Expr {
    /// Single-line rendering, followed by a newline.
    pub fn print(&self) -> (r: String)
        ensures
            r@ == rc_inner(self@, false) + "\n"@,
    {
        let mut out = String::new();
        self.pp_inner(&mut out, false);
        out.append("\n");
        assert(out@ =~= rc_inner(self@, false) + "\n"@);
        out
    }

    /// Indented rendering, followed by a newline.
    pub fn pretty_print(&self) -> (r: String)
        requires
            2 * tsize(self@) <= usize::MAX,
        ensures
            r@ == rc_indent(self@, 0) + "\n"@,
    {
        let mut out = String::new();
        self.pp_with_indent(&mut out, 0);
        out.append("\n");
        assert(out@ =~= rc_indent(self@, 0) + "\n"@);
        out
    }

    fn pp_inner(&self, out: &mut String, parens: bool)
        ensures
            final(out)@ == old(out)@ + rc_inner(self@, parens),
        decreases self, 1nat,
    {
        proof {
            lemma_view_children(*self);
        }
        let lam_or_app = match self {
            Expr::Lam { .. } | Expr::App(_, _) => true,
            _ => false,
        };
        let needs_parens = parens && lam_or_app;
        let ghost start = out@;
        if needs_parens {
            out.append("(");
        }
        let ghost mid = out@;
        match self {
            Expr::Lit(l) => push_lit(out, l),
            Expr::Var(name) => out.append(name.as_str()),
            Expr::Dup { var, body } => {
                out.append("dup(");
                out.append(var.as_str());
                out.append("); ");
                body.pp_inner(out, false);
            },
            Expr::Drop { var, body } => {
                out.append("drop(");
                out.append(var.as_str());
                out.append("); ");
                body.pp_inner(out, false);
            },
            Expr::Let { name, value, body } => {
                out.append("let ");
                out.append(name.as_str());
                out.append(" = ");
                value.pp_inner(out, false);
                out.append(" in ");
                body.pp_inner(out, false);
            },
            Expr::Lam { param, captures, body } => {
                out.append("λ");
                push_captures(out, captures);
                out.append(param.as_str());
                out.append(" => ");
                body.pp_inner(out, false);
            },
            Expr::App(f, arg) => {
                f.pp_inner(out, true);
                out.append(" ");
                arg.pp_inner(out, true);
            },
            Expr::If { cond, then_, else_ } => {
                out.append("if ");
                cond.pp_inner(out, false);
                out.append(" then ");
                then_.pp_inner(out, false);
                out.append(" else ");
                else_.pp_inner(out, false);
            },
            Expr::Match { scrutinee, arms } => {
                out.append("match ");
                out.append(scrutinee.as_str());
                out.append(" with ");
                push_arms_inner(out, arms);
            },
            Expr::Con { tag, fields, reuse } => {
                out.append(tag.as_str());
                out.append("(");
                push_list_inner(out, fields);
                out.append(")");
                push_reuse(out, reuse);
            },
            Expr::Foreign { name, args } => {
                out.append(name.as_str());
                out.append("(");
                push_list_inner(out, args);
                out.append(")");
            },
        }
        let ghost core = out@.subrange(mid.len() as int, out@.len() as int);
        assert(out@ =~= mid + core);
        if needs_parens {
            out.append(")");
        }
        proof {
            let c = rc_core(self@);
            assert(core =~= c);
            if needs_parens {
                assert(out@ =~= start + ("("@ + c + ")"@));
            } else {
                assert(out@ =~= start + c);
            }
        }
    }

    fn pp_with_indent(&self, out: &mut String, indent: usize)
        requires
            indent + 2 * tsize(self@) <= usize::MAX,
        ensures
            final(out)@ == old(out)@ + rc_indent(self@, indent as nat),
        decreases self, 1nat,
    {
        proof {
            lemma_view_children(*self);
        }
        let ghost start = out@;
        match self {
            Expr::Lit(l) => push_lit(out, l),
            Expr::Var(name) => out.append(name.as_str()),
            Expr::Dup { var, body } => {
                out.append("dup(");
                out.append(var.as_str());
                out.append("); ");
                body.pp_with_indent(out, indent);
                assert(out@ =~= start + rc_indent(self@, indent as nat));
            },
            Expr::Drop { var, body } => {
                out.append("drop(");
                out.append(var.as_str());
                out.append("); ");
                body.pp_with_indent(out, indent);
                assert(out@ =~= start + rc_indent(self@, indent as nat));
            },
            Expr::Let { .. } => push_let_indent(out, self, indent),
            Expr::Lam { param, captures, body } => {
                out.append("λ");
                push_captures(out, captures);
                out.append(param.as_str());
                out.append(" =>\n");
                push_indent(out, indent + 1);
                body.pp_with_indent(out, indent + 1);
                assert(out@ =~= start + rc_indent(self@, indent as nat));
            },
            Expr::App(f, arg) => {
                out.append("(");
                f.pp_with_indent(out, indent);
                out.append(" ");
                arg.pp_with_indent(out, indent);
                out.append(")");
                assert(out@ =~= start + rc_indent(self@, indent as nat));
            },
            Expr::If { .. } => push_if_indent(out, self, indent),
            Expr::Match { scrutinee, arms } => {
                out.append("match ");
                out.append(scrutinee.as_str());
                push_arms_indent(out, arms, indent);
                assert(out@ =~= start + rc_indent(self@, indent as nat));
            },
            Expr::Con { tag, fields, reuse } => {
                out.append(tag.as_str());
                out.append("(");
                push_list_indent(out, fields, indent);
                out.append(")");
                push_reuse(out, reuse);
                assert(out@ =~= start + rc_indent(self@, indent as nat));
            },
            Expr::Foreign { name, args } => {
                out.append(name.as_str());
                out.append("(");
                push_list_indent(out, args, indent);
                out.append(")");
                assert(out@ =~= start + rc_indent(self@, indent as nat));
            },
        }
    }
}

fn push_let_indent(out: &mut String, e: &Expr, indent: usize)
    requires
        e is Let,
        indent + 2 * tsize(e@) <= usize::MAX,
    ensures
        final(out)@ == old(out)@ + rc_indent(e@, indent as nat),
    decreases e, 0nat,
{
    let ghost start = out@;
    match e {
        Expr::Let { name, value, body } => {
            out.append("let ");
            out.append(name.as_str());
            out.append(" =\n");
            push_indent(out, indent + 1);
            value.pp_with_indent(out, indent + 1);
            out.append("\n");
            push_indent(out, indent);
            push_let_chain(out, body, indent);
            assert(out@ =~= start + rc_indent(e@, indent as nat));
        },
        _ => {},
    }
}

fn push_if_indent(out: &mut String, e: &Expr, indent: usize)
    requires
        e is If,
        indent + 2 * tsize(e@) <= usize::MAX,
    ensures
        final(out)@ == old(out)@ + rc_indent(e@, indent as nat),
    decreases e, 0nat,
{
    let ghost start = out@;
    match e {
        Expr::If { cond, then_, else_ } => {
            out.append("if ");
            cond.pp_with_indent(out, indent);
            out.append("\n");
            push_indent(out, indent);
            out.append("then ");
            then_.pp_with_indent(out, indent);
            out.append("\n");
            push_indent(out, indent);
            out.append("else ");
            else_.pp_with_indent(out, indent);
            assert(out@ =~= start + rc_indent(e@, indent as nat));
        },
        _ => {},
    }
}

/// Flatten nested lets: further lets of the chain, then `in` and the body.
fn push_let_chain(out: &mut String, cur: &Expr, indent: usize)
    requires
        indent + 1 + 2 * tsize(cur@) <= usize::MAX,
    ensures
        final(out)@ == old(out)@ + rc_let_chain(cur@, indent as nat),
    decreases cur, 2nat,
{
    let ghost start = out@;
    match cur {
        Expr::Let { name, value, body } => {
            out.append("let ");
            out.append(name.as_str());
            out.append(" =\n");
            push_indent(out, indent + 1);
            value.pp_with_indent(out, indent + 1);
            out.append("\n");
            push_indent(out, indent);
            push_let_chain(out, body, indent);
            assert(out@ =~= start + rc_let_chain(cur@, indent as nat));
        },
        _ => {
            out.append("in\n");
            push_indent(out, indent + 1);
            cur.pp_with_indent(out, indent + 1);
            assert(out@ =~= start + rc_let_chain(cur@, indent as nat));
        },
    }
}

fn push_list_inner(out: &mut String, es: &Vec<Expr>)
    ensures
        final(out)@ == old(out)@ + rc_list_inner(terms(es@)),
    decreases es, 0nat,
{
    let ghost start = out@;
    let ghost ts = terms(es@);
    let mut i: usize = 0;
    assert(start + rc_list_inner(ts.take(0)) =~= start);
    while i < es.len()
        invariant
            0 <= i <= es.len(),
            ts == terms(es@),
            out@ == start + rc_list_inner(ts.take(i as int)),
        decreases es.len() - i,
    {
        assert(ts.take(i + 1).drop_last() =~= ts.take(i as int));
        if i > 0 {
            out.append(", ");
        }
        es[i].pp_inner(out, false);
        assert(out@ =~= start + rc_list_inner(ts.take(i + 1)));
        i += 1;
    }
    assert(ts.take(es.len() as int) =~= ts);
}

fn push_arms_inner(out: &mut String, arms: &Vec<MatchArm>)
    ensures
        final(out)@ == old(out)@ + rc_arms_inner(arm_terms(arms@)),
    decreases arms, 0nat,
{
    let ghost start = out@;
    let ghost ts = arm_terms(arms@);
    let mut i: usize = 0;
    assert(start + rc_arms_inner(ts.take(0)) =~= start);
    while i < arms.len()
        invariant
            0 <= i <= arms.len(),
            ts == arm_terms(arms@),
            out@ == start + rc_arms_inner(ts.take(i as int)),
        decreases arms.len() - i,
    {
        assert(ts.take(i + 1).drop_last() =~= ts.take(i as int));
        if i > 0 {
            out.append(" | ");
        }
        push_arm_head(out, &arms[i]);
        out.append(" => ");
        arms[i].body.pp_inner(out, false);
        assert(out@ =~= start + rc_arms_inner(ts.take(i + 1)));
        i += 1;
    }
    assert(ts.take(arms.len() as int) =~= ts);
}

fn push_list_indent(out: &mut String, es: &Vec<Expr>, indent: usize)
    requires
        indent + 2 * tsize_list(terms(es@)) <= usize::MAX,
    ensures
        final(out)@ == old(out)@ + rc_list_indent(terms(es@), indent as nat),
    decreases es, 0nat,
{
    let ghost start = out@;
    let ghost ts = terms(es@);
    let mut i: usize = 0;
    assert(start + rc_list_indent(ts.take(0), indent as nat) =~= start);
    while i < es.len()
        invariant
            0 <= i <= es.len(),
            ts == terms(es@),
            indent + 2 * tsize_list(ts) <= usize::MAX,
            out@ == start + rc_list_indent(ts.take(i as int), indent as nat),
        decreases es.len() - i,
    {
        assert(ts.take(i + 1).drop_last() =~= ts.take(i as int));
        proof {
            lemma_tsize_list_elem(ts, i as int);
        }
        if i > 0 {
            out.append(", ");
        }
        es[i].pp_with_indent(out, indent);
        assert(out@ =~= start + rc_list_indent(ts.take(i + 1), indent as nat));
        i += 1;
    }
    assert(ts.take(es.len() as int) =~= ts);
}

fn push_arms_indent(out: &mut String, arms: &Vec<MatchArm>, indent: usize)
    requires
        indent + 2 + 2 * tsize_arms(arm_terms(arms@)) <= usize::MAX,
    ensures
        final(out)@ == old(out)@ + rc_arms_indent(arm_terms(arms@), indent as nat),
    decreases arms, 0nat,
{
    let ghost start = out@;
    let ghost ts = arm_terms(arms@);
    let mut i: usize = 0;
    assert(start + rc_arms_indent(ts.take(0), indent as nat) =~= start);
    while i < arms.len()
        invariant
            0 <= i <= arms.len(),
            ts == arm_terms(arms@),
            indent + 2 + 2 * tsize_arms(ts) <= usize::MAX,
            out@ == start + rc_arms_indent(ts.take(i as int), indent as nat),
        decreases arms.len() - i,
    {
        assert(ts.take(i + 1).drop_last() =~= ts.take(i as int));
        proof {
            lemma_tsize_arms_elem(ts, i as int);
        }
        out.append("\n");
        push_indent(out, indent + 1);
        out.append("| ");
        push_arm_head(out, &arms[i]);
        out.append(" =>\n");
        push_indent(out, indent + 2);
        arms[i].body.pp_with_indent(out, indent + 2);
        assert(out@ =~= start + rc_arms_indent(ts.take(i + 1), indent as nat));
        i += 1;
    }
    assert(ts.take(arms.len() as int) =~= ts);
}

} // verus!
