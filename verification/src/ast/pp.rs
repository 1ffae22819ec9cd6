//! Text renderings of source expressions.
//!
//! `print` gives a single-line rendering, `pretty_print` an indented one with
//! nested lets flattened into a chain.  Both end with a newline.
use vstd::prelude::*;
use vstd::string::*;

use super::{lemma_size_arms_elem, lemma_size_list_elem, size, size_arms, size_list};
use super::{Expr, Lit, MatchArm, Pattern};
use crate::text::{bool_text, dec_int, indent_text, push_bool, push_indent, push_int};

verus! {

// ── Model ─────────────────────────────────────────────────────────────────────

pub open spec fn lit_text(l: Lit) -> Seq<char> {
    match l {
        Lit::Int(n) => dec_int(n as int),
        Lit::Bool(b) => bool_text(b),
        Lit::Unit => "()"@,
        Lit::Str(s) => "\""@ + s@ + "\""@,
    }
}

pub open spec fn pat_text(p: Pattern) -> Seq<char>
    decreases p,
{
    match p {
        Pattern::Wildcard => "_"@,
        Pattern::Var(x) => x@,
        Pattern::Lit(l) => lit_text(l),
        Pattern::Con { tag, fields } => if fields@.len() == 0 {
            tag@
        } else {
            tag@ + "("@ + pats_text(fields@) + ")"@
        },
    }
}

/// Patterns separated by `, `.
pub open spec fn pats_text(ps: Seq<Pattern>) -> Seq<char>
    decreases ps,
{
    if ps.len() == 0 {
        Seq::empty()
    } else if ps.len() == 1 {
        pat_text(ps[0])
    } else {
        pats_text(ps.drop_last()) + ", "@ + pat_text(ps.last())
    }
}

/// Single-line rendering; lambdas and applications are parenthesised when
/// `parens` holds.
pub open spec fn inner_text(e: Expr, parens: bool, plain: bool) -> Seq<char>
    decreases e, 1nat,
{
    if parens && (e is Lam || e is App) {
        "("@ + inner_core(e, plain) + ")"@
    } else {
        inner_core(e, plain)
    }
}

/// Single-line rendering without surrounding parentheses.
pub open spec fn inner_core(e: Expr, plain: bool) -> Seq<char>
    decreases e, 0nat,
{
    match e {
        Expr::Lit(l) => lit_text(l),
        Expr::Var(name) => name@,
        Expr::Lam { param, body } => "λ"@ + param@ + "."@ + inner_text(*body, false, plain),
        Expr::App(f, x) => inner_text(*f, true, plain) + " "@ + inner_text(*x, true, plain),
        Expr::Let { name, value, body } => "let "@ + name@ + " = "@ + inner_text(*value, false, plain)
            + " in "@ + inner_text(*body, false, plain),
        Expr::If { cond, then_, else_ } => "if "@ + inner_text(*cond, false, plain) + " then "@
            + inner_text(*then_, false, plain) + " else "@ + inner_text(*else_, false, plain),
        Expr::Match { scrutinee, arms } => "match "@ + inner_text(*scrutinee, false, plain) + " with "@
            + arms_inner_text(arms@, plain),
        Expr::Con { tag, fields } => if fields@.len() == 0 {
            tag@
        } else {
            tag@ + "("@ + list_inner_text(fields@, plain) + ")"@
        },
        Expr::Foreign { name, args } => if plain {
            name@ + "("@ + list_inner_text(args@, plain) + ")"@
        } else if args@.len() == 0 {
            "foreign("@ + name@ + ")"@
        } else {
            "foreign("@ + name@ + ";"@ + args_inner_text(args@, plain) + ")"@
        },
    }
}

/// Expressions separated by `, `.
pub open spec fn list_inner_text(es: Seq<Expr>, plain: bool) -> Seq<char>
    decreases es,
{
    if es.len() == 0 {
        Seq::empty()
    } else if es.len() == 1 {
        inner_text(es[0], false, plain)
    } else {
        list_inner_text(es.drop_last(), plain) + ", "@ + inner_text(es.last(), false, plain)
    }
}

/// Foreign arguments: each preceded by a space, separated by commas.
pub open spec fn args_inner_text(es: Seq<Expr>, plain: bool) -> Seq<char>
    decreases es,
{
    if es.len() == 0 {
        Seq::empty()
    } else {
        args_inner_text(es.drop_last(), plain) + (if es.len() > 1 {
            ","@
        } else {
            Seq::empty()
        }) + " "@ + inner_text(es.last(), false, plain)
    }
}

/// Match arms `pat -> body`, separated by ` | `.
pub open spec fn arms_inner_text(arms: Seq<MatchArm>, plain: bool) -> Seq<char>
    decreases arms,
{
    if arms.len() == 0 {
        Seq::empty()
    } else {
        arms_inner_text(arms.drop_last(), plain) + (if arms.len() > 1 {
            " | "@
        } else {
            Seq::empty()
        }) + pat_text(arms.last().pat) + " -> "@ + inner_text(arms.last().body, false, plain)
    }
}

/// Printing an application is unambiguous: a function or an argument that is
/// itself a lambda or an application stands in parentheses, anything else
/// stands bare, and one space separates the two; the whole application is
/// parenthesised where it is itself a function or an argument.
pub proof fn lemma_application_text(f: Expr, x: Expr, plain: bool)
    ensures
        inner_text(Expr::App(Box::new(f), Box::new(x)), false, plain) == (if f is Lam || f is App {
            "("@ + inner_core(f, plain) + ")"@
        } else {
            inner_core(f, plain)
        }) + " "@ + (if x is Lam || x is App {
            "("@ + inner_core(x, plain) + ")"@
        } else {
            inner_core(x, plain)
        }),
        inner_text(Expr::App(Box::new(f), Box::new(x)), true, plain) == "("@ + inner_text(
            Expr::App(Box::new(f), Box::new(x)),
            false,
            plain,
        ) + ")"@,
{
    let a = Expr::App(Box::new(f), Box::new(x));
    assert(inner_text(a, false, plain) == inner_core(a, plain));
    assert(inner_core(a, plain) == inner_text(f, true, plain) + " "@ + inner_text(x, true, plain));
}

/// Indented rendering at indentation level `ind`.
pub open spec fn indent_rendering(e: Expr, ind: nat, plain: bool) -> Seq<char>
    decreases e, 1nat,
{
    match e {
        Expr::Lit(l) => lit_text(l),
        Expr::Var(name) => name@,
        Expr::Let { name, value, body } => if plain {
            "let "@ + name@ + " =\n"@ + indent_text(ind + 1) + indent_rendering(*value, ind + 1, plain)
                + "\n"@ + indent_text(ind) + "in\n"@ + indent_text(ind + 1) + indent_rendering(
                *body,
                ind + 1,
                plain,
            )
        } else {
            "let "@ + name@ + " = "@ + indent_text(ind + 1) + indent_rendering(*value, ind + 1, plain)
                + "\n"@ + indent_text(ind) + let_chain(*body, ind, plain)
        },
        Expr::Lam { param, body } => "λ"@ + param@ + " =>\n"@ + indent_text(ind + 1)
            + indent_rendering(*body, ind + 1, plain),
        Expr::App(f, arg) => "("@ + indent_rendering(*f, ind, plain) + " "@ + indent_rendering(*arg, ind, plain)
            + ")"@,
        Expr::If { cond, then_, else_ } => "if "@ + indent_rendering(*cond, ind, plain) + "\n"@
            + indent_text(ind) + "then "@ + indent_rendering(*then_, ind, plain) + "\n"@ + indent_text(ind)
            + "else "@ + indent_rendering(*else_, ind, plain),
        Expr::Match { scrutinee, arms } => "match "@ + indent_rendering(*scrutinee, ind, plain)
            + arms_indent_rendering(arms@, ind, plain),
        Expr::Con { tag, fields } => tag@ + "("@ + list_indent_rendering(fields@, ind, plain) + ")"@,
        Expr::Foreign { name, args } => if plain {
            name@ + "("@ + list_indent_rendering(args@, ind, plain) + ")"@
        } else if args@.len() == 0 {
            "foreign("@ + name@ + ")"@
        } else {
            "foreign("@ + name@ + ";"@ + args_indent_rendering(args@, ind, plain) + ")"@
        },
    }
}

/// Rest of a flattened chain of lets: further lets, then `in` and the body.
pub open spec fn let_chain(cur: Expr, ind: nat, plain: bool) -> Seq<char>
    decreases cur, 2nat,
{
    match cur {
        Expr::Let { name, value, body } => "let "@ + name@ + " = "@ + indent_text(ind + 1)
            + indent_rendering(*value, ind + 1, plain) + "\n"@ + indent_text(ind) + let_chain(*body, ind, plain),
        _ => "in\n"@ + indent_text(ind + 1) + indent_rendering(cur, ind + 1, plain),
    }
}

pub open spec fn list_indent_rendering(es: Seq<Expr>, ind: nat, plain: bool) -> Seq<char>
    decreases es, 0nat,
{
    if es.len() == 0 {
        Seq::empty()
    } else if es.len() == 1 {
        indent_rendering(es[0], ind, plain)
    } else {
        list_indent_rendering(es.drop_last(), ind, plain) + ", "@ + indent_rendering(es.last(), ind, plain)
    }
}

pub open spec fn args_indent_rendering(es: Seq<Expr>, ind: nat, plain: bool) -> Seq<char>
    decreases es, 0nat,
{
    if es.len() == 0 {
        Seq::empty()
    } else {
        args_indent_rendering(es.drop_last(), ind, plain) + (if es.len() > 1 {
            ","@
        } else {
            Seq::empty()
        }) + " "@ + indent_rendering(es.last(), ind, plain)
    }
}

/// Each arm on its own line: `| pat =>` then the body one level deeper.
pub open spec fn arms_indent_rendering(arms: Seq<MatchArm>, ind: nat, plain: bool) -> Seq<char>
    decreases arms, 0nat,
{
    if arms.len() == 0 {
        Seq::empty()
    } else {
        arms_indent_rendering(arms.drop_last(), ind, plain) + "\n"@ + indent_text(ind + 1) + "| "@
            + pat_text(arms.last().pat) + " =>\n"@ + indent_text(ind + 2) + indent_rendering(
            arms.last().body,
            ind + 2,
            plain,
        )
    }
}

// ── Rendering ────────────────────────────────────────────────────────────────

fn push_lit(out: &mut String, l: &Lit)
    ensures
        final(out)@ == old(out)@ + lit_text(*l),
{
    match l {
        Lit::Int(n) => push_int(out, *n),
        Lit::Bool(b) => push_bool(out, *b),
        Lit::Unit => out.append("()"),
        Lit::Str(s) => {
            out.append("\"");
            out.append(s.as_str());
            out.append("\"");
            assert(out@ =~= old(out)@ + lit_text(*l));
        },
    }
}

impl Pattern {
    /// Appends the text of this pattern.
    pub(crate) fn pretty_print(&self, out: &mut String)
        ensures
            final(out)@ == old(out)@ + pat_text(*self),
        decreases self, 1nat,
    {
        match self {
            Pattern::Wildcard => out.append("_"),
            Pattern::Var(name) => out.append(name.as_str()),
            Pattern::Lit(l) => push_lit(out, l),
            Pattern::Con { tag, fields } => {
                out.append(tag.as_str());
                if fields.len() > 0 {
                    out.append("(");
                    push_pats(out, fields);
                    out.append(")");
                    assert(out@ =~= old(out)@ + pat_text(*self));
                }
            },
        }
    }
}

fn push_pats(out: &mut String, ps: &Vec<Pattern>)
    ensures
        final(out)@ == old(out)@ + pats_text(ps@),
    decreases ps, 0nat,
{
    let ghost start = out@;
    let mut i: usize = 0;
    assert(start + pats_text(ps@.take(0)) =~= start);
    while i < ps.len()
        invariant
            0 <= i <= ps.len(),
            out@ == start + pats_text(ps@.take(i as int)),
        decreases ps.len() - i,
    {
        assert(ps@.take(i + 1).drop_last() =~= ps@.take(i as int));
        if i > 0 {
            out.append(", ");
        }
        ps[i].pretty_print(out);
        assert(out@ =~= start + pats_text(ps@.take(i + 1)));
        i += 1;
    }
    assert(ps@.take(ps.len() as int) =~= ps@);
}

/// Layout of `Expr::pp`.
#[derive(Debug, Clone, Copy, PartialEq, Eq)]
pub enum PrettyPrintStyle {
    SingleLine,
    Indented,
}

impl Expr {
    /// Rendering in the given layout, followed by a newline; foreign calls are
    /// written `name(args)` and nested lets are not flattened.
    pub fn pp(&self, style: PrettyPrintStyle) -> (r: String)
        requires
            2 * size(*self) <= usize::MAX,
        ensures
            r@ == (match style {
                PrettyPrintStyle::SingleLine => inner_text(*self, false, true),
                PrettyPrintStyle::Indented => indent_rendering(*self, 0, true),
            }) + "\n"@,
    {
        let mut out = String::new();
        match style {
            PrettyPrintStyle::SingleLine => self.pp_inner(&mut out, false, true),
            PrettyPrintStyle::Indented => self.pp_with_indent(&mut out, 0, true),
        }
        out.append("\n");
        out
    }

    /// Single-line rendering, followed by a newline.
    pub fn print(&self) -> (r: String)
        ensures
            r@ == inner_text(*self, false, false) + "\n"@,
    {
        let mut out = String::new();
        self.pp_inner(&mut out, false, false);
        out.append("\n");
        assert(out@ =~= inner_text(*self, false, false) + "\n"@);
        out
    }

    /// Indented rendering, followed by a newline.
    pub fn pretty_print(&self) -> (r: String)
        requires
            2 * size(*self) <= usize::MAX,
        ensures
            r@ == indent_rendering(*self, 0, false) + "\n"@,
    {
        let mut out = String::new();
        self.pp_with_indent(&mut out, 0, false);
        out.append("\n");
        assert(out@ =~= indent_rendering(*self, 0, false) + "\n"@);
        out
    }

    #[verifier::rlimit(40)]
    fn pp_inner(&self, out: &mut String, parens: bool, plain: bool)
        ensures
            final(out)@ == old(out)@ + inner_text(*self, parens, plain),
        decreases self, 1nat,
    {
        let lam_or_app = match self {
            Expr::Lam { .. } | Expr::App(_, _) => true,
            _ => false,
        };
        let needs_parens = parens && lam_or_app;
        let ghost start = out@;
        if needs_parens {
            out.append("(");
        }
        let ghost mid = out@;
        match self {
            Expr::Lit(l) => push_lit(out, l),
            Expr::Var(name) => out.append(name.as_str()),
            Expr::Lam { param, body } => {
                out.append("λ");
                out.append(param.as_str());
                out.append(".");
                body.pp_inner(out, false, plain);
            },
            Expr::App(f, x) => {
                f.pp_inner(out, true, plain);
                out.append(" ");
                x.pp_inner(out, true, plain);
            },
            Expr::Let { name, value, body } => {
                out.append("let ");
                out.append(name.as_str());
                out.append(" = ");
                value.pp_inner(out, false, plain);
                out.append(" in ");
                body.pp_inner(out, false, plain);
            },
            Expr::If { cond, then_, else_ } => {
                out.append("if ");
                cond.pp_inner(out, false, plain);
                out.append(" then ");
                then_.pp_inner(out, false, plain);
                out.append(" else ");
                else_.pp_inner(out, false, plain);
            },
            Expr::Match { scrutinee, arms } => {
                out.append("match ");
                scrutinee.pp_inner(out, false, plain);
                out.append(" with ");
                push_arms_inner(out, arms, plain);
            },
            Expr::Con { tag, fields } => {
                out.append(tag.as_str());
                if fields.len() > 0 {
                    out.append("(");
                    push_list_inner(out, fields, plain);
                    out.append(")");
                }
            },
            Expr::Foreign { name, args } => {
                if plain {
                    out.append(name.as_str());
                    out.append("(");
                    push_list_inner(out, args, plain);
                    out.append(")");
                } else if args.len() == 0 {
                    out.append("foreign(");
                    out.append(name.as_str());
                    out.append(")");
                } else {
                    out.append("foreign(");
                    out.append(name.as_str());
                    out.append(";");
                    push_args_inner(out, args, plain);
                    out.append(")");
                }
            },
        }
        let ghost core = out@.subrange(mid.len() as int, out@.len() as int);
        assert(out@ =~= mid + core);
        if needs_parens {
            out.append(")");
        }
        proof {
            let c = inner_core(*self, plain);
            assert(core =~= c);
            if needs_parens {
                assert(out@ =~= start + ("("@ + c + ")"@));
            } else {
                assert(out@ =~= start + c);
            }
        }
    }

    fn pp_with_indent(&self, out: &mut String, indent: usize, plain: bool)
        requires
            indent + 2 * size(*self) <= usize::MAX,
        ensures
            final(out)@ == old(out)@ + indent_rendering(*self, indent as nat, plain),
        decreases self, 1nat,
    {
        let ghost start = out@;
        match self {
            Expr::Lit(l) => push_lit(out, l),
            Expr::Var(name) => out.append(name.as_str()),
            Expr::Let { .. } => push_let_indent(out, self, indent, plain),
            Expr::Lam { param, body } => {
                out.append("λ");
                out.append(param.as_str());
                out.append(" =>\n");
                push_indent(out, indent + 1);
                body.pp_with_indent(out, indent + 1, plain);
                assert(out@ =~= start + indent_rendering(*self, indent as nat, plain));
            },
            Expr::App(f, arg) => {
                out.append("(");
                f.pp_with_indent(out, indent, plain);
                out.append(" ");
                arg.pp_with_indent(out, indent, plain);
                out.append(")");
                assert(out@ =~= start + indent_rendering(*self, indent as nat, plain));
            },
            Expr::If { .. } => push_if_indent(out, self, indent, plain),
            Expr::Match { scrutinee, arms } => {
                out.append("match ");
                scrutinee.pp_with_indent(out, indent, plain);
                push_arms_indent(out, arms, indent, plain);
                assert(out@ =~= start + indent_rendering(*self, indent as nat, plain));
            },
            Expr::Con { tag, fields } => {
                out.append(tag.as_str());
                out.append("(");
                push_list_indent(out, fields, indent, plain);
                out.append(")");
                assert(out@ =~= start + indent_rendering(*self, indent as nat, plain));
            },
            Expr::Foreign { name, args } => {
                if plain {
                    out.append(name.as_str());
                    out.append("(");
                    push_list_indent(out, args, indent, plain);
                    out.append(")");
                } else if args.len() == 0 {
                    out.append("foreign(");
                    out.append(name.as_str());
                    out.append(")");
                } else {
                    out.append("foreign(");
                    out.append(name.as_str());
                    out.append(";");
                    push_args_indent(out, args, indent, plain);
                    out.append(")");
                }
                assert(out@ =~= start + indent_rendering(*self, indent as nat, plain));
            },
        }
    }
}

fn push_let_indent(out: &mut String, e: &Expr, indent: usize, plain: bool)
    requires
        e is Let,
        indent + 2 * size(*e) <= usize::MAX,
    ensures
        final(out)@ == old(out)@ + indent_rendering(*e, indent as nat, plain),
    decreases e, 0nat,
{
    let ghost start = out@;
    match e {
        Expr::Let { name, value, body } => {
            out.append("let ");
            out.append(name.as_str());
            if plain {
                out.append(" =\n");
                push_indent(out, indent + 1);
                value.pp_with_indent(out, indent + 1, plain);
                out.append("\n");
                push_indent(out, indent);
                out.append("in\n");
                push_indent(out, indent + 1);
                body.pp_with_indent(out, indent + 1, plain);
            } else {
                out.append(" = ");
                push_indent(out, indent + 1);
                value.pp_with_indent(out, indent + 1, plain);
                out.append("\n");
                push_indent(out, indent);
                push_let_chain(out, body, indent, plain);
            }
            assert(out@ =~= start + indent_rendering(*e, indent as nat, plain));
        },
        _ => {},
    }
}

fn push_if_indent(out: &mut String, e: &Expr, indent: usize, plain: bool)
    requires
        e is If,
        indent + 2 * size(*e) <= usize::MAX,
    ensures
        final(out)@ == old(out)@ + indent_rendering(*e, indent as nat, plain),
    decreases e, 0nat,
{
    let ghost start = out@;
    match e {
        Expr::If { cond, then_, else_ } => {
            out.append("if ");
            cond.pp_with_indent(out, indent, plain);
            out.append("\n");
            push_indent(out, indent);
            out.append("then ");
            then_.pp_with_indent(out, indent, plain);
            out.append("\n");
            push_indent(out, indent);
            out.append("else ");
            else_.pp_with_indent(out, indent, plain);
            assert(out@ =~= start + indent_rendering(*e, indent as nat, plain));
        },
        _ => {},
    }
}

/// Flatten nested lets: further lets of the chain, then `in` and the body.
fn push_let_chain(out: &mut String, cur: &Expr, indent: usize, plain: bool)
    requires
        indent + 1 + 2 * size(*cur) <= usize::MAX,
    ensures
        final(out)@ == old(out)@ + let_chain(*cur, indent as nat, plain),
    decreases cur, 2nat,
{
    let ghost start = out@;
    match cur {
        Expr::Let { name, value, body } => {
            out.append("let ");
            out.append(name.as_str());
            out.append(" = ");
            push_indent(out, indent + 1);
            value.pp_with_indent(out, indent + 1, plain);
            out.append("\n");
            push_indent(out, indent);
            push_let_chain(out, body, indent, plain);
            assert(out@ =~= start + let_chain(*cur, indent as nat, plain));
        },
        _ => {
            out.append("in\n");
            push_indent(out, indent + 1);
            cur.pp_with_indent(out, indent + 1, plain);
            assert(out@ =~= start + let_chain(*cur, indent as nat, plain));
        },
    }
}

fn push_list_inner(out: &mut String, es: &Vec<Expr>, plain: bool)
    ensures
        final(out)@ == old(out)@ + list_inner_text(es@, plain),
    decreases es, 0nat,
{
    let ghost start = out@;
    let mut i: usize = 0;
    assert(start + list_inner_text(es@.take(0), plain) =~= start);
    while i < es.len()
        invariant
            0 <= i <= es.len(),
            out@ == start + list_inner_text(es@.take(i as int), plain),
        decreases es.len() - i,
    {
        assert(es@.take(i + 1).drop_last() =~= es@.take(i as int));
        if i > 0 {
            out.append(", ");
        }
        es[i].pp_inner(out, false, plain);
        assert(out@ =~= start + list_inner_text(es@.take(i + 1), plain));
        i += 1;
    }
    assert(es@.take(es.len() as int) =~= es@);
}

fn push_args_inner(out: &mut String, es: &Vec<Expr>, plain: bool)
    ensures
        final(out)@ == old(out)@ + args_inner_text(es@, plain),
    decreases es, 0nat,
{
    let ghost start = out@;
    let mut i: usize = 0;
    assert(start + args_inner_text(es@.take(0), plain) =~= start);
    while i < es.len()
        invariant
            0 <= i <= es.len(),
            out@ == start + args_inner_text(es@.take(i as int), plain),
        decreases es.len() - i,
    {
        assert(es@.take(i + 1).drop_last() =~= es@.take(i as int));
        if i > 0 {
            out.append(",");
        }
        out.append(" ");
        es[i].pp_inner(out, false, plain);
        assert(out@ =~= start + args_inner_text(es@.take(i + 1), plain));
        i += 1;
    }
    assert(es@.take(es.len() as int) =~= es@);
}

fn push_arms_inner(out: &mut String, arms: &Vec<MatchArm>, plain: bool)
    ensures
        final(out)@ == old(out)@ + arms_inner_text(arms@, plain),
    decreases arms, 0nat,
{
    let ghost start = out@;
    let mut i: usize = 0;
    assert(start + arms_inner_text(arms@.take(0), plain) =~= start);
    while i < arms.len()
        invariant
            0 <= i <= arms.len(),
            out@ == start + arms_inner_text(arms@.take(i as int), plain),
        decreases arms.len() - i,
    {
        assert(arms@.take(i + 1).drop_last() =~= arms@.take(i as int));
        if i > 0 {
            out.append(" | ");
        }
        arms[i].pat.pretty_print(out);
        out.append(" -> ");
        arms[i].body.pp_inner(out, false, plain);
        assert(out@ =~= start + arms_inner_text(arms@.take(i + 1), plain));
        i += 1;
    }
    assert(arms@.take(arms.len() as int) =~= arms@);
}

fn push_list_indent(out: &mut String, es: &Vec<Expr>, indent: usize, plain: bool)
    requires
        indent + 2 * size_list(es@) <= usize::MAX,
    ensures
        final(out)@ == old(out)@ + list_indent_rendering(es@, indent as nat, plain),
    decreases es, 0nat,
{
    let ghost start = out@;
    let mut i: usize = 0;
    assert(start + list_indent_rendering(es@.take(0), indent as nat, plain) =~= start);
    while i < es.len()
        invariant
            0 <= i <= es.len(),
            indent + 2 * size_list(es@) <= usize::MAX,
            out@ == start + list_indent_rendering(es@.take(i as int), indent as nat, plain),
        decreases es.len() - i,
    {
        assert(es@.take(i + 1).drop_last() =~= es@.take(i as int));
        proof {
            lemma_size_list_elem(es@, i as int);
        }
        if i > 0 {
            out.append(", ");
        }
        es[i].pp_with_indent(out, indent, plain);
        assert(out@ =~= start + list_indent_rendering(es@.take(i + 1), indent as nat, plain));
        i += 1;
    }
    assert(es@.take(es.len() as int) =~= es@);
}

fn push_args_indent(out: &mut String, es: &Vec<Expr>, indent: usize, plain: bool)
    requires
        indent + 2 * size_list(es@) <= usize::MAX,
    ensures
        final(out)@ == old(out)@ + args_indent_rendering(es@, indent as nat, plain),
    decreases es, 0nat,
{
    let ghost start = out@;
    let mut i: usize = 0;
    assert(start + args_indent_rendering(es@.take(0), indent as nat, plain) =~= start);
    while i < es.len()
        invariant
            0 <= i <= es.len(),
            indent + 2 * size_list(es@) <= usize::MAX,
            out@ == start + args_indent_rendering(es@.take(i as int), indent as nat, plain),
        decreases es.len() - i,
    {
        assert(es@.take(i + 1).drop_last() =~= es@.take(i as int));
        proof {
            lemma_size_list_elem(es@, i as int);
        }
        if i > 0 {
            out.append(",");
        }
        out.append(" ");
        es[i].pp_with_indent(out, indent, plain);
        assert(out@ =~= start + args_indent_rendering(es@.take(i + 1), indent as nat, plain));
        i += 1;
    }
    assert(es@.take(es.len() as int) =~= es@);
}

fn push_arms_indent(out: &mut String, arms: &Vec<MatchArm>, indent: usize, plain: bool)
    requires
        indent + 2 + 2 * size_arms(arms@) <= usize::MAX,
    ensures
        final(out)@ == old(out)@ + arms_indent_rendering(arms@, indent as nat, plain),
    decreases arms, 0nat,
{
    let ghost start = out@;
    let mut i: usize = 0;
    assert(start + arms_indent_rendering(arms@.take(0), indent as nat, plain) =~= start);
    while i < arms.len()
        invariant
            0 <= i <= arms.len(),
            indent + 2 + 2 * size_arms(arms@) <= usize::MAX,
            out@ == start + arms_indent_rendering(arms@.take(i as int), indent as nat, plain),
        decreases arms.len() - i,
    {
        assert(arms@.take(i + 1).drop_last() =~= arms@.take(i as int));
        proof {
            lemma_size_arms_elem(arms@, i as int);
        }
        out.append("\n");
        push_indent(out, indent + 1);
        out.append("| ");
        arms[i].pat.pretty_print(out);
        out.append(" =>\n");
        push_indent(out, indent + 2);
        arms[i].body.pp_with_indent(out, indent + 2, plain);
        assert(out@ =~= start + arms_indent_rendering(arms@.take(i + 1), indent as nat, plain));
        i += 1;
    }
    assert(arms@.take(arms.len() as int) =~= arms@);
}

} // verus!
