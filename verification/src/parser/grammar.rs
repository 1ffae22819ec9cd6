//! The parser: recursive descent over tokens, one token of lookahead.
//!
//! Every alternative of the grammar starts with its own set of tokens, and no
//! token that may follow an expression (or a pattern) can start an atom, an
//! argument list or an arm; so the parser commits to the alternative that its
//! next token selects.  A result is the value read and the position after it,
//! or the position of the token where reading failed (the length of the token
//! sequence for its end).
use vstd::prelude::*;

use super::{TokV, Token};
use crate::ast::{
    arm_vs, expr_vs, lemma_expr_v_children, lemma_pat_v_children, pat_vs, ArmV, Expr, ExprV, Lit,
    LitV, MatchArm, PatV, Pattern,
};

verus! {

// ── Token classes ────────────────────────────────────────────────────────────

pub open spec fn starts_atom(t: TokV) -> bool {
    t is Int || t is LParen || t is Foreign || t is Upper || t is Lower
}

pub open spec fn starts_expr(t: TokV) -> bool {
    t is Let || t is Backslash || t is If || t is Match || starts_atom(t)
}

pub open spec fn starts_pat(t: TokV) -> bool {
    t is Underscore || t is Int || t is Upper || t is Lower
}

/// A name token: lower or upper case.
pub open spec fn is_name(t: TokV) -> bool {
    t is Lower || t is Upper
}

pub open spec fn name_of(t: TokV) -> Seq<char> {
    match t {
        TokV::Lower(s) => s,
        TokV::Upper(s) => s,
        _ => Seq::empty(),
    }
}

/// `ts[i]` exists and is `t`.
pub open spec fn at(ts: Seq<TokV>, i: nat, t: TokV) -> bool {
    i < ts.len() && ts[i as int] == t
}

// ── Patterns ─────────────────────────────────────────────────────────────────

/// `pattern ::= "_" | INT | UPPER [ "(" patterns ")" ] | LOWER`
pub open spec fn p_pat(ts: Seq<TokV>, i: nat) -> Result<(PatV, nat), nat>
    decreases ts.len() - i, 1nat,
{
    if i >= ts.len() {
        Err(i)
    } else {
        match ts[i as int] {
            TokV::Underscore => Ok((PatV::Wildcard, i + 1)),
            TokV::Int(n) => Ok((PatV::Lit(LitV::Int(n)), i + 1)),
            TokV::Upper(tag) => if at(ts, i + 1, TokV::LParen) {
                match p_pats(ts, i + 2) {
                    Ok((fs, j)) => if at(ts, j, TokV::RParen) {
                        Ok((PatV::Con { tag, fields: fs }, j + 1))
                    } else {
                        Err(j)
                    },
                    Err(e) => Err(e),
                }
            } else {
                Ok((PatV::Con { tag, fields: Seq::empty() }, i + 1))
            },
            TokV::Lower(x) => Ok((PatV::Var(x), i + 1)),
            _ => Err(i),
        }
    }
}

/// `patterns ::= [ pattern { "," pattern } [ "," ] ]`
pub open spec fn p_pats(ts: Seq<TokV>, i: nat) -> Result<(Seq<PatV>, nat), nat>
    decreases ts.len() - i, 2nat,
{
    if i < ts.len() && starts_pat(ts[i as int]) {
        match p_pat(ts, i) {
            Ok((p, j)) => if i < j <= ts.len() {
                p_pats_more(ts, j, seq![p])
            } else {
                Err(j)
            },
            Err(e) => Err(e),
        }
    } else {
        Ok((Seq::empty(), i))
    }
}

/// After the patterns `acc`: more behind commas, and an optional trailing comma.
pub open spec fn p_pats_more(ts: Seq<TokV>, i: nat, acc: Seq<PatV>) -> Result<(Seq<PatV>, nat), nat>
    decreases ts.len() - i, 2nat,
{
    if at(ts, i, TokV::Comma) {
        if i + 1 < ts.len() && starts_pat(ts[i + 1 as int]) {
            match p_pat(ts, i + 1) {
                Ok((p, j)) => if i < j <= ts.len() {
                    p_pats_more(ts, j, acc.push(p))
                } else {
                    Err(j)
                },
                Err(e) => Err(e),
            }
        } else {
            Ok((acc, i + 1))
        }
    } else {
        Ok((acc, i))
    }
}

// ── Expressions ──────────────────────────────────────────────────────────────

/// `expr ::= let | lam | if | match | app`, chosen by the first token.
pub open spec fn p_expr(ts: Seq<TokV>, i: nat) -> Result<(ExprV, nat), nat>
    decreases ts.len() - i, 5nat,
{
    if i >= ts.len() {
        Err(i)
    } else {
        match ts[i as int] {
            TokV::Let => p_let(ts, i),
            TokV::Backslash => p_lam(ts, i),
            TokV::If => p_if(ts, i),
            TokV::Match => p_match(ts, i),
            _ => p_app(ts, i),
        }
    }
}

/// `"let" LOWER "=" expr "in" expr`, from the `let` at `i`.
pub open spec fn p_let(ts: Seq<TokV>, i: nat) -> Result<(ExprV, nat), nat>
    decreases ts.len() - i, 4nat,
{
    if i + 1 < ts.len() && ts[i + 1 as int] is Lower {
        let name = ts[i + 1 as int]->Lower_0;
        if at(ts, i + 2, TokV::Equals) {
            match p_expr(ts, i + 3) {
                Ok((v, j)) => if i < j && at(ts, j, TokV::In) {
                    match p_expr(ts, j + 1) {
                        Ok((b, k)) => Ok((ExprV::Let { name, value: Box::new(v), body: Box::new(b) }, k)),
                        Err(e) => Err(e),
                    }
                } else {
                    Err(j)
                },
                Err(e) => Err(e),
            }
        } else {
            Err(i + 2)
        }
    } else {
        Err(i + 1)
    }
}

/// `"\" LOWER "->" expr`, from the backslash at `i`.
pub open spec fn p_lam(ts: Seq<TokV>, i: nat) -> Result<(ExprV, nat), nat>
    decreases ts.len() - i, 4nat,
{
    if i + 1 < ts.len() && ts[i + 1 as int] is Lower {
        let param = ts[i + 1 as int]->Lower_0;
        if at(ts, i + 2, TokV::Arrow) {
            match p_expr(ts, i + 3) {
                Ok((b, j)) => Ok((ExprV::Lam { param, body: Box::new(b) }, j)),
                Err(e) => Err(e),
            }
        } else {
            Err(i + 2)
        }
    } else {
        Err(i + 1)
    }
}

/// `"if" expr "then" expr "else" expr`, from the `if` at `i`.
pub open spec fn p_if(ts: Seq<TokV>, i: nat) -> Result<(ExprV, nat), nat>
    decreases ts.len() - i, 4nat,
{
    if i >= ts.len() {
        Err(i)
    } else {
    match p_expr(ts, i + 1) {
        Ok((c, j)) => if i < j && at(ts, j, TokV::Then) {
            match p_expr(ts, j + 1) {
                Ok((t, k)) => if j < k && at(ts, k, TokV::Else) {
                    match p_expr(ts, k + 1) {
                        Ok((e, m)) => Ok((
                            ExprV::If { cond: Box::new(c), then_: Box::new(t), else_: Box::new(e) },
                            m,
                        )),
                        Err(x) => Err(x),
                    }
                } else {
                    Err(k)
                },
                Err(x) => Err(x),
            }
        } else {
            Err(j)
        },
        Err(x) => Err(x),
    }
    }
}

/// `"match" expr "{" arm* "}"`, from the `match` at `i`.
pub open spec fn p_match(ts: Seq<TokV>, i: nat) -> Result<(ExprV, nat), nat>
    decreases ts.len() - i, 4nat,
{
    if i >= ts.len() {
        Err(i)
    } else {
    match p_expr(ts, i + 1) {
        Ok((s, j)) => if i < j && at(ts, j, TokV::LBrace) {
            match p_arms(ts, j + 1, Seq::empty()) {
                Ok((arms, k)) => if at(ts, k, TokV::RBrace) {
                    Ok((ExprV::Match { scrutinee: Box::new(s), arms }, k + 1))
                } else {
                    Err(k)
                },
                Err(x) => Err(x),
            }
        } else {
            Err(j)
        },
        Err(x) => Err(x),
    }
    }
}

/// After the arms `acc`: more arms, each starting with `|`.
pub open spec fn p_arms(ts: Seq<TokV>, i: nat, acc: Seq<ArmV>) -> Result<(Seq<ArmV>, nat), nat>
    decreases ts.len() - i, 2nat,
{
    if at(ts, i, TokV::Pipe) {
        match p_arm(ts, i) {
            Ok((a, j)) => if i < j <= ts.len() {
                p_arms(ts, j, acc.push(a))
            } else {
                Err(j)
            },
            Err(x) => Err(x),
        }
    } else {
        Ok((acc, i))
    }
}

/// `"|" pattern "=>" expr`, from the `|` at `i`.
pub open spec fn p_arm(ts: Seq<TokV>, i: nat) -> Result<(ArmV, nat), nat>
    decreases ts.len() - i, 1nat,
{
    match p_pat(ts, i + 1) {
        Ok((p, j)) => if i < j && at(ts, j, TokV::FatArrow) {
            match p_expr(ts, j + 1) {
                Ok((b, k)) => Ok((ArmV { pat: p, body: b }, k)),
                Err(x) => Err(x),
            }
        } else {
            Err(j)
        },
        Err(x) => Err(x),
    }
}

/// `atom atom*`, applied from the left.
pub open spec fn p_app(ts: Seq<TokV>, i: nat) -> Result<(ExprV, nat), nat>
    decreases ts.len() - i, 4nat,
{
    match p_atom(ts, i) {
        Ok((f, j)) => if i < j <= ts.len() {
            p_app_rest(ts, j, f)
        } else {
            Err(j)
        },
        Err(x) => Err(x),
    }
}

/// After the application `acc`: every further atom is applied to it.
pub open spec fn p_app_rest(ts: Seq<TokV>, i: nat, acc: ExprV) -> Result<(ExprV, nat), nat>
    decreases ts.len() - i, 3nat,
{
    if i < ts.len() && starts_atom(ts[i as int]) {
        match p_atom(ts, i) {
            Ok((x, j)) => if i < j <= ts.len() {
                p_app_rest(ts, j, ExprV::App(Box::new(acc), Box::new(x)))
            } else {
                Err(j)
            },
            Err(e) => Err(e),
        }
    } else {
        Ok((acc, i))
    }
}

/// `atom ::= INT | "(" ")" | "(" expr ")" | UPPER [ "(" exprs ")" ] | LOWER
///         | "foreign" "(" NAME ";" exprs ")" | "foreign" STR "(" exprs ")"`
pub open spec fn p_atom(ts: Seq<TokV>, i: nat) -> Result<(ExprV, nat), nat>
    decreases ts.len() - i, 2nat,
{
    if i >= ts.len() {
        Err(i)
    } else {
        match ts[i as int] {
            TokV::Int(n) => Ok((ExprV::Lit(LitV::Int(n)), i + 1)),
            TokV::LParen => if at(ts, i + 1, TokV::RParen) {
                Ok((ExprV::Lit(LitV::Unit), i + 2))
            } else {
                match p_expr(ts, i + 1) {
                    Ok((e, j)) => if at(ts, j, TokV::RParen) {
                        Ok((e, j + 1))
                    } else {
                        Err(j)
                    },
                    Err(x) => Err(x),
                }
            },
            TokV::Foreign => if at(ts, i + 1, TokV::LParen) {
                if i + 2 < ts.len() && is_name(ts[i + 2 as int]) {
                    let name = name_of(ts[i + 2 as int]);
                    if at(ts, i + 3, TokV::Semicolon) {
                        match p_exprs(ts, i + 4) {
                            Ok((args, j)) => if at(ts, j, TokV::RParen) {
                                Ok((ExprV::Foreign { name, args }, j + 1))
                            } else {
                                Err(j)
                            },
                            Err(x) => Err(x),
                        }
                    } else {
                        Err(i + 3)
                    }
                } else {
                    Err(i + 2)
                }
            } else if i + 1 < ts.len() && ts[i + 1 as int] is Str {
                let name = ts[i + 1 as int]->Str_0;
                if at(ts, i + 2, TokV::LParen) {
                    match p_exprs(ts, i + 3) {
                        Ok((args, j)) => if at(ts, j, TokV::RParen) {
                            Ok((ExprV::Foreign { name, args }, j + 1))
                        } else {
                            Err(j)
                        },
                        Err(x) => Err(x),
                    }
                } else {
                    Err(i + 2)
                }
            } else {
                Err(i + 1)
            },
            TokV::Upper(tag) => if at(ts, i + 1, TokV::LParen) {
                match p_exprs(ts, i + 2) {
                    Ok((fs, j)) => if at(ts, j, TokV::RParen) {
                        Ok((ExprV::Con { tag, fields: fs }, j + 1))
                    } else {
                        Err(j)
                    },
                    Err(x) => Err(x),
                }
            } else {
                Ok((ExprV::Con { tag, fields: Seq::empty() }, i + 1))
            },
            TokV::Lower(x) => Ok((ExprV::Var(x), i + 1)),
            _ => Err(i),
        }
    }
}

/// `exprs ::= [ expr { "," expr } [ "," ] ]`
pub open spec fn p_exprs(ts: Seq<TokV>, i: nat) -> Result<(Seq<ExprV>, nat), nat>
    decreases ts.len() - i, 6nat,
{
    if i < ts.len() && starts_expr(ts[i as int]) {
        match p_expr(ts, i) {
            Ok((e, j)) => if i < j <= ts.len() {
                p_exprs_more(ts, j, seq![e])
            } else {
                Err(j)
            },
            Err(x) => Err(x),
        }
    } else {
        Ok((Seq::empty(), i))
    }
}

/// After the expressions `acc`: more behind commas, and an optional trailing
/// comma.
pub open spec fn p_exprs_more(ts: Seq<TokV>, i: nat, acc: Seq<ExprV>) -> Result<(Seq<ExprV>, nat), nat>
    decreases ts.len() - i, 6nat,
{
    if at(ts, i, TokV::Comma) {
        if i + 1 < ts.len() && starts_expr(ts[i + 1 as int]) {
            match p_expr(ts, i + 1) {
                Ok((e, j)) => if i < j <= ts.len() {
                    p_exprs_more(ts, j, acc.push(e))
                } else {
                    Err(j)
                },
                Err(x) => Err(x),
            }
        } else {
            Ok((acc, i + 1))
        }
    } else {
        Ok((acc, i))
    }
}

/// A whole token sequence as one expression: the expression, or the position
/// of the first token that could not be read (its length for the end).
pub open spec fn parse_tokens(ts: Seq<TokV>) -> Result<ExprV, nat> {
    match p_expr(ts, 0) {
        Ok((e, j)) => if j == ts.len() {
            Ok(e)
        } else {
            Err(j)
        },
        Err(x) => Err(x),
    }
}

// ── Every read moves forward ─────────────────────────────────────────────────

/// `r` read something, ending after `i` and inside the tokens.
pub open spec fn moved<T>(r: Result<(T, nat), nat>, i: nat, len: nat) -> bool {
    r matches Ok((_, j)) ==> i < j <= len
}

/// `r` ended at or after `i`, inside the tokens.
pub open spec fn stayed<T>(r: Result<(T, nat), nat>, i: nat, len: nat) -> bool {
    r matches Ok((_, j)) ==> i <= j <= len
}

pub proof fn lemma_pat(ts: Seq<TokV>, i: nat)
    ensures
        moved(p_pat(ts, i), i, ts.len()),
    decreases ts.len() - i, 1nat,
{
    if i < ts.len() && ts[i as int] is Upper && at(ts, i + 1, TokV::LParen) {
        lemma_pats(ts, i + 2);
    }
}

pub proof fn lemma_pats(ts: Seq<TokV>, i: nat)
    ensures
        i <= ts.len() ==> stayed(p_pats(ts, i), i, ts.len()),
    decreases ts.len() - i, 2nat,
{
    if i < ts.len() && starts_pat(ts[i as int]) {
        lemma_pat(ts, i);
        if let Ok((p, j)) = p_pat(ts, i) {
            lemma_pats_more(ts, j, seq![p]);
        }
    }
}

pub proof fn lemma_pats_more(ts: Seq<TokV>, i: nat, acc: Seq<PatV>)
    ensures
        i <= ts.len() ==> stayed(p_pats_more(ts, i, acc), i, ts.len()),
    decreases ts.len() - i, 2nat,
{
    if at(ts, i, TokV::Comma) && i + 1 < ts.len() && starts_pat(ts[i + 1 as int]) {
        lemma_pat(ts, i + 1);
        if let Ok((p, j)) = p_pat(ts, i + 1) {
            lemma_pats_more(ts, j, acc.push(p));
        }
    }
}

pub proof fn lemma_expr(ts: Seq<TokV>, i: nat)
    ensures
        moved(p_expr(ts, i), i, ts.len()),
    decreases ts.len() - i, 5nat,
{
    if i < ts.len() {
        match ts[i as int] {
            TokV::Let => lemma_let(ts, i),
            TokV::Backslash => lemma_lam(ts, i),
            TokV::If => lemma_if(ts, i),
            TokV::Match => lemma_match(ts, i),
            _ => lemma_app(ts, i),
        }
    }
}

pub proof fn lemma_let(ts: Seq<TokV>, i: nat)
    ensures
        moved(p_let(ts, i), i, ts.len()),
    decreases ts.len() - i, 4nat,
{
    if i + 1 < ts.len() && ts[i + 1 as int] is Lower && at(ts, i + 2, TokV::Equals) {
        lemma_expr(ts, i + 3);
        if let Ok((v, j)) = p_expr(ts, i + 3) {
            if i < j && at(ts, j, TokV::In) {
                lemma_expr(ts, j + 1);
            }
        }
    }
}

pub proof fn lemma_lam(ts: Seq<TokV>, i: nat)
    ensures
        moved(p_lam(ts, i), i, ts.len()),
    decreases ts.len() - i, 4nat,
{
    if i + 1 < ts.len() && ts[i + 1 as int] is Lower && at(ts, i + 2, TokV::Arrow) {
        lemma_expr(ts, i + 3);
    }
}

pub proof fn lemma_if(ts: Seq<TokV>, i: nat)
    ensures
        moved(p_if(ts, i), i, ts.len()),
    decreases ts.len() - i, 4nat,
{
    if i < ts.len() {
        lemma_expr(ts, i + 1);
        if let Ok((c, j)) = p_expr(ts, i + 1) {
            if i < j && at(ts, j, TokV::Then) {
                lemma_expr(ts, j + 1);
                if let Ok((t, k)) = p_expr(ts, j + 1) {
                    if j < k && at(ts, k, TokV::Else) {
                        lemma_expr(ts, k + 1);
                    }
                }
            }
        }
    }
}

pub proof fn lemma_match(ts: Seq<TokV>, i: nat)
    ensures
        moved(p_match(ts, i), i, ts.len()),
    decreases ts.len() - i, 4nat,
{
    if i < ts.len() {
        lemma_expr(ts, i + 1);
        if let Ok((s, j)) = p_expr(ts, i + 1) {
            if i < j && at(ts, j, TokV::LBrace) {
                lemma_arms(ts, j + 1, Seq::empty());
            }
        }
    }
}

pub proof fn lemma_arms(ts: Seq<TokV>, i: nat, acc: Seq<ArmV>)
    ensures
        i <= ts.len() ==> stayed(p_arms(ts, i, acc), i, ts.len()),
    decreases ts.len() - i, 2nat,
{
    if at(ts, i, TokV::Pipe) {
        lemma_arm(ts, i);
        if let Ok((a, j)) = p_arm(ts, i) {
            if i < j <= ts.len() {
                lemma_arms(ts, j, acc.push(a));
            }
        }
    }
}

pub proof fn lemma_arm(ts: Seq<TokV>, i: nat)
    ensures
        moved(p_arm(ts, i), i, ts.len()),
    decreases ts.len() - i, 1nat,
{
    if let Ok((p, j)) = p_pat(ts, i + 1) {
        if i < j && at(ts, j, TokV::FatArrow) {
            lemma_expr(ts, j + 1);
        }
    }
}

pub proof fn lemma_app(ts: Seq<TokV>, i: nat)
    ensures
        moved(p_app(ts, i), i, ts.len()),
    decreases ts.len() - i, 4nat,
{
    lemma_atom(ts, i);
    if let Ok((f, j)) = p_atom(ts, i) {
        if i < j <= ts.len() {
            lemma_app_rest(ts, j, f);
        }
    }
}

pub proof fn lemma_app_rest(ts: Seq<TokV>, i: nat, acc: ExprV)
    ensures
        i <= ts.len() ==> stayed(p_app_rest(ts, i, acc), i, ts.len()),
    decreases ts.len() - i, 3nat,
{
    if i < ts.len() && starts_atom(ts[i as int]) {
        lemma_atom(ts, i);
        if let Ok((x, j)) = p_atom(ts, i) {
            if i < j <= ts.len() {
                lemma_app_rest(ts, j, ExprV::App(Box::new(acc), Box::new(x)));
            }
        }
    }
}

pub proof fn lemma_atom(ts: Seq<TokV>, i: nat)
    ensures
        moved(p_atom(ts, i), i, ts.len()),
    decreases ts.len() - i, 2nat,
{
    if i < ts.len() {
        match ts[i as int] {
            TokV::LParen => lemma_expr(ts, i + 1),
            TokV::Foreign => {
                if i + 3 <= ts.len() {
                    lemma_exprs(ts, i + 3);
                }
                if i + 4 <= ts.len() {
                    lemma_exprs(ts, i + 4);
                }
            },
            TokV::Upper(_) => if at(ts, i + 1, TokV::LParen) {
                lemma_exprs(ts, i + 2);
            },
            _ => {},
        }
    }
}

pub proof fn lemma_exprs(ts: Seq<TokV>, i: nat)
    ensures
        i <= ts.len() ==> stayed(p_exprs(ts, i), i, ts.len()),
    decreases ts.len() - i, 6nat,
{
    if i < ts.len() && starts_expr(ts[i as int]) {
        lemma_expr(ts, i);
        if let Ok((e, j)) = p_expr(ts, i) {
            lemma_exprs_more(ts, j, seq![e]);
        }
    }
}

pub proof fn lemma_exprs_more(ts: Seq<TokV>, i: nat, acc: Seq<ExprV>)
    ensures
        i <= ts.len() ==> stayed(p_exprs_more(ts, i, acc), i, ts.len()),
    decreases ts.len() - i, 6nat,
{
    if at(ts, i, TokV::Comma) && i + 1 < ts.len() && starts_expr(ts[i + 1 as int]) {
        lemma_expr(ts, i + 1);
        if let Ok((e, j)) = p_expr(ts, i + 1) {
            lemma_exprs_more(ts, j, acc.push(e));
        }
    }
}

// ── Application ──────────────────────────────────────────────────────────────

/// Every atom is an argument: wherever an atom can be read, the application
/// read so far is applied to it and reading goes on behind it.
pub proof fn lemma_every_atom_is_an_argument(ts: Seq<TokV>, i: nat, acc: ExprV)
    requires
        p_atom(ts, i) matches Ok((_, j)) && i < j <= ts.len(),
    ensures
        p_app_rest(ts, i, acc) == (match p_atom(ts, i) {
            Ok((x, j)) => p_app_rest(ts, j, ExprV::App(Box::new(acc), Box::new(x))),
            Err(e) => Err(e),
        }),
{
    assert(i < ts.len());
    assert(ts[i as int] is Int || ts[i as int] is LParen || ts[i as int] is Foreign
        || ts[i as int] is Upper || ts[i as int] is Lower);
}

/// An application ends at the end of the tokens and before any token that
/// cannot start an atom.
pub proof fn lemma_application_ends(ts: Seq<TokV>, i: nat, acc: ExprV)
    requires
        i >= ts.len() || !(ts[i as int] is Int || ts[i as int] is LParen || ts[i as int] is Foreign
            || ts[i as int] is Upper || ts[i as int] is Lower),
    ensures
        p_app_rest(ts, i, acc) == Ok::<(ExprV, nat), nat>((acc, i)),
{
}

/// The one-token atoms: an integer is a literal, a lower-case name a variable,
/// and an upper-case name not followed by `(` a constructor without fields.
pub proof fn lemma_single_token_atoms(ts: Seq<TokV>, i: nat)
    requires
        i < ts.len(),
    ensures
        ts[i as int] matches TokV::Int(n) ==> p_atom(ts, i) == Ok::<(ExprV, nat), nat>(
            (ExprV::Lit(LitV::Int(n)), i + 1),
        ),
        ts[i as int] matches TokV::Lower(x) ==> p_atom(ts, i) == Ok::<(ExprV, nat), nat>(
            (ExprV::Var(x), i + 1),
        ),
        ts[i as int] matches TokV::Upper(c) ==> !at(ts, i + 1, TokV::LParen) ==> p_atom(ts, i) == Ok::<(ExprV, nat), nat>(
            (ExprV::Con { tag: c, fields: Seq::empty() }, i + 1),
        ),
{
}

/// A name followed by a one-token atom reads as the name applied to that atom.
pub proof fn lemma_name_applied_to_atom(f: Seq<char>, t: TokV)
    requires
        t is Int || t is Upper || t is Lower,
    ensures
        t matches TokV::Int(n) ==> parse_tokens(seq![TokV::Lower(f), t]) == Ok::<ExprV, nat>(
            ExprV::App(Box::new(ExprV::Var(f)), Box::new(ExprV::Lit(LitV::Int(n)))),
        ),
        t matches TokV::Lower(y) ==> parse_tokens(seq![TokV::Lower(f), t]) == Ok::<ExprV, nat>(
            ExprV::App(Box::new(ExprV::Var(f)), Box::new(ExprV::Var(y))),
        ),
        t matches TokV::Upper(c) ==> parse_tokens(seq![TokV::Lower(f), t]) == Ok::<ExprV, nat>(
            ExprV::App(
                Box::new(ExprV::Var(f)),
                Box::new(ExprV::Con { tag: c, fields: Seq::empty() }),
            ),
        ),
{
    let ts = seq![TokV::Lower(f), t];
    let x = match t {
        TokV::Int(n) => ExprV::Lit(LitV::Int(n)),
        TokV::Lower(y) => ExprV::Var(y),
        TokV::Upper(c) => ExprV::Con { tag: c, fields: Seq::empty() },
        _ => ExprV::Var(f),
    };
    let app = ExprV::App(Box::new(ExprV::Var(f)), Box::new(x));
    assert(ts[0] == TokV::Lower(f));
    assert(ts[1] == t);
    assert(p_atom(ts, 0) == Ok::<(ExprV, nat), nat>((ExprV::Var(f), 1)));
    assert(!at(ts, 2, TokV::LParen));
    assert(p_atom(ts, 1) == Ok::<(ExprV, nat), nat>((x, 2)));
    lemma_every_atom_is_an_argument(ts, 1, ExprV::Var(f));
    lemma_application_ends(ts, 2, app);
    assert(p_app_rest(ts, 1, ExprV::Var(f)) == Ok::<(ExprV, nat), nat>((app, 2)));
    assert(p_app(ts, 0) == Ok::<(ExprV, nat), nat>((app, 2)));
    assert(p_expr(ts, 0) == Ok::<(ExprV, nat), nat>((app, 2)));
}

// ── Executable parser ────────────────────────────────────────────────────────

/// The tokens of a lexed sequence, without their spans.
pub open spec fn tok_vs(toks: Seq<(Token, core::ops::Range<usize>)>) -> Seq<TokV> {
    Seq::new(toks.len(), |k: int| toks[k].0@)
}

pub open spec fn res_expr(r: Result<(Expr, usize), usize>) -> Result<(ExprV, nat), nat> {
    match r {
        Ok((e, j)) => Ok((e@, j as nat)),
        Err(k) => Err(k as nat),
    }
}

pub open spec fn res_exprs(r: Result<(Vec<Expr>, usize), usize>) -> Result<(Seq<ExprV>, nat), nat> {
    match r {
        Ok((es, j)) => Ok((expr_vs(es@), j as nat)),
        Err(k) => Err(k as nat),
    }
}

pub open spec fn res_pat(r: Result<(Pattern, usize), usize>) -> Result<(PatV, nat), nat> {
    match r {
        Ok((p, j)) => Ok((p@, j as nat)),
        Err(k) => Err(k as nat),
    }
}

pub open spec fn res_pats(r: Result<(Vec<Pattern>, usize), usize>) -> Result<(Seq<PatV>, nat), nat> {
    match r {
        Ok((ps, j)) => Ok((pat_vs(ps@), j as nat)),
        Err(k) => Err(k as nat),
    }
}

pub open spec fn res_arm(r: Result<(MatchArm, usize), usize>) -> Result<(ArmV, nat), nat> {
    match r {
        Ok((a, j)) => Ok((a@, j as nat)),
        Err(k) => Err(k as nat),
    }
}

pub open spec fn res_arms(r: Result<(Vec<MatchArm>, usize), usize>) -> Result<(Seq<ArmV>, nat), nat> {
    match r {
        Ok((arms, j)) => Ok((arm_vs(arms@), j as nat)),
        Err(k) => Err(k as nat),
    }
}

type Toks = Vec<(Token, core::ops::Range<usize>)>;

fn starts_atom_exec(t: &Token) -> (r: bool)
    ensures
        r == starts_atom(t@),
{
    matches!(t, Token::Int(_) | Token::LParen | Token::Foreign | Token::Upper(_) | Token::Lower(_))
}

fn starts_expr_exec(t: &Token) -> (r: bool)
    ensures
        r == starts_expr(t@),
{
    matches!(t, Token::Let | Token::Backslash | Token::If | Token::Match) || starts_atom_exec(t)
}

fn starts_pat_exec(t: &Token) -> (r: bool)
    ensures
        r == starts_pat(t@),
{
    matches!(t, Token::Underscore | Token::Int(_) | Token::Upper(_) | Token::Lower(_))
}

fn parse_pat(toks: &Toks, i: usize) -> (r: Result<(Pattern, usize), usize>)
    requires
        i <= toks@.len(),
    ensures
        res_pat(r) == p_pat(tok_vs(toks@), i as nat),
    decreases toks@.len() - i, 1nat,
{
    let ghost ts = tok_vs(toks@);
    if i >= toks.len() {
        return Err(i);
    }
    match &toks[i].0 {
        Token::Underscore => Ok((Pattern::Wildcard, i + 1)),
        Token::Int(n) => Ok((Pattern::Lit(Lit::Int(*n)), i + 1)),
        Token::Upper(tag) => {
            if i + 1 < toks.len() && matches!(toks[i + 1].0, Token::LParen) {
                match parse_pats(toks, i + 2) {
                    Ok((fields, j)) => {
                        if j < toks.len() && matches!(toks[j].0, Token::RParen) {
                            let p = Pattern::Con { tag: tag.clone(), fields };
                            proof {
                                lemma_pat_v_children(p);
                            }
                            Ok((p, j + 1))
                        } else {
                            Err(j)
                        }
                    },
                    Err(e) => Err(e),
                }
            } else {
                let p = Pattern::Con { tag: tag.clone(), fields: Vec::new() };
                proof {
                    lemma_pat_v_children(p);
                    assert(pat_vs(Seq::<Pattern>::empty()) =~= Seq::<PatV>::empty());
                }
                Ok((p, i + 1))
            }
        },
        Token::Lower(x) => Ok((Pattern::Var(x.clone()), i + 1)),
        _ => Err(i),
    }
}

fn parse_pats(toks: &Toks, i: usize) -> (r: Result<(Vec<Pattern>, usize), usize>)
    requires
        i <= toks@.len(),
    ensures
        res_pats(r) == p_pats(tok_vs(toks@), i as nat),
    decreases toks@.len() - i, 2nat,
{
    let ghost ts = tok_vs(toks@);
    if !(i < toks.len() && starts_pat_exec(&toks[i].0)) {
        assert(pat_vs(Seq::<Pattern>::empty()) =~= Seq::<PatV>::empty());
        return Ok((Vec::new(), i));
    }
    proof {
        lemma_pat(ts, i as nat);
    }
    let (first, j) = match parse_pat(toks, i) {
        Ok(x) => x,
        Err(e) => return Err(e),
    };
    let mut acc: Vec<Pattern> = Vec::new();
    acc.push(first);
    let mut k = j;
    assert(pat_vs(acc@) =~= seq![first@]);
    loop
        invariant
            ts == tok_vs(toks@),
            i < k <= toks@.len(),
            p_pats(ts, i as nat) == p_pats_more(ts, k as nat, pat_vs(acc@)),
        decreases toks@.len() - k,
    {
        if k < toks.len() && matches!(toks[k].0, Token::Comma) {
            if k + 1 < toks.len() && starts_pat_exec(&toks[k + 1].0) {
                proof {
                    lemma_pat(ts, (k + 1) as nat);
                }
                match parse_pat(toks, k + 1) {
                    Ok((p, j)) => {
                        let ghost before = acc@;
                        acc.push(p);
                        assert(pat_vs(acc@) =~= pat_vs(before).push(p@));
                        k = j;
                    },
                    Err(e) => return Err(e),
                }
            } else {
                return Ok((acc, k + 1));
            }
        } else {
            return Ok((acc, k));
        }
    }
}

/// Reads one expression from position `i`.
pub(crate) fn parse_expr(toks: &Toks, i: usize) -> (r: Result<(Expr, usize), usize>)
    requires
        i <= toks@.len(),
    ensures
        res_expr(r) == p_expr(tok_vs(toks@), i as nat),
    decreases toks@.len() - i, 5nat,
{
    if i >= toks.len() {
        return Err(i);
    }
    match &toks[i].0 {
        Token::Let => parse_let(toks, i),
        Token::Backslash => parse_lam(toks, i),
        Token::If => parse_if(toks, i),
        Token::Match => parse_match(toks, i),
        _ => parse_app(toks, i),
    }
}

fn parse_let(toks: &Toks, i: usize) -> (r: Result<(Expr, usize), usize>)
    requires
        i < toks@.len(),
    ensures
        res_expr(r) == p_let(tok_vs(toks@), i as nat),
    decreases toks@.len() - i, 4nat,
{
    let n = toks.len();
    assert(i < n);
    let ghost ts = tok_vs(toks@);
    if i + 1 >= toks.len() {
        return Err(i + 1);
    }
    let name = match &toks[i + 1].0 {
        Token::Lower(x) => x.clone(),
        _ => return Err(i + 1),
    };
    if !(i + 2 < toks.len() && matches!(toks[i + 2].0, Token::Equals)) {
        return Err(i + 2);
    }
    proof {
        lemma_expr(ts, (i + 3) as nat);
    }
    let (value, j) = match parse_expr(toks, i + 3) {
        Ok(x) => x,
        Err(e) => return Err(e),
    };
    if !(j < toks.len() && matches!(toks[j].0, Token::In)) {
        return Err(j);
    }
    match parse_expr(toks, j + 1) {
        Ok((body, k)) => Ok((Expr::Let { name, value: Box::new(value), body: Box::new(body) }, k)),
        Err(e) => Err(e),
    }
}

fn parse_lam(toks: &Toks, i: usize) -> (r: Result<(Expr, usize), usize>)
    requires
        i < toks@.len(),
    ensures
        res_expr(r) == p_lam(tok_vs(toks@), i as nat),
    decreases toks@.len() - i, 4nat,
{
    let n = toks.len();
    assert(i < n);
    if i + 1 >= toks.len() {
        return Err(i + 1);
    }
    let param = match &toks[i + 1].0 {
        Token::Lower(x) => x.clone(),
        _ => return Err(i + 1),
    };
    if !(i + 2 < toks.len() && matches!(toks[i + 2].0, Token::Arrow)) {
        return Err(i + 2);
    }
    match parse_expr(toks, i + 3) {
        Ok((body, j)) => Ok((Expr::Lam { param, body: Box::new(body) }, j)),
        Err(e) => Err(e),
    }
}

fn parse_if(toks: &Toks, i: usize) -> (r: Result<(Expr, usize), usize>)
    requires
        i < toks@.len(),
    ensures
        res_expr(r) == p_if(tok_vs(toks@), i as nat),
    decreases toks@.len() - i, 4nat,
{
    let n = toks.len();
    assert(i < n);
    let ghost ts = tok_vs(toks@);
    proof {
        lemma_expr(ts, (i + 1) as nat);
    }
    let (cond, j) = match parse_expr(toks, i + 1) {
        Ok(x) => x,
        Err(e) => return Err(e),
    };
    if !(j < toks.len() && matches!(toks[j].0, Token::Then)) {
        return Err(j);
    }
    proof {
        lemma_expr(ts, (j + 1) as nat);
    }
    let (then_, k) = match parse_expr(toks, j + 1) {
        Ok(x) => x,
        Err(e) => return Err(e),
    };
    if !(k < toks.len() && matches!(toks[k].0, Token::Else)) {
        return Err(k);
    }
    match parse_expr(toks, k + 1) {
        Ok((else_, m)) => Ok((
            Expr::If { cond: Box::new(cond), then_: Box::new(then_), else_: Box::new(else_) },
            m,
        )),
        Err(e) => Err(e),
    }
}

fn parse_match(toks: &Toks, i: usize) -> (r: Result<(Expr, usize), usize>)
    requires
        i < toks@.len(),
    ensures
        res_expr(r) == p_match(tok_vs(toks@), i as nat),
    decreases toks@.len() - i, 4nat,
{
    let n = toks.len();
    assert(i < n);
    let ghost ts = tok_vs(toks@);
    proof {
        lemma_expr(ts, (i + 1) as nat);
    }
    let (scrutinee, j) = match parse_expr(toks, i + 1) {
        Ok(x) => x,
        Err(e) => return Err(e),
    };
    if !(j < toks.len() && matches!(toks[j].0, Token::LBrace)) {
        return Err(j);
    }
    proof {
        lemma_arms(ts, (j + 1) as nat, Seq::empty());
    }
    let (arms, k) = match parse_arms(toks, j + 1) {
        Ok(x) => x,
        Err(e) => return Err(e),
    };
    if !(k < toks.len() && matches!(toks[k].0, Token::RBrace)) {
        return Err(k);
    }
    let e = Expr::Match { scrutinee: Box::new(scrutinee), arms };
    proof {
        lemma_expr_v_children(e);
    }
    Ok((e, k + 1))
}

fn parse_arms(toks: &Toks, i: usize) -> (r: Result<(Vec<MatchArm>, usize), usize>)
    requires
        i <= toks@.len(),
    ensures
        res_arms(r) == p_arms(tok_vs(toks@), i as nat, Seq::empty()),
    decreases toks@.len() - i, 2nat,
{
    let ghost ts = tok_vs(toks@);
    let mut acc: Vec<MatchArm> = Vec::new();
    let mut k = i;
    assert(arm_vs(acc@) =~= Seq::<ArmV>::empty());
    loop
        invariant
            ts == tok_vs(toks@),
            i <= k <= toks@.len(),
            p_arms(ts, i as nat, Seq::empty()) == p_arms(ts, k as nat, arm_vs(acc@)),
        decreases toks@.len() - k,
    {
        if k < toks.len() && matches!(toks[k].0, Token::Pipe) {
            proof {
                lemma_arm(ts, k as nat);
            }
            match parse_arm(toks, k) {
                Ok((a, j)) => {
                    let ghost before = acc@;
                    acc.push(a);
                    assert(arm_vs(acc@) =~= arm_vs(before).push(a@));
                    k = j;
                },
                Err(e) => return Err(e),
            }
        } else {
            return Ok((acc, k));
        }
    }
}

fn parse_arm(toks: &Toks, i: usize) -> (r: Result<(MatchArm, usize), usize>)
    requires
        i < toks@.len(),
    ensures
        res_arm(r) == p_arm(tok_vs(toks@), i as nat),
    decreases toks@.len() - i, 1nat,
{
    let n = toks.len();
    assert(i < n);
    let ghost ts = tok_vs(toks@);
    let (pat, j) = match parse_pat(toks, i + 1) {
        Ok(x) => x,
        Err(e) => return Err(e),
    };
    proof {
        lemma_pat(ts, (i + 1) as nat);
    }
    if !(j < toks.len() && matches!(toks[j].0, Token::FatArrow)) {
        return Err(j);
    }
    match parse_expr(toks, j + 1) {
        Ok((body, k)) => Ok((MatchArm { pat, body }, k)),
        Err(e) => Err(e),
    }
}

fn parse_app(toks: &Toks, i: usize) -> (r: Result<(Expr, usize), usize>)
    requires
        i <= toks@.len(),
    ensures
        res_expr(r) == p_app(tok_vs(toks@), i as nat),
    decreases toks@.len() - i, 4nat,
{
    let ghost ts = tok_vs(toks@);
    proof {
        lemma_atom(ts, i as nat);
    }
    let (f, j) = match parse_atom(toks, i) {
        Ok(x) => x,
        Err(e) => return Err(e),
    };
    let mut acc = f;
    let mut k = j;
    loop
        invariant
            ts == tok_vs(toks@),
            i < k <= toks@.len(),
            p_app(ts, i as nat) == p_app_rest(ts, k as nat, acc@),
        decreases toks@.len() - k,
    {
        if k < toks.len() && starts_atom_exec(&toks[k].0) {
            proof {
                lemma_atom(ts, k as nat);
            }
            match parse_atom(toks, k) {
                Ok((x, j)) => {
                    acc = Expr::App(Box::new(acc), Box::new(x));
                    k = j;
                },
                Err(e) => return Err(e),
            }
        } else {
            return Ok((acc, k));
        }
    }
}

fn parse_atom(toks: &Toks, i: usize) -> (r: Result<(Expr, usize), usize>)
    requires
        i <= toks@.len(),
    ensures
        res_expr(r) == p_atom(tok_vs(toks@), i as nat),
    decreases toks@.len() - i, 2nat,
{
    if i >= toks.len() {
        return Err(i);
    }
    match &toks[i].0 {
        Token::Int(n) => Ok((Expr::Lit(Lit::Int(*n)), i + 1)),
        Token::LParen => {
            if i + 1 < toks.len() && matches!(toks[i + 1].0, Token::RParen) {
                return Ok((Expr::Lit(Lit::Unit), i + 2));
            }
            match parse_expr(toks, i + 1) {
                Ok((e, j)) => {
                    if j < toks.len() && matches!(toks[j].0, Token::RParen) {
                        Ok((e, j + 1))
                    } else {
                        Err(j)
                    }
                },
                Err(e) => Err(e),
            }
        },
        Token::Foreign => {
            if i + 1 < toks.len() && matches!(toks[i + 1].0, Token::LParen) {
                return parse_foreign_call(toks, i);
            }
            if i + 1 >= toks.len() {
                return Err(i + 1);
            }
            let name = match &toks[i + 1].0 {
                Token::Str(s) => s.clone(),
                _ => return Err(i + 1),
            };
            if !(i + 2 < toks.len() && matches!(toks[i + 2].0, Token::LParen)) {
                return Err(i + 2);
            }
            match parse_exprs(toks, i + 3) {
                Ok((args, j)) => {
                    if j < toks.len() && matches!(toks[j].0, Token::RParen) {
                        let e = Expr::Foreign { name, args };
                        proof {
                            lemma_expr_v_children(e);
                        }
                        Ok((e, j + 1))
                    } else {
                        Err(j)
                    }
                },
                Err(e) => Err(e),
            }
        },
        Token::Upper(tag) => {
            if i + 1 < toks.len() && matches!(toks[i + 1].0, Token::LParen) {
                match parse_exprs(toks, i + 2) {
                    Ok((fields, j)) => {
                        if j < toks.len() && matches!(toks[j].0, Token::RParen) {
                            let e = Expr::Con { tag: tag.clone(), fields };
                            proof {
                                lemma_expr_v_children(e);
                            }
                            Ok((e, j + 1))
                        } else {
                            Err(j)
                        }
                    },
                    Err(e) => Err(e),
                }
            } else {
                let e = Expr::Con { tag: tag.clone(), fields: Vec::new() };
                proof {
                    lemma_expr_v_children(e);
                    assert(expr_vs(Seq::<Expr>::empty()) =~= Seq::<ExprV>::empty());
                }
                Ok((e, i + 1))
            }
        },
        Token::Lower(x) => Ok((Expr::Var(x.clone()), i + 1)),
        _ => Err(i),
    }
}

/// `"foreign" "(" NAME ";" exprs ")"`, from the `foreign` at `i`.
fn parse_foreign_call(toks: &Toks, i: usize) -> (r: Result<(Expr, usize), usize>)
    requires
        i + 1 < toks@.len(),
        tok_vs(toks@)[i as int] is Foreign,
        tok_vs(toks@)[i + 1] is LParen,
    ensures
        res_expr(r) == p_atom(tok_vs(toks@), i as nat),
    decreases toks@.len() - i, 1nat,
{
    let n = toks.len();
    if i + 2 >= n {
        return Err(i + 2);
    }
    let name = match &toks[i + 2].0 {
        Token::Lower(x) => x.clone(),
        Token::Upper(x) => x.clone(),
        _ => return Err(i + 2),
    };
    if !(i + 3 < n && matches!(toks[i + 3].0, Token::Semicolon)) {
        return Err(i + 3);
    }
    match parse_exprs(toks, i + 4) {
        Ok((args, j)) => {
            if j < n && matches!(toks[j].0, Token::RParen) {
                let e = Expr::Foreign { name, args };
                proof {
                    lemma_expr_v_children(e);
                }
                Ok((e, j + 1))
            } else {
                Err(j)
            }
        },
        Err(e) => Err(e),
    }
}

fn parse_exprs(toks: &Toks, i: usize) -> (r: Result<(Vec<Expr>, usize), usize>)
    requires
        i <= toks@.len(),
    ensures
        res_exprs(r) == p_exprs(tok_vs(toks@), i as nat),
    decreases toks@.len() - i, 6nat,
{
    let ghost ts = tok_vs(toks@);
    if !(i < toks.len() && starts_expr_exec(&toks[i].0)) {
        assert(expr_vs(Seq::<Expr>::empty()) =~= Seq::<ExprV>::empty());
        return Ok((Vec::new(), i));
    }
    proof {
        lemma_expr(ts, i as nat);
    }
    let (first, j) = match parse_expr(toks, i) {
        Ok(x) => x,
        Err(e) => return Err(e),
    };
    let mut acc: Vec<Expr> = Vec::new();
    acc.push(first);
    let mut k = j;
    assert(expr_vs(acc@) =~= seq![first@]);
    loop
        invariant
            ts == tok_vs(toks@),
            i < k <= toks@.len(),
            p_exprs(ts, i as nat) == p_exprs_more(ts, k as nat, expr_vs(acc@)),
        decreases toks@.len() - k,
    {
        if k < toks.len() && matches!(toks[k].0, Token::Comma) {
            if k + 1 < toks.len() && starts_expr_exec(&toks[k + 1].0) {
                proof {
                    lemma_expr(ts, (k + 1) as nat);
                }
                match parse_expr(toks, k + 1) {
                    Ok((e, j)) => {
                        let ghost before = acc@;
                        acc.push(e);
                        assert(expr_vs(acc@) =~= expr_vs(before).push(e@));
                        k = j;
                    },
                    Err(e) => return Err(e),
                }
            } else {
                return Ok((acc, k + 1));
            }
        } else {
            return Ok((acc, k));
        }
    }
}

} // verus!
