//! Perceus RC-insertion pass.
//!
//! Transforms the source AST into an RC-annotated AST by inserting `Dup` and
//! `Drop` nodes at statically determined positions, and attaching reuse tokens
//! to match arms so that constructors in the arm body can recycle the
//! scrutinee's heap allocation.
//!
//! For every variable: Dup where it is shared, Drop where it dies without being
//! consumed, and ownership passes directly where a single use exists.
//!
//! "Owned" sets are ordered name sets (see `crate::names`); every set that the
//! pass iterates over is ordered by first occurrence, so the placement of the
//! inserted nodes is a function of the input.
use vstd::prelude::*;
use vstd::string::*;

use crate::ast::{
    lemma_size_arms_elem, lemma_size_list_elem, size, size_arms, size_list, Expr, MatchArm, Pattern,
};
use crate::liveness::{
    free_vars, free_vars_arm, free_vars_arms, free_vars_list, fv, fv_arm, fv_arms, fv_list,
    lemma_uc_le_size, pat_bindings, pat_bindings_ordered, pat_var_set, pat_vars, uc, use_count,
};
use crate::names::{
    contains_name, copy_names, extend_union, insert_name, intersect, intersect_names, names,
    remove, remove_all, remove_name, remove_names, union,
};
use crate::rc::{ArmTerm, Term};
use crate::rc;
use crate::text::{push_rep, rep};

verus! {

// ── Model ─────────────────────────────────────────────────────────────────────

/// Wraps `t` in one Dup (or Drop) per name of `vs`; the last name is outermost.
pub open spec fn wrap(vs: Seq<Seq<char>>, t: Term, dup: bool) -> Term
    decreases vs.len(),
{
    if vs.len() == 0 {
        t
    } else {
        let inner = wrap(vs.drop_last(), t, dup);
        if dup {
            Term::Dup { var: vs.last(), body: Box::new(inner) }
        } else {
            Term::Drop { var: vs.last(), body: Box::new(inner) }
        }
    }
}

/// Number of expressions of `es` in which `v` is free.
pub open spec fn arg_count(v: Seq<char>, es: Seq<Expr>) -> nat
    decreases es.len(),
{
    if es.len() == 0 {
        0
    } else {
        arg_count(v, es.drop_last()) + if fv(es.last()).contains(v) {
            1nat
        } else {
            0nat
        }
    }
}

/// `n` copies of `v`.
pub open spec fn repeat(v: Seq<char>, n: nat) -> Seq<Seq<char>>
    decreases n,
{
    if n == 0 {
        Seq::empty()
    } else {
        repeat(v, (n - 1) as nat).push(v)
    }
}

/// For each name of `vs`, one copy per argument beyond the first that uses it.
pub open spec fn extra_uses(vs: Seq<Seq<char>>, es: Seq<Expr>) -> Seq<Seq<char>>
    decreases vs.len(),
{
    if vs.len() == 0 {
        Seq::empty()
    } else {
        let n = arg_count(vs.last(), es);
        extra_uses(vs.drop_last(), es) + repeat(
            vs.last(),
            if n > 0 {
                (n - 1) as nat
            } else {
                0
            },
        )
    }
}

/// The Dups in front of a constructor or foreign call: an owned variable that
/// several arguments use is duplicated once per extra argument.
pub open spec fn arg_dups(es: Seq<Expr>, owned: Seq<Seq<char>>) -> Seq<Seq<char>> {
    extra_uses(intersect(fv_list(es), owned), es)
}

/// Name given to a non-variable scrutinee.
pub open spec fn scrut_name() -> Seq<char> {
    "__scrut"@
}

/// The length of the longest name of `vs`.
pub open spec fn max_len(vs: Seq<Seq<char>>) -> nat
    decreases vs.len(),
{
    if vs.len() == 0 {
        0
    } else {
        let m = max_len(vs.drop_last());
        if vs.last().len() > m {
            vs.last().len()
        } else {
            m
        }
    }
}

/// A run of underscores longer than every name of `vs`: a name with it
/// appended is not one of `vs`.
pub open spec fn fresh_suffix(vs: Seq<Seq<char>>) -> Seq<char> {
    "_"@ + rep("_"@, max_len(vs))
}

/// Name bound to a non-variable scrutinee: `__scrut`, lengthened when the
/// arms use that name themselves.
pub open spec fn scrut_temp(arms: Seq<MatchArm>) -> Seq<char> {
    if fv_arms(arms).contains(scrut_name()) {
        scrut_name() + fresh_suffix(fv_arms(arms))
    } else {
        scrut_name()
    }
}

/// Transform of an expression, given the variables owned at that point.
pub open spec fn xf(e: Expr, owned: Seq<Seq<char>>) -> Term
    decreases e, 0nat,
{
    match e {
        Expr::Lit(l) => Term::Lit(l@),
        Expr::Var(x) => Term::Var(x@),
        // The bound name is owned in the body; if it is never used there,
        // it is dropped immediately.  Owned variables needed by both the value
        // and the body are duplicated before the binding.
        Expr::Let { name, value, body } => {
            let rb = xf(*body, union(owned, seq![name@]));
            wrap(
                intersect(intersect(fv(*value), remove(fv(*body), name@)), owned),
                Term::Let {
                    name: name@,
                    value: Box::new(xf(*value, owned)),
                    body: Box::new(
                        if uc(name@, *body) == 0 {
                            Term::Drop { var: name@, body: Box::new(rb) }
                        } else {
                            rb
                        },
                    ),
                },
                true,
            )
        },
        // The captures are the free variables of the lambda that the enclosing
        // scope owns; inside the body the captures and the parameter are owned.
        Expr::Lam { param, body } => {
            let caps = intersect(remove(fv(*body), param@), owned);
            let rb = xf(*body, union(caps, seq![param@]));
            Term::Lam {
                param: param@,
                captures: caps,
                body: Box::new(
                    if uc(param@, *body) == 0 {
                        Term::Drop { var: param@, body: Box::new(rb) }
                    } else {
                        rb
                    },
                ),
            }
        },
        // Owned variables needed by both the function and the argument are
        // duplicated before the call.
        Expr::App(f, x) => wrap(
            intersect(intersect(fv(*f), fv(*x)), owned),
            Term::App(Box::new(xf(*f, owned)), Box::new(xf(*x, owned))),
            true,
        ),
        // Only one branch executes.  Owned variables consumed by the condition
        // and needed by a branch are duplicated before the If; a variable live
        // in only one branch is dropped in the other.
        Expr::If { cond, then_, else_ } => {
            let fc = fv(*cond);
            let ft = fv(*then_);
            let fe = fv(*else_);
            let fb = union(ft, fe);
            let bo = remove_all(owned, remove_all(fc, fb));
            wrap(
                intersect(intersect(fc, fb), owned),
                Term::If {
                    cond: Box::new(xf(*cond, owned)),
                    then_: Box::new(wrap(intersect(remove_all(fe, ft), bo), xf(*then_, bo), false)),
                    else_: Box::new(wrap(intersect(remove_all(ft, fe), bo), xf(*else_, bo), false)),
                },
                true,
            )
        },
        // The scrutinee is consumed; a non-variable scrutinee is bound first,
        // after duplicating the owned variables that it and the arms both need.
        Expr::Match { scrutinee, arms } => match *scrutinee {
            Expr::Var(x) => xf_match(x@, arms@, owned),
            _ => wrap(
                intersect(intersect(fv(*scrutinee), fv_arms(arms@)), owned),
                Term::Let {
                    name: scrut_temp(arms@),
                    value: Box::new(xf(*scrutinee, owned)),
                    body: Box::new(
                        xf_match(scrut_temp(arms@), arms@, union(owned, seq![scrut_temp(arms@)])),
                    ),
                },
                true,
            ),
        },
        Expr::Con { tag, fields } => con_term(tag@, fields@, owned, None),
        Expr::Foreign { name, args } => wrap(
            arg_dups(args@, owned),
            Term::Foreign { name: name@, args: xf_list(args@, owned) },
            true,
        ),
    }
}

/// Transform of each expression of a sequence.
pub open spec fn xf_list(es: Seq<Expr>, owned: Seq<Seq<char>>) -> Seq<Term>
    decreases es, 0nat,
{
    Seq::new(
        es.len(),
        |i: int|
            if 0 <= i < es.len() {
                xf(es[i], owned)
            } else {
                Term::Var(Seq::empty())
            },
    )
}

/// Transform of a constructor with the given reuse token.
pub open spec fn con_term(
    tag: Seq<char>,
    fields: Seq<Expr>,
    owned: Seq<Seq<char>>,
    reuse: Option<Seq<char>>,
) -> Term
    decreases fields, 1nat,
{
    wrap(
        arg_dups(fields, owned),
        Term::Con { tag, fields: xf_list(fields, owned), reuse },
        true,
    )
}

/// Like `xf`, but a constructor receives the reuse token.
pub open spec fn xf_with_reuse(e: Expr, owned: Seq<Seq<char>>, tok: Option<Seq<char>>) -> Term
    decreases e, 1nat,
{
    match e {
        Expr::Con { tag, fields } => con_term(tag@, fields@, owned, tok),
        _ => xf(e, owned),
    }
}

/// Tag of the RC arm for a pattern.
pub open spec fn arm_tag_spec(p: Pattern) -> Seq<char> {
    match p {
        Pattern::Con { tag, .. } => tag@,
        Pattern::Var(x) => "_"@ + x@,
        Pattern::Wildcard => "_"@,
        Pattern::Lit(_) => "lit"@,
    }
}

/// Reuse token of an arm: only constructor patterns free a reusable cell.
pub open spec fn reuse_token_spec(s: Seq<char>, p: Pattern) -> Option<Seq<char>> {
    match p {
        Pattern::Con { .. } => Some("reuse_"@ + s),
        _ => None,
    }
}

/// Whether the scrutinee stays owned inside the arms: the enclosing scope owns
/// it and some arm uses it (it is then duplicated before the match).
pub open spec fn scrut_kept(s: Seq<char>, arms: Seq<MatchArm>, owned: Seq<Seq<char>>) -> bool {
    owned.contains(s) && fv_arms(arms).contains(s)
}

/// The owned variables that reach the arms: the scrutinee only when it is kept.
pub open spec fn arms_live(s: Seq<char>, arms: Seq<MatchArm>, owned: Seq<Seq<char>>) -> Seq<
    Seq<char>,
> {
    if scrut_kept(s, arms, owned) {
        owned
    } else {
        remove(owned, s)
    }
}

/// Variables dropped on entry to arm `i`: those reaching the arms that some
/// arm uses but arm `i` does not.
pub open spec fn arm_drops(s: Seq<char>, arms: Seq<MatchArm>, i: int, owned: Seq<Seq<char>>) -> Seq<
    Seq<char>,
> {
    remove_all(intersect(fv_arms(arms), arms_live(s, arms, owned)), fv_arm(arms[i]))
}

/// Variables bound by an arm's pattern that its body does not use.
pub open spec fn unused_bindings(arm: MatchArm) -> Seq<Seq<char>> {
    remove_all(pat_var_set(arm.pat), fv(arm.body))
}

/// Bindings of arm `i` that rebind a variable reaching the arms that another
/// arm uses: the arm must still drop the outer variable, so such a binding is
/// renamed and bound again to its own name after the drops.
pub open spec fn clashes(s: Seq<char>, arms: Seq<MatchArm>, i: int, owned: Seq<Seq<char>>) -> Seq<
    Seq<char>,
> {
    intersect(pat_var_set(arms[i].pat), intersect(fv_arms(arms), arms_live(s, arms, owned)))
}

/// The suffix that renames the clashing bindings of arm `i`: longer than any
/// variable reaching the arms, any binding of the arm and any name free in its
/// body.
pub open spec fn arm_suffix(s: Seq<char>, arms: Seq<MatchArm>, i: int, owned: Seq<Seq<char>>) -> Seq<
    char,
> {
    fresh_suffix(arms_live(s, arms, owned) + pat_vars(arms[i].pat) + fv(arms[i].body))
}

/// `b` with `sfx` appended when it is one of `cs`.
pub open spec fn renamed(b: Seq<char>, cs: Seq<Seq<char>>, sfx: Seq<char>) -> Seq<char> {
    if cs.contains(b) {
        b + sfx
    } else {
        b
    }
}

/// `t` with each name `c` of `cs` bound by a `let` to the renamed `c + sfx`;
/// the last name outermost.
pub open spec fn rebind(cs: Seq<Seq<char>>, sfx: Seq<char>, t: Term) -> Term
    decreases cs.len(),
{
    if cs.len() == 0 {
        t
    } else {
        Term::Let {
            name: cs.last(),
            value: Box::new(Term::Var(cs.last() + sfx)),
            body: Box::new(rebind(cs.drop_last(), sfx, t)),
        }
    }
}

/// Transform of a match on the variable `s`.
pub open spec fn xf_match(s: Seq<char>, arms: Seq<MatchArm>, owned: Seq<Seq<char>>) -> Term
    decreases arms, 3nat,
{
    wrap(
        if scrut_kept(s, arms, owned) {
            seq![s]
        } else {
            Seq::empty()
        },
        Term::Match { scrutinee: s, arms: xf_arms(s, arms, owned) },
        true,
    )
}

/// Transform of each arm of a match on `s`.
pub open spec fn xf_arms(s: Seq<char>, arms: Seq<MatchArm>, owned: Seq<Seq<char>>) -> Seq<ArmTerm>
    decreases arms, 2nat,
{
    Seq::new(
        arms.len(),
        |i: int|
            if 0 <= i < arms.len() {
                xf_arm(s, arms, i, owned)
            } else {
                ArmTerm {
                    tag: Seq::empty(),
                    bindings: Seq::empty(),
                    reuse_token: None,
                    body: Term::Var(Seq::empty()),
                }
            },
    )
}

/// Transform of arm `i` of a match on `s`: the pattern's bindings are owned
/// in the body; on entry the arm drops the variables that only other arms
/// use, binds its renamed clashing bindings again, then drops the bindings
/// that its body does not use.
pub open spec fn xf_arm(s: Seq<char>, arms: Seq<MatchArm>, i: int, owned: Seq<Seq<char>>) -> ArmTerm
    recommends
        0 <= i < arms.len(),
    decreases arms, 1nat,
{
    if 0 <= i < arms.len() {
        let arm = arms[i];
        let bs = pat_vars(arm.pat);
        let tok = reuse_token_spec(s, arm.pat);
        let ao = union(arms_live(s, arms, owned), bs);
        let body = wrap(unused_bindings(arm), xf_with_reuse(arm.body, ao, tok), false);
        let cs = clashes(s, arms, i, owned);
        let sfx = arm_suffix(s, arms, i, owned);
        ArmTerm {
            tag: arm_tag_spec(arm.pat),
            bindings: bs.map_values(|b: Seq<char>| renamed(b, cs, sfx)),
            reuse_token: tok,
            body: wrap(arm_drops(s, arms, i, owned), rebind(cs, sfx, body), false),
        }
    } else {
        ArmTerm {
            tag: Seq::empty(),
            bindings: Seq::empty(),
            reuse_token: None,
            body: Term::Var(Seq::empty()),
        }
    }
}


// ── Entry point ──────────────────────────────────────────────────────────────

/// Transform a top-level expression (no variables are owned at the top level).
pub fn transform(expr: &Expr) -> (r: rc::Expr)
    requires
        size(*expr) <= usize::MAX,
    ensures
        r@ == xf(*expr, Seq::empty()),
{
    let owned: Vec<String> = Vec::new();
    assert(names(owned@) =~= Seq::<Seq<char>>::empty());
    xform(expr, &owned)
}

/// Compiles each top-level function: RC insertion, then simplification.
pub fn compile_fns(functions: &[(&str, Expr)]) -> (r: Vec<(String, rc::Expr)>)
    requires
        forall|i: int| 0 <= i < functions@.len() ==> size(#[trigger] functions@[i].1) <= usize::MAX,
    ensures
        r@.len() == functions@.len(),
        forall|i: int|
            0 <= i < functions@.len() ==> (#[trigger] r@[i]).0@ == functions@[i].0@ && r@[i].1@
                == crate::simplify::simplify_spec(xf(functions@[i].1, Seq::empty())),
{
    let mut out: Vec<(String, rc::Expr)> = Vec::new();
    let mut i: usize = 0;
    while i < functions.len()
        invariant
            0 <= i <= functions@.len(),
            forall|j: int| 0 <= j < functions@.len() ==> size(#[trigger] functions@[j].1) <= usize::MAX,
            out@.len() == i,
            forall|j: int|
                0 <= j < i ==> (#[trigger] out@[j]).0@ == functions@[j].0@ && out@[j].1@
                    == crate::simplify::simplify_spec(xf(functions@[j].1, Seq::empty())),
        decreases functions@.len() - i,
    {
        let rc_expr = transform(&functions[i].1);
        let simplified = crate::simplify::simplify(rc_expr);
        out.push((String::from_str(functions[i].0), simplified));
        i += 1;
    }
    out
}

// ── Core recursive transform ─────────────────────────────────────────────────

fn xform(expr: &Expr, owned: &Vec<String>) -> (r: rc::Expr)
    requires
        size(*expr) <= usize::MAX,
    ensures
        r@ == xf(*expr, names(owned@)),
    decreases expr, 0nat,
{
    match expr {
        Expr::Lit(l) => {
            let r = rc::Expr::Lit(l.copy());
            assert(r@ == xf(*expr, names(owned@)));
            r
        },
        Expr::Var(x) => {
            let r = rc::Expr::Var(x.clone());
            assert(r@ == xf(*expr, names(owned@)));
            r
        },
        Expr::Let { name, value, body } => {
            let rc_value = xform(value, owned);
            let mut body_owned = copy_names(owned);
            insert_name(&mut body_owned, name.clone());
            let rc_body = xform(body, &body_owned);
            proof {
                lemma_uc_le_size(name@, **body);
            }
            let rc_body = if use_count(name.as_str(), body) == 0 {
                rc::Expr::Drop { var: name.clone(), body: Box::new(rc_body) }
            } else {
                rc_body
            };
            let l = rc::Expr::Let { name: name.clone(), value: Box::new(rc_value), body: Box::new(rc_body) };
            assert(names(body_owned@) == union(names(owned@), seq![name@]));
            assert(rc_value@ == xf(**value, names(owned@)));
            let ghost rb = xf(**body, union(names(owned@), seq![name@]));
            assert(rc_body@ == (if uc(name@, **body) == 0 { Term::Drop { var: name@, body: Box::new(rb) } } else { rb }));
            assert(l@ == Term::Let { name: name@, value: Box::new(xf(**value, names(owned@))), body: Box::new(if uc(name@, **body) == 0 { Term::Drop { var: name@, body: Box::new(rb) } } else { rb }) });
            // Owned variables needed by both the value and the body.
            let value_fvs = free_vars(value);
            let body_fvs = free_vars(body);
            let body_rest = remove_name(&body_fvs, name);
            let shared = intersect_names(&value_fvs, &body_rest);
            let dups = intersect_names(&shared, owned);
            let r = wrap_rc(&dups, l, true);
            assert(r@ == xf(*expr, names(owned@)));
            r
        },
        Expr::Lam { param, body } => {
            let body_fvs = free_vars(body);
            let lam_fvs = remove_name(&body_fvs, param);
            let captures = intersect_names(&lam_fvs, owned);
            let mut body_owned = copy_names(&captures);
            insert_name(&mut body_owned, param.clone());
            let rc_body = xform(body, &body_owned);
            proof {
                lemma_uc_le_size(param@, **body);
            }
            let rc_body = if use_count(param.as_str(), body) == 0 {
                rc::Expr::Drop { var: param.clone(), body: Box::new(rc_body) }
            } else {
                rc_body
            };
            let ghost caps = intersect(remove(fv(**body), param@), names(owned@));
            assert(names(captures@) == caps);
            let ghost rb = xf(**body, union(caps, seq![param@]));
            assert(rc_body@ == (if uc(param@, **body) == 0 { Term::Drop { var: param@, body: Box::new(rb) } } else { rb }));
            let r = rc::Expr::Lam { param: param.clone(), captures, body: Box::new(rc_body) };
            assert(r@ == Term::Lam { param: param@, captures: caps, body: Box::new(if uc(param@, **body) == 0 { Term::Drop { var: param@, body: Box::new(rb) } } else { rb }) });
            assert(r@ == xf(*expr, names(owned@)));
            r
        },
        Expr::App(f, arg) => {
            let fvs_f = free_vars(f);
            let fvs_arg = free_vars(arg);
            // Variables needed by both sub-expressions must be duplicated
            // before either sub-expression consumes them.
            let shared = intersect_names(&fvs_f, &fvs_arg);
            let shared_owned = intersect_names(&shared, owned);
            let rc_f = xform(f, owned);
            let rc_arg = xform(arg, owned);
            let r = wrap_rc(&shared_owned, rc::Expr::App(Box::new(rc_f), Box::new(rc_arg)), true);
            assert(r@ == xf(*expr, names(owned@)));
            r
        },
        Expr::If { cond, then_, else_ } => {
            let fvs_cond = free_vars(cond);
            let fvs_then = free_vars(then_);
            let fvs_else = free_vars(else_);
            let mut fvs_branches = copy_names(&fvs_then);
            extend_union(&mut fvs_branches, &fvs_else);
            // Variables consumed solely by the condition are not alive in the branches.
            let cond_only = remove_names(&fvs_cond, &fvs_branches);
            let branch_owned = remove_names(owned, &cond_only);
            // Owned variables consumed by the condition and needed by a branch.
            let cond_and_branch = intersect_names(&fvs_cond, &fvs_branches);
            let dups = intersect_names(&cond_and_branch, owned);
            // A variable alive in only one branch is dropped in the other.
            let else_only = remove_names(&fvs_else, &fvs_then);
            let then_only = remove_names(&fvs_then, &fvs_else);
            let drop_in_then = intersect_names(&else_only, &branch_owned);
            let drop_in_else = intersect_names(&then_only, &branch_owned);
            let rc_cond = xform(cond, owned);
            let rc_then = xform(then_, &branch_owned);
            let rc_else = xform(else_, &branch_owned);
            let rc_then = wrap_rc(&drop_in_then, rc_then, false);
            let rc_else = wrap_rc(&drop_in_else, rc_else, false);
            let result = rc::Expr::If {
                cond: Box::new(rc_cond),
                then_: Box::new(rc_then),
                else_: Box::new(rc_else),
            };
            let r = wrap_rc(&dups, result, true);
            assert(r@ == xf(*expr, names(owned@)));
            r
        },
        Expr::Match { scrutinee, arms } => {
            match &**scrutinee {
                Expr::Var(x) => {
                    let r = xform_match(x, arms, owned);
                    assert(r@ == xf(*expr, names(owned@)));
                    r
                },
                _ => {
                    // Bind the scrutinee to a temporary variable that the arms do not use.
                    let arms_fvs = free_vars_arms(arms);
                    let base = String::from_str("__scrut");
                    let tmp = if contains_name(&arms_fvs, &base) {
                        let mut t = base.clone();
                        let sfx = fresh_suffix_exec(&arms_fvs);
                        t.append(sfx.as_str());
                        t
                    } else {
                        base
                    };
                    assert(tmp@ == scrut_temp(arms@));
                    let rc_scrut = xform(scrutinee, owned);
                    let mut tmp_owned = copy_names(owned);
                    insert_name(&mut tmp_owned, tmp.clone());
                    let rc_match = xform_match(&tmp, arms, &tmp_owned);
                    let l = rc::Expr::Let { name: tmp, value: Box::new(rc_scrut), body: Box::new(rc_match) };
                    // Owned variables needed by both the scrutinee and the arms.
                    let scrut_fvs = free_vars(scrutinee);
                    let shared = intersect_names(&scrut_fvs, &arms_fvs);
                    let dups = intersect_names(&shared, owned);
                    let r = wrap_rc(&dups, l, true);
                    assert(r@ == xf(*expr, names(owned@)));
                    r
                },
            }
        },
        Expr::Con { tag, fields } => {
            let r = con_rc(tag, fields, owned, None);
            assert(r@ == xf(*expr, names(owned@)));
            r
        },
        Expr::Foreign { name, args } => {
            let dups = arg_dup_list(args, owned);
            let rc_args = xform_list(args, owned);
            let result = rc::Expr::Foreign { name: name.clone(), args: rc_args };
            proof {
                if let Term::Foreign { args: a, .. } = result@ {
                    assert(a =~= xf_list(args@, names(owned@)));
                }
            }
            let r = wrap_rc(&dups, result, true);
            assert(r@ == xf(*expr, names(owned@)));
            r
        },
    }
}

fn xform_list(es: &Vec<Expr>, owned: &Vec<String>) -> (r: Vec<rc::Expr>)
    requires
        size_list(es@) <= usize::MAX,
    ensures
        r@.len() == es@.len(),
        forall|i: int| 0 <= i < es@.len() ==> r@[i]@ == xf(es@[i], names(owned@)),
    decreases es, 0nat,
{
    let mut out: Vec<rc::Expr> = Vec::new();
    let mut i: usize = 0;
    while i < es.len()
        invariant
            0 <= i <= es.len(),
            size_list(es@) <= usize::MAX,
            out@.len() == i,
            forall|j: int| 0 <= j < i ==> out@[j]@ == xf(es@[j], names(owned@)),
        decreases es.len() - i,
    {
        proof {
            lemma_size_list_elem(es@, i as int);
        }
        let t = xform(&es[i], owned);
        out.push(t);
        i += 1;
    }
    out
}

/// Constructor: fields are transformed; shared owned variables are duplicated.
fn con_rc(tag: &String, fields: &Vec<Expr>, owned: &Vec<String>, reuse: Option<String>) -> (r:
    rc::Expr)
    requires
        size_list(fields@) <= usize::MAX,
    ensures
        r@ == con_term(tag@, fields@, names(owned@), rc::opt_chars(reuse)),
    decreases fields, 1nat,
{
    let dups = arg_dup_list(fields, owned);
    let rc_fields = xform_list(fields, owned);
    let result = rc::Expr::Con { tag: tag.clone(), fields: rc_fields, reuse };
    proof {
        if let Term::Con { fields: a, .. } = result@ {
            assert(a =~= xf_list(fields@, names(owned@)));
        }
    }
    wrap_rc(&dups, result, true)
}

/// Like `xform`, but if the expression is a `Con` and we have a reuse token,
/// attach the token to that Con so the codegen can emit `reuse_con(...)`.
fn xform_with_reuse(expr: &Expr, owned: &Vec<String>, reuse_token: Option<String>) -> (r: rc::Expr)
    requires
        size(*expr) <= usize::MAX,
    ensures
        r@ == xf_with_reuse(*expr, names(owned@), rc::opt_chars(reuse_token)),
    decreases expr, 1nat,
{
    match expr {
        Expr::Con { tag, fields } => con_rc(tag, fields, owned, reuse_token),
        _ => xform(expr, owned),
    }
}

// ── Match helper ─────────────────────────────────────────────────────────────

fn xform_match(scrutinee: &String, arms: &Vec<MatchArm>, owned: &Vec<String>) -> (r: rc::Expr)
    requires
        size_arms(arms@) <= usize::MAX,
    ensures
        r@ == xf_match(scrutinee@, arms@, names(owned@)),
    decreases arms, 2nat,
{
    // Free variables per arm (excluding the arm's own bindings), and of all arms.
    let mut arm_fvs: Vec<Vec<String>> = Vec::new();
    let mut j: usize = 0;
    while j < arms.len()
        invariant
            0 <= j <= arms.len(),
            arm_fvs@.len() == j,
            forall|k: int| 0 <= k < j ==> names(#[trigger] arm_fvs@[k]@) == fv_arm(arms@[k]),
        decreases arms.len() - j,
    {
        arm_fvs.push(free_vars_arm(&arms[j]));
        j += 1;
    }
    let all_fvs = free_vars_arms(arms);
    // The scrutinee stays owned in the arms when one of them uses it.
    let kept = contains_name(owned, scrutinee) && contains_name(&all_fvs, scrutinee);
    let live = if kept {
        copy_names(owned)
    } else {
        remove_name(owned, scrutinee)
    };
    assert(names(live@) == arms_live(scrutinee@, arms@, names(owned@)));
    let used = intersect_names(&all_fvs, &live);
    let mut rc_arms: Vec<rc::MatchArm> = Vec::new();
    let mut i: usize = 0;
    while i < arms.len()
        invariant
            0 <= i <= arms.len(),
            size_arms(arms@) <= usize::MAX,
            arm_fvs@.len() == arms@.len(),
            forall|k: int|
                0 <= k < arms@.len() ==> names(#[trigger] arm_fvs@[k]@) == fv_arm(arms@[k]),
            names(live@) == arms_live(scrutinee@, arms@, names(owned@)),
            names(used@) == intersect(fv_arms(arms@), arms_live(scrutinee@, arms@, names(owned@))),
            rc_arms@.len() == i,
            forall|k: int|
                0 <= k < i ==> #[trigger] rc_arms@[k]@ == xf_arm(
                    scrutinee@,
                    arms@,
                    k,
                    names(owned@),
                ),
        decreases arms.len() - i,
    {
        let a = xform_arm(scrutinee, arms, i, &live, &used, &arm_fvs[i]);
        rc_arms.push(a);
        i += 1;
    }
    let result = rc::Expr::Match { scrutinee: scrutinee.clone(), arms: rc_arms };
    proof {
        if let Term::Match { arms: a, .. } = result@ {
            assert forall|k: int| 0 <= k < a.len() implies a[k] == xf_arms(
                scrutinee@,
                arms@,
                names(owned@),
            )[k] by {
                assert(rc_arms@[k]@ == xf_arm(scrutinee@, arms@, k, names(owned@)));
            }
            assert(a =~= xf_arms(scrutinee@, arms@, names(owned@)));
        }
    }
    let mut dup: Vec<String> = Vec::new();
    if kept {
        dup.push(scrutinee.clone());
    }
    assert(names(dup@) =~= (if kept { seq![scrutinee@] } else { Seq::<Seq<char>>::empty() }));
    wrap_rc(&dup, result, true)
}

fn xform_arm(
    scrutinee: &String,
    arms: &Vec<MatchArm>,
    i: usize,
    live: &Vec<String>,
    used: &Vec<String>,
    this_fvs: &Vec<String>,
) -> (r: rc::MatchArm)
    requires
        i < arms@.len(),
        size_arms(arms@) <= usize::MAX,
        names(this_fvs@) == fv_arm(arms@[i as int]),
        names(used@) == intersect(fv_arms(arms@), names(live@)),
    ensures
        forall|owned: Seq<Seq<char>>|
            names(live@) == arms_live(scrutinee@, arms@, owned) ==> r@ == xf_arm(
                scrutinee@,
                arms@,
                i as int,
                owned,
            ),
    decreases arms, 1nat,
{
    let arm = &arms[i];
    let bindings = pat_bindings_ordered(&arm.pat);
    // The reuse token names the scrutinee's allocation.
    let reuse_token = reuse_token_for(scrutinee, &arm.pat);
    let mut arm_owned = copy_names(live);
    extend_union(&mut arm_owned, &bindings);
    proof {
        lemma_size_arms_elem(arms@, i as int);
    }
    let tok2 = match &reuse_token {
        Some(t) => Some(t.clone()),
        None => None,
    };
    let rc_body = xform_with_reuse(&arm.body, &arm_owned, tok2);
    // Drop the bindings that the body does not use.
    let bound = pat_bindings(&arm.pat);
    let body_fvs = free_vars(&arm.body);
    let unused = remove_names(&bound, &body_fvs);
    let rc_body = wrap_rc(&unused, rc_body, false);
    // Rename the bindings that rebind a variable another arm uses, and bind
    // them again to their own names after the drops below.
    let clash = intersect_names(&bound, used);
    let mut avoid = copy_names(live);
    append_names(&mut avoid, &bindings);
    append_names(&mut avoid, &body_fvs);
    let sfx = fresh_suffix_exec(&avoid);
    let rc_body = rebind_rc(&clash, &sfx, rc_body);
    let mut new_bindings: Vec<String> = Vec::new();
    let mut k: usize = 0;
    while k < bindings.len()
        invariant
            0 <= k <= bindings.len(),
            new_bindings@.len() == k,
            forall|j: int|
                0 <= j < k ==> (#[trigger] new_bindings@[j])@ == renamed(
                    bindings@[j]@,
                    names(clash@),
                    sfx@,
                ),
        decreases bindings.len() - k,
    {
        let b = if contains_name(&clash, &bindings[k]) {
            let mut t = bindings[k].clone();
            t.append(sfx.as_str());
            t
        } else {
            bindings[k].clone()
        };
        new_bindings.push(b);
        k += 1;
    }
    assert(names(new_bindings@) =~= names(bindings@).map_values(
        |b: Seq<char>| renamed(b, names(clash@), sfx@),
    ));
    // Drop the variables that only other arms use.
    let drops = remove_names(used, this_fvs);
    let rc_body = wrap_rc(&drops, rc_body, false);
    let tag = arm_tag(&arm.pat);
    rc::MatchArm { tag, bindings: new_bindings, reuse_token, body: rc_body }
}

/// Appends every name of `b` to `out`.
fn append_names(out: &mut Vec<String>, b: &Vec<String>)
    ensures
        names(final(out)@) == names(old(out)@) + names(b@),
{
    let ghost start = names(out@);
    let mut i: usize = 0;
    while i < b.len()
        invariant
            0 <= i <= b.len(),
            names(out@) == start + names(b@).take(i as int),
        decreases b.len() - i,
    {
        let ghost prev = out@;
        out.push(b[i].clone());
        assert(names(out@) =~= names(prev).push(b@[i as int]@));
        assert(names(b@).take(i + 1) =~= names(b@).take(i as int).push(b@[i as int]@));
        assert(names(out@) =~= start + names(b@).take(i + 1));
        i += 1;
    }
    assert(names(b@).take(b.len() as int) =~= names(b@));
}

/// `fresh_suffix` of the names of `vs`.
fn fresh_suffix_exec(vs: &Vec<String>) -> (r: String)
    ensures
        r@ == fresh_suffix(names(vs@)),
{
    let mut m: usize = 0;
    let mut i: usize = 0;
    while i < vs.len()
        invariant
            0 <= i <= vs.len(),
            m == max_len(names(vs@).take(i as int)),
        decreases vs.len() - i,
    {
        assert(names(vs@).take(i + 1).drop_last() =~= names(vs@).take(i as int));
        assert(names(vs@).take(i + 1).last() == vs@[i as int]@);
        let l = vs[i].as_str().unicode_len();
        if l > m {
            m = l;
        }
        i += 1;
    }
    assert(names(vs@).take(vs.len() as int) =~= names(vs@));
    let mut r = String::from_str("_");
    push_rep(&mut r, "_", m);
    r
}

/// `rebind` over names given as strings.
fn rebind_rc(cs: &Vec<String>, sfx: &String, t: rc::Expr) -> (r: rc::Expr)
    ensures
        r@ == rebind(names(cs@), sfx@, t@),
{
    let ghost t0 = t@;
    let mut result = t;
    let mut i: usize = 0;
    while i < cs.len()
        invariant
            0 <= i <= cs.len(),
            result@ == rebind(names(cs@).take(i as int), sfx@, t0),
        decreases cs.len() - i,
    {
        assert(names(cs@).take(i + 1).drop_last() =~= names(cs@).take(i as int));
        assert(names(cs@).take(i + 1).last() == cs@[i as int]@);
        let mut v = cs[i].clone();
        v.append(sfx.as_str());
        let ghost prev = result@;
        let value = rc::Expr::Var(v);
        assert(value@ == Term::Var(cs@[i as int]@ + sfx@));
        result = rc::Expr::Let { name: cs[i].clone(), value: Box::new(value), body: Box::new(result) };
        assert(result@ == Term::Let {
            name: cs@[i as int]@,
            value: Box::new(Term::Var(cs@[i as int]@ + sfx@)),
            body: Box::new(prev),
        });
        i += 1;
    }
    assert(names(cs@).take(cs.len() as int) =~= names(cs@));
    result
}

// ── Small utilities ──────────────────────────────────────────────────────────

/// Wraps `t` in a Dup (or Drop) for each name of `vars`, the last outermost.
fn wrap_rc(vars: &Vec<String>, t: rc::Expr, dup: bool) -> (r: rc::Expr)
    ensures
        r@ == wrap(names(vars@), t@, dup),
{
    let ghost t0 = t@;
    let mut result = t;
    let mut i: usize = 0;
    while i < vars.len()
        invariant
            0 <= i <= vars.len(),
            result@ == wrap(names(vars@).take(i as int), t0, dup),
        decreases vars.len() - i,
    {
        assert(names(vars@).take(i + 1).drop_last() =~= names(vars@).take(i as int));
        assert(names(vars@).take(i + 1).last() == vars@[i as int]@);
        if dup {
            result = rc::Expr::Dup { var: vars[i].clone(), body: Box::new(result) };
        } else {
            result = rc::Expr::Drop { var: vars[i].clone(), body: Box::new(result) };
        }
        i += 1;
    }
    assert(names(vars@).take(vars.len() as int) =~= names(vars@));
    result
}

/// Number of expressions of `es` in which `v` is free.
fn count_args_using(v: &String, es: &Vec<Expr>) -> (r: usize)
    ensures
        r == arg_count(v@, es@),
{
    let mut n: usize = 0;
    let mut i: usize = 0;
    while i < es.len()
        invariant
            0 <= i <= es.len(),
            n <= i,
            n == arg_count(v@, es@.take(i as int)),
        decreases es.len() - i,
    {
        assert(es@.take(i + 1).drop_last() =~= es@.take(i as int));
        let fvs = free_vars(&es[i]);
        if contains_name(&fvs, v) {
            n += 1;
        }
        i += 1;
    }
    assert(es@.take(es.len() as int) =~= es@);
    n
}

/// The Dups in front of a constructor or foreign call.
fn arg_dup_list(es: &Vec<Expr>, owned: &Vec<String>) -> (r: Vec<String>)
    ensures
        names(r@) == arg_dups(es@, names(owned@)),
{
    let all = free_vars_list(es);
    let cand = intersect_names(&all, owned);
    let mut out: Vec<String> = Vec::new();
    let mut i: usize = 0;
    while i < cand.len()
        invariant
            0 <= i <= cand.len(),
            names(out@) == extra_uses(names(cand@).take(i as int), es@),
        decreases cand.len() - i,
    {
        assert(names(cand@).take(i + 1).drop_last() =~= names(cand@).take(i as int));
        assert(names(cand@).take(i + 1).last() == cand@[i as int]@);
        let n = count_args_using(&cand[i], es);
        let ghost base = names(out@);
        if n > 0 {
            let mut k: usize = 0;
            while k < n - 1
                invariant
                    0 <= k <= n - 1,
                    i < cand@.len(),
                    names(out@) == base + repeat(cand@[i as int]@, k as nat),
                decreases n - 1 - k,
            {
                let ghost o0 = out@;
                out.push(cand[i].clone());
                assert(names(out@) =~= names(o0).push(cand@[i as int]@));
                assert(base + repeat(cand@[i as int]@, (k + 1) as nat) =~= (base + repeat(
                    cand@[i as int]@,
                    k as nat,
                )).push(cand@[i as int]@));
                k += 1;
            }
        } else {
            assert(base + repeat(cand@[i as int]@, 0) =~= base);
        }
        i += 1;
    }
    assert(names(cand@).take(cand.len() as int) =~= names(cand@));
    out
}

fn arm_tag(pat: &Pattern) -> (r: String)
    ensures
        r@ == arm_tag_spec(*pat),
{
    match pat {
        Pattern::Con { tag, .. } => tag.clone(),
        Pattern::Var(x) => {
            let mut t = String::from_str("_");
            t.append(x.as_str());
            t
        },
        Pattern::Wildcard => String::from_str("_"),
        Pattern::Lit(_) => String::from_str("lit"),
    }
}

/// Returns a reuse token name when the pattern is a constructor match
/// (i.e., the scrutinee's allocation *could* be recycled).
fn reuse_token_for(scrutinee: &String, pat: &Pattern) -> (r: Option<String>)
    ensures
        rc::opt_chars(r) == reuse_token_spec(scrutinee@, *pat),
{
    match pat {
        Pattern::Con { .. } => {
            let mut t = String::from_str("reuse_");
            t.append(scrutinee.as_str());
            Some(t)
        },
        _ => None,  // wildcard / literal / var — no constructor to reuse
    }
}

} // verus!
